//! The engine's general laws, stated and proved against the resolution
//! model that `build` is verified to implement.

use vstd::prelude::*;

use crate::decimal::lemma_int_text_round_trip;
use crate::engine::build_model;
use crate::engine::parse_value;
use crate::engine::persist_fields_model;
use crate::engine::prepend_entry;
use crate::engine::resolve_fields_model;
use crate::engine::resolve_scalar;
use crate::engine::value_text;
use crate::engine::Resolution;
use crate::errors::ErrorModel;
use crate::schema::field_key;
use crate::schema::nested_prefix;
use crate::schema::raw_name;
use crate::schema::ConfigValue;
use crate::schema::FieldDescriptor;
use crate::schema::FieldRule;
use crate::schema::ScalarType;
use crate::schema::ValueModel;
use crate::source::model_get;
use crate::source::model_set;
use crate::source::SourceModel;

verus! {

/// The precedence chain is fixed and total: a value present in the
/// primary store is chosen over one in the environment, which is chosen
/// over the literal default, which is chosen over the default provider;
/// later steps are not attempted once a value is found.
pub proof fn lemma_precedence(
    ty: ScalarType,
    rename: Option<String>,
    default_text: Option<String>,
    provider: Option<ConfigValue>,
    ident: Seq<char>,
    src: SourceModel,
    prefix: Seq<char>,
    env: Map<Seq<char>, Seq<char>>,
)
    requires
        src.ok,
    ensures
        ({
            let key = field_key(prefix, ident, rename);
            let r = resolve_scalar(ty, rename, default_text, provider, ident, src, prefix, env);
            &&& src.contents.dom().contains(key) ==> r == match parse_value(
                ty,
                src.contents[key],
            ) {
                Some(vm) => Ok::<ValueModel, ErrorModel>(vm),
                None => Err::<ValueModel, ErrorModel>(ErrorModel::Parsing(ident)),
            }
            &&& !src.contents.dom().contains(key) && env.dom().contains(key) ==> r == match
                parse_value(ty, env[key]) {
                Some(vm) => Ok::<ValueModel, ErrorModel>(vm),
                None => Err::<ValueModel, ErrorModel>(ErrorModel::Parsing(ident)),
            }
            &&& !src.contents.dom().contains(key) && !env.dom().contains(key) && (default_text
                matches Some(d)) ==> r == match parse_value(
                ty,
                match default_text {
                    Some(d) => d@,
                    None => Seq::empty(),
                },
            ) {
                Some(vm) => Ok::<ValueModel, ErrorModel>(vm),
                None => Err::<ValueModel, ErrorModel>(ErrorModel::Parsing(ident)),
            }
            &&& !src.contents.dom().contains(key) && !env.dom().contains(key) && default_text
                is None && (provider matches Some(p)) ==> r == Ok::<ValueModel, ErrorModel>(
                match provider {
                    Some(p) => p@,
                    None => ValueModel::Int(0),
                },
            )
            &&& !src.contents.dom().contains(key) && !env.dom().contains(key) && default_text
                is None && provider is None ==> r == Err::<ValueModel, ErrorModel>(
                ErrorModel::FieldNotSet(ident),
            )
        }),
{
}

/// Nested prefixing: for a nested field with no explicit prefix
/// directive, an inner field's full key is the outer prefix, then the
/// uppercased field identifier with its trailing underscore, then the
/// uppercased inner key; an explicit prefix directive replaces the
/// identifier-derived part with its own uppercased text.
pub proof fn lemma_nested_prefixing(
    outer: Seq<char>,
    ident: Seq<char>,
    po: Option<String>,
    inner_ident: Seq<char>,
    inner_rename: Option<String>,
)
    ensures
        po is None ==> field_key(nested_prefix(outer, ident, po), inner_ident, inner_rename)
            == outer + crate::text::upper_seq(ident + seq!['_']) + crate::text::upper_seq(
            raw_name(inner_ident, inner_rename),
        ),
        po matches Some(p) ==> field_key(nested_prefix(outer, ident, po), inner_ident, inner_rename)
            == outer + crate::text::upper_seq(p@) + crate::text::upper_seq(
            raw_name(inner_ident, inner_rename),
        ),
{
}

/// Skip bypass: a configuration of one skip field resolves to exactly
/// the caller-supplied argument for that field, whatever the store and
/// the environment hold, even under the same key; and nothing is read
/// from or written to the store.
pub proof fn lemma_skip_bypass(
    f: FieldDescriptor,
    rename: Option<String>,
    src: SourceModel,
    prefix: Seq<char>,
    env: Map<Seq<char>, Seq<char>>,
    skips: Map<Seq<char>, ValueModel>,
    alts: Map<Seq<char>, SourceModel>,
)
    requires
        f.rule == (FieldRule::Skip { rename }),
        skips.dom().contains(raw_name(f.ident@, rename)),
    ensures
        build_model(seq![f], src, prefix, env, skips, alts) == (Resolution {
            res: Ok::<Seq<(Seq<char>, ValueModel)>, ErrorModel>(
                seq![(f.ident@, skips[raw_name(f.ident@, rename)])],
            ),
            src,
            alts,
        }),
{
    let fs = seq![f];
    let rest = resolve_fields_model(fs, 1, src, prefix, env, skips, alts);
    assert(rest == (Resolution {
        res: Ok::<Seq<(Seq<char>, ValueModel)>, ErrorModel>(Seq::empty()),
        src,
        alts,
    }));
    let r = resolve_fields_model(fs, 0, src, prefix, env, skips, alts);
    assert(r.res == Ok::<Seq<(Seq<char>, ValueModel)>, ErrorModel>(
        seq![(f.ident@, skips[raw_name(f.ident@, rename)])] + Seq::empty(),
    ));
    assert(seq![(f.ident@, skips[raw_name(f.ident@, rename)])] + Seq::empty()
        =~= seq![(f.ident@, skips[raw_name(f.ident@, rename)])]);
    let es = r.res->Ok_0;
    assert(persist_fields_model(fs, 0, es, src, prefix) == persist_fields_model(
        fs,
        1,
        es,
        src,
        prefix,
    ));
}

/// Skip bypass at any position: whenever a build over any schema
/// resolves, each skip field's entry is exactly the caller-supplied
/// argument under its (possibly renamed) identifier, whatever the store
/// and the environment hold.
pub proof fn lemma_skip_entry(
    fs: Seq<FieldDescriptor>,
    i: int,
    src: SourceModel,
    prefix: Seq<char>,
    env: Map<Seq<char>, Seq<char>>,
    skips: Map<Seq<char>, ValueModel>,
    alts: Map<Seq<char>, SourceModel>,
)
    requires
        0 <= i < fs.len(),
        fs[i].rule is Skip,
    ensures
        ({
            let r = resolve_fields_model(fs, 0, src, prefix, env, skips, alts);
            let nm = raw_name(fs[i].ident@, fs[i].rule->Skip_rename);
            r.res is Ok ==> skips.dom().contains(nm) && r.res->Ok_0[i] == (
                fs[i].ident@,
                skips[nm],
            )
        }),
{
    lemma_skip_entry_from(fs, 0, i, src, prefix, env, skips, alts);
}

proof fn lemma_skip_entry_from(
    fs: Seq<FieldDescriptor>,
    k: int,
    i: int,
    src: SourceModel,
    prefix: Seq<char>,
    env: Map<Seq<char>, Seq<char>>,
    skips: Map<Seq<char>, ValueModel>,
    alts: Map<Seq<char>, SourceModel>,
)
    requires
        0 <= k <= i < fs.len(),
        fs[i].rule is Skip,
    ensures
        ({
            let r = resolve_fields_model(fs, k, src, prefix, env, skips, alts);
            let nm = raw_name(fs[i].ident@, fs[i].rule->Skip_rename);
            r.res is Ok ==> skips.dom().contains(nm) && r.res->Ok_0[i - k] == (
                fs[i].ident@,
                skips[nm],
            )
        }),
    decreases i - k,
{
    let r = resolve_fields_model(fs, k, src, prefix, env, skips, alts);
    let nm = raw_name(fs[i].ident@, fs[i].rule->Skip_rename);
    if r.res is Ok {
        let es = r.res->Ok_0;
        if k == i {
            match fs[k].rule {
                FieldRule::Skip { rename } => {
                    let rest = resolve_fields_model(fs, k + 1, src, prefix, env, skips, alts);
                    assert(r == prepend_entry(fs[k].ident@, skips[nm], rest));
                    assert(rest.res is Ok);
                    assert(es == seq![(fs[k].ident@, skips[nm])] + rest.res->Ok_0);
                    assert(es[0] == (fs[i].ident@, skips[nm]));
                },
                _ => {},
            }
        } else {
            match fs[k].rule {
                FieldRule::Skip { rename } => {
                    let rest = resolve_fields_model(fs, k + 1, src, prefix, env, skips, alts);
                    lemma_skip_entry_from(fs, k + 1, i, src, prefix, env, skips, alts);
                    crate::engine::lemma_resolve_entries_len(fs, k + 1, src, prefix, env, skips, alts);
                    assert(es == seq![(fs[k].ident@, skips[raw_name(fs[k].ident@, rename)])]
                        + rest.res->Ok_0);
                    assert(es[i - k] == rest.res->Ok_0[i - (k + 1)]);
                },
                FieldRule::Scalar { ty, rename, default_text, provider } => {
                    let rest = resolve_fields_model(fs, k + 1, src, prefix, env, skips, alts);
                    lemma_skip_entry_from(fs, k + 1, i, src, prefix, env, skips, alts);
                    crate::engine::lemma_resolve_entries_len(fs, k + 1, src, prefix, env, skips, alts);
                    let o = resolve_scalar(
                        ty,
                        rename,
                        default_text,
                        provider,
                        fs[k].ident@,
                        src,
                        prefix,
                        env,
                    );
                    assert(o is Ok && rest.res is Ok);
                    assert(es == seq![(fs[k].ident@, o->Ok_0)] + rest.res->Ok_0);
                    assert(es[i - k] == rest.res->Ok_0[i - (k + 1)]);
                },
                FieldRule::Nested { schema, prefix: po, data_src } => {
                    let np = nested_prefix(prefix, fs[k].ident@, po);
                    match data_src {
                        None => {
                            let sub = resolve_fields_model(
                                schema.fields@,
                                0,
                                src,
                                np,
                                env,
                                Map::empty(),
                                Map::empty(),
                            );
                            let per = crate::engine::persist_fields_model(
                                schema.fields@,
                                0,
                                sub.res->Ok_0,
                                sub.src,
                                np,
                            );
                            let rest = resolve_fields_model(
                                fs,
                                k + 1,
                                per.src,
                                prefix,
                                env,
                                skips,
                                alts,
                            );
                            lemma_skip_entry_from(fs, k + 1, i, per.src, prefix, env, skips, alts);
                            crate::engine::lemma_resolve_entries_len(fs, k + 1, per.src, prefix, env, skips, alts);
                            assert(sub.res is Ok && per.res is Ok && rest.res is Ok);
                            assert(es == seq![(fs[k].ident@, ValueModel::Nested(sub.res->Ok_0))]
                                + rest.res->Ok_0);
                            assert(es[i - k] == rest.res->Ok_0[i - (k + 1)]);
                        },
                        Some(dn) => {
                            let sub = resolve_fields_model(
                                schema.fields@,
                                0,
                                alts[dn@],
                                np,
                                env,
                                Map::empty(),
                                Map::empty(),
                            );
                            let per = crate::engine::persist_fields_model(
                                schema.fields@,
                                0,
                                sub.res->Ok_0,
                                sub.src,
                                np,
                            );
                            let alts2 = alts.insert(dn@, per.src);
                            let rest = resolve_fields_model(
                                fs,
                                k + 1,
                                src,
                                prefix,
                                env,
                                skips,
                                alts2,
                            );
                            lemma_skip_entry_from(fs, k + 1, i, src, prefix, env, skips, alts2);
                            crate::engine::lemma_resolve_entries_len(fs, k + 1, src, prefix, env, skips, alts2);
                            assert(alts.dom().contains(dn@) && sub.res is Ok && per.res is Ok
                                && rest.res is Ok);
                            assert(es == seq![(fs[k].ident@, ValueModel::Nested(sub.res->Ok_0))]
                                + rest.res->Ok_0);
                            assert(es[i - k] == rest.res->Ok_0[i - (k + 1)]);
                        },
                    }
                },
            }
        }
    }
}

/// Whether every field of the list is a scalar field.
pub open spec fn all_scalar(fs: Seq<FieldDescriptor>) -> bool {
    forall|j: int| 0 <= j < fs.len() ==> (#[trigger] fs[j].rule) is Scalar
}

/// The precedence-chain outcome of one scalar field.
pub open spec fn scalar_outcome(
    f: FieldDescriptor,
    src: SourceModel,
    prefix: Seq<char>,
    env: Map<Seq<char>, Seq<char>>,
) -> Result<ValueModel, ErrorModel> {
    match f.rule {
        FieldRule::Scalar { ty, rename, default_text, provider } => resolve_scalar(
            ty,
            rename,
            default_text,
            provider,
            f.ident@,
            src,
            prefix,
            env,
        ),
        _ => Err(ErrorModel::Datastore),
    }
}

/// Resolution of an all-scalar field list reads the store and writes
/// nothing: the source and the alternate sources come out as they went
/// in, whether resolution succeeds or fails.
pub proof fn lemma_scalar_resolve_preserves(
    fs: Seq<FieldDescriptor>,
    i: int,
    src: SourceModel,
    prefix: Seq<char>,
    env: Map<Seq<char>, Seq<char>>,
    skips: Map<Seq<char>, ValueModel>,
    alts: Map<Seq<char>, SourceModel>,
)
    requires
        all_scalar(fs),
    ensures
        resolve_fields_model(fs, i, src, prefix, env, skips, alts).src == src,
        resolve_fields_model(fs, i, src, prefix, env, skips, alts).alts == alts,
    decreases fs.len() - i,
{
    if 0 <= i < fs.len() {
        lemma_scalar_resolve_preserves(fs, i + 1, src, prefix, env, skips, alts);
    }
}

/// In an all-scalar list that resolves, each entry is its field's
/// precedence-chain value.
#[verifier::rlimit(100)]
#[verifier::spinoff_prover]
pub proof fn lemma_scalar_resolve_entries(
    fs: Seq<FieldDescriptor>,
    i: int,
    src: SourceModel,
    prefix: Seq<char>,
    env: Map<Seq<char>, Seq<char>>,
    skips: Map<Seq<char>, ValueModel>,
    alts: Map<Seq<char>, SourceModel>,
)
    requires
        all_scalar(fs),
        0 <= i <= fs.len(),
    ensures
        resolve_fields_model(fs, i, src, prefix, env, skips, alts).res is Ok
            ==> resolve_fields_model(fs, i, src, prefix, env, skips, alts).res->Ok_0.len()
            == fs.len() - i,
        resolve_fields_model(fs, i, src, prefix, env, skips, alts).res is Ok ==> forall|j: int|
            i <= j < fs.len()
                ==> #[trigger] resolve_fields_model(fs, i, src, prefix, env, skips, alts).res->Ok_0[
                j - i] == (fs[j].ident@, scalar_outcome(fs[j], src, prefix, env)->Ok_0)
                && scalar_outcome(fs[j], src, prefix, env) is Ok,
    decreases fs.len() - i,
{
    if i < fs.len() {
        lemma_scalar_resolve_entries(fs, i + 1, src, prefix, env, skips, alts);
        assert(fs[i].rule is Scalar);
        match fs[i].rule {
            FieldRule::Scalar { ty, rename, default_text, provider } => {
                let o = resolve_scalar(
                    ty,
                    rename,
                    default_text,
                    provider,
                    fs[i].ident@,
                    src,
                    prefix,
                    env,
                );
                assert(scalar_outcome(fs[i], src, prefix, env) == o);
                let rest = resolve_fields_model(fs, i + 1, src, prefix, env, skips, alts);
                let r = resolve_fields_model(fs, i, src, prefix, env, skips, alts);
                if o is Ok {
                    let vm = o->Ok_0;
                    assert(r == prepend_entry(fs[i].ident@, vm, rest));
                    if rest.res is Ok {
                        let res2 = rest.res->Ok_0;
                        let es = seq![(fs[i].ident@, vm)] + res2;
                        assert(r.res == Ok::<Seq<(Seq<char>, ValueModel)>, ErrorModel>(es));
                        assert forall|j: int| i <= j < fs.len() implies #[trigger] es[j - i] == (
                            fs[j].ident@,
                            scalar_outcome(fs[j], src, prefix, env)->Ok_0,
                        ) && scalar_outcome(fs[j], src, prefix, env) is Ok by {
                            if j > i {
                                assert(es[j - i] == res2[j - (i + 1)]);
                            }
                        }
                    }
                }
            },

            _ => {},
        }
    }
}

/// Whether a value supports the textual coercion of the given
/// capability: text for text fields, an integer in the signed 64-bit
/// range for integer fields.
pub open spec fn scalar_value_typed(ty: ScalarType, vm: ValueModel) -> bool {
    match ty {
        ScalarType::Text => vm is Text,
        ScalarType::Int => vm matches ValueModel::Int(n) && i64::MIN <= n <= i64::MAX,
    }
}

/// Whether every provider value in an all-scalar list fits its field's
/// capability.
pub open spec fn providers_typed(fs: Seq<FieldDescriptor>) -> bool {
    forall|j: int|
        0 <= j < fs.len() ==> match (#[trigger] fs[j].rule) {
            FieldRule::Scalar { ty, provider, .. } => match provider {
                Some(p) => scalar_value_typed(ty, p@),
                None => true,
            },
            _ => true,
        }
}

/// The full key of a scalar field.
pub open spec fn scalar_key(f: FieldDescriptor, prefix: Seq<char>) -> Seq<char> {
    match f.rule {
        FieldRule::Scalar { rename, .. } => field_key(prefix, f.ident@, rename),
        _ => prefix,
    }
}

/// Whether the scalar fields in `[i, len)` carry pairwise distinct keys.
pub open spec fn distinct_keys(fs: Seq<FieldDescriptor>, i: int, prefix: Seq<char>) -> bool {
    forall|j: int, k: int|
        i <= j < k < fs.len() ==> #[trigger] scalar_key(fs[j], prefix) != #[trigger] scalar_key(
            fs[k],
            prefix,
        )
}

/// What a textual source parses to fits the field's capability.
proof fn lemma_parse_value_typed(ty: ScalarType, text: Seq<char>)
    ensures
        parse_value(ty, text) matches Some(vm) ==> scalar_value_typed(ty, vm),
{
}

/// Serialization round trip: a typed value's text parses back to it.
proof fn lemma_value_text_round_trip(ty: ScalarType, vm: ValueModel)
    requires
        scalar_value_typed(ty, vm),
    ensures
        parse_value(ty, value_text(vm)) == Some(vm),
{
    match vm {
        ValueModel::Int(n) => {
            lemma_int_text_round_trip(n);
        },
        _ => {},
    }
}

/// A resolving scalar field's value fits its capability.
proof fn lemma_scalar_outcome_typed(
    f: FieldDescriptor,
    src: SourceModel,
    prefix: Seq<char>,
    env: Map<Seq<char>, Seq<char>>,
)
    requires
        f.rule is Scalar,
        match f.rule {
            FieldRule::Scalar { ty, provider, .. } => match provider {
                Some(p) => scalar_value_typed(ty, p@),
                None => true,
            },
            _ => true,
        },
    ensures
        ({
            let o = scalar_outcome(f, src, prefix, env);
            o matches Ok(vm) ==> match f.rule {
                FieldRule::Scalar { ty, .. } => scalar_value_typed(ty, vm),
                _ => true,
            }
        }),
{
    match f.rule {
        FieldRule::Scalar { ty, rename, default_text, provider } => {
            let key = field_key(prefix, f.ident@, rename);
            lemma_parse_value_typed(ty, if src.contents.dom().contains(key) {
                src.contents[key]
            } else {
                Seq::empty()
            });
            if src.ok && !src.contents.dom().contains(key) {
                lemma_parse_value_typed(ty, if env.dom().contains(key) {
                    env[key]
                } else {
                    Seq::empty()
                });
                match default_text {
                    Some(d) => {
                        lemma_parse_value_typed(ty, d@);
                    },
                    None => {},
                }
            }
        },
        _ => {},
    }
}

/// Write-back over an all-scalar list with distinct keys: it succeeds,
/// each field's key ends up holding its serialized value, and every
/// other key is left as it was.
proof fn lemma_scalar_persist(
    fs: Seq<FieldDescriptor>,
    i: int,
    entries: Seq<(Seq<char>, ValueModel)>,
    src: SourceModel,
    prefix: Seq<char>,
)
    requires
        all_scalar(fs),
        src.ok,
        src.keeps,
        0 <= i <= fs.len(),
        entries.len() == fs.len(),
        distinct_keys(fs, i, prefix),
    ensures
        ({
            let p = persist_fields_model(fs, i, entries, src, prefix);
            &&& p.res is Ok
            &&& p.src.ok
            &&& p.src.keeps
            &&& forall|j: int|
                i <= j < fs.len() ==> p.src.contents.dom().contains(
                    #[trigger] scalar_key(fs[j], prefix),
                ) && p.src.contents[scalar_key(fs[j], prefix)] == value_text(entries[j].1)
            &&& forall|k: Seq<char>|
                !(exists|j: int| i <= j < fs.len() && k == scalar_key(fs[j], prefix))
                    ==> #[trigger] p.src.contents.dom().contains(k) == src.contents.dom().contains(
                    k,
                ) && (src.contents.dom().contains(k) ==> p.src.contents[k] == src.contents[k])
        }),
    decreases fs.len() - i,
{
    if i < fs.len() {
        assert(fs[i].rule is Scalar);
        match fs[i].rule {
            FieldRule::Scalar { ty, rename, default_text, provider } => {
                let key = field_key(prefix, fs[i].ident@, rename);
                assert(key == scalar_key(fs[i], prefix));
                let src2 = model_set(src, key, value_text(entries[i].1))->Ok_0;
                lemma_scalar_persist(fs, i + 1, entries, src2, prefix);
                let p = persist_fields_model(fs, i, entries, src, prefix);
                assert(p == persist_fields_model(fs, i + 1, entries, src2, prefix));
                assert forall|j: int|
                    i <= j < fs.len() implies p.src.contents.dom().contains(
                    #[trigger] scalar_key(fs[j], prefix),
                ) && p.src.contents[scalar_key(fs[j], prefix)] == value_text(entries[j].1) by {
                    if j == i {
                        assert(!(exists|j2: int|
                            i + 1 <= j2 < fs.len() && key == scalar_key(fs[j2], prefix)));
                        assert(src2.contents.dom().contains(key));
                        assert(src2.contents[key] == value_text(entries[i].1));
                    }
                }
            },
            _ => {},
        }
    }
}

/// A list whose every field's chain yields a value resolves.
proof fn lemma_scalar_resolve_ok(
    fs: Seq<FieldDescriptor>,
    i: int,
    src: SourceModel,
    prefix: Seq<char>,
    env: Map<Seq<char>, Seq<char>>,
    skips: Map<Seq<char>, ValueModel>,
    alts: Map<Seq<char>, SourceModel>,
)
    requires
        all_scalar(fs),
        0 <= i <= fs.len(),
        forall|j: int| i <= j < fs.len() ==> #[trigger] scalar_outcome(fs[j], src, prefix, env) is Ok,
    ensures
        resolve_fields_model(fs, i, src, prefix, env, skips, alts).res is Ok,
    decreases fs.len() - i,
{
    if i < fs.len() {
        lemma_scalar_resolve_ok(fs, i + 1, src, prefix, env, skips, alts);
        assert(fs[i].rule is Scalar);
        match fs[i].rule {
            FieldRule::Scalar { ty, rename, default_text, provider } => {
                assert(scalar_outcome(fs[i], src, prefix, env) == resolve_scalar(
                    ty,
                    rename,
                    default_text,
                    provider,
                    fs[i].ident@,
                    src,
                    prefix,
                    env,
                ));
            },
            _ => {},
        }
    }
}

/// Idempotent write-back: after a successful build over an all-scalar
/// schema against a durable store, building again over the resulting
/// store — under any environment, even with the originating variables
/// gone, and any skip arguments — resolves every field to the identical
/// value from the store alone, and leaves the store identical.
pub proof fn lemma_idempotent_write_back(
    fs: Seq<FieldDescriptor>,
    src: SourceModel,
    prefix: Seq<char>,
    env: Map<Seq<char>, Seq<char>>,
    skips: Map<Seq<char>, ValueModel>,
    alts: Map<Seq<char>, SourceModel>,
    env2: Map<Seq<char>, Seq<char>>,
    skips2: Map<Seq<char>, ValueModel>,
    alts2: Map<Seq<char>, SourceModel>,
)
    requires
        all_scalar(fs),
        src.ok,
        src.keeps,
        distinct_keys(fs, 0, prefix),
        providers_typed(fs),
        build_model(fs, src, prefix, env, skips, alts).res is Ok,
    ensures
        ({
            let b1 = build_model(fs, src, prefix, env, skips, alts);
            let b2 = build_model(fs, b1.src, prefix, env2, skips2, alts2);
            &&& b2.res == b1.res
            &&& b2.src == b1.src
            &&& b2.alts == alts2
        }),
{
    let b1 = build_model(fs, src, prefix, env, skips, alts);
    let r1 = resolve_fields_model(fs, 0, src, prefix, env, skips, alts);
    lemma_scalar_resolve_preserves(fs, 0, src, prefix, env, skips, alts);
    assert(r1.res is Ok);
    let es = r1.res->Ok_0;
    lemma_scalar_resolve_entries(fs, 0, src, prefix, env, skips, alts);
    lemma_scalar_persist(fs, 0, es, src, prefix);
    let p1 = persist_fields_model(fs, 0, es, src, prefix);
    assert(b1.res == Ok::<Seq<(Seq<char>, ValueModel)>, ErrorModel>(es));
    assert(b1.src == p1.src);

    // each field's value fits its capability, so its serialized text
    // parses back to it from the populated store
    assert forall|j: int| 0 <= j < fs.len() implies #[trigger] scalar_outcome(
        fs[j],
        b1.src,
        prefix,
        env2,
    ) == Ok::<ValueModel, ErrorModel>(es[j].1) by {
        lemma_scalar_outcome_typed(fs[j], src, prefix, env);
        assert(es[j - 0] == es[j]);
        let key = scalar_key(fs[j], prefix);
        assert(b1.src.contents.dom().contains(key));
        assert(b1.src.contents[key] == value_text(es[j].1));
        match fs[j].rule {
            FieldRule::Scalar { ty, rename, default_text, provider } => {
                assert(scalar_value_typed(ty, es[j].1));
                lemma_value_text_round_trip(ty, es[j].1);
                assert(model_get(b1.src, key) == Ok::<Option<Seq<char>>, ()>(
                    Some(value_text(es[j].1)),
                ));
            },
            _ => {},
        }
    }

    let r2 = resolve_fields_model(fs, 0, b1.src, prefix, env2, skips2, alts2);
    lemma_scalar_resolve_ok(fs, 0, b1.src, prefix, env2, skips2, alts2);
    lemma_scalar_resolve_preserves(fs, 0, b1.src, prefix, env2, skips2, alts2);
    lemma_scalar_resolve_entries(fs, 0, b1.src, prefix, env2, skips2, alts2);
    let es2 = r2.res->Ok_0;
    assert(es2 =~= es) by {
        assert(es2.len() == fs.len() && es.len() == fs.len());
        assert forall|j: int| 0 <= j < fs.len() implies #[trigger] es2[j] == es[j] by {
            assert(es2[j - 0] == es2[j]);
            assert(es[j - 0] == es[j]);
            assert(scalar_outcome(fs[j], b1.src, prefix, env2) == Ok::<ValueModel, ErrorModel>(
                es[j].1,
            ));
        }
    }

    lemma_scalar_persist(fs, 0, es2, b1.src, prefix);
    let p2 = persist_fields_model(fs, 0, es2, b1.src, prefix);
    let b2 = build_model(fs, b1.src, prefix, env2, skips2, alts2);
    assert(b2.res == Ok::<Seq<(Seq<char>, ValueModel)>, ErrorModel>(es2));
    assert(p2.src.contents =~= b1.src.contents) by {
        assert forall|k: Seq<char>|
            p2.src.contents.dom().contains(k) == b1.src.contents.dom().contains(k) && (
            b1.src.contents.dom().contains(k) ==> p2.src.contents[k] == b1.src.contents[k]) by {
            if exists|j: int| 0 <= j < fs.len() && k == scalar_key(fs[j], prefix) {
                let j = choose|j: int| 0 <= j < fs.len() && k == scalar_key(fs[j], prefix);
                assert(es2[j - 0] == es2[j]);
                assert(p2.src.contents.dom().contains(k) && p2.src.contents[k] == value_text(
                    es2[j].1,
                ));
                assert(b1.src.contents.dom().contains(k) && b1.src.contents[k] == value_text(
                    es[j].1,
                ));
            }
        }
    }
    assert(b2.src == b1.src);
}

/// If the fields before `i` all resolve and field `i`'s chain ends in an
/// error, the whole build fails with exactly that error, and the store
/// is left untouched: nothing is persisted during a failing call.
pub proof fn lemma_scalar_chain_failure(
    fs: Seq<FieldDescriptor>,
    i: int,
    src: SourceModel,
    prefix: Seq<char>,
    env: Map<Seq<char>, Seq<char>>,
    skips: Map<Seq<char>, ValueModel>,
    alts: Map<Seq<char>, SourceModel>,
    e: ErrorModel,
)
    requires
        all_scalar(fs),
        0 <= i < fs.len(),
        forall|j: int| 0 <= j < i ==> #[trigger] scalar_outcome(fs[j], src, prefix, env) is Ok,
        scalar_outcome(fs[i], src, prefix, env) == Err::<ValueModel, ErrorModel>(e),
    ensures
        build_model(fs, src, prefix, env, skips, alts) == (Resolution {
            res: Err::<Seq<(Seq<char>, ValueModel)>, ErrorModel>(e),
            src,
            alts,
        }),
{
    lemma_scalar_chain_failure_from(fs, 0, i, src, prefix, env, skips, alts, e);
}

proof fn lemma_scalar_chain_failure_from(
    fs: Seq<FieldDescriptor>,
    k: int,
    i: int,
    src: SourceModel,
    prefix: Seq<char>,
    env: Map<Seq<char>, Seq<char>>,
    skips: Map<Seq<char>, ValueModel>,
    alts: Map<Seq<char>, SourceModel>,
    e: ErrorModel,
)
    requires
        all_scalar(fs),
        0 <= k <= i < fs.len(),
        forall|j: int| k <= j < i ==> #[trigger] scalar_outcome(fs[j], src, prefix, env) is Ok,
        scalar_outcome(fs[i], src, prefix, env) == Err::<ValueModel, ErrorModel>(e),
    ensures
        resolve_fields_model(fs, k, src, prefix, env, skips, alts) == (Resolution {
            res: Err::<Seq<(Seq<char>, ValueModel)>, ErrorModel>(e),
            src,
            alts,
        }),
    decreases i - k,
{
    assert(fs[k].rule is Scalar);
    if k < i {
        lemma_scalar_chain_failure_from(fs, k + 1, i, src, prefix, env, skips, alts, e);
        match fs[k].rule {
            FieldRule::Scalar { ty, rename, default_text, provider } => {
                let o = resolve_scalar(
                    ty,
                    rename,
                    default_text,
                    provider,
                    fs[k].ident@,
                    src,
                    prefix,
                    env,
                );
                assert(scalar_outcome(fs[k], src, prefix, env) == o);
                assert(o is Ok);
            },
            _ => {},
        }
    } else {
        match fs[k].rule {
            FieldRule::Scalar { ty, rename, default_text, provider } => {
                let o = resolve_scalar(
                    ty,
                    rename,
                    default_text,
                    provider,
                    fs[k].ident@,
                    src,
                    prefix,
                    env,
                );
                assert(scalar_outcome(fs[k], src, prefix, env) == o);
                assert(o == Err::<ValueModel, ErrorModel>(e));
            },
            _ => {},
        }
    }
}

/// Missing-required failure: when a scalar field has no store value, no
/// environment value, no literal default and no default provider, and
/// the fields before it resolve, the build fails with a field-not-set
/// error naming that field, and no value is persisted for any field.
pub proof fn lemma_missing_required(
    fs: Seq<FieldDescriptor>,
    i: int,
    ty: ScalarType,
    rename: Option<String>,
    src: SourceModel,
    prefix: Seq<char>,
    env: Map<Seq<char>, Seq<char>>,
    skips: Map<Seq<char>, ValueModel>,
    alts: Map<Seq<char>, SourceModel>,
)
    requires
        all_scalar(fs),
        0 <= i < fs.len(),
        forall|j: int| 0 <= j < i ==> #[trigger] scalar_outcome(fs[j], src, prefix, env) is Ok,
        fs[i].rule == (FieldRule::Scalar {
            ty,
            rename,
            default_text: None::<String>,
            provider: None::<ConfigValue>,
        }),
        src.ok,
        !src.contents.dom().contains(field_key(prefix, fs[i].ident@, rename)),
        !env.dom().contains(field_key(prefix, fs[i].ident@, rename)),
    ensures
        build_model(fs, src, prefix, env, skips, alts) == (Resolution {
            res: Err::<Seq<(Seq<char>, ValueModel)>, ErrorModel>(
                ErrorModel::FieldNotSet(fs[i].ident@),
            ),
            src,
            alts,
        }),
{
    lemma_scalar_chain_failure(
        fs,
        i,
        src,
        prefix,
        env,
        skips,
        alts,
        ErrorModel::FieldNotSet(fs[i].ident@),
    );
}

/// Parse failure aborts before persistence: when the first textual value
/// the chain finds for a scalar field cannot be coerced, and the fields
/// before it resolve, the build fails with a parsing error naming that
/// field, and no field's value is written to the store during that call.
pub proof fn lemma_parse_failure_no_persist(
    fs: Seq<FieldDescriptor>,
    i: int,
    ty: ScalarType,
    rename: Option<String>,
    default_text: Option<String>,
    provider: Option<ConfigValue>,
    src: SourceModel,
    prefix: Seq<char>,
    env: Map<Seq<char>, Seq<char>>,
    skips: Map<Seq<char>, ValueModel>,
    alts: Map<Seq<char>, SourceModel>,
)
    requires
        all_scalar(fs),
        0 <= i < fs.len(),
        forall|j: int| 0 <= j < i ==> #[trigger] scalar_outcome(fs[j], src, prefix, env) is Ok,
        fs[i].rule == (FieldRule::Scalar { ty, rename, default_text, provider }),
        src.ok,
        ({
            let key = field_key(prefix, fs[i].ident@, rename);
            ||| (src.contents.dom().contains(key) && parse_value(ty, src.contents[key]) is None)
            ||| (!src.contents.dom().contains(key) && env.dom().contains(key) && parse_value(
                ty,
                env[key],
            ) is None)
            ||| (!src.contents.dom().contains(key) && !env.dom().contains(key) && (default_text
                matches Some(d) && parse_value(ty, d@) is None))
        }),
    ensures
        build_model(fs, src, prefix, env, skips, alts) == (Resolution {
            res: Err::<Seq<(Seq<char>, ValueModel)>, ErrorModel>(
                ErrorModel::Parsing(fs[i].ident@),
            ),
            src,
            alts,
        }),
{
    lemma_scalar_chain_failure(
        fs,
        i,
        src,
        prefix,
        env,
        skips,
        alts,
        ErrorModel::Parsing(fs[i].ident@),
    );
}

} // verus!
