//! The resolution engine: walks a schema in declared order, applies the
//! precedence chain per field (store, then environment, then literal
//! default, then default provider), recurses into nested schemas with the
//! derived key prefix, assembles the immutable instance, and finally
//! mirrors every resolved scalar value back into the store it was read
//! through.

use vstd::prelude::*;

use crate::decimal::i64_string;
use crate::decimal::i64_text_value;
use crate::decimal::int_text;
use crate::decimal::parse_i64;
use crate::errors::AppConfigError;
use crate::errors::ErrorModel;
use crate::schema::field_key;
use crate::schema::fields_height;
use crate::schema::lemma_fields_height_bound;
use crate::schema::lemma_value_view;
use crate::schema::nested_prefix;
use crate::schema::raw_name;
use crate::schema::ConfigInstance;
use crate::schema::ConfigValue;
use crate::schema::FieldDescriptor;
use crate::schema::FieldRule;
use crate::schema::ScalarType;
use crate::schema::Schema;
use crate::schema::ValueModel;
use crate::source::model_get;
use crate::source::model_set;
use crate::source::DataSource;
use crate::source::SourceModel;
use crate::table::KvTable;
use crate::text::upper_string;

verus! {

/// The value a textual source yields for a scalar field of the given
/// capability; `None` when the text cannot be coerced.
pub open spec fn parse_value(ty: ScalarType, text: Seq<char>) -> Option<ValueModel> {
    match ty {
        ScalarType::Text => Some(ValueModel::Text(text)),
        ScalarType::Int => match i64_text_value(text) {
            Some(v) => Some(ValueModel::Int(v)),
            None => None,
        },
    }
}

/// The text persisted for a resolved scalar value.
pub open spec fn value_text(vm: ValueModel) -> Seq<char> {
    match vm {
        ValueModel::Text(s) => s,
        ValueModel::Int(n) => int_text(n),
        ValueModel::Nested(_) => Seq::empty(),
    }
}

/// The accumulated key prefix denoted by an optional prefix argument.
pub open spec fn prefix_model(p: Option<String>) -> Seq<char> {
    match p {
        Some(s) => s@,
        None => Seq::empty(),
    }
}

/// The state a resolution leaves behind: the outcome (the resolved
/// entries, or the terminal error), the primary source, and the
/// caller-supplied alternate sources.
pub struct Resolution {
    pub res: Result<Seq<(Seq<char>, ValueModel)>, ErrorModel>,
    pub src: SourceModel,
    pub alts: Map<Seq<char>, SourceModel>,
}

/// The state the write-back phase leaves behind.
pub struct Persistence {
    pub res: Result<(), ErrorModel>,
    pub src: SourceModel,
}

/// One scalar field's value under the precedence chain: the store wins,
/// then the environment, then the literal default, then the default
/// provider; with nothing left the field is unresolvable.
pub open spec fn resolve_scalar(
    ty: ScalarType,
    rename: Option<String>,
    default_text: Option<String>,
    provider: Option<ConfigValue>,
    ident: Seq<char>,
    src: SourceModel,
    prefix: Seq<char>,
    env: Map<Seq<char>, Seq<char>>,
) -> Result<ValueModel, ErrorModel> {
    let key = field_key(prefix, ident, rename);
    match model_get(src, key) {
        Err(()) => Err(ErrorModel::Datastore),
        Ok(Some(text)) => match parse_value(ty, text) {
            Some(vm) => Ok(vm),
            None => Err(ErrorModel::Parsing(ident)),
        },
        Ok(None) => if env.dom().contains(key) {
            match parse_value(ty, env[key]) {
                Some(vm) => Ok(vm),
                None => Err(ErrorModel::Parsing(ident)),
            }
        } else {
            match default_text {
                Some(d) => match parse_value(ty, d@) {
                    Some(vm) => Ok(vm),
                    None => Err(ErrorModel::Parsing(ident)),
                },
                None => match provider {
                    Some(p) => Ok(p@),
                    None => Err(ErrorModel::FieldNotSet(ident)),
                },
            }
        },
    }
}

/// Prepend one resolved entry to the outcome of the remaining fields.
pub open spec fn prepend_entry(name: Seq<char>, vm: ValueModel, rest: Resolution) -> Resolution {
    match rest.res {
        Ok(es) => Resolution { res: Ok(seq![(name, vm)] + es), src: rest.src, alts: rest.alts },
        Err(_) => rest,
    }
}

/// The write-back phase from field `i` on: each scalar field's resolved
/// value, serialized, is upserted under its full key into the source the
/// field was read through; skip and nested fields are not written.
pub open spec fn persist_fields_model(
    fs: Seq<FieldDescriptor>,
    i: int,
    entries: Seq<(Seq<char>, ValueModel)>,
    src: SourceModel,
    prefix: Seq<char>,
) -> Persistence
    decreases fs.len() - i,
{
    if i < 0 || i >= fs.len() {
        Persistence { res: Ok(()), src }
    } else {
        match fs[i].rule {
            FieldRule::Scalar { ty, rename, default_text, provider } => {
                let key = field_key(prefix, fs[i].ident@, rename);
                match model_set(src, key, value_text(entries[i].1)) {
                    Ok(src2) => persist_fields_model(fs, i + 1, entries, src2, prefix),
                    Err(()) => Persistence { res: Err(ErrorModel::Datastore), src },
                }
            },
            _ => persist_fields_model(fs, i + 1, entries, src, prefix),
        }
    }
}

/// The resolution phase from field `i` on, in declared order.  A skip
/// field takes the caller-supplied argument under its (possibly renamed)
/// identifier; a nested field is built recursively under the derived
/// prefix against the inherited source, or against the caller-supplied
/// alternate source its `data_src` directive names; a scalar field goes
/// through the precedence chain.  The first error aborts resolution.
pub open spec fn resolve_fields_model(
    fs: Seq<FieldDescriptor>,
    i: int,
    src: SourceModel,
    prefix: Seq<char>,
    env: Map<Seq<char>, Seq<char>>,
    skips: Map<Seq<char>, ValueModel>,
    alts: Map<Seq<char>, SourceModel>,
) -> Resolution
    decreases fields_height(fs), fs.len() - i,
    via resolve_fields_model_decreases
{
    if i < 0 || i >= fs.len() {
        Resolution { res: Ok(Seq::empty()), src, alts }
    } else {
        let f = fs[i];
        match f.rule {
            FieldRule::Skip { rename } => {
                let nm = raw_name(f.ident@, rename);
                if skips.dom().contains(nm) {
                    prepend_entry(
                        f.ident@,
                        skips[nm],
                        resolve_fields_model(fs, i + 1, src, prefix, env, skips, alts),
                    )
                } else {
                    Resolution { res: Err(ErrorModel::FieldNotSet(f.ident@)), src, alts }
                }
            },
            FieldRule::Scalar { ty, rename, default_text, provider } => {
                match resolve_scalar(ty, rename, default_text, provider, f.ident@, src, prefix, env) {
                    Ok(vm) => prepend_entry(
                        f.ident@,
                        vm,
                        resolve_fields_model(fs, i + 1, src, prefix, env, skips, alts),
                    ),
                    Err(e) => Resolution { res: Err(e), src, alts },
                }
            },
            FieldRule::Nested { schema, prefix: po, data_src } => {
                let np = nested_prefix(prefix, f.ident@, po);
                match data_src {
                    None => {
                        let sub = resolve_fields_model(
                            schema.fields@,
                            0,
                            src,
                            np,
                            env,
                            Map::empty(),
                            Map::empty(),
                        );
                        match sub.res {
                            Ok(es) => {
                                let per = persist_fields_model(schema.fields@, 0, es, sub.src, np);
                                match per.res {
                                    Ok(u) => prepend_entry(
                                        f.ident@,
                                        ValueModel::Nested(es),
                                        resolve_fields_model(
                                            fs,
                                            i + 1,
                                            per.src,
                                            prefix,
                                            env,
                                            skips,
                                            alts,
                                        ),
                                    ),
                                    Err(e) => Resolution { res: Err(e), src: per.src, alts },
                                }
                            },
                            Err(e) => Resolution { res: Err(e), src: sub.src, alts },
                        }
                    },
                    Some(nm) => {
                        if alts.dom().contains(nm@) {
                            let sub = resolve_fields_model(
                                schema.fields@,
                                0,
                                alts[nm@],
                                np,
                                env,
                                Map::empty(),
                                Map::empty(),
                            );
                            match sub.res {
                                Ok(es) => {
                                    let per = persist_fields_model(
                                        schema.fields@,
                                        0,
                                        es,
                                        sub.src,
                                        np,
                                    );
                                    let alts2 = alts.insert(nm@, per.src);
                                    match per.res {
                                        Ok(u) => prepend_entry(
                                            f.ident@,
                                            ValueModel::Nested(es),
                                            resolve_fields_model(
                                                fs,
                                                i + 1,
                                                src,
                                                prefix,
                                                env,
                                                skips,
                                                alts2,
                                            ),
                                        ),
                                        Err(e) => Resolution { res: Err(e), src, alts: alts2 },
                                    }
                                },
                                Err(e) => Resolution {
                                    res: Err(e),
                                    src,
                                    alts: alts.insert(nm@, sub.src),
                                },
                            }
                        } else {
                            Resolution { res: Err(ErrorModel::Datastore), src, alts }
                        }
                    },
                }
            },
        }
    }
}

#[via_fn]
proof fn resolve_fields_model_decreases(
    fs: Seq<FieldDescriptor>,
    i: int,
    src: SourceModel,
    prefix: Seq<char>,
    env: Map<Seq<char>, Seq<char>>,
    skips: Map<Seq<char>, ValueModel>,
    alts: Map<Seq<char>, SourceModel>,
) {
    if 0 <= i < fs.len() {
        lemma_fields_height_bound(fs, i);
    }
}

/// One whole build: the resolution phase over every field, then, on
/// success, the write-back phase over the same fields.
pub open spec fn build_model(
    fs: Seq<FieldDescriptor>,
    src: SourceModel,
    prefix: Seq<char>,
    env: Map<Seq<char>, Seq<char>>,
    skips: Map<Seq<char>, ValueModel>,
    alts: Map<Seq<char>, SourceModel>,
) -> Resolution {
    let r = resolve_fields_model(fs, 0, src, prefix, env, skips, alts);
    match r.res {
        Ok(es) => {
            let p = persist_fields_model(fs, 0, es, r.src, prefix);
            match p.res {
                Ok(u) => Resolution { res: Ok(es), src: p.src, alts: r.alts },
                Err(e) => Resolution { res: Err(e), src: p.src, alts: r.alts },
            }
        },
        Err(e) => r,
    }
}

/// How an exec build's results tie to the model's outcome.
pub open spec fn outcome_matches(
    m: Resolution,
    r: Result<ConfigInstance, AppConfigError>,
    src1: SourceModel,
    alts1: Map<Seq<char>, SourceModel>,
) -> bool {
    &&& src1 == m.src
    &&& alts1 == m.alts
    &&& match r {
        Ok(inst) => m.res == Ok::<Seq<(Seq<char>, ValueModel)>, ErrorModel>(inst@),
        Err(e) => m.res == Err::<Seq<(Seq<char>, ValueModel)>, ErrorModel>(e@),
    }
}

/// Coerce a textual value by the field's capability.
fn parse_scalar(ty: ScalarType, text: String) -> (r: Option<ConfigValue>)
    ensures
        match r {
            Some(v) => parse_value(ty, text@) == Some(v@),
            None => parse_value(ty, text@) is None,
        },
{
    match ty {
        ScalarType::Text => {
            let v = ConfigValue::Text(text);
            proof {
                lemma_value_view(v);
            }
            Some(v)
        },
        ScalarType::Int => match parse_i64(text.as_str()) {
            Some(n) => {
                let v = ConfigValue::Int(n);
                proof {
                    lemma_value_view(v);
                }
                Some(v)
            },
            None => None,
        },
    }
}

/// Serialize a resolved value for write-back.
fn scalar_text(v: &ConfigValue) -> (r: String)
    ensures
        r@ == value_text(v@),
{
    proof {
        lemma_value_view(*v);
    }
    match v {
        ConfigValue::Text(s) => s.clone(),
        ConfigValue::Int(n) => i64_string(*n),
        ConfigValue::Nested(_) => String::new(),
    }
}

/// The full key of a field: the accumulated prefix, then the uppercased
/// name.
fn make_key(prefix: &str, name: &str) -> (r: String)
    ensures
        r@ == prefix@ + crate::text::upper_seq(name@),
{
    let mut k = prefix.to_owned();
    let u = upper_string(name);
    k.append(u.as_str());
    k
}

/// The derived prefix of a nested field.
fn make_nested_prefix(outer: &str, ident: &String, po: &Option<String>) -> (r: String)
    ensures
        r@ == nested_prefix(outer@, ident@, *po),
{
    match po {
        Some(p) => make_key(outer, p.as_str()),
        None => {
            let mut t = ident.clone();
            t.push('_');
            proof {
                assert(t@ =~= ident@ + seq!['_']);
            }
            make_key(outer, t.as_str())
        },
    }
}

/// A resolution that ends well resolves every remaining field.
pub proof fn lemma_resolve_entries_len(
    fs: Seq<FieldDescriptor>,
    i: int,
    src: SourceModel,
    prefix: Seq<char>,
    env: Map<Seq<char>, Seq<char>>,
    skips: Map<Seq<char>, ValueModel>,
    alts: Map<Seq<char>, SourceModel>,
)
    requires
        0 <= i <= fs.len(),
    ensures
        resolve_fields_model(fs, i, src, prefix, env, skips, alts).res matches Ok(es) ==> es.len()
            == fs.len() - i,
    decreases fs.len() - i,
{
    if i < fs.len() {
        let f = fs[i];
        match f.rule {
            FieldRule::Skip { rename } => {
                lemma_resolve_entries_len(fs, i + 1, src, prefix, env, skips, alts);
            },
            FieldRule::Scalar { ty, rename, default_text, provider } => {
                lemma_resolve_entries_len(fs, i + 1, src, prefix, env, skips, alts);
            },
            FieldRule::Nested { schema, prefix: po, data_src } => {
                let np = nested_prefix(prefix, f.ident@, po);
                match data_src {
                    None => {
                        let sub = resolve_fields_model(
                            schema.fields@,
                            0,
                            src,
                            np,
                            env,
                            Map::empty(),
                            Map::empty(),
                        );
                        if sub.res is Ok {
                            let es = sub.res->Ok_0;
                            let per = persist_fields_model(schema.fields@, 0, es, sub.src, np);
                            lemma_resolve_entries_len(fs, i + 1, per.src, prefix, env, skips, alts);
                        }
                    },
                    Some(nm) => {
                        if alts.dom().contains(nm@) {
                            let sub = resolve_fields_model(
                                schema.fields@,
                                0,
                                alts[nm@],
                                np,
                                env,
                                Map::empty(),
                                Map::empty(),
                            );
                            if sub.res is Ok {
                                let es = sub.res->Ok_0;
                                let per = persist_fields_model(schema.fields@, 0, es, sub.src, np);
                                let alts2 = alts.insert(nm@, per.src);
                                lemma_resolve_entries_len(fs, i + 1, src, prefix, env, skips, alts2);
                            }
                        }
                    },
                }
            },
        }
    }
}

/// The write-back phase from field `from` on, against the instance's
/// resolved entries.
fn persist_fields(
    fs: &Vec<FieldDescriptor>,
    from: usize,
    inst: &ConfigInstance,
    src: &mut DataSource,
    prefix: &String,
) -> (r: Result<(), AppConfigError>)
    requires
        from <= fs@.len(),
        inst@.len() == fs@.len(),
    ensures
        ({
            let m = persist_fields_model(fs@, from as int, inst@, old(src)@, prefix@);
            final(src)@ == m.src && match r {
                Ok(u) => m.res is Ok,
                Err(e) => m.res == Err::<(), ErrorModel>(e@),
            }
        }),
    decreases fs@.len() - from,
{
    if from == fs.len() {
        return Ok(());
    }
    match &fs[from].rule {
        FieldRule::Scalar { rename, .. } => {
            let raw: &str = match rename {
                Some(n) => n.as_str(),
                None => fs[from].ident.as_str(),
            };
            let key = make_key(prefix.as_str(), raw);
            let e = inst.entry_at(from);
            let text = scalar_text(&e.1);
            proof {
                assert(key@ == field_key(prefix@, fs@[from as int].ident@, *rename));
                assert(text@ == value_text(inst@[from as int].1));
            }
            match src.set(key.as_str(), text) {
                Ok(u) => persist_fields(fs, from + 1, inst, src, prefix),
                Err(_) => Err(AppConfigError::DatastoreError),
            }
        },
        _ => persist_fields(fs, from + 1, inst, src, prefix),
    }
}

/// The resolution phase from field `from` on; resolved entries are
/// appended to `out` in declared order.
fn resolve_fields(
    fs: &Vec<FieldDescriptor>,
    from: usize,
    src: &mut DataSource,
    prefix: &String,
    env: &KvTable<String>,
    skips: &KvTable<ConfigValue>,
    alts: &mut KvTable<DataSource>,
    out: &mut ConfigInstance,
) -> (r: Result<(), AppConfigError>)
    requires
        from <= fs@.len(),
    ensures
        ({
            let m = resolve_fields_model(
                fs@,
                from as int,
                old(src)@,
                prefix@,
                env@,
                skips@,
                old(alts)@,
            );
            final(src)@ == m.src && final(alts)@ == m.alts && match r {
                Ok(u) => m.res is Ok && final(out)@ == old(out)@ + m.res->Ok_0,
                Err(e) => m.res == Err::<Seq<(Seq<char>, ValueModel)>, ErrorModel>(e@),
            }
        }),
    decreases fields_height(fs@), fs@.len() - from,
{
    if from == fs.len() {
        proof {
            assert(final(out)@ =~= old(out)@ + Seq::<(Seq<char>, ValueModel)>::empty());
        }
        return Ok(());
    }
    let ghost m = resolve_fields_model(
        fs@,
        from as int,
        old(src)@,
        prefix@,
        env@,
        skips@,
        old(alts)@,
    );
    let f = &fs[from];
    let value: ConfigValue = match &f.rule {
        FieldRule::Skip { rename } => {
            let nm: &str = match rename {
                Some(n) => n.as_str(),
                None => f.ident.as_str(),
            };
            proof {
                assert(nm@ == raw_name(f.ident@, *rename));
            }
            match skips.get(nm) {
                Some(v) => v.duplicate(),
                None => {
                    return Err(AppConfigError::FieldNotSetError(f.ident.clone()));
                },
            }
        },
        FieldRule::Scalar { ty, rename, default_text, provider } => {
            let raw: &str = match rename {
                Some(n) => n.as_str(),
                None => f.ident.as_str(),
            };
            let key = make_key(prefix.as_str(), raw);
            proof {
                assert(key@ == field_key(prefix@, f.ident@, *rename));
            }
            match src.get(key.as_str()) {
                Err(_) => {
                    return Err(AppConfigError::DatastoreError);
                },
                Ok(Some(text)) => match parse_scalar(*ty, text) {
                    Some(v) => v,
                    None => {
                        return Err(AppConfigError::ParsingError(f.ident.clone()));
                    },
                },
                Ok(None) => match env.get(key.as_str()) {
                    Some(text) => match parse_scalar(*ty, text.clone()) {
                        Some(v) => v,
                        None => {
                            return Err(AppConfigError::ParsingError(f.ident.clone()));
                        },
                    },
                    None => match default_text {
                        Some(d) => match parse_scalar(*ty, d.clone()) {
                            Some(v) => v,
                            None => {
                                return Err(AppConfigError::ParsingError(f.ident.clone()));
                            },
                        },
                        None => match provider {
                            Some(p) => p.duplicate(),
                            None => {
                                return Err(AppConfigError::FieldNotSetError(f.ident.clone()));
                            },
                        },
                    },
                },
            }
        },
        FieldRule::Nested { schema, prefix: po, data_src } => {
            let np = make_nested_prefix(prefix.as_str(), &f.ident, po);
            match data_src {
                None => {
                    let tmp_skips: KvTable<ConfigValue> = KvTable::new();
                    let mut tmp_alts: KvTable<DataSource> = KvTable::new();
                    proof {
                        lemma_fields_height_bound(fs@, from as int);
                    }
                    match build(schema, src, Some(np), env, &tmp_skips, &mut tmp_alts) {
                        Ok(inst) => {
                            let v = ConfigValue::Nested(inst);
                            proof {
                                lemma_value_view(v);
                            }
                            v
                        },
                        Err(e) => {
                            return Err(e);
                        },
                    }
                },
                Some(nm) => {
                    match alts.take(nm.as_str()) {
                        None => {
                            return Err(AppConfigError::DatastoreError);
                        },
                        Some(ds) => {
                            let mut ds = ds;
                            let tmp_skips: KvTable<ConfigValue> = KvTable::new();
                            let mut tmp_alts: KvTable<DataSource> = KvTable::new();
                            proof {
                                lemma_fields_height_bound(fs@, from as int);
                            }
                            let sub = build(schema, &mut ds, Some(np), env, &tmp_skips, &mut tmp_alts);
                            alts.set(nm.as_str(), ds);
                            proof {
                                assert(alts@ =~= old(alts)@.insert(nm@, ds@));
                            }
                            match sub {
                                Ok(inst) => {
                                    let v = ConfigValue::Nested(inst);
                                    proof {
                                        lemma_value_view(v);
                                    }
                                    v
                                },
                                Err(e) => {
                                    return Err(e);
                                },
                            }
                        },
                    }
                },
            }
        },
    };
    out.push_entry(f.ident.clone(), value);
    let r = resolve_fields(fs, from + 1, src, prefix, env, skips, alts, out);
    proof {
        if r is Ok {
            assert(final(out)@ =~= old(out)@ + m.res->Ok_0);
        }
    }
    r
}

/// Resolve one whole configuration: walk the schema in declared order,
/// apply the precedence chain per field, recurse into nested schemas,
/// assemble the instance, and mirror every resolved scalar value back
/// into the source it was read through.  On any error the whole build
/// aborts with that error and no instance is returned.
pub fn build(
    schema: &Schema,
    data_src: &mut DataSource,
    prefix: Option<String>,
    env: &KvTable<String>,
    skip_args: &KvTable<ConfigValue>,
    alt_srcs: &mut KvTable<DataSource>,
) -> (r: Result<ConfigInstance, AppConfigError>)
    ensures
        outcome_matches(
            build_model(
                schema.fields@,
                old(data_src)@,
                prefix_model(prefix),
                env@,
                skip_args@,
                old(alt_srcs)@,
            ),
            r,
            final(data_src)@,
            final(alt_srcs)@,
        ),
    decreases fields_height(schema.fields@), schema.fields@.len() + 1,
{
    let p: String = match prefix {
        Some(s) => s,
        None => String::new(),
    };
    proof {
        assert(p@ == prefix_model(prefix));
    }
    let mut inst = ConfigInstance::empty();
    match resolve_fields(&schema.fields, 0, data_src, &p, env, skip_args, alt_srcs, &mut inst) {
        Err(e) => {
            return Err(e);
        },
        Ok(u) => {},
    }
    proof {
        lemma_resolve_entries_len(
            schema.fields@,
            0,
            old(data_src)@,
            p@,
            env@,
            skip_args@,
            old(alt_srcs)@,
        );
        assert(inst@ =~= resolve_fields_model(
            schema.fields@,
            0,
            old(data_src)@,
            p@,
            env@,
            skip_args@,
            old(alt_srcs)@,
        ).res->Ok_0);
    }
    match persist_fields(&schema.fields, 0, &inst, data_src, &p) {
        Err(e) => Err(e),
        Ok(u) => Ok(inst),
    }
}

} // verus!
