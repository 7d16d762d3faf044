//! The application's configuration types, resolved through the engine.
//!
//! `BaseConfig` is the bootstrap layer: it must be resolvable before any
//! durable store exists, so it is built against the no-op adapter and
//! carries a literal default for the bind address.  `Config` is the full
//! layer, built against the durable store once `BaseConfig` has supplied
//! its connection parameters; its `base` field is a skip field, handed
//! in by the caller, and its secret falls back to a generated value.

use vstd::prelude::*;

use crate::engine::build;
use crate::engine::build_model;
use crate::engine::prefix_model;
use crate::errors::AppConfigError;
use crate::errors::ErrorModel;
use crate::schema::ConfigInstance;
use crate::schema::ConfigValue;
use crate::schema::FieldDescriptor;
use crate::schema::FieldRule;
use crate::schema::ScalarType;
use crate::schema::Schema;
use crate::schema::ValueModel;
use crate::source::DataSource;
use crate::source::SourceModel;
use crate::table::KvTable;
use crate::text::upper_seq;

verus! {

/// Used to generate a secret for signing tokens when none is stored yet.
pub fn generate_jwt_secret() -> (r: String)
    ensures
        r@ == "token"@,
{
    "token".to_owned()
}

/// The bootstrap configuration layer.
#[derive(Debug)]
pub struct BaseConfig {
    pub bind_addr: String,
    pub database_url: String,
}

/// The full configuration layer.
#[derive(Debug)]
pub struct Config {
    pub base: BaseConfig,
    pub jwt_secret: String,
    pub s3_bucket: String,
    pub s3_endpoint: String,
}

/// The textual precedence chain of a text field: the store's value wins,
/// then the environment's, then the literal default, if any.
pub open spec fn text_chain(
    key: Seq<char>,
    dflt: Option<Seq<char>>,
    src: SourceModel,
    env: Map<Seq<char>, Seq<char>>,
) -> Option<Seq<char>> {
    if src.contents.dom().contains(key) {
        Some(src.contents[key])
    } else if env.dom().contains(key) {
        Some(env[key])
    } else {
        dflt
    }
}

/// The store contents after the write-back of one text value.
pub open spec fn written(src: SourceModel, key: Seq<char>, text: Seq<char>) -> SourceModel {
    if src.keeps {
        SourceModel { contents: src.contents.insert(key, text), ..src }
    } else {
        src
    }
}

/// The shape of `BaseConfig`'s schema: the bind address with its literal
/// default, then the database connection string, both text.
pub open spec fn base_schema_shape(fs: Seq<FieldDescriptor>) -> bool {
    &&& fs.len() == 2
    &&& fs[0].ident@ == "bind_addr"@
    &&& fs[0].rule matches FieldRule::Scalar {
        ty: ScalarType::Text,
        rename: None,
        default_text: Some(d),
        provider: None,
    } && d@ == "0.0.0.0:8000"@
    &&& fs[1].ident@ == "database_url"@
    &&& fs[1].rule matches FieldRule::Scalar {
        ty: ScalarType::Text,
        rename: None,
        default_text: None,
        provider: None,
    }
}

/// `BaseConfig`'s schema.
pub fn base_schema() -> (r: Schema)
    ensures
        base_schema_shape(r.fields@),
        r.wf(),
{
    let f0 = FieldDescriptor {
        ident: "bind_addr".to_owned(),
        rule: FieldRule::Scalar {
            ty: ScalarType::Text,
            rename: None,
            default_text: Some("0.0.0.0:8000".to_owned()),
            provider: None,
        },
    };
    let f1 = FieldDescriptor {
        ident: "database_url".to_owned(),
        rule: FieldRule::Scalar {
            ty: ScalarType::Text,
            rename: None,
            default_text: None,
            provider: None,
        },
    };
    let mut fields: Vec<FieldDescriptor> = Vec::new();
    fields.push(f0);
    fields.push(f1);
    let r = Schema::new(fields);
    proof {
        assert(crate::schema::fields_wf(r.fields@.skip(2)));
        crate::schema::lemma_fields_wf_step(r.fields@, 1);
        crate::schema::lemma_fields_wf_step(r.fields@, 0);
        assert(r.fields@.skip(0) =~= r.fields@);
    }
    r
}

/// The store keys `Config` resolves and persists its scalar fields
/// under when built without a prefix, in field order.  A caller that
/// fronts a remote store can fetch exactly these keys ahead of a build
/// and mirror them back afterwards.
pub fn config_scalar_keys() -> (r: Vec<String>)
    ensures
        r@.len() == 3,
        r@[0]@ == upper_seq("jwt_secret"@),
        r@[1]@ == upper_seq("s3_bucket"@),
        r@[2]@ == upper_seq("s3_endpoint"@),
{
    let mut r: Vec<String> = Vec::new();
    r.push(crate::text::upper_string("jwt_secret"));
    r.push(crate::text::upper_string("s3_bucket"));
    r.push(crate::text::upper_string("s3_endpoint"));
    r
}

impl BaseConfig {
    /// Resolve a `BaseConfig` from the given source and environment
    /// snapshot: the bind address falls back to its literal default;
    /// the database connection string must be present in the store or
    /// the environment.  Resolved values are written back to the source.
    pub fn build(data_src: &mut DataSource, prefix: Option<String>, env: &KvTable<String>) -> (r:
        Result<BaseConfig, AppConfigError>)
        ensures
            ({
                let p = prefix_model(prefix);
                let ka = p + upper_seq("bind_addr"@);
                let kd = p + upper_seq("database_url"@);
                let src0 = old(data_src)@;
                let a = text_chain(ka, Some("0.0.0.0:8000"@), src0, env@);
                let d = text_chain(kd, None, src0, env@);
                match r {
                    Ok(cfg) => {
                        &&& src0.ok
                        &&& a is Some
                        &&& d is Some
                        &&& cfg.bind_addr@ == a->0
                        &&& cfg.database_url@ == d->0
                        &&& final(data_src)@ == written(written(src0, ka, a->0), kd, d->0)
                    },
                    Err(e) => {
                        &&& final(data_src)@ == src0
                        &&& if !src0.ok {
                            e@ == ErrorModel::Datastore
                        } else {
                            d is None && e@ == ErrorModel::FieldNotSet("database_url"@)
                        }
                    },
                }
            }),
    {
        let sc = base_schema();
        let skips: KvTable<ConfigValue> = KvTable::new();
        let mut alts: KvTable<DataSource> = KvTable::new();
        let ghost src0 = data_src@;
        let ghost p = prefix_model(prefix);
        let built = build(&sc, data_src, prefix, env, &skips, &mut alts);
        proof {
            lemma_base_build(sc.fields@, src0, p, env@);
        }
        match built {
            Err(e) => Err(e),
            Ok(inst) => {
                proof {
                    reveal_strlit("bind_addr");
                    reveal_strlit("database_url");
                    assert("bind_addr"@.len() != "database_url"@.len());
                    crate::schema::lemma_model_lookup_indexed(inst@, "database_url"@, 1);
                }
                let bind_addr = match inst.get("bind_addr") {
                    Some(v) => match v.as_text() {
                        Some(s) => s.clone(),
                        None => {
                            return Err(AppConfigError::FieldNotSetError("bind_addr".to_owned()));
                        },
                    },
                    None => {
                        return Err(AppConfigError::FieldNotSetError("bind_addr".to_owned()));
                    },
                };
                let database_url = match inst.get("database_url") {
                    Some(v) => match v.as_text() {
                        Some(s) => s.clone(),
                        None => {
                            return Err(AppConfigError::FieldNotSetError("database_url".to_owned()));
                        },
                    },
                    None => {
                        return Err(AppConfigError::FieldNotSetError("database_url".to_owned()));
                    },
                };
                Ok(BaseConfig { bind_addr, database_url })
            },
        }
    }
}

/// The shape of `Config`'s schema: the bootstrap layer as a skip field,
/// the secret with its generated fallback, and the two object-store
/// parameters, all text.
pub open spec fn config_schema_shape(fs: Seq<FieldDescriptor>) -> bool {
    &&& fs.len() == 4
    &&& fs[0].ident@ == "base"@
    &&& fs[0].rule matches FieldRule::Skip { rename: None }
    &&& fs[1].ident@ == "jwt_secret"@
    &&& fs[1].rule matches FieldRule::Scalar {
        ty: ScalarType::Text,
        rename: None,
        default_text: None,
        provider: Some(p),
    } && p@ == ValueModel::Text("token"@)
    &&& fs[2].ident@ == "s3_bucket"@
    &&& fs[2].rule matches FieldRule::Scalar {
        ty: ScalarType::Text,
        rename: None,
        default_text: None,
        provider: None,
    }
    &&& fs[3].ident@ == "s3_endpoint"@
    &&& fs[3].rule matches FieldRule::Scalar {
        ty: ScalarType::Text,
        rename: None,
        default_text: None,
        provider: None,
    }
}

/// `Config`'s schema.
pub fn config_schema() -> (r: Schema)
    ensures
        config_schema_shape(r.fields@),
{
    let secret = ConfigValue::Text(generate_jwt_secret());
    proof {
        crate::schema::lemma_value_view(secret);
    }
    let f0 = FieldDescriptor { ident: "base".to_owned(), rule: FieldRule::Skip { rename: None } };
    let f1 = FieldDescriptor {
        ident: "jwt_secret".to_owned(),
        rule: FieldRule::Scalar {
            ty: ScalarType::Text,
            rename: None,
            default_text: None,
            provider: Some(secret),
        },
    };
    let f2 = FieldDescriptor {
        ident: "s3_bucket".to_owned(),
        rule: FieldRule::Scalar {
            ty: ScalarType::Text,
            rename: None,
            default_text: None,
            provider: None,
        },
    };
    let f3 = FieldDescriptor {
        ident: "s3_endpoint".to_owned(),
        rule: FieldRule::Scalar {
            ty: ScalarType::Text,
            rename: None,
            default_text: None,
            provider: None,
        },
    };
    let mut fields: Vec<FieldDescriptor> = Vec::new();
    fields.push(f0);
    fields.push(f1);
    fields.push(f2);
    fields.push(f3);
    Schema::new(fields)
}

impl BaseConfig {
    /// This layer as a configuration instance, for handing it to a skip
    /// field.
    pub fn to_instance(&self) -> (r: ConfigInstance)
        ensures
            r@ == seq![
                ("bind_addr"@, ValueModel::Text(self.bind_addr@)),
                ("database_url"@, ValueModel::Text(self.database_url@)),
            ],
    {
        let mut inst = ConfigInstance::empty();
        let va = ConfigValue::Text(self.bind_addr.clone());
        let vd = ConfigValue::Text(self.database_url.clone());
        proof {
            crate::schema::lemma_value_view(va);
            crate::schema::lemma_value_view(vd);
        }
        inst.push_entry("bind_addr".to_owned(), va);
        inst.push_entry("database_url".to_owned(), vd);
        proof {
            assert(inst@ =~= seq![
                ("bind_addr"@, ValueModel::Text(self.bind_addr@)),
                ("database_url"@, ValueModel::Text(self.database_url@)),
            ]);
        }
        inst
    }
}

impl Config {
    /// Resolve a `Config` from the given source and environment
    /// snapshot.  The bootstrap layer is a skip field: it is taken from
    /// the caller and neither sourced nor persisted.  The secret falls
    /// back to the generated value; the object-store parameters must be
    /// present in the store or the environment.  Resolved values are
    /// written back to the source.
    pub fn build(
        data_src: &mut DataSource,
        prefix: Option<String>,
        env: &KvTable<String>,
        base: BaseConfig,
    ) -> (r: Result<Config, AppConfigError>)
        ensures
            ({
                let p = prefix_model(prefix);
                let kj = p + upper_seq("jwt_secret"@);
                let kb = p + upper_seq("s3_bucket"@);
                let ke = p + upper_seq("s3_endpoint"@);
                let src0 = old(data_src)@;
                let j = text_chain(kj, Some("token"@), src0, env@);
                let b = text_chain(kb, None, src0, env@);
                let s = text_chain(ke, None, src0, env@);
                match r {
                    Ok(cfg) => {
                        &&& src0.ok
                        &&& b is Some
                        &&& s is Some
                        &&& cfg.base.bind_addr@ == base.bind_addr@
                        &&& cfg.base.database_url@ == base.database_url@
                        &&& cfg.jwt_secret@ == j->0
                        &&& cfg.s3_bucket@ == b->0
                        &&& cfg.s3_endpoint@ == s->0
                        &&& final(data_src)@ == written(
                            written(written(src0, kj, j->0), kb, b->0),
                            ke,
                            s->0,
                        )
                    },
                    Err(e) => {
                        &&& final(data_src)@ == src0
                        &&& if !src0.ok {
                            e@ == ErrorModel::Datastore
                        } else if b is None {
                            e@ == ErrorModel::FieldNotSet("s3_bucket"@)
                        } else {
                            s is None && e@ == ErrorModel::FieldNotSet("s3_endpoint"@)
                        }
                    },
                }
            }),
    {
        let sc = config_schema();
        let mut skips: KvTable<ConfigValue> = KvTable::new();
        skips.set("base", ConfigValue::Nested(base.to_instance()));
        let mut alts: KvTable<DataSource> = KvTable::new();
        let ghost src0 = data_src@;
        let ghost p = prefix_model(prefix);
        let built = build(&sc, data_src, prefix, env, &skips, &mut alts);
        proof {
            lemma_config_build(sc.fields@, src0, p, env@, skips@);
        }
        match built {
            Err(e) => Err(e),
            Ok(inst) => {
                proof {
                    reveal_strlit("base");
                    reveal_strlit("jwt_secret");
                    reveal_strlit("s3_bucket");
                    reveal_strlit("s3_endpoint");
                    assert("base"@.len() == 4 && "jwt_secret"@.len() == 10 && "s3_bucket"@.len()
                        == 9 && "s3_endpoint"@.len() == 11);
                    crate::schema::lemma_model_lookup_indexed(inst@, "jwt_secret"@, 1);
                    crate::schema::lemma_model_lookup_indexed(inst@, "s3_bucket"@, 2);
                    crate::schema::lemma_model_lookup_indexed(inst@, "s3_endpoint"@, 3);
                }
                let jwt_secret = match inst.get("jwt_secret") {
                    Some(v) => match v.as_text() {
                        Some(s) => s.clone(),
                        None => {
                            return Err(AppConfigError::FieldNotSetError("jwt_secret".to_owned()));
                        },
                    },
                    None => {
                        return Err(AppConfigError::FieldNotSetError("jwt_secret".to_owned()));
                    },
                };
                let s3_bucket = match inst.get("s3_bucket") {
                    Some(v) => match v.as_text() {
                        Some(s) => s.clone(),
                        None => {
                            return Err(AppConfigError::FieldNotSetError("s3_bucket".to_owned()));
                        },
                    },
                    None => {
                        return Err(AppConfigError::FieldNotSetError("s3_bucket".to_owned()));
                    },
                };
                let s3_endpoint = match inst.get("s3_endpoint") {
                    Some(v) => match v.as_text() {
                        Some(s) => s.clone(),
                        None => {
                            return Err(AppConfigError::FieldNotSetError("s3_endpoint".to_owned()));
                        },
                    },
                    None => {
                        return Err(AppConfigError::FieldNotSetError("s3_endpoint".to_owned()));
                    },
                };
                Ok(Config { base, jwt_secret, s3_bucket, s3_endpoint })
            },
        }
    }
}

/// What one build over a `Config`-shaped schema produces: the skip
/// field takes the caller's value, the three text chains resolve with
/// the secret falling back to its provider, and the three scalars are
/// mirrored into the source.
proof fn lemma_config_build(
    fs: Seq<FieldDescriptor>,
    src0: SourceModel,
    p: Seq<char>,
    env: Map<Seq<char>, Seq<char>>,
    skips: Map<Seq<char>, ValueModel>,
)
    requires
        config_schema_shape(fs),
        skips.dom().contains("base"@),
    ensures
        ({
            let kj = p + upper_seq("jwt_secret"@);
            let kb = p + upper_seq("s3_bucket"@);
            let ke = p + upper_seq("s3_endpoint"@);
            let j = text_chain(kj, Some("token"@), src0, env);
            let b = text_chain(kb, None, src0, env);
            let s = text_chain(ke, None, src0, env);
            let o = build_model(fs, src0, p, env, skips, Map::empty());
            &&& o.alts == Map::<Seq<char>, SourceModel>::empty()
            &&& if !src0.ok {
                o == (crate::engine::Resolution {
                    res: Err::<Seq<(Seq<char>, ValueModel)>, ErrorModel>(ErrorModel::Datastore),
                    src: src0,
                    alts: Map::empty(),
                })
            } else if b is None {
                o == (crate::engine::Resolution {
                    res: Err::<Seq<(Seq<char>, ValueModel)>, ErrorModel>(
                        ErrorModel::FieldNotSet("s3_bucket"@),
                    ),
                    src: src0,
                    alts: Map::empty(),
                })
            } else if s is None {
                o == (crate::engine::Resolution {
                    res: Err::<Seq<(Seq<char>, ValueModel)>, ErrorModel>(
                        ErrorModel::FieldNotSet("s3_endpoint"@),
                    ),
                    src: src0,
                    alts: Map::empty(),
                })
            } else {
                &&& o.res == Ok::<Seq<(Seq<char>, ValueModel)>, ErrorModel>(
                    seq![
                        ("base"@, skips["base"@]),
                        ("jwt_secret"@, ValueModel::Text(j->0)),
                        ("s3_bucket"@, ValueModel::Text(b->0)),
                        ("s3_endpoint"@, ValueModel::Text(s->0)),
                    ],
                )
                &&& o.src == written(written(written(src0, kj, j->0), kb, b->0), ke, s->0)
            }
        }),
{
    let kj = p + upper_seq("jwt_secret"@);
    let kb = p + upper_seq("s3_bucket"@);
    let ke = p + upper_seq("s3_endpoint"@);
    let j = text_chain(kj, Some("token"@), src0, env);
    let b = text_chain(kb, None, src0, env);
    let s = text_chain(ke, None, src0, env);
    let al = Map::<Seq<char>, SourceModel>::empty();
    let r4 = crate::engine::resolve_fields_model(fs, 4, src0, p, env, skips, al);
    let r3 = crate::engine::resolve_fields_model(fs, 3, src0, p, env, skips, al);
    let r2 = crate::engine::resolve_fields_model(fs, 2, src0, p, env, skips, al);
    let r1 = crate::engine::resolve_fields_model(fs, 1, src0, p, env, skips, al);
    let r0 = crate::engine::resolve_fields_model(fs, 0, src0, p, env, skips, al);
    assert(r4.res == Ok::<Seq<(Seq<char>, ValueModel)>, ErrorModel>(Seq::empty()));
    if src0.ok && b is Some && s is Some {
        let es = seq![
            ("base"@, skips["base"@]),
            ("jwt_secret"@, ValueModel::Text(j->0)),
            ("s3_bucket"@, ValueModel::Text(b->0)),
            ("s3_endpoint"@, ValueModel::Text(s->0)),
        ];
        assert(r3.res == Ok::<Seq<(Seq<char>, ValueModel)>, ErrorModel>(
            seq![("s3_endpoint"@, ValueModel::Text(s->0))] + Seq::empty(),
        ));
        assert(r2.res == Ok::<Seq<(Seq<char>, ValueModel)>, ErrorModel>(
            seq![("s3_bucket"@, ValueModel::Text(b->0))] + (seq![
                ("s3_endpoint"@, ValueModel::Text(s->0)),
            ] + Seq::empty()),
        ));
        assert(r1.res == Ok::<Seq<(Seq<char>, ValueModel)>, ErrorModel>(
            seq![("jwt_secret"@, ValueModel::Text(j->0))] + (seq![
                ("s3_bucket"@, ValueModel::Text(b->0)),
            ] + (seq![("s3_endpoint"@, ValueModel::Text(s->0))] + Seq::empty())),
        ));
        assert(r0.res is Ok);
        assert(r0.res->Ok_0 =~= es);
        let s1 = written(src0, kj, j->0);
        let s2 = written(s1, kb, b->0);
        let s3 = written(s2, ke, s->0);
        let p4 = crate::engine::persist_fields_model(fs, 4, es, s3, p);
        let p3 = crate::engine::persist_fields_model(fs, 3, es, s2, p);
        let p2 = crate::engine::persist_fields_model(fs, 2, es, s1, p);
        let p1 = crate::engine::persist_fields_model(fs, 1, es, src0, p);
        let p0 = crate::engine::persist_fields_model(fs, 0, es, src0, p);
        assert(crate::engine::value_text(es[1].1) == j->0);
        assert(crate::engine::value_text(es[2].1) == b->0);
        assert(crate::engine::value_text(es[3].1) == s->0);
        assert(p0 == p1);
        assert(p1 == p2);
        assert(p2 == p3);
        assert(p3 == p4);
    }
}

/// What one build over a `BaseConfig`-shaped schema produces: both text
/// chains resolve, the instance holds their values under the field
/// identifiers, and both are mirrored into the source; the build fails
/// only on an unreachable source or a missing database connection
/// string.
proof fn lemma_base_build(
    fs: Seq<FieldDescriptor>,
    src0: SourceModel,
    p: Seq<char>,
    env: Map<Seq<char>, Seq<char>>,
)
    requires
        base_schema_shape(fs),
    ensures
        ({
            let ka = p + upper_seq("bind_addr"@);
            let kd = p + upper_seq("database_url"@);
            let a = text_chain(ka, Some("0.0.0.0:8000"@), src0, env);
            let d = text_chain(kd, None, src0, env);
            let b = build_model(fs, src0, p, env, Map::empty(), Map::empty());
            &&& b.alts == Map::<Seq<char>, SourceModel>::empty()
            &&& if !src0.ok {
                b == (crate::engine::Resolution {
                    res: Err::<Seq<(Seq<char>, ValueModel)>, ErrorModel>(ErrorModel::Datastore),
                    src: src0,
                    alts: Map::empty(),
                })
            } else if d is None {
                b == (crate::engine::Resolution {
                    res: Err::<Seq<(Seq<char>, ValueModel)>, ErrorModel>(
                        ErrorModel::FieldNotSet("database_url"@),
                    ),
                    src: src0,
                    alts: Map::empty(),
                })
            } else {
                &&& b.res == Ok::<Seq<(Seq<char>, ValueModel)>, ErrorModel>(
                    seq![
                        ("bind_addr"@, ValueModel::Text(a->0)),
                        ("database_url"@, ValueModel::Text(d->0)),
                    ],
                )
                &&& b.src == written(written(src0, ka, a->0), kd, d->0)
            }
        }),
{
    let ka = p + upper_seq("bind_addr"@);
    let kd = p + upper_seq("database_url"@);
    let a = text_chain(ka, Some("0.0.0.0:8000"@), src0, env);
    let d = text_chain(kd, None, src0, env);
    let e = Map::<Seq<char>, ValueModel>::empty();
    let al = Map::<Seq<char>, SourceModel>::empty();
    let r2 = crate::engine::resolve_fields_model(fs, 2, src0, p, env, e, al);
    let r1 = crate::engine::resolve_fields_model(fs, 1, src0, p, env, e, al);
    let r0 = crate::engine::resolve_fields_model(fs, 0, src0, p, env, e, al);
    assert(r2.res == Ok::<Seq<(Seq<char>, ValueModel)>, ErrorModel>(Seq::empty()));
    if src0.ok && d is Some {
        let es = seq![
            ("bind_addr"@, ValueModel::Text(a->0)),
            ("database_url"@, ValueModel::Text(d->0)),
        ];
        assert(r1.res == Ok::<Seq<(Seq<char>, ValueModel)>, ErrorModel>(
            seq![("database_url"@, ValueModel::Text(d->0))] + Seq::empty(),
        ));
        assert(r0.res == Ok::<Seq<(Seq<char>, ValueModel)>, ErrorModel>(
            seq![("bind_addr"@, ValueModel::Text(a->0))] + (seq![
                ("database_url"@, ValueModel::Text(d->0)),
            ] + Seq::empty()),
        ));
        assert(seq![("bind_addr"@, ValueModel::Text(a->0))] + (seq![
            ("database_url"@, ValueModel::Text(d->0)),
        ] + Seq::empty()) =~= es);
        let s1 = written(src0, ka, a->0);
        let s2 = written(s1, kd, d->0);
        let p2 = crate::engine::persist_fields_model(fs, 2, es, s2, p);
        let p1 = crate::engine::persist_fields_model(fs, 1, es, s1, p);
        let p0 = crate::engine::persist_fields_model(fs, 0, es, src0, p);
        assert(crate::engine::value_text(es[0].1) == a->0);
        assert(crate::engine::value_text(es[1].1) == d->0);
        assert(p0 == p1);
        assert(p1 == p2);
    }
}

} // verus!
