//! Schema descriptors and configuration values.
//!
//! A `Schema` is the ordered field metadata for one configuration type:
//! one `FieldDescriptor` per field, each carrying the field identifier and
//! its sourcing rule.  A resolved configuration is a `ConfigInstance`: the
//! fields in declared order, each with its typed `ConfigValue`.

use vstd::prelude::*;

use crate::text::upper_seq;

verus! {

/// The capability tag of a scalar field: which textual coercion its
/// values use.
#[derive(Debug, Clone, Copy, PartialEq, Eq, Structural)]
pub enum ScalarType {
    /// Values are the text itself.
    Text,
    /// Values are signed 64-bit integers in decimal text.
    Int,
}

/// A resolved field value.
#[derive(Debug)]
pub enum ConfigValue {
    Text(String),
    Int(i64),
    Nested(ConfigInstance),
}

/// A resolved configuration: one entry per field, in declared order.
#[derive(Debug)]
pub struct ConfigInstance {
    entries: Vec<(String, ConfigValue)>,
}

/// The spec-level shape of a resolved field value.
pub enum ValueModel {
    Text(Seq<char>),
    Int(int),
    Nested(Seq<(Seq<char>, ValueModel)>),
}

/// The model of an exec value.
spec fn value_model(v: ConfigValue) -> ValueModel
    decreases v,
{
    match v {
        ConfigValue::Text(s) => ValueModel::Text(s@),
        ConfigValue::Int(n) => ValueModel::Int(n as int),
        ConfigValue::Nested(i) => ValueModel::Nested(entries_model(i.entries@)),
    }
}

/// The model of an instance's entry list.
spec fn entries_model(es: Seq<(String, ConfigValue)>) -> Seq<(Seq<char>, ValueModel)>
    decreases es,
{
    if es.len() == 0 {
        Seq::empty()
    } else {
        entries_model(es.drop_last()).push((es.last().0@, value_model(es.last().1)))
    }
}

impl View for ConfigValue {
    type V = ValueModel;

    closed spec fn view(&self) -> ValueModel {
        value_model(*self)
    }
}

impl View for ConfigInstance {
    type V = Seq<(Seq<char>, ValueModel)>;

    closed spec fn view(&self) -> Seq<(Seq<char>, ValueModel)> {
        entries_model(self.entries@)
    }
}

/// What each value's model is, variant by variant.
pub broadcast proof fn lemma_value_view(v: ConfigValue)
    ensures
        #![trigger v.view()]
        (v matches ConfigValue::Text(s) ==> v@ == ValueModel::Text(s@)),
        (v matches ConfigValue::Int(n) ==> v@ == ValueModel::Int(n as int)),
        (v matches ConfigValue::Nested(i) ==> v@ == ValueModel::Nested(i@)),
{
    reveal_with_fuel(value_model, 2);
}

/// The first entry under a name, if any.
pub open spec fn model_lookup(es: Seq<(Seq<char>, ValueModel)>, name: Seq<char>) -> Option<
    ValueModel,
>
    decreases es.len(),
{
    if es.len() == 0 {
        None
    } else if es.first().0 == name {
        Some(es.first().1)
    } else {
        model_lookup(es.drop_first(), name)
    }
}

impl ConfigValue {
    /// A copy with the same model.
    pub fn duplicate(&self) -> (r: ConfigValue)
        ensures
            r@ == self@,
        decreases self,
    {
        proof {
            reveal_with_fuel(value_model, 2);
        }
        match self {
            ConfigValue::Text(s) => ConfigValue::Text(s.clone()),
            ConfigValue::Int(n) => ConfigValue::Int(*n),
            ConfigValue::Nested(i) => ConfigValue::Nested(i.duplicate()),
        }
    }

    /// The text of a text-typed value.
    pub fn as_text(&self) -> (r: Option<&String>)
        ensures
            match r {
                Some(s) => self@ == ValueModel::Text(s@),
                None => !(self@ is Text),
            },
    {
        proof {
            lemma_value_view(*self);
        }
        match self {
            ConfigValue::Text(s) => Some(s),
            _ => None,
        }
    }

    /// The integer of an integer-typed value.
    pub fn as_int(&self) -> (r: Option<i64>)
        ensures
            match r {
                Some(n) => self@ == ValueModel::Int(n as int),
                None => !(self@ is Int),
            },
    {
        proof {
            lemma_value_view(*self);
        }
        match self {
            ConfigValue::Int(n) => Some(*n),
            _ => None,
        }
    }

    /// The instance of a nested value.
    pub fn as_nested(&self) -> (r: Option<&ConfigInstance>)
        ensures
            match r {
                Some(i) => self@ == ValueModel::Nested(i@),
                None => !(self@ is Nested),
            },
    {
        proof {
            lemma_value_view(*self);
        }
        match self {
            ConfigValue::Nested(i) => Some(i),
            _ => None,
        }
    }
}

impl ConfigInstance {
    /// An instance with no fields yet.
    pub fn empty() -> (r: ConfigInstance)
        ensures
            r@ == Seq::<(Seq<char>, ValueModel)>::empty(),
    {
        proof {
            reveal_with_fuel(entries_model, 1);
        }
        ConfigInstance { entries: Vec::new() }
    }

    /// Record the next field's resolved value.
    pub fn push_entry(&mut self, name: String, value: ConfigValue)
        ensures
            final(self)@ == old(self)@.push((name@, value@)),
    {
        self.entries.push((name, value));
        proof {
            reveal_with_fuel(entries_model, 2);
            assert(self.entries@.drop_last() =~= old(self).entries@);
        }
    }

    /// A copy with the same model.
    pub fn duplicate(&self) -> (r: ConfigInstance)
        ensures
            r@ == self@,
        decreases self,
    {
        let mut out: Vec<(String, ConfigValue)> = Vec::new();
        let n = self.entries.len();
        let mut i: usize = 0;
        while i < n
            invariant
                n == self.entries@.len(),
                i <= n,
                out@.len() == i,
                forall|j: int|
                    0 <= j < i ==> #[trigger] out@[j].0@ == self.entries@[j].0@ && out@[j].1@
                        == self.entries@[j].1@,
            decreases n - i,
        {
            let name = self.entries[i].0.clone();
            let value = self.entries[i].1.duplicate();
            out.push((name, value));
            i = i + 1;
        }
        proof {
            lemma_entries_model_congruence(out@, self.entries@);
        }
        ConfigInstance { entries: out }
    }

    /// How many fields the instance holds.
    pub fn len(&self) -> (r: usize)
        ensures
            r == self@.len(),
    {
        proof {
            lemma_entries_model_len(self.entries@);
        }
        self.entries.len()
    }

    /// The entry at a position, in declared order.
    pub fn entry_at(&self, i: usize) -> (r: &(String, ConfigValue))
        requires
            i < self@.len(),
        ensures
            self@[i as int] == (r.0@, r.1@),
    {
        proof {
            lemma_entries_model_len(self.entries@);
        }
        &self.entries[i]
    }

    /// The first value recorded under a field name, if any.
    pub fn get(&self, name: &str) -> (r: Option<&ConfigValue>)
        ensures
            match r {
                Some(v) => model_lookup(self@, name@) == Some(v@),
                None => model_lookup(self@, name@) is None,
            },
    {
        let k = name.to_owned();
        let n = self.entries.len();
        let mut i: usize = 0;
        while i < n
            invariant
                n == self.entries@.len(),
                i <= n,
                k@ == name@,
                forall|j: int| 0 <= j < i ==> self.entries@[j].0@ != name@,
            decreases n - i,
        {
            if self.entries[i].0 == k {
                proof {
                    lemma_model_lookup_first_match(self.entries@, name@, i as int);
                }
                return Some(&self.entries[i].1);
            }
            i = i + 1;
        }
        proof {
            lemma_model_lookup_no_match(self.entries@, name@);
        }
        None
    }
}

proof fn lemma_entries_model_len(es: Seq<(String, ConfigValue)>)
    ensures
        entries_model(es).len() == es.len(),
        forall|i: int|
            0 <= i < es.len() ==> #[trigger] entries_model(es)[i] == (
            es[i].0@,
            value_model(es[i].1),
            ),
    decreases es,
{
    reveal_with_fuel(entries_model, 2);
    if es.len() > 0 {
        lemma_entries_model_len(es.drop_last());
    }
}

/// Entry lists with pointwise equal models have equal models.
proof fn lemma_entries_model_congruence(
    es1: Seq<(String, ConfigValue)>,
    es2: Seq<(String, ConfigValue)>,
)
    requires
        es1.len() == es2.len(),
        forall|j: int|
            0 <= j < es1.len() ==> #[trigger] es1[j].0@ == es2[j].0@ && es1[j].1@ == es2[j].1@,
    ensures
        entries_model(es1) == entries_model(es2),
    decreases es1,
{
    reveal_with_fuel(entries_model, 2);
    if es1.len() > 0 {
        lemma_entries_model_congruence(es1.drop_last(), es2.drop_last());
        assert(es1.last().0@ == es2.last().0@ && es1.last().1@ == es2.last().1@);
        assert(entries_model(es1) =~= entries_model(es2));
    }
}

proof fn lemma_model_lookup_first_match(es: Seq<(String, ConfigValue)>, name: Seq<char>, i: int)
    requires
        0 <= i < es.len(),
        es[i].0@ == name,
        forall|j: int| 0 <= j < i ==> es[j].0@ != name,
    ensures
        model_lookup(entries_model(es), name) == Some(value_model(es[i].1)),
    decreases es.len(),
{
    lemma_entries_model_len(es);
    lemma_model_lookup_indexed(entries_model(es), name, i);
}

proof fn lemma_model_lookup_no_match(es: Seq<(String, ConfigValue)>, name: Seq<char>)
    requires
        forall|j: int| 0 <= j < es.len() ==> es[j].0@ != name,
    ensures
        model_lookup(entries_model(es), name) is None,
{
    lemma_entries_model_len(es);
    lemma_model_lookup_none(entries_model(es), name);
}

/// Lookup finds the first entry under the name.
pub proof fn lemma_model_lookup_indexed(es: Seq<(Seq<char>, ValueModel)>, name: Seq<char>, i: int)
    requires
        0 <= i < es.len(),
        es[i].0 == name,
        forall|j: int| 0 <= j < i ==> es[j].0 != name,
    ensures
        model_lookup(es, name) == Some(es[i].1),
    decreases es.len(),
{
    if i > 0 {
        lemma_model_lookup_indexed(es.drop_first(), name, i - 1);
    }
}

/// Lookup misses when no entry bears the name.
pub proof fn lemma_model_lookup_none(es: Seq<(Seq<char>, ValueModel)>, name: Seq<char>)
    requires
        forall|j: int| 0 <= j < es.len() ==> es[j].0 != name,
    ensures
        model_lookup(es, name) is None,
    decreases es.len(),
{
    if es.len() > 0 {
        lemma_model_lookup_none(es.drop_first(), name);
    }
}

/// How one field is sourced.
#[derive(Debug)]
pub enum FieldRule {
    /// A scalar field, resolved through the precedence chain.
    Scalar {
        /// Which textual coercion the field's values use.
        ty: ScalarType,
        /// Lookup-key override, applied before case-normalization.
        rename: Option<String>,
        /// Literal textual fallback, parsed like a sourced value.
        default_text: Option<String>,
        /// Typed fallback supplied by a default provider at schema
        /// construction; used directly, without textual parsing.
        provider: Option<ConfigValue>,
    },
    /// A field that is itself a configuration, resolved recursively
    /// under a derived key prefix.
    Nested {
        /// The nested field's own schema.
        schema: Schema,
        /// Override for the automatic `identifier_` key prefix.
        prefix: Option<String>,
        /// Name of a caller-supplied alternate source for this field.
        data_src: Option<String>,
    },
    /// A field whose value the caller supplies at build time; never
    /// sourced, never persisted.
    Skip {
        /// Override for the argument name, as for lookup keys.
        rename: Option<String>,
    },
}

/// One field of a schema.
#[derive(Debug)]
pub struct FieldDescriptor {
    /// The field identifier.
    pub ident: String,
    /// How the field is sourced.
    pub rule: FieldRule,
}

/// The ordered field metadata of one configuration type.
#[derive(Debug)]
pub struct Schema {
    /// The fields, in declaration order.
    pub fields: Vec<FieldDescriptor>,
}

/// Nesting height of a field list: how deep nested schemas go.
pub open spec fn fields_height(fs: Seq<FieldDescriptor>) -> nat
    decreases fs,
{
    if fs.len() == 0 {
        0
    } else {
        let h0 = match fs.first().rule {
            FieldRule::Nested { schema, .. } => 1 + fields_height(schema.fields@),
            _ => 0,
        };
        let hr = fields_height(fs.drop_first());
        if h0 >= hr {
            h0
        } else {
            hr
        }
    }
}

/// Nesting height of one field: 0 unless the field is nested.
pub open spec fn field_height(f: FieldDescriptor) -> nat {
    match f.rule {
        FieldRule::Nested { schema, .. } => 1 + fields_height(schema.fields@),
        _ => 0,
    }
}

/// Every field's height is bounded by the list's height.
pub proof fn lemma_fields_height_bound(fs: Seq<FieldDescriptor>, i: int)
    requires
        0 <= i < fs.len(),
    ensures
        field_height(fs[i]) <= fields_height(fs),
    decreases fs.len(),
{
    if i > 0 {
        lemma_fields_height_bound(fs.drop_first(), i - 1);
    }
}

/// The lookup key of a scalar or skip field before case-normalization:
/// the rename directive if present, the field identifier otherwise.
pub open spec fn raw_name(ident: Seq<char>, rename: Option<String>) -> Seq<char> {
    match rename {
        Some(n) => n@,
        None => ident,
    }
}

/// The full lookup key of a scalar field: the accumulated prefix followed
/// by the uppercased (possibly renamed) identifier.
pub open spec fn field_key(prefix: Seq<char>, ident: Seq<char>, rename: Option<String>) -> Seq<
    char,
> {
    prefix + upper_seq(raw_name(ident, rename))
}

/// The accumulated prefix of a nested field: the outer prefix followed by
/// the uppercased explicit prefix directive, or by the uppercased field
/// identifier with a trailing underscore when no directive is given.
pub open spec fn nested_prefix(outer: Seq<char>, ident: Seq<char>, prefix: Option<String>) -> Seq<
    char,
> {
    match prefix {
        Some(p) => outer + upper_seq(p@),
        None => outer + upper_seq(ident + seq!['_']),
    }
}

/// Definition-time capability soundness of a field list: a scalar field's
/// provider value, if any, supports text-serialization (it is not a
/// nested instance), and nested schemas are sound throughout.
pub open spec fn fields_wf(fs: Seq<FieldDescriptor>) -> bool
    decreases fs,
{
    if fs.len() == 0 {
        true
    } else {
        (match fs.first().rule {
            FieldRule::Scalar { provider, .. } => !(provider matches Some(v) && v@ is Nested),
            FieldRule::Nested { schema, .. } => fields_wf(schema.fields@),
            FieldRule::Skip { .. } => true,
        }) && fields_wf(fs.drop_first())
    }
}

/// Definition-time capability soundness of one field.
pub open spec fn field_wf(f: FieldDescriptor) -> bool {
    match f.rule {
        FieldRule::Scalar { provider, .. } => !(provider matches Some(v) && v@ is Nested),
        FieldRule::Nested { schema, .. } => fields_wf(schema.fields@),
        FieldRule::Skip { .. } => true,
    }
}

/// Soundness of a list tail is soundness of its head field and the rest.
pub proof fn lemma_fields_wf_step(fs: Seq<FieldDescriptor>, i: int)
    requires
        0 <= i < fs.len(),
    ensures
        fields_wf(fs.skip(i)) == (field_wf(fs[i]) && fields_wf(fs.skip(i + 1))),
{
    assert(fs.skip(i).len() > 0);
    assert(fs.skip(i).first() == fs[i]);
    assert(fs.skip(i).drop_first() =~= fs.skip(i + 1));
}

/// A sound field list is sound at every field.
pub proof fn lemma_fields_wf_at(fs: Seq<FieldDescriptor>, i: int)
    requires
        fields_wf(fs),
        0 <= i < fs.len(),
    ensures
        field_wf(fs[i]),
    decreases fs.len(),
{
    if i > 0 {
        lemma_fields_wf_at(fs.drop_first(), i - 1);
    } else {
        assert(fs.first() == fs[0]);
    }
}

impl Schema {
    /// Definition-time capability soundness of the whole schema.
    pub open spec fn wf(&self) -> bool {
        fields_wf(self.fields@)
    }

    /// A schema over the given fields.
    pub fn new(fields: Vec<FieldDescriptor>) -> (r: Schema)
        ensures
            r.fields@ == fields@,
    {
        Schema { fields }
    }

    /// Decide definition-time soundness, as a registration-time check.
    pub fn check_wf(&self) -> (r: bool)
        ensures
            r == self.wf(),
    {
        proof {
            assert(self.fields@.skip(0) =~= self.fields@);
        }
        check_fields_wf(&self.fields, 0)
    }
}

fn check_fields_wf(fs: &Vec<FieldDescriptor>, from: usize) -> (r: bool)
    requires
        from <= fs@.len(),
    ensures
        r == fields_wf(fs@.skip(from as int)),
    decreases fields_height(fs@), fs@.len() - from,
{
    if from == fs.len() {
        proof {
            assert(fs@.skip(from as int) =~= Seq::<FieldDescriptor>::empty());
        }
        return true;
    }
    let ok = match &fs[from].rule {
        FieldRule::Scalar { provider, .. } => match provider {
            Some(v) => {
                proof {
                    lemma_value_view(*v);
                }
                match v {
                    ConfigValue::Nested(_) => false,
                    _ => true,
                }
            },
            None => true,
        },
        FieldRule::Nested { schema, .. } => {
            proof {
                lemma_fields_height_bound(fs@, from as int);
                assert(fields_height(schema.fields@) < fields_height(fs@));
                assert(schema.fields@.skip(0) =~= schema.fields@);
            }
            check_fields_wf(&schema.fields, 0)
        },
        FieldRule::Skip { .. } => true,
    };
    proof {
        lemma_fields_wf_step(fs@, from as int);
        assert(ok == field_wf(fs@[from as int]));
    }
    if !ok {
        return false;
    }
    check_fields_wf(fs, from + 1)
}

} // verus!
