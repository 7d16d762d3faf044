//! The directive parser: turns a field's declarative attribute text into
//! a mapping from directive keyword to its value.
//!
//! The grammar is a comma-separated list of tokens, each either a bare
//! identifier (a flag, mapped to the empty string) or
//! `identifier = value`, where a value is an identifier, a run of decimal
//! digits, or a double-quoted string without escapes.  Whitespace may
//! stand around tokens and around `=`.  An unparseable token is a
//! schema-definition-time error and fails the whole parse.

use vstd::prelude::*;

use crate::decimal::is_digit;
use crate::schema::ConfigValue;
use crate::schema::FieldDescriptor;
use crate::schema::FieldRule;
use crate::schema::ScalarType;
use crate::schema::Schema;
use crate::table::KvTable;
use crate::text::chars_string;
use crate::text::str_chars;

verus! {

/// A schema-definition-time error: the attribute text does not follow
/// the directive grammar.
#[derive(Debug, PartialEq, Eq, Structural, Clone, Copy)]
pub struct DirectiveError;

/// The parsed directives of one field: keyword to value, an empty string
/// marking a bare flag.
pub type Directives = KvTable<String>;

pub open spec fn is_space(c: char) -> bool {
    c == ' ' || c == '\t'
}

pub open spec fn is_ident_start(c: char) -> bool {
    ('a' <= c && c <= 'z') || ('A' <= c && c <= 'Z') || c == '_'
}

pub open spec fn is_ident_char(c: char) -> bool {
    is_ident_start(c) || is_digit(c)
}

/// The first position at or after `i` holding no space.
pub open spec fn skip_ws(s: Seq<char>, i: int) -> int
    decreases s.len() - i,
{
    if i < 0 || i >= s.len() || !is_space(s[i]) {
        i
    } else {
        skip_ws(s, i + 1)
    }
}

/// The end of the identifier run starting at `i`.
pub open spec fn ident_end(s: Seq<char>, i: int) -> int
    decreases s.len() - i,
{
    if i < 0 || i >= s.len() || !is_ident_char(s[i]) {
        i
    } else {
        ident_end(s, i + 1)
    }
}

/// The end of the digit run starting at `i`.
pub open spec fn digits_end(s: Seq<char>, i: int) -> int
    decreases s.len() - i,
{
    if i < 0 || i >= s.len() || !is_digit(s[i]) {
        i
    } else {
        digits_end(s, i + 1)
    }
}

/// The position of the first `"` at or after `i`, or the text's length
/// when there is none.
pub open spec fn close_quote(s: Seq<char>, i: int) -> int
    decreases s.len() - i,
{
    if i < 0 || i >= s.len() {
        s.len() as int
    } else if s[i] == '"' {
        i
    } else {
        close_quote(s, i + 1)
    }
}

pub proof fn lemma_skip_ws_bounds(s: Seq<char>, i: int)
    requires
        0 <= i <= s.len(),
    ensures
        i <= skip_ws(s, i) <= s.len(),
    decreases s.len() - i,
{
    if i < s.len() && is_space(s[i]) {
        lemma_skip_ws_bounds(s, i + 1);
    }
}

/// Skipping spaces lands on a position that skips to itself.
pub proof fn lemma_skip_ws_idempotent(s: Seq<char>, i: int)
    requires
        0 <= i <= s.len(),
    ensures
        skip_ws(s, skip_ws(s, i)) == skip_ws(s, i),
    decreases s.len() - i,
{
    if i < s.len() && is_space(s[i]) {
        lemma_skip_ws_idempotent(s, i + 1);
    }
}

pub proof fn lemma_ident_end_bounds(s: Seq<char>, i: int)
    requires
        0 <= i <= s.len(),
    ensures
        i <= ident_end(s, i) <= s.len(),
        i < s.len() && is_ident_char(s[i]) ==> i + 1 <= ident_end(s, i),
    decreases s.len() - i,
{
    if i < s.len() && is_ident_char(s[i]) {
        lemma_ident_end_bounds(s, i + 1);
    }
}

pub proof fn lemma_digits_end_bounds(s: Seq<char>, i: int)
    requires
        0 <= i <= s.len(),
    ensures
        i <= digits_end(s, i) <= s.len(),
    decreases s.len() - i,
{
    if i < s.len() && is_digit(s[i]) {
        lemma_digits_end_bounds(s, i + 1);
    }
}

pub proof fn lemma_close_quote_bounds(s: Seq<char>, i: int)
    requires
        0 <= i <= s.len(),
    ensures
        i <= close_quote(s, i) <= s.len(),
    decreases s.len() - i,
{
    if i < s.len() && s[i] != '"' {
        lemma_close_quote_bounds(s, i + 1);
    }
}

/// One token starting at `i` (which must hold a non-space character):
/// the keyword/value pair and the position just after the token, or
/// `None` when no token of the grammar starts there.
pub open spec fn token_at(s: Seq<char>, i: int) -> Option<((Seq<char>, Seq<char>), int)> {
    if i < 0 || i >= s.len() || !is_ident_start(s[i]) {
        None
    } else {
        let j = ident_end(s, i);
        let name = s.subrange(i, j);
        let k = skip_ws(s, j);
        if k < s.len() && s[k] == '=' {
            let v = skip_ws(s, k + 1);
            if v >= s.len() {
                None
            } else if s[v] == '"' {
                let q = close_quote(s, v + 1);
                if q < s.len() {
                    Some(((name, s.subrange(v + 1, q)), q + 1))
                } else {
                    None
                }
            } else if is_digit(s[v]) {
                Some(((name, s.subrange(v, digits_end(s, v))), digits_end(s, v)))
            } else if is_ident_start(s[v]) {
                Some(((name, s.subrange(v, ident_end(s, v))), ident_end(s, v)))
            } else {
                None
            }
        } else {
            Some(((name, Seq::empty()), j))
        }
    }
}

/// A token, where parsed, ends after the position it starts at.
pub proof fn lemma_token_at_advances(s: Seq<char>, i: int)
    requires
        0 <= i < s.len(),
    ensures
        token_at(s, i) matches Some(t) ==> i < t.1 <= s.len(),
{
    if is_ident_start(s[i]) {
        lemma_ident_end_bounds(s, i);
        let j = ident_end(s, i);
        lemma_skip_ws_bounds(s, j);
        let k = skip_ws(s, j);
        if k < s.len() && s[k] == '=' {
            lemma_skip_ws_bounds(s, k + 1);
            let v = skip_ws(s, k + 1);
            if v < s.len() {
                lemma_close_quote_bounds(s, v + 1);
                lemma_digits_end_bounds(s, v);
                lemma_ident_end_bounds(s, v);
            }
        }
    }
}

/// The directive list from position `i` on: tokens separated by commas,
/// with empty segments passed over.  `None` marks an unparseable token.
pub open spec fn parse_list(s: Seq<char>, i: int) -> Option<Seq<(Seq<char>, Seq<char>)>>
    decreases s.len() - i,
    via parse_list_decreases
{
    if i < 0 || i >= s.len() {
        Some(Seq::empty())
    } else if s[i] == ',' {
        parse_list(s, skip_ws(s, i + 1))
    } else {
        match token_at(s, i) {
            None => None,
            Some(t) => {
                let k = skip_ws(s, t.1);
                if k >= s.len() {
                    Some(seq![t.0])
                } else if s[k] == ',' {
                    match parse_list(s, skip_ws(s, k + 1)) {
                        Some(rest) => Some(seq![t.0] + rest),
                        None => None,
                    }
                } else {
                    None
                }
            },
        }
    }
}

#[via_fn]
proof fn parse_list_decreases(s: Seq<char>, i: int) {
    if 0 <= i < s.len() {
        if s[i] == ',' {
            lemma_skip_ws_bounds(s, i + 1);
        } else {
            lemma_token_at_advances(s, i);
            let to = token_at(s, i);
            if to is Some {
                lemma_skip_ws_bounds(s, to->Some_0.1);
                let k = skip_ws(s, to->Some_0.1);
                if k + 1 <= s.len() {
                    lemma_skip_ws_bounds(s, k + 1);
                }
            }
        }
    }
}

/// The whole attribute text's directive list.
pub open spec fn parse_attrs_model(s: Seq<char>) -> Option<Seq<(Seq<char>, Seq<char>)>> {
    parse_list(s, skip_ws(s, 0))
}

/// A map extended by the entries in order, each overriding what stands
/// under its key.
pub open spec fn insert_all(
    m: Map<Seq<char>, Seq<char>>,
    es: Seq<(Seq<char>, Seq<char>)>,
) -> Map<Seq<char>, Seq<char>>
    decreases es.len(),
{
    if es.len() == 0 {
        m
    } else {
        insert_all(m.insert(es.first().0, es.first().1), es.drop_first())
    }
}

fn skip_ws_exec(s: &Vec<char>, i: usize) -> (r: usize)
    requires
        i <= s@.len(),
    ensures
        r == skip_ws(s@, i as int),
        i <= r <= s@.len(),
{
    let mut r = i;
    while r < s.len() && (s[r] == ' ' || s[r] == '\t')
        invariant
            i <= r <= s@.len(),
            skip_ws(s@, i as int) == skip_ws(s@, r as int),
        decreases s@.len() - r,
    {
        r = r + 1;
    }
    r
}

fn ident_end_exec(s: &Vec<char>, i: usize) -> (r: usize)
    requires
        i <= s@.len(),
    ensures
        r == ident_end(s@, i as int),
        i <= r <= s@.len(),
{
    let mut r = i;
    while r < s.len() && (('a' <= s[r] && s[r] <= 'z') || ('A' <= s[r] && s[r] <= 'Z') || s[r]
        == '_' || ('0' <= s[r] && s[r] <= '9'))
        invariant
            i <= r <= s@.len(),
            ident_end(s@, i as int) == ident_end(s@, r as int),
        decreases s@.len() - r,
    {
        r = r + 1;
    }
    r
}

fn digits_end_exec(s: &Vec<char>, i: usize) -> (r: usize)
    requires
        i <= s@.len(),
    ensures
        r == digits_end(s@, i as int),
        i <= r <= s@.len(),
{
    let mut r = i;
    while r < s.len() && ('0' <= s[r] && s[r] <= '9')
        invariant
            i <= r <= s@.len(),
            digits_end(s@, i as int) == digits_end(s@, r as int),
        decreases s@.len() - r,
    {
        r = r + 1;
    }
    r
}

fn close_quote_exec(s: &Vec<char>, i: usize) -> (r: usize)
    requires
        i <= s@.len(),
    ensures
        r == close_quote(s@, i as int),
        i <= r <= s@.len(),
{
    let mut r = i;
    while r < s.len() && s[r] != '"'
        invariant
            i <= r <= s@.len(),
            close_quote(s@, i as int) == close_quote(s@, r as int),
        decreases s@.len() - r,
    {
        r = r + 1;
    }
    r
}

/// The characters between two positions, as a string.
fn chars_sub(s: &Vec<char>, a: usize, b: usize) -> (r: String)
    requires
        a <= b <= s@.len(),
    ensures
        r@ == s@.subrange(a as int, b as int),
{
    let mut v: Vec<char> = Vec::new();
    let mut i = a;
    while i < b
        invariant
            a <= i <= b <= s@.len(),
            v@ == s@.subrange(a as int, i as int),
        decreases b - i,
    {
        v.push(s[i]);
        i = i + 1;
        proof {
            assert(v@ =~= s@.subrange(a as int, i as int));
        }
    }
    chars_string(&v)
}

fn token_at_exec(s: &Vec<char>, i: usize) -> (r: Option<((String, String), usize)>)
    requires
        i < s@.len(),
    ensures
        match r {
            Some(t) => token_at(s@, i as int) matches Some(t2) && t2.0.0 == t.0.0@ && t2.0.1
                == t.0.1@ && t2.1 == t.1 && i < t.1 <= s@.len(),
            None => token_at(s@, i as int) is None,
        },
{
    let c = s[i];
    if !(('a' <= c && c <= 'z') || ('A' <= c && c <= 'Z') || c == '_') {
        return None;
    }
    proof {
        lemma_token_at_advances(s@, i as int);
    }
    let j = ident_end_exec(s, i);
    let name = chars_sub(s, i, j);
    let k = skip_ws_exec(s, j);
    if k < s.len() && s[k] == '=' {
        let v = skip_ws_exec(s, k + 1);
        if v >= s.len() {
            None
        } else if s[v] == '"' {
            let q = close_quote_exec(s, v + 1);
            if q < s.len() {
                let val = chars_sub(s, v + 1, q);
                Some(((name, val), q + 1))
            } else {
                None
            }
        } else if '0' <= s[v] && s[v] <= '9' {
            let e = digits_end_exec(s, v);
            let val = chars_sub(s, v, e);
            Some(((name, val), e))
        } else if ('a' <= s[v] && s[v] <= 'z') || ('A' <= s[v] && s[v] <= 'Z') || s[v] == '_' {
            let e = ident_end_exec(s, v);
            let val = chars_sub(s, v, e);
            Some(((name, val), e))
        } else {
            None
        }
    } else {
        Some(((name, String::new()), j))
    }
}

fn parse_list_exec(s: &Vec<char>, i: usize, out: &mut Directives) -> (r: Result<
    (),
    DirectiveError,
>)
    requires
        i <= s@.len(),
        i == skip_ws(s@, i as int) || i >= s@.len(),
    ensures
        match r {
            Ok(u) => parse_list(s@, i as int) matches Some(es) && final(out)@ == insert_all(
                old(out)@,
                es,
            ),
            Err(e) => parse_list(s@, i as int) is None,
        },
    decreases s@.len() - i,
{
    if i >= s.len() {
        return Ok(());
    }
    if s[i] == ',' {
        let n = skip_ws_exec(s, i + 1);
        proof {
            lemma_skip_ws_idempotent(s@, i + 1);
        }
        return parse_list_exec(s, n, out);
    }
    match token_at_exec(s, i) {
        None => Err(DirectiveError),
        Some(t) => {
            let ((name, value), j) = t;
            let k = skip_ws_exec(s, j);
            if k >= s.len() {
                out.set(name.as_str(), value);
                proof {
                    let t2 = token_at(s@, i as int)->Some_0;
                    let es = seq![t2.0];
                    assert(parse_list(s@, i as int) == Some(es));
                    assert(es.first() == (name@, value@));
                    assert(es.drop_first() =~= Seq::<(Seq<char>, Seq<char>)>::empty());
                    assert(insert_all(old(out)@, es) == insert_all(
                        old(out)@.insert(name@, value@),
                        es.drop_first(),
                    ));
                }
                Ok(())
            } else if s[k] == ',' {
                let n = skip_ws_exec(s, k + 1);
                proof {
                    lemma_skip_ws_idempotent(s@, k + 1);
                }
                out.set(name.as_str(), value);
                let ghost mid = out@;
                match parse_list_exec(s, n, out) {
                    Ok(u) => {
                        proof {
                            let t2 = token_at(s@, i as int)->Some_0;
                            let rest = parse_list(s@, n as int)->Some_0;
                            let es = seq![t2.0] + rest;
                            assert(parse_list(s@, i as int) == Some(es));
                            assert(es.first() == (name@, value@));
                            assert(es.drop_first() =~= rest);
                            assert(insert_all(old(out)@, es) == insert_all(
                                old(out)@.insert(name@, value@),
                                es.drop_first(),
                            ));
                        }
                        Ok(())
                    },
                    Err(e) => Err(e),
                }
            } else {
                Err(DirectiveError)
            }
        },
    }
}

/// Parse a field's attribute text into its directives.  The result maps
/// each directive keyword to its value, an empty string marking a bare
/// flag; a later directive for the same keyword overrides an earlier
/// one.  An unparseable token fails the parse.
pub fn parse_attrs(attrs: &str) -> (r: Result<Directives, DirectiveError>)
    ensures
        match r {
            Ok(d) => parse_attrs_model(attrs@) matches Some(es) && d@ == insert_all(
                Map::empty(),
                es,
            ),
            Err(e) => parse_attrs_model(attrs@) is None,
        },
{
    let s = str_chars(attrs);
    let mut out: Directives = KvTable::new();
    let i = skip_ws_exec(&s, 0);
    proof {
        lemma_skip_ws_idempotent(s@, 0);
    }
    match parse_list_exec(&s, i, &mut out) {
        Ok(u) => Ok(out),
        Err(e) => Err(e),
    }
}

/// Whether an optional directive value was carried over exactly.
pub open spec fn opt_text_matches(
    m: Map<Seq<char>, Seq<char>>,
    k: Seq<char>,
    o: Option<String>,
) -> bool {
    match o {
        Some(s) => m.dom().contains(k) && s@ == m[k],
        None => !m.dom().contains(k),
    }
}

/// Whether a field's directives fit what was supplied at registration:
/// a skip field takes neither a nested schema nor a provider; a nested
/// field takes a schema and no provider; a scalar field takes a provider
/// exactly when a `default_fn` directive names one, and no schema.
pub open spec fn field_attrs_ok(
    m: Map<Seq<char>, Seq<char>>,
    has_schema: bool,
    has_provider: bool,
) -> bool {
    if m.dom().contains("skip"@) {
        !has_schema && !has_provider
    } else if m.dom().contains("nested"@) {
        has_schema && !has_provider
    } else {
        !has_schema && (m.dom().contains("default_fn"@) == has_provider)
    }
}

/// Interpret a field's attribute text, producing its descriptor.
///
/// The `skip` flag wins over every other directive; `nested` requires
/// the nested schema to be supplied; `default_fn` requires the provider
/// value its identifier stands for.  A text that does not follow the
/// grammar, or directives inconsistent with what was supplied, are
/// schema-definition-time errors.
pub fn field_from_attrs(
    ident: &str,
    ty: ScalarType,
    attrs: &str,
    provider: Option<ConfigValue>,
    nested: Option<Schema>,
) -> (r: Result<FieldDescriptor, DirectiveError>)
    ensures
        match r {
            Ok(fd) => parse_attrs_model(attrs@) matches Some(es) && ({
                let m = insert_all(Map::empty(), es);
                &&& field_attrs_ok(m, nested is Some, provider is Some)
                &&& fd.ident@ == ident@
                &&& if m.dom().contains("skip"@) {
                    fd.rule matches FieldRule::Skip { rename } && opt_text_matches(
                        m,
                        "name"@,
                        rename,
                    )
                } else if m.dom().contains("nested"@) {
                    fd.rule matches FieldRule::Nested { schema, prefix, data_src }
                        && schema == nested->Some_0 && opt_text_matches(m, "prefix"@, prefix)
                        && opt_text_matches(m, "data_src"@, data_src)
                } else {
                    fd.rule matches FieldRule::Scalar { ty: t2, rename, default_text, provider: pv }
                        && t2 == ty && opt_text_matches(m, "name"@, rename) && opt_text_matches(
                        m,
                        "default"@,
                        default_text,
                    ) && if m.dom().contains("default_fn"@) {
                        pv == provider
                    } else {
                        pv is None
                    }
                }
            }),
            Err(e) => parse_attrs_model(attrs@) is None || (parse_attrs_model(attrs@) matches Some(
                es,
            ) && !field_attrs_ok(insert_all(Map::empty(), es), nested is Some, provider is Some)),
        },
{
    let dirs = match parse_attrs(attrs) {
        Ok(d) => d,
        Err(e) => {
            return Err(e);
        },
    };
    let has_skip = match dirs.get("skip") {
        Some(v) => true,
        None => false,
    };
    let has_nested = match dirs.get("nested") {
        Some(v) => true,
        None => false,
    };
    let has_default_fn = match dirs.get("default_fn") {
        Some(v) => true,
        None => false,
    };
    let rename: Option<String> = match dirs.get("name") {
        Some(s) => Some(s.clone()),
        None => None,
    };
    if has_skip {
        match (provider, nested) {
            (None, None) => Ok(FieldDescriptor { ident: ident.to_owned(), rule: FieldRule::Skip { rename } }),
            _ => Err(DirectiveError),
        }
    } else if has_nested {
        match (provider, nested) {
            (None, Some(schema)) => {
                let prefix: Option<String> = match dirs.get("prefix") {
                    Some(s) => Some(s.clone()),
                    None => None,
                };
                let data_src: Option<String> = match dirs.get("data_src") {
                    Some(s) => Some(s.clone()),
                    None => None,
                };
                Ok(FieldDescriptor {
                    ident: ident.to_owned(),
                    rule: FieldRule::Nested { schema, prefix, data_src },
                })
            },
            _ => Err(DirectiveError),
        }
    } else {
        match nested {
            Some(u) => Err(DirectiveError),
            None => {
                if has_default_fn != matches!(provider, Some(_)) {
                    return Err(DirectiveError);
                }
                let default_text: Option<String> = match dirs.get("default") {
                    Some(s) => Some(s.clone()),
                    None => None,
                };
                let pv: Option<ConfigValue> = if has_default_fn {
                    provider
                } else {
                    None
                };
                Ok(FieldDescriptor {
                    ident: ident.to_owned(),
                    rule: FieldRule::Scalar { ty, rename, default_text, provider: pv },
                })
            },
        }
    }
}

} // verus!
