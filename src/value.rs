//! The values that patterns are matched against, their text form, and the
//! typed tokens that set patterns hold.
use vstd::prelude::*;

use crate::text::{eq_ascii_fold, eq_ignore_ascii_case, find_char, index_of, slice, text_eq};

verus! {

/// The character between a token's type tag and its text.
pub const SEP: char = '\x1F';

/// A value of the host language.
///
/// A number is held by its canonical decimal text: the shortest text that reads
/// back as the same binary64 value (`1`, `-2.5`, `-0`, `inf`, `NaN`), as Rust's
/// `Display` for `f64` writes it. Two such texts stand for equal numbers exactly
/// when they are the same text and not `NaN`, or both are a zero.
#[derive(Debug, PartialEq, Eq)]
pub enum Value {
    Undefined,
    Null,
    Str(String),
    Number(String),
    Boolean(bool),
    /// Anything else (an object, a function, a symbol).
    Other,
}

/// The kind of a value.
#[derive(Clone, Copy, Debug, PartialEq, Eq, Structural)]
pub enum JsType {
    String,
    Number,
    Boolean,
    Null,
    Undefined,
    Unknown,
}

pub open spec fn type_of(v: Value) -> JsType {
    match v {
        Value::Undefined => JsType::Undefined,
        Value::Null => JsType::Null,
        Value::Str(_) => JsType::String,
        Value::Number(_) => JsType::Number,
        Value::Boolean(_) => JsType::Boolean,
        Value::Other => JsType::Unknown,
    }
}

/// The kind of a value.
pub fn js_typeof(v: &Value) -> (r: JsType)
    ensures
        r == type_of(*v),
{
    match v {
        Value::Undefined => JsType::Undefined,
        Value::Null => JsType::Null,
        Value::Str(_) => JsType::String,
        Value::Number(_) => JsType::Number,
        Value::Boolean(_) => JsType::Boolean,
        Value::Other => JsType::Unknown,
    }
}

pub open spec fn bool_text(b: bool) -> Seq<char> {
    if b {
        "true"@
    } else {
        "false"@
    }
}

/// The text form of a value, which exact keys and regular expressions are held against.
pub open spec fn text_of(v: Value) -> Seq<char> {
    match v {
        Value::Undefined => "undefined"@,
        Value::Null => "null"@,
        Value::Str(s) => s@,
        Value::Number(t) => t@,
        Value::Boolean(b) => bool_text(b),
        Value::Other => "unknown"@,
    }
}

/// A scalar value: one that a set pattern can hold.
pub open spec fn is_scalar(v: Value) -> bool {
    !(v is Other)
}

/// The token of a scalar value: its type tag, the separator, and its text
/// (empty for null and undefined).
pub open spec fn token_of(v: Value) -> Seq<char> {
    match v {
        Value::Undefined => "undefined"@.push(SEP),
        Value::Null => "null"@.push(SEP),
        Value::Str(s) => "string"@.push(SEP) + s@,
        Value::Number(t) => "number"@.push(SEP) + t@,
        Value::Boolean(b) => "boolean"@.push(SEP) + bool_text(b),
        Value::Other => Seq::empty(),
    }
}

pub open spec fn is_zero_text(t: Seq<char>) -> bool {
    t == "0"@ || t == "-0"@
}

/// Equality of two numbers given by their canonical texts.
pub open spec fn number_text_eq(a: Seq<char>, b: Seq<char>) -> bool {
    (a == b && a != "NaN"@) || (is_zero_text(a) && is_zero_text(b))
}

/// Equality of a scalar value with another value: same kind, and equal content;
/// strings compare without regard to ASCII case when `case_sensitive` is off.
pub open spec fn value_eq(a: Value, v: Value, case_sensitive: bool) -> bool {
    match (a, v) {
        (Value::Undefined, Value::Undefined) => true,
        (Value::Null, Value::Null) => true,
        (Value::Str(x), Value::Str(y)) => if case_sensitive {
            x@ == y@
        } else {
            eq_ascii_fold(x@, y@)
        },
        (Value::Number(x), Value::Number(y)) => number_text_eq(x@, y@),
        (Value::Boolean(x), Value::Boolean(y)) => x == y,
        _ => false,
    }
}

/// Whether the token `t` stands for a value equal to `v`: the type tag before
/// the first separator must name `v`'s kind, and the text after it must match.
pub open spec fn token_matches(t: Seq<char>, v: Value, case_sensitive: bool) -> bool {
    let k = index_of(t, SEP);
    if k < 0 {
        false
    } else {
        let tag = t.subrange(0, k);
        let rest = t.subrange(k + 1, t.len() as int);
        if tag == "undefined"@ && v is Undefined {
            true
        } else if tag == "null"@ && v is Null {
            true
        } else {
            match v {
                Value::Str(s) => tag == "string"@ && if case_sensitive {
                    rest == s@
                } else {
                    eq_ascii_fold(rest, s@)
                },
                Value::Number(n) => tag == "number"@ && number_text_eq(rest, n@),
                Value::Boolean(b) => tag == "boolean"@ && rest == bool_text(b),
                _ => false,
            }
        }
    }
}

fn bool_str(b: bool) -> (r: &'static str)
    ensures
        r@ == bool_text(b),
{
    if b {
        "true"
    } else {
        "false"
    }
}

/// The text form of a value.
pub fn get_string_value(v: &Value) -> (r: String)
    ensures
        r@ == text_of(*v),
{
    match v {
        Value::Undefined => String::from_str("undefined"),
        Value::Null => String::from_str("null"),
        Value::Str(s) => s.clone(),
        Value::Number(t) => t.clone(),
        Value::Boolean(b) => String::from_str(bool_str(*b)),
        Value::Other => String::from_str("unknown"),
    }
}

fn tagged(tag: &str, body: &str) -> (r: String)
    ensures
        r@ == tag@.push(SEP) + body@,
{
    let mut r = String::from_str(tag);
    r.append("\x1F");
    proof {
        reveal_strlit("\x1F");
    }
    r.append(body);
    assert(r@ =~= tag@.push(SEP) + body@);
    r
}

/// The token of a scalar value; anything else is refused.
pub fn encode_value(v: &Value) -> (r: Option<String>)
    ensures
        r is None <==> !is_scalar(*v),
        r matches Some(t) ==> t@ == token_of(*v),
{
    match v {
        Value::Undefined => {
            proof {
                reveal_strlit("");
            }
            Some(tagged("undefined", ""))
        },
        Value::Null => {
            proof {
                reveal_strlit("");
            }
            Some(tagged("null", ""))
        },
        Value::Str(s) => Some(tagged("string", s.as_str())),
        Value::Number(t) => Some(tagged("number", t.as_str())),
        Value::Boolean(b) => Some(tagged("boolean", bool_str(*b))),
        Value::Other => None,
    }
}

fn is_zero_number(t: &str) -> (r: bool)
    ensures
        r == is_zero_text(t@),
{
    text_eq(t, "0") || text_eq(t, "-0")
}

fn number_eq(a: &str, b: &str) -> (r: bool)
    ensures
        r == number_text_eq(a@, b@),
{
    (text_eq(a, b) && !text_eq(a, "NaN")) || (is_zero_number(a) && is_zero_number(b))
}

/// Whether the token `encoded` stands for a value equal to `v`.
pub fn compare_encoded_value(encoded: &str, v: &Value, case_sensitive: bool) -> (r: bool)
    ensures
        r == token_matches(encoded@, *v, case_sensitive),
{
    let k = match find_char(encoded, SEP) {
        Some(k) => k,
        None => return false,
    };
    proof {
        crate::text::lemma_index_of_from(encoded@, SEP, 0);
    }
    let n = encoded.unicode_len();
    let tag = slice(encoded, 0, k);
    let rest = slice(encoded, k + 1, n);
    if text_eq(tag.as_str(), "undefined") && matches!(v, Value::Undefined) {
        return true;
    }
    if text_eq(tag.as_str(), "null") && matches!(v, Value::Null) {
        return true;
    }
    match v {
        Value::Str(s) => text_eq(tag.as_str(), "string") && if case_sensitive {
            text_eq(rest.as_str(), s.as_str())
        } else {
            eq_ignore_ascii_case(rest.as_str(), s.as_str())
        },
        Value::Number(t) => text_eq(tag.as_str(), "number") && number_eq(rest.as_str(), t.as_str()),
        Value::Boolean(b) => text_eq(tag.as_str(), "boolean") && text_eq(rest.as_str(), bool_str(*b)),
        _ => false,
    }
}

/// An encoded token stands for every value equal to the scalar it was made from.
pub proof fn lemma_token_round_trip(a: Value, v: Value, case_sensitive: bool)
    requires
        is_scalar(a),
    ensures
        token_matches(token_of(a), v, case_sensitive) == value_eq(a, v, case_sensitive),
{
    reveal_strlit("undefined");
    reveal_strlit("null");
    reveal_strlit("string");
    reveal_strlit("number");
    reveal_strlit("boolean");
    reveal_strlit("true");
    reveal_strlit("false");
    let t = token_of(a);
    let tag: Seq<char> = match a {
        Value::Undefined => "undefined"@,
        Value::Null => "null"@,
        Value::Str(_) => "string"@,
        Value::Number(_) => "number"@,
        Value::Boolean(_) => "boolean"@,
        Value::Other => Seq::empty(),
    };
    assert(forall|j: int| 0 <= j < tag.len() ==> tag[j] != SEP);
    crate::text::lemma_index_of_from(t, SEP, 0);
    assert(t[tag.len() as int] == SEP);
    assert(index_of(t, SEP) == tag.len());
    assert(t.subrange(0, tag.len() as int) =~= tag);
    let rest = t.subrange(tag.len() as int + 1, t.len() as int);
    assert("string"@[0] != "number"@[0]);
    assert("string"@.len() != "boolean"@.len() && "number"@.len() != "boolean"@.len());
    assert("string"@.len() != "null"@.len() && "number"@.len() != "null"@.len());
    assert("string"@.len() != "undefined"@.len() && "number"@.len() != "undefined"@.len());
    assert("boolean"@.len() != "undefined"@.len() && "boolean"@.len() != "null"@.len());
    match a {
        Value::Str(s) => {
            assert(rest =~= s@);
        },
        Value::Number(n) => assert(rest =~= n@),
        Value::Boolean(b) => assert(rest =~= bool_text(b)),
        _ => {},
    }
}

} // verus!
