//! Pattern keys: the builders that write them, and the kinds they fall into.
use vstd::prelude::*;

use crate::re::{create_regex, flagged_source, is_flag, kept_flags, regex_accepts, regex_search};
use crate::text::{has_char, has_prefix, starts_with, text_eq};
use crate::value::{encode_value, is_scalar, token_of, Value};

verus! {

/// Why a pattern key could not be built.
#[derive(Clone, Copy, Debug, PartialEq, Eq, Structural)]
pub enum PatternError {
    /// A value that is not a scalar (string, number, boolean, null, undefined).
    UnsupportedType,
    /// A set pattern with no values.
    EmptyArgument,
    /// A flag other than `i`, `m`, `s`, or a pattern that does not compile.
    InvalidRegex,
    /// A `when` condition that is neither a predicate nor a boolean.
    InvalidArgument,
}

/// What a `when` pattern is built from.
#[derive(Clone, Copy, Debug, PartialEq, Eq, Structural)]
pub enum Condition {
    /// A predicate, by the hash under which it is registered.
    Predicate(u64),
    /// A fixed outcome.
    Literal(bool),
    /// Anything else.
    Other,
}

pub open spec fn some_key() -> Seq<char> {
    "__SOME__"@
}

pub open spec fn none_key() -> Seq<char> {
    "__NONE__"@
}

pub open spec fn default_key() -> Seq<char> {
    "_"@
}

/// The key of the handler taken for any value that is neither null nor undefined.
pub fn some() -> (r: String)
    ensures
        r@ == some_key(),
{
    String::from_str("__SOME__")
}

/// The key of the handler taken for null and undefined.
pub fn none() -> (r: String)
    ensures
        r@ == none_key(),
{
    String::from_str("__NONE__")
}

pub open spec fn digit_char(d: nat) -> char {
    if d == 0 { '0' }
    else if d == 1 { '1' }
    else if d == 2 { '2' }
    else if d == 3 { '3' }
    else if d == 4 { '4' }
    else if d == 5 { '5' }
    else if d == 6 { '6' }
    else if d == 7 { '7' }
    else if d == 8 { '8' }
    else { '9' }
}

/// The decimal digits of `n`, most significant first, with no leading zero.
pub open spec fn decimal(n: nat) -> Seq<char>
    decreases n,
{
    if n < 10 {
        seq![digit_char(n)]
    } else {
        decimal(n / 10).push(digit_char(n % 10))
    }
}

fn push_decimal(r: &mut String, n: u64)
    ensures
        final(r)@ == old(r)@ + decimal(n as nat),
    decreases n,
{
    if n >= 10 {
        push_decimal(r, n / 10);
    }
    let d = n % 10;
    let s = if d == 0 { "0" }
        else if d == 1 { "1" }
        else if d == 2 { "2" }
        else if d == 3 { "3" }
        else if d == 4 { "4" }
        else if d == 5 { "5" }
        else if d == 6 { "6" }
        else if d == 7 { "7" }
        else if d == 8 { "8" }
        else { "9" };
    proof {
        reveal_strlit("0");
        reveal_strlit("1");
        reveal_strlit("2");
        reveal_strlit("3");
        reveal_strlit("4");
        reveal_strlit("5");
        reveal_strlit("6");
        reveal_strlit("7");
        reveal_strlit("8");
        reveal_strlit("9");
    }
    assert(s@ =~= seq![digit_char(d as nat)]);
    r.append(s);
}

pub open spec fn when_prefix() -> Seq<char> {
    "when::"@
}

pub open spec fn any_prefix() -> Seq<char> {
    "any::"@
}

pub open spec fn not_prefix() -> Seq<char> {
    "not::"@
}

pub open spec fn regex_prefix() -> Seq<char> {
    "regex::"@
}

/// The key that a `when` condition stands for.
pub open spec fn when_key(c: Condition) -> Seq<char> {
    match c {
        Condition::Predicate(h) => when_prefix() + decimal(h as nat),
        Condition::Literal(b) => when_prefix() + crate::value::bool_text(b),
        Condition::Other => Seq::empty(),
    }
}

/// A predicate pattern: `when::<hash>` for a registered predicate, `when::true`
/// or `when::false` for a fixed outcome.
pub fn when(condition: &Condition) -> (r: Result<String, PatternError>)
    ensures
        r is Err <==> condition is Other,
        r matches Err(e) ==> e == PatternError::InvalidArgument,
        r matches Ok(k) ==> k@ == when_key(*condition),
{
    match condition {
        Condition::Predicate(h) => {
            let mut r = String::from_str("when::");
            push_decimal(&mut r, *h);
            Ok(r)
        },
        Condition::Literal(b) => {
            let mut r = String::from_str("when::");
            r.append(if *b { "true" } else { "false" });
            Ok(r)
        },
        Condition::Other => Err(PatternError::InvalidArgument),
    }
}

/// Texts joined with `|` between them.
pub open spec fn join_bar(parts: Seq<Seq<char>>) -> Seq<char>
    decreases parts.len(),
{
    if parts.len() == 0 {
        Seq::empty()
    } else if parts.len() == 1 {
        parts[0]
    } else {
        join_bar(parts.drop_last()) + seq!['|'] + parts.last()
    }
}

/// The tokens of a sequence of scalar values.
pub open spec fn tokens_of(vals: Seq<Value>) -> Seq<Seq<char>> {
    vals.map_values(|v: Value| token_of(v))
}

/// Why a set pattern over `vals` cannot be built, if it cannot.
pub open spec fn set_error(vals: Seq<Value>) -> Option<PatternError> {
    if vals.len() == 0 {
        Some(PatternError::EmptyArgument)
    } else if exists|i: int| 0 <= i < vals.len() && !is_scalar(#[trigger] vals[i]) {
        Some(PatternError::UnsupportedType)
    } else {
        None
    }
}

fn set_pattern(prefix: &str, values: &Vec<Value>) -> (r: Result<String, PatternError>)
    ensures
        set_error(values@) matches Some(e) ==> r == Err::<String, PatternError>(e),
        set_error(values@) is None ==> (r matches Ok(k) && k@ == prefix@ + join_bar(tokens_of(values@))),
{
    if values.len() == 0 {
        return Err(PatternError::EmptyArgument);
    }
    let mut r = String::from_str(prefix);
    let mut i: usize = 0;
    while i < values.len()
        invariant
            0 < values@.len(),
            i <= values@.len(),
            forall|j: int| 0 <= j < i ==> is_scalar(#[trigger] values@[j]),
            i > 0 ==> r@ == prefix@ + join_bar(tokens_of(values@.subrange(0, i as int))),
            i == 0 ==> r@ == prefix@,
        decreases values@.len() - i,
    {
        let t = match encode_value(&values[i]) {
            Some(t) => t,
            None => return Err(PatternError::UnsupportedType),
        };
        let ghost pre = values@.subrange(0, i as int);
        let ghost next = values@.subrange(0, i + 1);
        assert(next.drop_last() =~= pre);
        assert(tokens_of(next).drop_last() =~= tokens_of(pre));
        if i > 0 {
            r.append("|");
            proof {
                reveal_strlit("|");
            }
        }
        r.append(t.as_str());
        if i == 0 {
            assert(r@ =~= prefix@ + join_bar(tokens_of(next)));
        } else {
            assert(r@ =~= prefix@ + join_bar(tokens_of(next)));
        }
        i += 1;
    }
    assert(values@.subrange(0, values@.len() as int) =~= values@);
    Ok(r)
}

/// A set pattern: matches a value equal to one of `values`.
pub fn any(values: &Vec<Value>) -> (r: Result<String, PatternError>)
    ensures
        set_error(values@) matches Some(e) ==> r == Err::<String, PatternError>(e),
        set_error(values@) is None ==> (r matches Ok(k) && k@ == any_prefix() + join_bar(tokens_of(values@))),
{
    set_pattern("any::", values)
}

/// A negated set pattern: matches a value equal to none of `values`.
pub fn not(values: &Vec<Value>) -> (r: Result<String, PatternError>)
    ensures
        set_error(values@) matches Some(e) ==> r == Err::<String, PatternError>(e),
        set_error(values@) is None ==> (r matches Ok(k) && k@ == not_prefix() + join_bar(tokens_of(values@))),
{
    set_pattern("not::", values)
}

/// Every character of `f` is a supported flag letter.
pub open spec fn flags_ok(f: Seq<char>) -> bool {
    forall|i: int| 0 <= i < f.len() ==> is_flag(#[trigger] f[i])
}

/// The key of a regex pattern: `regex::<pattern>::<flags>`.
pub open spec fn regex_key(pattern: Seq<char>, flags: Seq<char>) -> Seq<char> {
    regex_prefix() + pattern + seq![':', ':'] + flags
}

/// The flags given to `regex`: none when absent.
pub open spec fn flags_text(flags: Option<String>) -> Seq<char> {
    match flags {
        Some(s) => s@,
        None => Seq::empty(),
    }
}

proof fn lemma_kept_all(f: Seq<char>)
    requires
        flags_ok(f),
    ensures
        kept_flags(f) == f,
    decreases f.len(),
{
    if f.len() > 0 {
        lemma_kept_all(f.drop_last());
        assert(kept_flags(f.drop_last()).push(f.last()) =~= f);
    }
}

/// A regular-expression pattern. The flags (none when absent) may hold only
/// `i`, `m` and `s`, and the pattern with those flags must compile.
pub fn regex(pattern: &str, flags: Option<String>) -> (r: Result<String, PatternError>)
    ensures
        r is Ok <==> flags_ok(flags_text(flags)) && regex_accepts(flagged_source(pattern@, flags_text(flags))),
        r matches Err(e) ==> e == PatternError::InvalidRegex,
        r matches Ok(k) ==> k@ == regex_key(pattern@, flags_text(flags)),
{
    let ghost fs = flags_text(flags);
    let f = match flags {
        Some(s) => s,
        None => String::new(),
    };
    assert(f@ == fs);
    let n = f.unicode_len();
    let mut i: usize = 0;
    while i < n
        invariant
            n == f@.len(),
            f@ == fs,
            fs == flags_text(flags),
            i <= n,
            forall|j: int| 0 <= j < i ==> is_flag(#[trigger] f@[j]),
        decreases n - i,
    {
        let c = f.as_str().get_char(i);
        if !(c == 'i' || c == 'm' || c == 's') {
            assert(!is_flag(fs[i as int]));
            assert(!flags_ok(fs));
            return Err(PatternError::InvalidRegex);
        }
        i += 1;
    }
    proof {
        lemma_kept_all(f@);
    }
    let source = create_regex(pattern, f.as_str());
    if regex_search(source.as_str(), "").is_none() {
        return Err(PatternError::InvalidRegex);
    }
    let mut r = String::from_str("regex::");
    r.append(pattern);
    r.append("::");
    r.append(f.as_str());
    proof {
        reveal_strlit("::");
    }
    assert(r@ =~= regex_key(pattern@, f@));
    Ok(r)
}

/// The kinds of pattern keys.
#[derive(Clone, Copy, Debug, PartialEq, Eq, Structural)]
pub enum KeyKind {
    Presence,
    Absence,
    Default,
    When,
    Any,
    Not,
    Regex,
    Wildcard,
    Exact,
}

/// A glob has `*` or `?` in it.
pub open spec fn is_glob(k: Seq<char>) -> bool {
    k.contains('*') || k.contains('?')
}

/// The kind of a key: the three reserved keys first, then by prefix, then by shape.
pub open spec fn kind_of(k: Seq<char>) -> KeyKind {
    if k == some_key() {
        KeyKind::Presence
    } else if k == none_key() {
        KeyKind::Absence
    } else if k == default_key() {
        KeyKind::Default
    } else if has_prefix(k, when_prefix()) {
        KeyKind::When
    } else if has_prefix(k, any_prefix()) {
        KeyKind::Any
    } else if has_prefix(k, not_prefix()) {
        KeyKind::Not
    } else if has_prefix(k, regex_prefix()) {
        KeyKind::Regex
    } else if is_glob(k) {
        KeyKind::Wildcard
    } else {
        KeyKind::Exact
    }
}

/// The kind of a key.
pub fn key_kind(k: &str) -> (r: KeyKind)
    ensures
        r == kind_of(k@),
{
    if text_eq(k, "__SOME__") {
        KeyKind::Presence
    } else if text_eq(k, "__NONE__") {
        KeyKind::Absence
    } else if text_eq(k, "_") {
        KeyKind::Default
    } else if starts_with(k, "when::") {
        KeyKind::When
    } else if starts_with(k, "any::") {
        KeyKind::Any
    } else if starts_with(k, "not::") {
        KeyKind::Not
    } else if starts_with(k, "regex::") {
        KeyKind::Regex
    } else if has_char(k, '*') || has_char(k, '?') {
        KeyKind::Wildcard
    } else {
        KeyKind::Exact
    }
}

} // verus!
