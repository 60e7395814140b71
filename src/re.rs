//! Regular expressions: the calls into regex-lite, the sources built from a
//! regex key's pattern and flags, and the translation of glob patterns.
use vstd::prelude::*;

use crate::text::slice;

verus! {

/// Whether regex-lite's `Regex::new` accepts `pattern`.
pub uninterp spec fn regex_accepts(pattern: Seq<char>) -> bool;

/// Whether the regular expression `pattern`, once compiled by regex-lite, matches
/// somewhere in `haystack` (`Regex::is_match`).
pub uninterp spec fn regex_finds(pattern: Seq<char>, haystack: Seq<char>) -> bool;

/// Relies on regex-lite's `Regex::new`, which accepts or refuses a pattern by its
/// text alone, and on `Regex::is_match`, which tells whether the compiled pattern
/// matches anywhere in the haystack. `None` when the pattern is refused.
#[verifier::external_body]
pub(crate) fn regex_search(pattern: &str, haystack: &str) -> (r: Option<bool>)
    ensures
        r is Some <==> regex_accepts(pattern@),
        r matches Some(b) ==> b == regex_finds(pattern@, haystack@),
{
    match regex_lite::Regex::new(pattern) {
        Ok(re) => Some(re.is_match(haystack)),
        Err(_) => None,
    }
}

/// A regular expression that compiles and matches somewhere in `haystack`.
pub open spec fn regex_hits(pattern: Seq<char>, haystack: Seq<char>) -> bool {
    regex_accepts(pattern) && regex_finds(pattern, haystack)
}

/// Whether `pattern` compiles and matches somewhere in `haystack`.
pub fn regex_is_match(pattern: &str, haystack: &str) -> (r: bool)
    ensures
        r == regex_hits(pattern@, haystack@),
{
    match regex_search(pattern, haystack) {
        Some(b) => b,
        None => false,
    }
}

pub open spec fn is_flag(c: char) -> bool {
    c == 'i' || c == 'm' || c == 's'
}

/// The flag letters of `f` that regex keys support, in order.
pub open spec fn kept_flags(f: Seq<char>) -> Seq<char>
    decreases f.len(),
{
    if f.len() == 0 {
        f
    } else if is_flag(f.last()) {
        kept_flags(f.drop_last()).push(f.last())
    } else {
        kept_flags(f.drop_last())
    }
}

/// The source compiled for a regex key: the supported flags as an inline group
/// `(?..)` in front of the pattern, or the pattern alone when there are none.
pub open spec fn flagged_source(pattern: Seq<char>, flags: Seq<char>) -> Seq<char> {
    let k = kept_flags(flags);
    if k.len() > 0 {
        seq!['(', '?'] + k + seq![')'] + pattern
    } else {
        pattern
    }
}

/// The source for `pattern` with `flags`, as `create_regex` compiles it.
pub fn create_regex(pattern: &str, flags: &str) -> (r: String)
    ensures
        r@ == flagged_source(pattern@, flags@),
{
    let n = flags.unicode_len();
    let mut kept = String::new();
    let mut i: usize = 0;
    while i < n
        invariant
            n == flags@.len(),
            i <= n,
            kept@ == kept_flags(flags@.subrange(0, i as int)),
        decreases n - i,
    {
        let c = flags.get_char(i);
        let ghost pre = flags@.subrange(0, i as int);
        assert(flags@.subrange(0, i + 1).drop_last() =~= pre);
        if c == 'i' || c == 'm' || c == 's' {
            let one = slice(flags, i, i + 1);
            kept.append(one.as_str());
            assert(one@ =~= seq![c]);
        }
        i += 1;
    }
    assert(flags@.subrange(0, n as int) =~= flags@);
    if kept.unicode_len() > 0 {
        let mut r = String::from_str("(?");
        r.append(kept.as_str());
        r.append(")");
        r.append(pattern);
        proof {
            reveal_strlit("(?");
            reveal_strlit(")");
        }
        assert(r@ =~= seq!['(', '?'] + kept@ + seq![')'] + pattern@);
        r
    } else {
        String::from_str(pattern)
    }
}

pub open spec fn is_meta(c: char) -> bool {
    c == '.' || c == '+' || c == '^' || c == '$' || c == '{' || c == '}' || c == '(' || c == ')'
        || c == '|' || c == '[' || c == ']' || c == '\\'
}

/// The regular expression text for one glob character.
pub open spec fn glob_char(c: char) -> Seq<char> {
    if c == '*' {
        seq!['.', '*']
    } else if c == '?' {
        seq!['.']
    } else if is_meta(c) {
        seq!['\\', c]
    } else {
        seq![c]
    }
}

/// The regular expression text for a glob, character by character.
pub open spec fn glob_body(g: Seq<char>) -> Seq<char>
    decreases g.len(),
{
    if g.len() == 0 {
        g
    } else {
        glob_body(g.drop_last()) + glob_char(g.last())
    }
}

/// The anchored regular expression for a glob; `(?i)` in front when case is ignored.
pub open spec fn glob_source(g: Seq<char>, case_sensitive: bool) -> Seq<char> {
    let anchored = seq!['^'] + glob_body(g) + seq!['$'];
    if case_sensitive {
        anchored
    } else {
        seq!['(', '?', 'i', ')'] + anchored
    }
}

/// The regular expression source that a glob pattern stands for: `*` becomes
/// `.*`, `?` becomes `.`, other metacharacters are escaped, and the whole is anchored.
pub fn wildcard_to_regex(pattern: &str, case_sensitive: bool) -> (r: String)
    ensures
        r@ == glob_source(pattern@, case_sensitive),
{
    proof {
        reveal_strlit("^");
        reveal_strlit("$");
    }
    let n = pattern.unicode_len();
    let mut r = if case_sensitive {
        String::from_str("^")
    } else {
        String::from_str("(?i)^")
    };
    proof {
        reveal_strlit("(?i)^");
    }
    let ghost head: Seq<char> = if case_sensitive {
        seq!['^']
    } else {
        seq!['(', '?', 'i', ')', '^']
    };
    assert(r@ =~= head);
    let mut i: usize = 0;
    while i < n
        invariant
            n == pattern@.len(),
            i <= n,
            r@ == head + glob_body(pattern@.subrange(0, i as int)),
        decreases n - i,
    {
        let c = pattern.get_char(i);
        let ghost pre = pattern@.subrange(0, i as int);
        assert(pattern@.subrange(0, i + 1).drop_last() =~= pre);
        assert(pattern@.subrange(0, i + 1).last() == c);
        assert(glob_body(pattern@.subrange(0, i + 1)) == glob_body(pre) + glob_char(c));
        let ghost before = r@;
        proof {
            reveal_strlit(".*");
            reveal_strlit(".");
            reveal_strlit("\\");
        }
        if c == '*' {
            r.append(".*");
            assert(r@ =~= before + glob_char(c));
        } else if c == '?' {
            r.append(".");
            assert(r@ =~= before + glob_char(c));
        } else {
            if c == '.' || c == '+' || c == '^' || c == '$' || c == '{' || c == '}' || c == '('
                || c == ')' || c == '|' || c == '[' || c == ']' || c == '\\' {
                r.append("\\");
            }
            let one = slice(pattern, i, i + 1);
            assert(one@ =~= seq![c]);
            r.append(one.as_str());
            assert(r@ =~= before + glob_char(c));
        }
        assert(r@ =~= head + glob_body(pattern@.subrange(0, i + 1)));
        i += 1;
    }
    r.append("$");
    assert(pattern@.subrange(0, n as int) =~= pattern@);
    assert(r@ =~= glob_source(pattern@, case_sensitive));
    r
}

} // verus!
