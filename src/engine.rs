//! Dispatch: the stages that pick, for a value, the one entry of a pattern set
//! whose handler runs.
//!
//! Dispatch never calls anything itself. Where a predicate must be asked, it
//! says so; the caller asks it and dispatches again with the answers so far.
use vstd::prelude::*;

use crate::classify::{by_specificity, group, in_bounds, lemma_by_specificity_in_bounds, lemma_group_upto, PatternGroups};
use crate::keys::{default_key, kind_of, none_key, regex_prefix, some_key, KeyKind};
use crate::patterns::{handler_at, Entries, PatternSet};
use crate::re::{create_regex, flagged_source, glob_source, regex_hits, regex_is_match, wildcard_to_regex};
use crate::text::{colons_from, find_colons, has_char, has_prefix, slice, text_eq};
use crate::value::{compare_encoded_value, get_string_value, text_of, token_matches, Value};

verus! {

/// The pieces of a text between its `|` characters (one piece when it has none).
pub open spec fn split_bar(s: Seq<char>) -> Seq<Seq<char>>
    decreases s.len(),
{
    if s.len() == 0 {
        seq![Seq::empty()]
    } else {
        let r = split_bar(s.drop_last());
        if s.last() == '|' {
            r.push(Seq::empty())
        } else {
            r.update(r.len() - 1, r.last().push(s.last()))
        }
    }
}

pub proof fn lemma_split_bar_len(s: Seq<char>)
    ensures
        split_bar(s).len() >= 1,
    decreases s.len(),
{
    if s.len() > 0 {
        lemma_split_bar_len(s.drop_last());
    }
}

/// Some token of a set pattern's payload stands for a value equal to `v`.
pub open spec fn payload_hits(p: Seq<char>, v: Value, case_sensitive: bool) -> bool {
    exists|j: int| 0 <= j < split_bar(p).len() && token_matches(#[trigger] split_bar(p)[j], v, case_sensitive)
}

/// Whether some `|`-separated token of `p` stands for a value equal to `v`.
pub fn payload_matches(p: &str, v: &Value, case_sensitive: bool) -> (r: bool)
    ensures
        r == payload_hits(p@, *v, case_sensitive),
{
    let n = p.unicode_len();
    let mut start: usize = 0;
    let mut i: usize = 0;
    let mut found = false;
    let ghost mut closed: Seq<Seq<char>> = Seq::empty();
    assert(p@.subrange(0, 0) =~= Seq::<char>::empty());
    assert(split_bar(p@.subrange(0, 0)) =~= closed.push(p@.subrange(0, 0)));
    while i < n
        invariant
            n == p@.len(),
            start <= i <= n,
            split_bar(p@.subrange(0, i as int)) == closed.push(p@.subrange(start as int, i as int)),
            found == exists|j: int| 0 <= j < closed.len() && token_matches(#[trigger] closed[j], *v, case_sensitive),
        decreases n - i,
    {
        let c = p.get_char(i);
        let ghost pre = p@.subrange(0, i as int);
        assert(p@.subrange(0, i + 1).drop_last() =~= pre);
        if c == '|' {
            let seg = slice(p, start, i);
            let hit = compare_encoded_value(seg.as_str(), v, case_sensitive);
            proof {
                let old_closed = closed;
                closed = closed.push(seg@);
                assert(closed[closed.len() - 1] == seg@);
                if found {
                    let j = choose|j: int| 0 <= j < old_closed.len() && token_matches(old_closed[j], *v, case_sensitive);
                    assert(closed[j] == old_closed[j]);
                }
                assert forall|j: int| 0 <= j < closed.len() && token_matches(#[trigger] closed[j], *v, case_sensitive) implies
                    (found || hit) by {
                    if j < old_closed.len() {
                        assert(closed[j] == old_closed[j]);
                    }
                }
                assert(p@.subrange((i + 1) as int, (i + 1) as int) =~= Seq::<char>::empty());
                assert(split_bar(p@.subrange(0, i + 1)) =~= closed.push(p@.subrange((i + 1) as int, (i + 1) as int)));
            }
            found = found || hit;
            start = i + 1;
        } else {
            let ghost seg = p@.subrange(start as int, i as int);
            assert(p@.subrange(0, i + 1).last() == c);
            assert(p@.subrange(start as int, i + 1) =~= seg.push(c));
            assert(split_bar(pre) == closed.push(seg));
            assert(split_bar(p@.subrange(0, i + 1)) == split_bar(pre).update(closed.len() as int, seg.push(c)));
            assert(split_bar(p@.subrange(0, i + 1)) =~= closed.push(p@.subrange(start as int, i + 1)));
        }
        i += 1;
    }
    assert(p@.subrange(0, n as int) =~= p@);
    let last = slice(p, start, n);
    let hit = compare_encoded_value(last.as_str(), v, case_sensitive);
    let ghost all = split_bar(p@);
    assert(all == closed.push(last@));
    if found {
        let ghost j = choose|j: int| 0 <= j < closed.len() && token_matches(closed[j], *v, case_sensitive);
        assert(all[j] == closed[j]);
    }
    if hit {
        assert(all[closed.len() as int] == last@);
    }
    assert(payload_hits(p@, *v, case_sensitive) ==> found || hit) by {
        if payload_hits(p@, *v, case_sensitive) {
            let j = choose|j: int| 0 <= j < all.len() && token_matches(#[trigger] all[j], *v, case_sensitive);
            if j < closed.len() {
                assert(all[j] == closed[j]);
            }
        }
    }
    found || hit
}

/// The pattern and flags of a regex key: after `regex::`, up to the next `::`,
/// and what follows it (no flags when there is no second `::`).
pub open spec fn regex_parts(k: Seq<char>) -> (Seq<char>, Seq<char>) {
    let q = colons_from(k, 7);
    if q < 0 {
        (k.subrange(7, k.len() as int), Seq::empty())
    } else {
        (k.subrange(7, q), k.subrange(q + 2, k.len() as int))
    }
}

/// The flags in force: `i` is added when case is ignored and not already there.
pub open spec fn effective_flags(f: Seq<char>, case_sensitive: bool) -> Seq<char> {
    if !case_sensitive && !f.contains('i') {
        f.push('i')
    } else {
        f
    }
}

/// The regular expression that a regex key compiles to.
pub open spec fn regex_key_source(k: Seq<char>, case_sensitive: bool) -> Seq<char> {
    flagged_source(regex_parts(k).0, effective_flags(regex_parts(k).1, case_sensitive))
}

pub proof fn lemma_colons_from(s: Seq<char>, i: int)
    requires
        0 <= i,
    ensures
        colons_from(s, i) == -1 || (i <= colons_from(s, i) && colons_from(s, i) + 1 < s.len()),
    decreases s.len() - i,
{
    if i + 1 < s.len() && !(s[i] == ':' && s[i + 1] == ':') {
        lemma_colons_from(s, i + 1);
    }
}

/// The regular expression for a regex key.
pub fn regex_source_of(k: &str, case_sensitive: bool) -> (r: String)
    requires
        has_prefix(k@, regex_prefix()),
    ensures
        r@ == regex_key_source(k@, case_sensitive),
{
    proof {
        reveal_strlit("regex::");
        lemma_colons_from(k@, 7);
    }
    let n = k.unicode_len();
    let (pattern, flags) = match find_colons(k, 7) {
        Some(q) => (slice(k, 7, q), slice(k, q + 2, n)),
        None => (slice(k, 7, n), String::new()),
    };
    let flags = if !case_sensitive && !has_char(flags.as_str(), 'i') {
        let mut f = flags;
        f.append("i");
        proof {
            reveal_strlit("i");
        }
        f
    } else {
        flags
    };
    assert(flags@ =~= effective_flags(regex_parts(k@).1, case_sensitive));
    create_regex(pattern.as_str(), flags.as_str())
}

/// The stages that test each key of a group against the value.
#[derive(Clone, Copy, Debug, PartialEq, Eq, Structural)]
pub enum Stage {
    Any,
    Not,
    Regex,
    Wildcard,
}

pub open spec fn stage_kind(stage: Stage) -> KeyKind {
    match stage {
        Stage::Any => KeyKind::Any,
        Stage::Not => KeyKind::Not,
        Stage::Regex => KeyKind::Regex,
        Stage::Wildcard => KeyKind::Wildcard,
    }
}

/// Whether key `k` of the group of `stage` matches `v`. A set pattern matches
/// when one of its tokens equals `v`, a negated one when none does, a regex key
/// when its expression matches `v`'s text, and a glob only a string value, whole.
pub open spec fn stage_hits(stage: Stage, k: Seq<char>, v: Value, case_sensitive: bool) -> bool {
    match stage {
        Stage::Any => payload_hits(k.subrange(5, k.len() as int), v, case_sensitive),
        Stage::Not => !payload_hits(k.subrange(5, k.len() as int), v, case_sensitive),
        Stage::Regex => regex_hits(regex_key_source(k, case_sensitive), text_of(v)),
        Stage::Wildcard => v is Str && regex_hits(glob_source(k, case_sensitive), text_of(v)),
    }
}

/// The first position in `ws`, from `j` on, whose handler can be called and
/// whose key matches `v` at `stage`.
pub open spec fn first_hit(es: Entries, ws: Seq<usize>, j: int, stage: Stage, v: Value, case_sensitive: bool) -> Option<usize>
    decreases ws.len() - j,
{
    if j < 0 || j >= ws.len() {
        None
    } else if es[ws[j] as int].1 && stage_hits(stage, es[ws[j] as int].0, v, case_sensitive) {
        Some(ws[j])
    } else {
        first_hit(es, ws, j + 1, stage, v, case_sensitive)
    }
}

fn key_hits(stage: Stage, k: &str, v: &Value, text: &str, case_sensitive: bool) -> (r: bool)
    requires
        kind_of(k@) == stage_kind(stage),
        text@ == text_of(*v),
    ensures
        r == stage_hits(stage, k@, *v, case_sensitive),
{
    proof {
        reveal_strlit("any::");
        reveal_strlit("not::");
    }
    let n = k.unicode_len();
    match stage {
        Stage::Any => payload_matches(slice(k, 5, n).as_str(), v, case_sensitive),
        Stage::Not => !payload_matches(slice(k, 5, n).as_str(), v, case_sensitive),
        Stage::Regex => regex_is_match(regex_source_of(k, case_sensitive).as_str(), text),
        Stage::Wildcard => match v {
            Value::Str(s) => regex_is_match(wildcard_to_regex(k, case_sensitive).as_str(), s.as_str()),
            _ => false,
        },
    }
}

/// Every position of `ws` holds a key of kind `kind`.
pub open spec fn all_of_kind(ws: Seq<usize>, es: Entries, kind: KeyKind) -> bool {
    forall|j: int| 0 <= j < ws.len() ==> kind_of(es[#[trigger] ws[j] as int].0) == kind
}

fn scan(set: &PatternSet, ws: &Vec<usize>, stage: Stage, v: &Value, text: &str, case_sensitive: bool) -> (r: Option<usize>)
    requires
        in_bounds(ws@, set@),
        all_of_kind(ws@, set@, stage_kind(stage)),
        text@ == text_of(*v),
    ensures
        r == first_hit(set@, ws@, 0, stage, *v, case_sensitive),
        r matches Some(e) ==> e < set@.len(),
{
    let mut j: usize = 0;
    while j < ws.len()
        invariant
            j <= ws@.len(),
            in_bounds(ws@, set@),
            all_of_kind(ws@, set@, stage_kind(stage)),
            text@ == text_of(*v),
            first_hit(set@, ws@, j as int, stage, *v, case_sensitive) == first_hit(set@, ws@, 0, stage, *v, case_sensitive),
        decreases ws@.len() - j,
    {
        let e = ws[j];
        if set.is_callable(e) && key_hits(stage, set.key(e), v, text, case_sensitive) {
            return Some(e);
        }
        j += 1;
    }
    None
}

/// What dispatch decides: run the handler at a position; ask the predicate
/// registered under a name, for the entry at a position; or report that nothing matched.
pub enum Outcome {
    Invoke(usize),
    Ask(usize, Seq<char>),
    NoMatch(Seq<char>),
}

/// What dispatch decides, as values.
#[derive(Debug, PartialEq, Eq)]
pub enum Step {
    /// Run the handler of the entry at this position and return what it returns.
    Invoke(usize),
    /// Call the predicate registered under the name with the value, then
    /// dispatch again with one more answer: whether it returned `true`.
    Ask(usize, String),
    /// No pattern matched; the message names the value and every key.
    NoMatch(String),
}

impl View for Step {
    type V = Outcome;

    open spec fn view(&self) -> Outcome {
        match self {
            Step::Invoke(i) => Outcome::Invoke(*i),
            Step::Ask(i, n) => Outcome::Ask(*i, n@),
            Step::NoMatch(m) => Outcome::NoMatch(m@),
        }
    }
}

/// The name after `when::`.
pub open spec fn when_name(k: Seq<char>) -> Seq<char> {
    k.subrange(6, k.len() as int)
}

/// The predicate stage, from position `j` of the group, with `a` answers used.
/// `when::true` matches, `when::false` never does, and any other name takes the
/// next answer, or asks for it when there is none left.
pub open spec fn when_walk(es: Entries, ws: Seq<usize>, j: int, answers: Seq<bool>, a: int) -> Option<Outcome>
    decreases ws.len() - j,
{
    if j < 0 || j >= ws.len() {
        None
    } else {
        let e = ws[j];
        let name = when_name(es[e as int].0);
        if name == "true"@ {
            if es[e as int].1 {
                Some(Outcome::Invoke(e))
            } else {
                when_walk(es, ws, j + 1, answers, a)
            }
        } else if name == "false"@ {
            when_walk(es, ws, j + 1, answers, a)
        } else if a < 0 || a >= answers.len() {
            Some(Outcome::Ask(e, name))
        } else if answers[a] && es[e as int].1 {
            Some(Outcome::Invoke(e))
        } else {
            when_walk(es, ws, j + 1, answers, a + 1)
        }
    }
}

fn walk_predicates(set: &PatternSet, ws: &Vec<usize>, answers: &Vec<bool>) -> (r: Option<Step>)
    requires
        in_bounds(ws@, set@),
        all_of_kind(ws@, set@, KeyKind::When),
    ensures
        r is None <==> when_walk(set@, ws@, 0, answers@, 0) is None,
        r matches Some(s) ==> when_walk(set@, ws@, 0, answers@, 0) == Some(s@),
        r matches Some(Step::Invoke(e)) ==> e < set@.len(),
{
    let mut j: usize = 0;
    let mut a: usize = 0;
    while j < ws.len()
        invariant
            j <= ws@.len(),
            a <= answers@.len(),
            in_bounds(ws@, set@),
            all_of_kind(ws@, set@, KeyKind::When),
            when_walk(set@, ws@, j as int, answers@, a as int) == when_walk(set@, ws@, 0, answers@, 0),
        decreases ws@.len() - j,
    {
        let e = ws[j];
        let k = set.key(e);
        proof {
            reveal_strlit("when::");
        }
        let name = slice(k, 6, k.unicode_len());
        if text_eq(name.as_str(), "true") {
            if set.is_callable(e) {
                return Some(Step::Invoke(e));
            }
        } else if text_eq(name.as_str(), "false") {
        } else if a >= answers.len() {
            return Some(Step::Ask(e, name));
        } else {
            if answers[a] && set.is_callable(e) {
                return Some(Step::Invoke(e));
            }
            a += 1;
        }
        j += 1;
    }
    None
}

/// Texts joined with `, ` between them.
pub open spec fn join_comma(parts: Seq<Seq<char>>) -> Seq<char>
    decreases parts.len(),
{
    if parts.len() == 0 {
        Seq::empty()
    } else if parts.len() == 1 {
        parts[0]
    } else {
        join_comma(parts.drop_last()) + seq![',', ' '] + parts.last()
    }
}

/// The keys of a pattern set, in order.
pub open spec fn keys_of(es: Entries) -> Seq<Seq<char>> {
    es.map_values(|e: (Seq<char>, bool)| e.0)
}

/// The report when nothing matched: the value's text and every key tried.
pub open spec fn no_match_message(text: Seq<char>, es: Entries) -> Seq<char> {
    "No pattern matched for: "@ + text + ". Attempted patterns: "@ + join_comma(keys_of(es))
}

fn no_match(text: &str, set: &PatternSet) -> (r: String)
    ensures
        r@ == no_match_message(text@, set@),
{
    let mut r = String::from_str("No pattern matched for: ");
    r.append(text);
    r.append(". Attempted patterns: ");
    let ghost head = r@;
    let n = set.len();
    let mut i: usize = 0;
    while i < n
        invariant
            n == set@.len(),
            i <= n,
            r@ == head + join_comma(keys_of(set@).subrange(0, i as int)),
        decreases n - i,
    {
        proof {
            reveal_strlit(", ");
        }
        let ghost pre = keys_of(set@).subrange(0, i as int);
        assert(keys_of(set@).subrange(0, i + 1).drop_last() =~= pre);
        if i > 0 {
            r.append(", ");
        }
        r.append(set.key(i));
        assert(r@ =~= head + join_comma(keys_of(set@).subrange(0, i + 1)));
        i += 1;
    }
    assert(keys_of(set@).subrange(0, n as int) =~= keys_of(set@));
    r
}

/// The stages after the predicate stage: sets, negated sets, regular
/// expressions, globs (most specific first), then the default key.
pub open spec fn later_stages(v: Value, es: Entries, case_sensitive: bool) -> Outcome {
    let any = first_hit(es, group(es, KeyKind::Any), 0, Stage::Any, v, case_sensitive);
    let not = first_hit(es, group(es, KeyKind::Not), 0, Stage::Not, v, case_sensitive);
    let rx = first_hit(es, group(es, KeyKind::Regex), 0, Stage::Regex, v, case_sensitive);
    let glob = first_hit(es, by_specificity(group(es, KeyKind::Wildcard), es), 0, Stage::Wildcard, v, case_sensitive);
    if any is Some {
        Outcome::Invoke(any->0)
    } else if not is Some {
        Outcome::Invoke(not->0)
    } else if rx is Some {
        Outcome::Invoke(rx->0)
    } else if glob is Some {
        Outcome::Invoke(glob->0)
    } else if handler_at(es, default_key()) is Some {
        Outcome::Invoke(handler_at(es, default_key())->0)
    } else {
        Outcome::NoMatch(no_match_message(text_of(v), es))
    }
}

/// The handler for presence: `__SOME__` for a value that is neither null nor
/// undefined, `__NONE__` for one that is.
pub open spec fn presence_handler(v: Value, es: Entries) -> Option<usize> {
    if v is Null || v is Undefined {
        handler_at(es, none_key())
    } else {
        handler_at(es, some_key())
    }
}

/// What dispatch decides for `v` against the entries `es`, given the answers of
/// the predicates asked so far. Only entries whose handler can be called are taken.
pub open spec fn dispatch(v: Value, es: Entries, case_sensitive: bool, answers: Seq<bool>) -> Outcome {
    let presence = presence_handler(v, es);
    let exact = handler_at(es, text_of(v));
    let pred = when_walk(es, group(es, KeyKind::When), 0, answers, 0);
    if presence is Some {
        Outcome::Invoke(presence->0)
    } else if exact is Some {
        Outcome::Invoke(exact->0)
    } else if pred is Some {
        pred->0
    } else {
        later_stages(v, es, case_sensitive)
    }
}

proof fn lemma_groups_ready(es: Entries)
    requires
        es.len() <= usize::MAX,
    ensures
        in_bounds(group(es, KeyKind::When), es),
        all_of_kind(group(es, KeyKind::When), es, KeyKind::When),
        in_bounds(group(es, KeyKind::Any), es),
        all_of_kind(group(es, KeyKind::Any), es, KeyKind::Any),
        in_bounds(group(es, KeyKind::Not), es),
        all_of_kind(group(es, KeyKind::Not), es, KeyKind::Not),
        in_bounds(group(es, KeyKind::Regex), es),
        all_of_kind(group(es, KeyKind::Regex), es, KeyKind::Regex),
{
    lemma_group_upto(es, KeyKind::When, es.len() as int);
    lemma_group_upto(es, KeyKind::Any, es.len() as int);
    lemma_group_upto(es, KeyKind::Not, es.len() as int);
    lemma_group_upto(es, KeyKind::Regex, es.len() as int);
}

proof fn lemma_wildcards_ready(es: Entries)
    requires
        es.len() <= usize::MAX,
    ensures
        in_bounds(by_specificity(group(es, KeyKind::Wildcard), es), es),
        all_of_kind(by_specificity(group(es, KeyKind::Wildcard), es), es, KeyKind::Wildcard),
{
    let g = group(es, KeyKind::Wildcard);
    lemma_group_upto(es, KeyKind::Wildcard, es.len() as int);
    lemma_by_specificity_in_bounds(g, es);
    crate::classify::lemma_by_specificity_members(g, es);
    let s = by_specificity(g, es);
    assert forall|j: int| 0 <= j < s.len() implies kind_of(es[#[trigger] s[j] as int].0) == KeyKind::Wildcard by {
        assert(s.contains(s[j]));
        assert(g.contains(s[j]));
        let k = choose|k: int| 0 <= k < g.len() && g[k] == s[j];
    }
}

/// Picks the entry of `patterns` whose handler runs for `value`, stage by stage:
/// presence, the exact text, predicates, sets, negated sets, regular
/// expressions, globs, the default key. `answers` are the answers of the
/// predicates asked so far, in the order they were asked.
pub fn match_pattern(value: &Value, patterns: &PatternSet, case_sensitive: bool, answers: &Vec<bool>) -> (r: Step)
    ensures
        r@ == dispatch(*value, patterns@, case_sensitive, answers@),
        r matches Step::Invoke(i) ==> i < patterns@.len(),
{
    let es = Ghost(patterns@);
    let _ = patterns.len();
    let nullish = matches!(value, Value::Null) || matches!(value, Value::Undefined);
    let presence = if nullish {
        patterns.handler_of("__NONE__")
    } else {
        patterns.handler_of("__SOME__")
    };
    if let Some(i) = presence {
        return Step::Invoke(i);
    }
    let text = get_string_value(value);
    if let Some(i) = patterns.handler_of(text.as_str()) {
        return Step::Invoke(i);
    }
    let groups = PatternGroups::from_set(patterns);
    proof {
        lemma_groups_ready(es@);
        lemma_wildcards_ready(es@);
    }
    if let Some(s) = walk_predicates(patterns, &groups.predicate, answers) {
        return s;
    }
    if let Some(i) = scan(patterns, &groups.any, Stage::Any, value, text.as_str(), case_sensitive) {
        return Step::Invoke(i);
    }
    if let Some(i) = scan(patterns, &groups.not, Stage::Not, value, text.as_str(), case_sensitive) {
        return Step::Invoke(i);
    }
    if let Some(i) = scan(patterns, &groups.regex, Stage::Regex, value, text.as_str(), case_sensitive) {
        return Step::Invoke(i);
    }
    if let Some(i) = scan(patterns, &groups.wildcard, Stage::Wildcard, value, text.as_str(), case_sensitive) {
        return Step::Invoke(i);
    }
    if let Some(i) = patterns.handler_of("_") {
        return Step::Invoke(i);
    }
    Step::NoMatch(no_match(text.as_str(), patterns))
}

/// What a one-pattern test decides: ask a predicate first, or an answer.
pub enum VerdictView {
    Ask(Seq<char>),
    Decided(bool),
}

/// What a one-pattern test decides, as values.
#[derive(Debug, PartialEq, Eq)]
pub enum Verdict {
    /// Call the predicate registered under this name with the value, then test
    /// again with one more answer.
    Ask(String),
    /// `true` when the pattern matched, `false` when the fallback was taken.
    Decided(bool),
}

impl View for Verdict {
    type V = VerdictView;

    open spec fn view(&self) -> VerdictView {
        match self {
            Verdict::Ask(n) => VerdictView::Ask(n@),
            Verdict::Decided(b) => VerdictView::Decided(*b),
        }
    }
}

/// The entries of a one-pattern test: the pattern's key, then the default key
/// (one entry when the pattern's key is the default key itself).
pub open spec fn pair_entries(k: Seq<char>) -> Entries {
    if k == default_key() {
        seq![(k, true)]
    } else {
        seq![(k, true), (default_key(), true)]
    }
}

/// How a dispatch over a one-pattern test reads: the pattern matched when a
/// handler other than the default one was picked.
pub open spec fn verdict_of(o: Outcome, es: Entries) -> VerdictView {
    match o {
        Outcome::Invoke(i) => VerdictView::Decided(es[i as int].0 != default_key()),
        Outcome::Ask(_, n) => VerdictView::Ask(n),
        Outcome::NoMatch(_) => VerdictView::Decided(false),
    }
}

/// The pattern set of a one-pattern test for key `k`.
pub fn pattern_pair(k: &str) -> (r: PatternSet)
    ensures
        r@ == pair_entries(k@),
{
    let mut set = PatternSet::new();
    set.insert(k, true);
    assert(set@ =~= seq![(k@, true)]);
    proof {
        reveal_strlit("_");
        crate::patterns::lemma_lookup_from(set@, "_"@, 0);
    }
    set.insert("_", true);
    if text_eq(k, "_") {
        assert(set@ =~= pair_entries(k@));
    } else {
        assert(set@ =~= pair_entries(k@));
    }
    set
}

fn test_one(value: &Value, pattern: &Value, case_sensitive: bool, answers: &Vec<bool>) -> (r: Verdict)
    ensures
        r@ == verdict_of(dispatch(*value, pair_entries(text_of(*pattern)), case_sensitive, answers@), pair_entries(text_of(*pattern))),
{
    let key = get_string_value(pattern);
    let set = pattern_pair(key.as_str());
    match match_pattern(value, &set, case_sensitive, answers) {
        Step::Invoke(i) => {
            Verdict::Decided(!text_eq(set.key(i), "_"))
        },
        Step::Ask(_, name) => Verdict::Ask(name),
        Step::NoMatch(_) => Verdict::Decided(false),
    }
}

/// Whether `value` matches `pattern`: the pattern's text form is taken as a key,
/// with the default key as the fallback.
pub fn matches(value: &Value, pattern: &Value, case_sensitive: bool, answers: &Vec<bool>) -> (r: Verdict)
    ensures
        r@ == verdict_of(dispatch(*value, pair_entries(text_of(*pattern)), case_sensitive, answers@), pair_entries(text_of(*pattern))),
{
    test_one(value, pattern, case_sensitive, answers)
}

/// Whether the handler bound to `pattern` runs for `value` (`Decided(true)`),
/// or the fallback that yields undefined (`Decided(false)`). Case counts.
pub fn if_let(value: &Value, pattern: &Value, answers: &Vec<bool>) -> (r: Verdict)
    ensures
        r@ == verdict_of(dispatch(*value, pair_entries(text_of(*pattern)), true, answers@), pair_entries(text_of(*pattern))),
{
    test_one(value, pattern, true, answers)
}

} // verus!
