//! Properties of dispatch, stated over its specification and proved.
use vstd::prelude::*;

use crate::classify::{by_specificity, count_at, glob_count, group, group_upto, lemma_by_specificity_ascending,
    lemma_by_specificity_members, lemma_group_upto};
use crate::engine::{dispatch, first_hit, keys_of, later_stages, pair_entries, presence_handler, regex_key_source,
    lemma_split_bar_len, payload_hits, split_bar, stage_hits, verdict_of, when_name, when_walk, Outcome, Stage,
    VerdictView};
use crate::keys::{any_prefix, decimal, default_key, join_bar, kind_of, none_key, not_prefix, set_error, some_key,
    tokens_of, when_prefix, KeyKind};
use crate::re::regex_hits;
use crate::patterns::{handler_at, lemma_lookup_from, lookup, Entries};
use crate::value::{is_scalar, lemma_token_round_trip, text_of, token_matches, token_of, value_eq, Value};

verus! {

/// A handler found for key `k` sits at a position that holds `k`.
pub proof fn lemma_handler_at(es: Entries, k: Seq<char>)
    requires
        es.len() <= usize::MAX,
    ensures
        handler_at(es, k) matches Some(i) ==> i < es.len() && es[i as int].0 == k && es[i as int].1,
{
    lemma_lookup_from(es, k, 0);
}

/// A position that `first_hit` returns is in the list, its handler can be
/// called, its key matches, and no earlier position from `j` on does both.
pub proof fn lemma_first_hit(es: Entries, ws: Seq<usize>, j: int, stage: Stage, v: Value, case_sensitive: bool)
    requires
        0 <= j,
    ensures
        first_hit(es, ws, j, stage, v, case_sensitive) matches Some(x) ==> exists|k: int|
            j <= k < ws.len() && ws[k] == x && es[x as int].1 && stage_hits(stage, es[x as int].0, v, case_sensitive)
                && forall|m: int| j <= m < k ==> !(es[ws[m] as int].1 && stage_hits(stage, es[ws[m] as int].0, v, case_sensitive)),
        first_hit(es, ws, j, stage, v, case_sensitive) is None ==> forall|m: int| j <= m < ws.len() ==>
            !(es[ws[m] as int].1 && stage_hits(stage, es[#[trigger] ws[m] as int].0, v, case_sensitive)),
    decreases ws.len() - j,
{
    if j < ws.len() && !(es[ws[j] as int].1 && stage_hits(stage, es[ws[j] as int].0, v, case_sensitive)) {
        lemma_first_hit(es, ws, j + 1, stage, v, case_sensitive);
        if let Some(x) = first_hit(es, ws, j, stage, v, case_sensitive) {
            let k = choose|k: int|
                j + 1 <= k < ws.len() && ws[k] == x && es[x as int].1 && stage_hits(stage, es[x as int].0, v, case_sensitive)
                    && forall|m: int| j + 1 <= m < k ==> !(es[ws[m] as int].1 && stage_hits(stage, es[ws[m] as int].0, v, case_sensitive));
            assert(forall|m: int| j <= m < k ==> !(es[ws[m] as int].1 && stage_hits(stage, es[ws[m] as int].0, v, case_sensitive)));
        }
    } else if j < ws.len() {
        assert(forall|m: int| j <= m < j ==> !(es[ws[m] as int].1 && stage_hits(stage, es[ws[m] as int].0, v, case_sensitive)));
    }
}

/// An entry that the predicate stage picks is in the predicate group.
pub proof fn lemma_when_walk(es: Entries, ws: Seq<usize>, j: int, answers: Seq<bool>, a: int)
    requires
        0 <= j,
    ensures
        when_walk(es, ws, j, answers, a) matches Some(Outcome::Invoke(e)) ==> exists|k: int| j <= k < ws.len() && ws[k] == e,
    decreases ws.len() - j,
{
    if j < ws.len() {
        let e = ws[j];
        lemma_when_walk(es, ws, j + 1, answers, a);
        lemma_when_walk(es, ws, j + 1, answers, a + 1);
        if let Some(Outcome::Invoke(x)) = when_walk(es, ws, j, answers, a) {
            if x == e {
                assert(ws[j] == x);
            }
        }
    }
}

/// Presence handlers come first: a value that is neither null nor undefined goes
/// to a callable `__SOME__` handler, and null or undefined to a callable
/// `__NONE__` handler, whatever else the set holds.
pub proof fn lemma_presence_dominates(v: Value, es: Entries, case_sensitive: bool, answers: Seq<bool>)
    ensures
        !(v is Null || v is Undefined) && handler_at(es, some_key()) is Some ==> dispatch(v, es, case_sensitive, answers)
            == Outcome::Invoke(handler_at(es, some_key())->0),
        (v is Null || v is Undefined) && handler_at(es, none_key()) is Some ==> dispatch(v, es, case_sensitive, answers)
            == Outcome::Invoke(handler_at(es, none_key())->0),
{
}

/// With no keys at all, nothing matches, and the report names the value and no key.
pub proof fn lemma_empty_set_no_match(v: Value, case_sensitive: bool, answers: Seq<bool>)
    ensures
        dispatch(v, Seq::empty(), case_sensitive, answers) == Outcome::NoMatch(
            "No pattern matched for: "@ + text_of(v) + ". Attempted patterns: "@,
        ),
{
    let es: Entries = Seq::empty();
    assert(keys_of(es) =~= Seq::<Seq<char>>::empty());
    assert(group(es, KeyKind::Wildcard) =~= Seq::<usize>::empty());
    assert("No pattern matched for: "@ + text_of(v) + ". Attempted patterns: "@ + Seq::<char>::empty()
        =~= "No pattern matched for: "@ + text_of(v) + ". Attempted patterns: "@);
}

/// A value goes to the handler bound to its own text when the only other key is
/// the default one; a one-pattern test of a value against itself succeeds.
pub proof fn lemma_exact_key_dispatch(v: Value, case_sensitive: bool, answers: Seq<bool>)
    requires
        text_of(v) != default_key(),
    ensures
        dispatch(v, pair_entries(text_of(v)), case_sensitive, answers) == Outcome::Invoke(0),
        verdict_of(dispatch(v, pair_entries(text_of(v)), case_sensitive, answers), pair_entries(text_of(v)))
            == VerdictView::Decided(true),
{
    reveal_strlit("_");
    reveal_strlit("__SOME__");
    reveal_strlit("__NONE__");
    let es = pair_entries(text_of(v));
    assert(es[1].0 != some_key() && es[1].0 != none_key()) by {
        assert(es[1].0.len() != some_key().len());
    }
    lemma_handler_at(es, some_key());
    lemma_handler_at(es, none_key());
    lemma_handler_at(es, text_of(v));
    lemma_lookup_from(es, text_of(v), 0);
    assert(es[0].0 == text_of(v));
    assert(lookup(es, text_of(v)) == 0);
    if let Some(j) = presence_handler(v, es) {
        assert(j == 0);
    }
}

/// The groups and lookups of a set with one key.
pub proof fn lemma_single(k: Seq<char>)
    ensures
        forall|kind: KeyKind| #[trigger] group(seq![(k, true)], kind) == if kind_of(k) == kind {
            seq![0usize]
        } else {
            Seq::<usize>::empty()
        },
        forall|x: Seq<char>| #[trigger] handler_at(seq![(k, true)], x) == if x == k {
            Some(0usize)
        } else {
            None::<usize>
        },
        by_specificity(Seq::<usize>::empty(), seq![(k, true)]) == Seq::<usize>::empty(),
{
    let es: Entries = seq![(k, true)];
    assert forall|kind: KeyKind| #[trigger] group(es, kind) == if kind_of(k) == kind {
        seq![0usize]
    } else {
        Seq::<usize>::empty()
    } by {
        assert(group_upto(es, kind, 0) == Seq::<usize>::empty());
        if kind_of(k) == kind {
            assert(group_upto(es, kind, 1) =~= seq![0usize]);
        }
    }
    assert forall|x: Seq<char>| #[trigger] handler_at(es, x) == if x == k {
        Some(0usize)
    } else {
        None::<usize>
    } by {
        assert(crate::patterns::lookup_from(es, x, 1) == -1);
    }
}

/// `when(true)` matches every value.
pub proof fn lemma_when_true_matches(v: Value, case_sensitive: bool, answers: Seq<bool>)
    ensures
        dispatch(v, seq![(when_prefix() + "true"@, true)], case_sensitive, answers) == Outcome::Invoke(0),
{
    reveal_strlit("when::");
    reveal_strlit("true");
    reveal_strlit("__SOME__");
    reveal_strlit("__NONE__");
    reveal_strlit("_");
    let k = when_prefix() + "true"@;
    let es = seq![(k, true)];
    lemma_single(k);
    assert(k[0] != some_key()[0] && k[0] != none_key()[0] && k.len() != default_key().len());
    assert(k.subrange(0, 6) =~= when_prefix());
    assert(kind_of(k) == KeyKind::When);
    assert(when_name(k) =~= "true"@);
    assert(group(es, KeyKind::When) == seq![0usize]);
}

/// `when(false)` matches no value (but one whose text is the key itself).
pub proof fn lemma_when_false_never_matches(v: Value, case_sensitive: bool, answers: Seq<bool>)
    requires
        text_of(v) != when_prefix() + "false"@,
    ensures
        dispatch(v, seq![(when_prefix() + "false"@, true)], case_sensitive, answers) is NoMatch,
{
    reveal_strlit("when::");
    reveal_strlit("false");
    reveal_strlit("true");
    reveal_strlit("__SOME__");
    reveal_strlit("__NONE__");
    reveal_strlit("_");
    let k = when_prefix() + "false"@;
    let es = seq![(k, true)];
    lemma_single(k);
    assert(k[0] != some_key()[0] && k[0] != none_key()[0] && k.len() != default_key().len());
    assert(k.subrange(0, 6) =~= when_prefix());
    assert(kind_of(k) == KeyKind::When);
    assert(when_name(k) =~= "false"@);
    assert(when_name(k) != "true"@);
    let ws = group(es, KeyKind::When);
    assert(ws == seq![0usize]);
    assert(when_walk(es, ws, 1, answers, 0) is None);
    assert(when_walk(es, ws, 0, answers, 0) is None);
}

/// `when(predicate)` asks the predicate, then matches exactly when the answer is
/// `true`. A predicate that fails counts as the answer `false`.
pub proof fn lemma_when_predicate(v: Value, h: u64, case_sensitive: bool, answers: Seq<bool>)
    requires
        text_of(v) != when_prefix() + decimal(h as nat),
    ensures
        answers.len() == 0 ==> dispatch(v, seq![(when_prefix() + decimal(h as nat), true)], case_sensitive, answers)
            == Outcome::Ask(0, decimal(h as nat)),
        answers.len() > 0 && answers[0] ==> dispatch(v, seq![(when_prefix() + decimal(h as nat), true)], case_sensitive, answers)
            == Outcome::Invoke(0),
        answers.len() > 0 && !answers[0] ==> dispatch(v, seq![(when_prefix() + decimal(h as nat), true)], case_sensitive, answers) is NoMatch,
{
    reveal_strlit("when::");
    reveal_strlit("false");
    reveal_strlit("true");
    reveal_strlit("__SOME__");
    reveal_strlit("__NONE__");
    reveal_strlit("_");
    let d = decimal(h as nat);
    let k = when_prefix() + d;
    let es = seq![(k, true)];
    lemma_single(k);
    assert(k[0] != some_key()[0] && k[0] != none_key()[0]);
    assert(k.len() != default_key().len());
    assert(k.subrange(0, 6) =~= when_prefix());
    assert(kind_of(k) == KeyKind::When);
    assert(when_name(k) =~= d);
    assert(d.len() > 0 && '0' <= d.last() <= '9');
    assert(d != "true"@ && d != "false"@) by {
        if d == "true"@ {
            assert(d.last() == 'e');
        }
        if d == "false"@ {
            assert(d.last() == 'e');
        }
    }
    let ws = group(es, KeyKind::When);
    assert(ws == seq![0usize]);
    assert(when_walk(es, ws, 1, answers, 1) is None);
}

/// A regular-expression key is held against the value's text, whatever the
/// value's kind.
pub proof fn lemma_regex_reads_text(v: Value, k: Seq<char>, case_sensitive: bool, answers: Seq<bool>)
    requires
        kind_of(k) == KeyKind::Regex,
        text_of(v) != k,
    ensures
        (dispatch(v, seq![(k, true)], case_sensitive, answers) == Outcome::Invoke(0))
            == regex_hits(regex_key_source(k, case_sensitive), text_of(v)),
{
    lemma_single(k);
    let es = seq![(k, true)];
    assert(group(es, KeyKind::When) == Seq::<usize>::empty());
    assert(group(es, KeyKind::Regex) == seq![0usize]);
    assert(first_hit(es, seq![0usize], 1, Stage::Regex, v, case_sensitive) is None);
}

/// A glob key never takes a value that is not a string (one whose text is the
/// key itself goes to it as an exact key).
pub proof fn lemma_globs_need_strings(v: Value, es: Entries, case_sensitive: bool, answers: Seq<bool>, i: usize)
    requires
        es.len() <= usize::MAX,
        !(v is Str),
        i < es.len(),
        kind_of(es[i as int].0) == KeyKind::Wildcard,
        text_of(v) != es[i as int].0,
    ensures
        dispatch(v, es, case_sensitive, answers) != Outcome::Invoke(i),
{
    lemma_not_taken_before_globs(v, es, case_sensitive, answers, i);
    let ws = by_specificity(group(es, KeyKind::Wildcard), es);
    lemma_first_hit(es, ws, 0, Stage::Wildcard, v, case_sensitive);
}

/// An entry holding a glob is not taken by any stage before the glob stage,
/// unless its key is the value's text.
pub proof fn lemma_not_taken_before_globs(v: Value, es: Entries, case_sensitive: bool, answers: Seq<bool>, i: usize)
    requires
        es.len() <= usize::MAX,
        i < es.len(),
        kind_of(es[i as int].0) == KeyKind::Wildcard,
        text_of(v) != es[i as int].0,
    ensures
        dispatch(v, es, case_sensitive, answers) == Outcome::Invoke(i) ==> later_stages(v, es, case_sensitive) == Outcome::Invoke(i)
            && first_hit(es, group(es, KeyKind::Any), 0, Stage::Any, v, case_sensitive) is None
            && first_hit(es, group(es, KeyKind::Not), 0, Stage::Not, v, case_sensitive) is None
            && first_hit(es, group(es, KeyKind::Regex), 0, Stage::Regex, v, case_sensitive) is None
            && first_hit(es, by_specificity(group(es, KeyKind::Wildcard), es), 0, Stage::Wildcard, v, case_sensitive) == Some(i),
{
    lemma_handler_at(es, some_key());
    lemma_handler_at(es, none_key());
    lemma_handler_at(es, default_key());
    lemma_handler_at(es, text_of(v));
    lemma_group_upto(es, KeyKind::When, es.len() as int);
    lemma_group_upto(es, KeyKind::Any, es.len() as int);
    lemma_group_upto(es, KeyKind::Not, es.len() as int);
    lemma_group_upto(es, KeyKind::Regex, es.len() as int);
    let wg = group(es, KeyKind::When);
    lemma_when_walk(es, wg, 0, answers, 0);
    if let Some(Outcome::Invoke(e)) = when_walk(es, wg, 0, answers, 0) {
        let k = choose|k: int| 0 <= k < wg.len() && wg[k] == e;
        assert(kind_of(es[wg[k] as int].0) == KeyKind::When);
    }
    let ag = group(es, KeyKind::Any);
    let ng = group(es, KeyKind::Not);
    let rg = group(es, KeyKind::Regex);
    lemma_first_hit(es, ag, 0, Stage::Any, v, case_sensitive);
    lemma_first_hit(es, ng, 0, Stage::Not, v, case_sensitive);
    lemma_first_hit(es, rg, 0, Stage::Regex, v, case_sensitive);
    if let Some(x) = first_hit(es, ag, 0, Stage::Any, v, case_sensitive) {
        let k = choose|k: int| 0 <= k < ag.len() && ag[k] == x && es[x as int].1 && stage_hits(Stage::Any, es[x as int].0, v, case_sensitive)
            && forall|m: int| 0 <= m < k ==> !(es[ag[m] as int].1 && stage_hits(Stage::Any, es[ag[m] as int].0, v, case_sensitive));
        assert(kind_of(es[ag[k] as int].0) == KeyKind::Any);
    }
    if let Some(x) = first_hit(es, ng, 0, Stage::Not, v, case_sensitive) {
        let k = choose|k: int| 0 <= k < ng.len() && ng[k] == x && es[x as int].1 && stage_hits(Stage::Not, es[x as int].0, v, case_sensitive)
            && forall|m: int| 0 <= m < k ==> !(es[ng[m] as int].1 && stage_hits(Stage::Not, es[ng[m] as int].0, v, case_sensitive));
        assert(kind_of(es[ng[k] as int].0) == KeyKind::Not);
    }
    if let Some(x) = first_hit(es, rg, 0, Stage::Regex, v, case_sensitive) {
        let k = choose|k: int| 0 <= k < rg.len() && rg[k] == x && es[x as int].1 && stage_hits(Stage::Regex, es[x as int].0, v, case_sensitive)
            && forall|m: int| 0 <= m < k ==> !(es[rg[m] as int].1 && stage_hits(Stage::Regex, es[rg[m] as int].0, v, case_sensitive));
        assert(kind_of(es[rg[k] as int].0) == KeyKind::Regex);
    }
}

/// Of two glob keys that both match a string and whose handlers can be
/// called, the one with more `*` and `?` is not taken (unless its key is the
/// string itself, which the exact stage takes first).
pub proof fn lemma_fewer_wildcards_first(
    v: Value,
    es: Entries,
    case_sensitive: bool,
    answers: Seq<bool>,
    i1: usize,
    i2: usize,
)
    requires
        es.len() <= usize::MAX,
        i1 < es.len(),
        i2 < es.len(),
        kind_of(es[i1 as int].0) == KeyKind::Wildcard,
        kind_of(es[i2 as int].0) == KeyKind::Wildcard,
        es[i1 as int].1,
        stage_hits(Stage::Wildcard, es[i1 as int].0, v, case_sensitive),
        glob_count(es[i1 as int].0) < glob_count(es[i2 as int].0),
        text_of(v) != es[i2 as int].0,
    ensures
        dispatch(v, es, case_sensitive, answers) != Outcome::Invoke(i2),
{
    lemma_not_taken_before_globs(v, es, case_sensitive, answers, i2);
    let g = group(es, KeyKind::Wildcard);
    let ws = by_specificity(g, es);
    lemma_group_upto(es, KeyKind::Wildcard, es.len() as int);
    lemma_by_specificity_members(g, es);
    lemma_by_specificity_ascending(g, es);
    lemma_first_hit(es, ws, 0, Stage::Wildcard, v, case_sensitive);
    assert(g.contains(i1));
    assert(ws.contains(i1));
    let k1 = choose|k1: int| 0 <= k1 < ws.len() && ws[k1] == i1;
    if first_hit(es, ws, 0, Stage::Wildcard, v, case_sensitive) == Some(i2) {
        let k = choose|k: int| 0 <= k < ws.len() && ws[k] == i2 && es[i2 as int].1
            && stage_hits(Stage::Wildcard, es[i2 as int].0, v, case_sensitive)
            && forall|m: int| 0 <= m < k ==> !(es[ws[m] as int].1 && stage_hits(Stage::Wildcard, es[ws[m] as int].0, v, case_sensitive));
        if k1 < k {
            assert(es[ws[k1] as int].1 && stage_hits(Stage::Wildcard, es[ws[k1] as int].0, v, case_sensitive));
        } else {
            assert(k1 != k);
            assert(count_at(es, ws[k]) <= count_at(es, ws[k1]));
        }
    }
}

proof fn lemma_split_append(x: Seq<char>, y: Seq<char>)
    requires
        !y.contains('|'),
    ensures
        split_bar(x + y) == split_bar(x).update(split_bar(x).len() - 1, split_bar(x).last() + y),
    decreases y.len(),
{
    lemma_split_bar_len(x);
    let sx = split_bar(x);
    if y.len() == 0 {
        assert(x + y =~= x);
        assert(sx.last() + y =~= sx.last());
        assert(sx.update(sx.len() - 1, sx.last() + y) =~= sx);
    } else {
        let y2 = y.drop_last();
        assert(!y2.contains('|')) by {
            if y2.contains('|') {
                let j = choose|j: int| 0 <= j < y2.len() && y2[j] == '|';
                assert(y[j] == '|');
            }
        }
        lemma_split_append(x, y2);
        assert((x + y).drop_last() =~= x + y2);
        assert((x + y).last() == y.last());
        assert(y[y.len() - 1] != '|');
        assert((sx.last() + y2).push(y.last()) =~= sx.last() + y);
        assert(split_bar(x + y) =~= sx.update(sx.len() - 1, sx.last() + y));
    }
}

proof fn lemma_split_join(parts: Seq<Seq<char>>)
    requires
        parts.len() >= 1,
        forall|j: int| 0 <= j < parts.len() ==> !(#[trigger] parts[j]).contains('|'),
    ensures
        split_bar(join_bar(parts)) == parts,
    decreases parts.len(),
{
    if parts.len() == 1 {
        lemma_split_append(Seq::empty(), parts[0]);
        assert(Seq::<char>::empty() + parts[0] =~= parts[0]);
        assert(split_bar(Seq::<char>::empty()) =~= seq![Seq::<char>::empty()]);
        assert(split_bar(join_bar(parts)) =~= parts);
    } else {
        let d = parts.drop_last();
        lemma_split_join(d);
        let x = join_bar(d).push('|');
        assert(x.drop_last() =~= join_bar(d));
        assert(split_bar(x) == d.push(Seq::<char>::empty()));
        lemma_split_append(x, parts.last());
        assert(join_bar(parts) =~= x + parts.last());
        assert(Seq::<char>::empty() + parts.last() =~= parts.last());
        assert(split_bar(join_bar(parts)) =~= parts);
    }
}

/// A value whose text holds no `|`, which set patterns use between tokens. The
/// canonical text of a number never holds one.
pub open spec fn bar_free(v: Value) -> bool {
    match v {
        Value::Str(s) => !s@.contains('|'),
        Value::Number(t) => !t@.contains('|'),
        _ => true,
    }
}

proof fn lemma_token_bar_free(v: Value)
    requires
        bar_free(v),
        is_scalar(v),
    ensures
        !token_of(v).contains('|'),
{
    reveal_strlit("undefined");
    reveal_strlit("null");
    reveal_strlit("string");
    reveal_strlit("number");
    reveal_strlit("boolean");
    reveal_strlit("true");
    reveal_strlit("false");
    let t = token_of(v);
    if t.contains('|') {
        let j = choose|j: int| 0 <= j < t.len() && t[j] == '|';
        match v {
            Value::Str(s) => {
                if j >= 7 {
                    assert(s@[j - 7] == '|');
                }
            },
            Value::Number(n) => {
                if j >= 7 {
                    assert(n@[j - 7] == '|');
                }
            },
            _ => {},
        }
    }
}

/// A set pattern built from `vals` matches `v` exactly when `v` equals one of
/// them (strings without regard to ASCII case when case is ignored); a negated
/// set pattern exactly when it equals none. Values whose text holds `|` are
/// left out: the key's tokens are separated by that character.
pub proof fn lemma_set_patterns(vals: Seq<Value>, v: Value, case_sensitive: bool)
    requires
        set_error(vals) is None,
        forall|j: int| 0 <= j < vals.len() ==> bar_free(#[trigger] vals[j]),
    ensures
        stage_hits(Stage::Any, any_prefix() + join_bar(tokens_of(vals)), v, case_sensitive)
            == exists|j: int| 0 <= j < vals.len() && value_eq(#[trigger] vals[j], v, case_sensitive),
        stage_hits(Stage::Not, not_prefix() + join_bar(tokens_of(vals)), v, case_sensitive)
            == !exists|j: int| 0 <= j < vals.len() && value_eq(#[trigger] vals[j], v, case_sensitive),
{
    reveal_strlit("any::");
    reveal_strlit("not::");
    let ts = tokens_of(vals);
    let body = join_bar(ts);
    assert forall|j: int| 0 <= j < vals.len() implies is_scalar(#[trigger] vals[j]) by {
        if !is_scalar(vals[j]) {
            assert(exists|i: int| 0 <= i < vals.len() && !is_scalar(#[trigger] vals[i]));
        }
    }
    assert forall|j: int| 0 <= j < ts.len() implies !(#[trigger] ts[j]).contains('|') by {
        lemma_token_bar_free(vals[j]);
    }
    lemma_split_join(ts);
    let ka = any_prefix() + body;
    let kn = not_prefix() + body;
    assert(ka.subrange(5, ka.len() as int) =~= body);
    assert(kn.subrange(5, kn.len() as int) =~= body);
    assert(payload_hits(body, v, case_sensitive) == exists|j: int| 0 <= j < vals.len() && value_eq(#[trigger] vals[j], v, case_sensitive)) by {
        if payload_hits(body, v, case_sensitive) {
            let j = choose|j: int| 0 <= j < split_bar(body).len() && token_matches(#[trigger] split_bar(body)[j], v, case_sensitive);
            lemma_token_round_trip(vals[j], v, case_sensitive);
            assert(value_eq(vals[j], v, case_sensitive));
        }
        if exists|j: int| 0 <= j < vals.len() && value_eq(#[trigger] vals[j], v, case_sensitive) {
            let j = choose|j: int| 0 <= j < vals.len() && value_eq(#[trigger] vals[j], v, case_sensitive);
            lemma_token_round_trip(vals[j], v, case_sensitive);
            assert(token_matches(split_bar(body)[j], v, case_sensitive));
        }
    }
}

} // verus!
