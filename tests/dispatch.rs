use match_kit::patterns::PatternSet;
use match_kit::{any, if_let, match_pattern, not, regex, Condition, Step, Value, Verdict};

fn num(x: f64) -> Value {
    Value::Number(x.to_string())
}

fn st(s: &str) -> Value {
    Value::Str(s.to_string())
}

fn set_of(keys: &[&str]) -> PatternSet {
    let mut set = PatternSet::new();
    for k in keys {
        set.insert(k, true);
    }
    set
}

fn picked(v: &Value, set: &PatternSet, cs: bool) -> String {
    match match_pattern(v, set, cs, &vec![]) {
        Step::Invoke(i) => set.key(i).to_string(),
        Step::Ask(_, name) => format!("ask {}", name),
        Step::NoMatch(m) => format!("none: {}", m),
    }
}

#[test]
fn test_match_pattern_exact() {
    let set = set_of(&["foo"]);
    assert_eq!(picked(&st("foo"), &set, true), "foo");
}

#[test]
fn end_to_end_four_subjects() {
    let any_one = any(&vec![num(1.0)]).unwrap();
    let rx = regex("^foo.*", None).unwrap();
    let set = set_of(&["foo", &any_one, &rx, "_"]);
    assert_eq!(picked(&st("foo"), &set, true), "foo");
    assert_eq!(picked(&num(1.0), &set, true), any_one);
    assert_eq!(picked(&st("foobar"), &set, true), rx);
    assert_eq!(picked(&num(999.0), &set, true), "_");
}

#[test]
fn exact_key_beats_default() {
    for v in [st("abc"), num(2.5), Value::Boolean(true), Value::Null, Value::Undefined] {
        let k = match_kit::value::get_string_value(&v);
        let set = set_of(&[&k, "_"]);
        assert_eq!(match_pattern(&v, &set, true, &vec![]), Step::Invoke(0));
    }
}

#[test]
fn presence_dominates() {
    let any_foo = any(&vec![st("foo")]).unwrap();
    let set = set_of(&["foo", &any_foo, "__SOME__", "__NONE__"]);
    assert_eq!(picked(&st("foo"), &set, true), "__SOME__");
    assert_eq!(picked(&Value::Null, &set, true), "__NONE__");
    assert_eq!(picked(&Value::Undefined, &set, true), "__NONE__");
}

#[test]
fn fewer_wildcards_first() {
    let set = set_of(&["a*?", "ab*", "*"]);
    assert_eq!(picked(&st("abc"), &set, true), "ab*");
    let set = set_of(&["a**", "a?c"]);
    assert_eq!(picked(&st("abc"), &set, true), "a?c");
    let set = set_of(&["x*", "a*"]);
    assert_eq!(picked(&st("abc"), &set, true), "a*");
    let set = set_of(&["*", "a?c"]);
    assert_eq!(picked(&st("abc"), &set, true), "*");
}

#[test]
fn globs_need_string_subjects() {
    let set = set_of(&["1*", "_"]);
    assert_eq!(picked(&num(12.0), &set, true), "_");
    assert_eq!(picked(&st("12"), &set, true), "1*");
    let rx = regex("^1", None).unwrap();
    let set = set_of(&[&rx, "_"]);
    assert_eq!(picked(&num(12.0), &set, true), rx);
    let rx = regex("^tr", None).unwrap();
    let set = set_of(&[&rx]);
    assert_eq!(picked(&Value::Boolean(true), &set, true), rx);
}

#[test]
fn predicates() {
    let t = match_kit::keys::when(&Condition::Literal(true)).unwrap();
    let f = match_kit::keys::when(&Condition::Literal(false)).unwrap();
    let p = match_kit::keys::when(&Condition::Predicate(42)).unwrap();
    let set = set_of(&[&t]);
    assert_eq!(picked(&st("x"), &set, true), t);
    let set = set_of(&[&f, "_"]);
    assert_eq!(picked(&st("x"), &set, true), "_");
    let set = set_of(&[&f, &p, "_"]);
    assert_eq!(match_pattern(&st("x"), &set, true, &vec![]), Step::Ask(1, "42".to_string()));
    assert_eq!(match_pattern(&st("x"), &set, true, &vec![true]), Step::Invoke(1));
    assert_eq!(match_pattern(&st("x"), &set, true, &vec![false]), Step::Invoke(2));
}

#[test]
fn predicates_are_asked_in_order() {
    let p1 = match_kit::keys::when(&Condition::Predicate(1)).unwrap();
    let p2 = match_kit::keys::when(&Condition::Predicate(2)).unwrap();
    let set = set_of(&[&p1, &p2]);
    assert_eq!(match_pattern(&Value::Null, &set, true, &vec![]), Step::Ask(0, "1".to_string()));
    assert_eq!(match_pattern(&Value::Null, &set, true, &vec![false]), Step::Ask(1, "2".to_string()));
    assert_eq!(match_pattern(&Value::Null, &set, true, &vec![false, true]), Step::Invoke(1));
}

#[test]
fn case_insensitive_option() {
    let set = set_of(&["FOO", "foo"]);
    assert_eq!(picked(&st("foo"), &set, true), "foo");
    assert_eq!(picked(&st("foo"), &set, false), "foo");
    let any_foo = any(&vec![st("FOO")]).unwrap();
    let set = set_of(&[&any_foo]);
    assert!(picked(&st("foo"), &set, true).starts_with("none: "));
    assert_eq!(picked(&st("foo"), &set, false), any_foo);
    let rx = regex("^FOO$", None).unwrap();
    let set = set_of(&[&rx]);
    assert!(picked(&st("foo"), &set, true).starts_with("none: "));
    assert_eq!(picked(&st("foo"), &set, false), rx);
    let set = set_of(&["F*"]);
    assert!(picked(&st("foo"), &set, true).starts_with("none: "));
    assert_eq!(picked(&st("foo"), &set, false), "F*");
}

#[test]
fn empty_set_reports_no_keys() {
    let set = PatternSet::new();
    assert_eq!(
        match_pattern(&st("x"), &set, true, &vec![]),
        Step::NoMatch("No pattern matched for: x. Attempted patterns: ".to_string())
    );
}

#[test]
fn no_match_lists_every_key() {
    let set = set_of(&["a", "b*", "__SOME__"]);
    let mut set2 = set;
    set2.insert("__SOME__", false);
    assert_eq!(
        match_pattern(&num(7.0), &set2, true, &vec![]),
        Step::NoMatch("No pattern matched for: 7. Attempted patterns: a, b*, __SOME__".to_string())
    );
}

#[test]
fn negated_sets() {
    let not_one = not(&vec![num(1.0), num(2.0)]).unwrap();
    let set = set_of(&[&not_one, "_"]);
    assert_eq!(picked(&num(3.0), &set, true), not_one);
    assert_eq!(picked(&num(2.0), &set, true), "_");
    assert_eq!(picked(&st("1"), &set, true), not_one);
}

#[test]
fn uncallable_handlers_are_passed_over() {
    let mut set = set_of(&["foo", "f*"]);
    set.insert("foo", false);
    assert_eq!(set.len(), 2);
    assert_eq!(picked(&st("foo"), &set, true), "f*");
}

#[test]
fn one_pattern_tests() {
    assert_eq!(match_kit::engine::matches(&st("abc"), &st("a*"), true, &vec![]), Verdict::Decided(true));
    assert_eq!(match_kit::engine::matches(&st("xbc"), &st("a*"), true, &vec![]), Verdict::Decided(false));
    assert_eq!(match_kit::engine::matches(&st("ABC"), &st("a*"), false, &vec![]), Verdict::Decided(true));
    assert_eq!(match_kit::engine::matches(&num(5.0), &num(5.0), true, &vec![]), Verdict::Decided(true));
    assert_eq!(match_kit::engine::matches(&st("_"), &st("_"), true, &vec![]), Verdict::Decided(false));
    let p = match_kit::keys::when(&Condition::Predicate(9)).unwrap();
    assert_eq!(match_kit::engine::matches(&st("x"), &st(&p), true, &vec![]), Verdict::Ask("9".to_string()));
    assert_eq!(match_kit::engine::matches(&st("x"), &st(&p), true, &vec![true]), Verdict::Decided(true));
    assert_eq!(if_let(&st("abc"), &st("abc"), &vec![]), Verdict::Decided(true));
    assert_eq!(if_let(&st("ABC"), &st("abc"), &vec![]), Verdict::Decided(false));
}
