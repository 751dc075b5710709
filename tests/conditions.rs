use story_beats::facts::FactsOfTheWorld;
use story_beats::rules::{Condition, Rule};

fn s(text: &str) -> String {
    text.to_string()
}

fn presses_more_than(n: i32) -> Condition {
    Condition::IntMoreThan { fact_name: s("button_pressed"), expected_value: n }
}

#[test]
fn enough_presses_rule() {
    let rule = Rule::new(s("Enough Presses"), vec![presses_more_than(3)]);
    let mut store = FactsOfTheWorld::new();
    assert!(!rule.evaluate(&store));
    assert_eq!(store.store_int(s("button_pressed"), 3), Ok(()));
    assert!(!rule.evaluate(&store));
    assert_eq!(store.store_int(s("button_pressed"), 4), Ok(()));
    assert!(rule.evaluate(&store));
}

#[test]
fn empty_rule_always_true() {
    let rule = Rule::new(s("Nothing"), Vec::new());
    let mut store = FactsOfTheWorld::new();
    assert!(rule.evaluate(&store));
    assert_eq!(store.store_bool(s("x"), false), Ok(()));
    assert!(rule.evaluate(&store));
}

#[test]
fn list_contains_absent_or_wrong_kind_is_false() {
    let cond = Condition::ListContains { fact_name: s("tags"), expected_value: s("a") };
    let mut store = FactsOfTheWorld::new();
    assert!(!cond.evaluate(&store));
    assert_eq!(store.store_string(s("tags"), s("a")), Ok(()));
    assert!(!cond.evaluate(&store));
    let mut other = FactsOfTheWorld::new();
    other.add_to_list(s("tags"), s("b"));
    assert!(!cond.evaluate(&other));
    other.add_to_list(s("tags"), s("a"));
    assert!(cond.evaluate(&other));
}

#[test]
fn each_condition_kind() {
    let mut store = FactsOfTheWorld::new();
    assert_eq!(store.store_int(s("n"), 5), Ok(()));
    assert_eq!(store.store_string(s("name"), s("Ada")), Ok(()));
    assert_eq!(store.store_bool(s("ready"), true), Ok(()));
    assert!(Condition::IntEquals { fact_name: s("n"), expected_value: 5 }.evaluate(&store));
    assert!(!Condition::IntEquals { fact_name: s("n"), expected_value: 4 }.evaluate(&store));
    assert!(Condition::IntLessThan { fact_name: s("n"), expected_value: 6 }.evaluate(&store));
    assert!(!Condition::IntLessThan { fact_name: s("n"), expected_value: 5 }.evaluate(&store));
    assert!(!Condition::IntMoreThan { fact_name: s("n"), expected_value: 5 }.evaluate(&store));
    assert!(Condition::StringEquals { fact_name: s("name"), expected_value: s("Ada") }.evaluate(&store));
    assert!(!Condition::StringEquals { fact_name: s("name"), expected_value: s("ada") }.evaluate(&store));
    assert!(Condition::BoolEquals { fact_name: s("ready"), expected_value: true }.evaluate(&store));
    assert!(!Condition::BoolEquals { fact_name: s("ready"), expected_value: false }.evaluate(&store));
    assert!(!Condition::IntEquals { fact_name: s("name"), expected_value: 5 }.evaluate(&store));
    assert!(!Condition::BoolEquals { fact_name: s("missing"), expected_value: false }.evaluate(&store));
}

#[test]
fn rule_is_a_conjunction() {
    let rule = Rule::new(
        s("Both"),
        vec![
            Condition::IntMoreThan { fact_name: s("n"), expected_value: 0 },
            Condition::BoolEquals { fact_name: s("ready"), expected_value: true },
        ],
    );
    let mut store = FactsOfTheWorld::new();
    assert_eq!(store.store_int(s("n"), 1), Ok(()));
    assert!(!rule.evaluate(&store));
    assert_eq!(store.store_bool(s("ready"), true), Ok(()));
    assert!(rule.evaluate(&store));
    let copy = rule.clone();
    assert_eq!(copy, rule);
}
