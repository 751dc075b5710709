use story_beats::facts::{Fact, FactError, FactsOfTheWorld};
use story_beats::strings::StringHashSet;

fn s(text: &str) -> String {
    text.to_string()
}

#[test]
fn add_to_int_counts_presses() {
    let mut store = FactsOfTheWorld::new();
    assert_eq!(store.store_int(s("button_pressed"), 0), Ok(()));
    assert_eq!(store.drain_updated_facts(), vec![Fact::Int(s("button_pressed"), 0)]);
    assert_eq!(store.add_to_int(s("button_pressed"), 1), Ok(()));
    assert_eq!(store.drain_updated_facts(), vec![Fact::Int(s("button_pressed"), 1)]);
    assert_eq!(store.add_to_int(s("button_pressed"), 1), Ok(()));
    assert_eq!(store.get_int("button_pressed"), Some(&2));
    assert_eq!(store.drain_updated_facts(), vec![Fact::Int(s("button_pressed"), 2)]);
    assert!(store.drain_updated_facts().is_empty());
}

#[test]
fn add_to_int_starts_from_zero() {
    let mut store = FactsOfTheWorld::new();
    assert_eq!(store.add_to_int(s("gold"), 5), Ok(()));
    assert_eq!(store.get_int("gold"), Some(&5));
    assert_eq!(store.add_to_int(s("gold"), -7), Ok(()));
    assert_eq!(store.get_int("gold"), Some(&-2));
}

#[test]
fn storing_same_value_twice_marks_once() {
    let mut store = FactsOfTheWorld::new();
    assert_eq!(store.store_bool(s("door_open"), true), Ok(()));
    assert_eq!(store.store_bool(s("door_open"), true), Ok(()));
    assert_eq!(store.drain_updated_facts(), vec![Fact::Bool(s("door_open"), true)]);
    assert_eq!(store.store_bool(s("door_open"), true), Ok(()));
    assert!(store.drain_updated_facts().is_empty());
    assert_eq!(store.store_string(s("mood"), s("calm")), Ok(()));
    assert_eq!(store.drain_updated_facts().len(), 1);
    assert_eq!(store.store_string(s("mood"), s("calm")), Ok(()));
    assert!(store.drain_updated_facts().is_empty());
    assert_eq!(store.store_int(s("hp"), 10), Ok(()));
    assert_eq!(store.store_int(s("hp"), 10), Ok(()));
    assert_eq!(store.drain_updated_facts().len(), 1);
}

#[test]
fn changed_values_are_each_recorded() {
    let mut store = FactsOfTheWorld::new();
    assert_eq!(store.store_int(s("hp"), 1), Ok(()));
    assert_eq!(store.store_int(s("hp"), 2), Ok(()));
    let drained = store.drain_updated_facts();
    assert_eq!(drained.len(), 2);
    assert!(drained.contains(&Fact::Int(s("hp"), 1)));
    assert!(drained.contains(&Fact::Int(s("hp"), 2)));
    assert_eq!(store.get_int("hp"), Some(&2));
}

#[test]
fn kind_mismatch_fails() {
    let mut store = FactsOfTheWorld::new();
    assert_eq!(store.store_string(s("x"), s("a")), Ok(()));
    assert_eq!(store.store_int(s("x"), 1), Err(FactError::KindMismatch));
    assert_eq!(store.store_bool(s("x"), true), Err(FactError::KindMismatch));
    assert_eq!(store.add_to_int(s("x"), 1), Err(FactError::KindMismatch));
    assert_eq!(store.get_string("x"), Some(&s("a")));
    assert_eq!(store.get_int("x"), None);
    assert_eq!(store.drain_updated_facts(), vec![Fact::String(s("x"), s("a"))]);
}

#[test]
fn list_add_twice_and_remove() {
    let mut store = FactsOfTheWorld::new();
    store.add_to_list(s("tags"), s("a"));
    assert_eq!(store.drain_updated_facts().len(), 1);
    store.add_to_list(s("tags"), s("a"));
    assert!(store.drain_updated_facts().is_empty());
    store.remove_from_list(s("tags"), s("a"));
    assert_eq!(store.drain_updated_facts().len(), 1);
    let list = store.get_list("tags").expect("the list stays");
    assert!(list.is_empty());
    store.remove_from_list(s("tags"), s("a"));
    assert!(store.drain_updated_facts().is_empty());
}

#[test]
fn list_operations_on_other_kinds_do_nothing() {
    let mut store = FactsOfTheWorld::new();
    assert_eq!(store.store_int(s("count"), 3), Ok(()));
    store.drain_updated_facts();
    store.add_to_list(s("count"), s("a"));
    store.remove_from_list(s("count"), s("a"));
    store.remove_from_list(s("missing"), s("a"));
    assert!(store.drain_updated_facts().is_empty());
    assert_eq!(store.get_int("count"), Some(&3));
    assert!(store.get_list("count").is_none());
    assert!(store.get_list("missing").is_none());
}

#[test]
fn getters_check_the_kind() {
    let mut store = FactsOfTheWorld::new();
    assert_eq!(store.store_bool(s("flag"), false), Ok(()));
    assert_eq!(store.get_bool("flag"), Some(&false));
    assert_eq!(store.get_int("flag"), None);
    assert_eq!(store.get_string("flag"), None);
    assert!(store.get_list("flag").is_none());
    assert_eq!(store.get_bool("absent"), None);
    assert_eq!(store.get("flag"), Some(&Fact::Bool(s("flag"), false)));
    assert_eq!(store.get("absent"), None);
}

#[test]
fn list_members_are_a_set() {
    let mut store = FactsOfTheWorld::new();
    store.add_to_list(s("tags"), s("b"));
    store.add_to_list(s("tags"), s("a"));
    store.add_to_list(s("tags"), s("c"));
    let list = store.get_list("tags").expect("a list");
    assert!(list.contains("a"));
    assert!(list.contains("b"));
    assert!(list.contains("c"));
    assert!(!list.contains("d"));
    assert_eq!(list.members(), &vec![s("a"), s("b"), s("c")]);
    let mut other = StringHashSet::new();
    assert!(other.insert(s("c")));
    assert!(other.insert(s("a")));
    assert!(other.insert(s("b")));
    assert!(!other.insert(s("a")));
    assert!(list == &other);
}

#[test]
fn string_set_insert_and_remove() {
    let mut set = StringHashSet::new();
    assert!(set.is_empty());
    assert!(set.insert(s("zeta")));
    assert!(set.insert(s("alpha")));
    assert!(!set.remove(&s("beta")));
    assert!(set.remove(&s("zeta")));
    assert_eq!(set.members(), &vec![s("alpha")]);
    let copy = set.clone();
    assert!(copy == set);
    let mut bigger = copy.clone();
    bigger.insert(s("omega"));
    assert!(bigger != set);
}

#[test]
fn snapshot_round_trip() {
    let mut store = FactsOfTheWorld::new();
    assert_eq!(store.store_int(s("n"), 7), Ok(()));
    assert_eq!(store.store_string(s("who"), s("Ada")), Ok(()));
    assert_eq!(store.store_bool(s("ok"), true), Ok(()));
    store.add_to_list(s("tags"), s("a"));
    store.add_to_list(s("empty"), s("z"));
    store.remove_from_list(s("empty"), s("z"));
    let snapshot = store.snapshot();
    assert_eq!(snapshot.len(), 5);
    let restored = FactsOfTheWorld::from_facts(snapshot).expect("names are distinct");
    assert_eq!(restored.get_int("n"), Some(&7));
    assert_eq!(restored.get_string("who"), Some(&s("Ada")));
    assert_eq!(restored.get_bool("ok"), Some(&true));
    assert!(restored.get_list("tags").expect("a list").contains("a"));
    assert!(restored.get_list("empty").expect("a list").is_empty());
    let mut restored = restored;
    assert!(restored.drain_updated_facts().is_empty());
    let mut again = restored.snapshot();
    let mut first = store.snapshot();
    again.sort_by(|a, b| a.name().cmp(b.name()));
    first.sort_by(|a, b| a.name().cmp(b.name()));
    assert_eq!(again, first);
}

#[test]
fn restore_refuses_repeated_names() {
    let facts = vec![Fact::Int(s("n"), 1), Fact::Bool(s("n"), true)];
    assert!(FactsOfTheWorld::from_facts(facts).is_none());
    assert!(FactsOfTheWorld::from_facts(Vec::new()).is_some());
}
