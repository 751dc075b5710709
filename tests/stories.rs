use story_beats::builders::{EffectBuilder, RuleBuilder, StoryBeatBuilder, StoryBuilder};
use story_beats::effects::Effect;
use story_beats::engine::{tick, StoryEngine};
use story_beats::facts::{Fact, FactError, FactsOfTheWorld};
use story_beats::plugin::{setup_stories, StoryPlugin};
use story_beats::rules::{Condition, Rule};
use story_beats::story::{Story, StoryBeat};
use story_beats::strings::StringHashSet;

fn s(text: &str) -> String {
    text.to_string()
}

fn presses_more_than(n: i32) -> Condition {
    Condition::IntMoreThan { fact_name: s("button_pressed"), expected_value: n }
}

fn press(store: &mut FactsOfTheWorld, to: i32) {
    assert_eq!(store.store_int(s("button_pressed"), to), Ok(()));
}

#[test]
fn heros_journey_progression() {
    let (mut store, mut engine) = StoryPlugin.build();
    setup_stories(&mut engine);
    assert_eq!(engine.stories.len(), 1);
    assert!(!engine.all_stories_finished());

    press(&mut store, 0);
    let report = tick(&mut engine, &mut store);
    assert_eq!(report.updated_facts.len(), 1);
    assert_eq!(report.updated_facts[0].fact, Fact::Int(s("button_pressed"), 0));
    assert!(report.finished_beats.is_empty());
    assert!(!engine.stories[0].is_started);

    press(&mut store, 2);
    let report = tick(&mut engine, &mut store);
    assert!(report.finished_beats.is_empty());
    assert!(engine.stories[0].is_started);
    assert_eq!(engine.stories[0].active_beat_index, 0);

    press(&mut store, 4);
    let report = tick(&mut engine, &mut store);
    assert_eq!(report.effect_error, None);
    assert_eq!(report.finished_beats.len(), 1);
    assert_eq!(report.finished_beats[0].beat.name, s("The Call to Adventure"));
    assert!(report.finished_beats[0].beat.finished);
    assert_eq!(report.finished_beats[0].story.active_beat_index, 1);
    assert_eq!(engine.stories[0].active_beat_index, 1);
    assert_eq!(store.get_bool("quest_one_complete"), Some(&true));
    assert!(!engine.all_stories_finished());

    press(&mut store, 6);
    let report = tick(&mut engine, &mut store);
    assert_eq!(report.finished_beats.len(), 1);
    assert_eq!(report.finished_beats[0].beat.name, s("The Road of Trials"));
    assert_eq!(engine.stories[0].active_beat_index, 2);
    assert_eq!(store.get_bool("quest_two_complete"), Some(&true));
    assert!(engine.stories[0].is_finished());
    assert!(engine.all_stories_finished());
}

#[test]
fn no_changed_facts_means_no_evaluation() {
    let mut store = FactsOfTheWorld::new();
    let mut engine = StoryEngine::new();
    engine.add_story(Story::new(s("Free"), Vec::new(), Vec::new()));
    let report = tick(&mut engine, &mut store);
    assert!(report.updated_facts.is_empty());
    assert!(!engine.stories[0].is_started);
    press(&mut store, 1);
    tick(&mut engine, &mut store);
    assert!(engine.stories[0].is_started);
}

#[test]
fn started_story_stays_started() {
    let mut store = FactsOfTheWorld::new();
    let mut story = Story::new(s("Latch"), vec![Rule::new(s("pressed"), vec![presses_more_than(1)])], Vec::new());
    press(&mut store, 2);
    assert!(story.start_if_possible(&store));
    press(&mut store, 0);
    assert!(story.start_if_possible(&store));
    assert!(story.evaluate_pass(&store).is_none());
    assert!(story.is_started);
}

#[test]
fn started_story_waits_a_pass_for_its_beat() {
    let mut store = FactsOfTheWorld::new();
    let beat = StoryBeat::new(s("Immediate"), Vec::new(), Vec::new());
    let mut story = Story::new(s("Quick"), Vec::new(), vec![beat]);
    press(&mut store, 0);
    assert!(story.evaluate_pass(&store).is_none());
    assert!(story.is_started);
    assert_eq!(story.active_beat_index, 0);
    let done = story.evaluate_pass(&store).expect("the beat completes");
    assert!(done.finished);
    assert_eq!(story.active_beat_index, 1);
    assert!(story.is_finished());
    assert!(story.evaluate_pass(&store).is_none());
    assert_eq!(story.active_beat_index, 1);
}

#[test]
fn cursor_never_moves_back() {
    let mut store = FactsOfTheWorld::new();
    let beats = vec![
        StoryBeat::new(s("one"), vec![Rule::new(s("r1"), vec![presses_more_than(0)])], Vec::new()),
        StoryBeat::new(s("two"), vec![Rule::new(s("r2"), vec![presses_more_than(5)])], Vec::new()),
    ];
    let mut story = Story::new(s("Walk"), Vec::new(), beats);
    let mut last = story.active_beat_index;
    for value in [1, 0, 1, 6, 0, 7, 0] {
        press(&mut store, value);
        story.evaluate_pass(&store);
        assert!(story.active_beat_index >= last);
        last = story.active_beat_index;
    }
    assert_eq!(story.active_beat_index, 2);
    assert!(story.beats[0].finished && story.beats[1].finished);
}

#[test]
fn only_active_beat_is_evaluated() {
    let mut store = FactsOfTheWorld::new();
    let beats = vec![
        StoryBeat::new(s("first"), vec![Rule::new(s("r1"), vec![presses_more_than(10)])], Vec::new()),
        StoryBeat::new(s("second"), Vec::new(), Vec::new()),
    ];
    let mut story = Story::new(s("Order"), Vec::new(), beats);
    story.is_started = true;
    press(&mut store, 1);
    assert!(story.evaluate_active_beat(&store).is_none());
    assert_eq!(story.active_beat_index, 0);
    assert!(!story.beats[1].finished);
}

#[test]
fn list_effect_twice_marks_once() {
    let mut store = FactsOfTheWorld::new();
    store.add_to_list(s("tags"), s("a"));
    store.drain_updated_facts();
    let mut members = StringHashSet::new();
    members.insert(s("a"));
    members.insert(s("b"));
    let effect = Effect::SetFact(Fact::StringList(s("tags"), members));
    assert_eq!(effect.apply(&mut store), Ok(()));
    let first = store.drain_updated_facts();
    assert_eq!(first.len(), 1);
    assert_eq!(effect.apply(&mut store), Ok(()));
    assert!(store.drain_updated_facts().is_empty());
    let list = store.get_list("tags").expect("a list");
    assert!(list.contains("a") && list.contains("b"));
}

#[test]
fn list_effect_creates_the_list() {
    let mut store = FactsOfTheWorld::new();
    let mut members = StringHashSet::new();
    members.insert(s("x"));
    members.insert(s("y"));
    let effect = Effect::SetFact(Fact::StringList(s("seen"), members.clone()));
    assert_eq!(effect.apply(&mut store), Ok(()));
    assert!(store.get_list("seen") == Some(&members));
    let drained = store.drain_updated_facts();
    assert!(drained.contains(&Fact::StringList(s("seen"), members)));
}

#[test]
fn scalar_effect_overwrites_and_can_fail() {
    let mut store = FactsOfTheWorld::new();
    assert_eq!(Effect::SetFact(Fact::Int(s("n"), 3)).apply(&mut store), Ok(()));
    assert_eq!(Effect::SetFact(Fact::Int(s("n"), 8)).apply(&mut store), Ok(()));
    assert_eq!(store.get_int("n"), Some(&8));
    assert_eq!(
        Effect::SetFact(Fact::String(s("n"), s("eight"))).apply(&mut store),
        Err(FactError::KindMismatch)
    );
    assert_eq!(store.get_int("n"), Some(&8));
}

#[test]
fn tick_reports_failing_effect() {
    let mut store = FactsOfTheWorld::new();
    let mut engine = StoryEngine::new();
    let story = StoryBuilder::new("Clash")
        .add_story_beat("Bad write", |beat| beat.with_effects(|e| e.set_fact_int("word", 1)))
        .build();
    engine.add_story(story);
    assert_eq!(store.store_string(s("word"), s("hello")), Ok(()));
    tick(&mut engine, &mut store);
    let report = tick(&mut engine, &mut store);
    assert!(report.updated_facts.is_empty());
    assert_eq!(store.store_string(s("word"), s("bye")), Ok(()));
    let report = tick(&mut engine, &mut store);
    assert_eq!(report.finished_beats.len(), 1);
    assert_eq!(report.effect_error, Some(FactError::KindMismatch));
    assert_eq!(store.get_string("word"), Some(&s("bye")));
}

#[test]
fn builders_keep_order() {
    let mut tags = StringHashSet::new();
    tags.insert(s("t"));
    let effects = EffectBuilder::new()
        .set_fact_int("a", 1)
        .set_fact_string("b", "two")
        .set_fact_bool("c", true)
        .set_fact_string_list("d", tags.clone())
        .build();
    assert_eq!(
        effects,
        vec![
            Effect::SetFact(Fact::Int(s("a"), 1)),
            Effect::SetFact(Fact::String(s("b"), s("two"))),
            Effect::SetFact(Fact::Bool(s("c"), true)),
            Effect::SetFact(Fact::StringList(s("d"), tags)),
        ]
    );
    let rule = RuleBuilder::new("r")
        .with_condition(presses_more_than(1))
        .with_condition(presses_more_than(2))
        .build();
    assert_eq!(rule, Rule::new(s("r"), vec![presses_more_than(1), presses_more_than(2)]));
    let beat = StoryBeatBuilder::new("b")
        .with_rule("r", |r| r.with_condition(presses_more_than(1)))
        .with_effects(|e| e.set_fact_int("a", 1))
        .with_effects(|e| e.set_fact_bool("c", false))
        .build();
    assert_eq!(beat.name, s("b"));
    assert_eq!(beat.rules.len(), 1);
    assert_eq!(
        beat.effects,
        vec![Effect::SetFact(Fact::Int(s("a"), 1)), Effect::SetFact(Fact::Bool(s("c"), false))]
    );
    assert!(!beat.finished);
    let story = StoryBuilder::new("st")
        .add_pre_requisite("first", |r| r)
        .add_pre_requisite("second", |r| r.with_condition(presses_more_than(0)))
        .add_story_beat("b1", |b| b)
        .add_story_beat("b2", |b| b)
        .build();
    assert_eq!(story.pre_requisites[0].name, s("first"));
    assert_eq!(story.pre_requisites[1].name, s("second"));
    assert_eq!(story.beats[0].name, s("b1"));
    assert_eq!(story.beats[1].name, s("b2"));
    assert!(!story.is_started);
    assert_eq!(story.active_beat_index, 0);
}

#[test]
fn empty_engine_is_finished() {
    let engine = StoryEngine::new();
    assert!(engine.all_stories_finished());
}

#[test]
fn story_clone_is_equal() {
    let mut engine = StoryEngine::new();
    setup_stories(&mut engine);
    let copy = engine.stories[0].clone();
    assert_eq!(copy, engine.stories[0]);
    assert_eq!(copy.beats.len(), 2);
    assert_eq!(copy.pre_requisites[0].conditions, vec![presses_more_than(1)]);
}
