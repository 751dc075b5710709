//! The story setup that the host runs: its initial resources and the
//! stories it registers.
use vstd::prelude::*;
use crate::builders::{EffectBuilder, RuleBuilder, StoryBeatBuilder, StoryBuilder};
use crate::effects::EffectView;
use crate::engine::StoryEngine;
use crate::facts::{FactView, FactsOfTheWorld};
use crate::rules::{Condition, RuleView};
use crate::story::{BeatView, StoryView};

verus! {

/// Sets up the fact store and the story engine of a session.
pub struct StoryPlugin;

/// Marks the text that shows fact and beat notices.
pub struct TextComponent;

impl StoryPlugin {
    /// The resources a session starts with: an empty fact store and an
    /// engine with no story.
    pub fn build(&self) -> (r: (FactsOfTheWorld, StoryEngine))
        ensures
            r.0.wf(),
            r.0@.facts == Map::<Seq<char>, FactView>::empty(),
            r.0@.updated == Set::<FactView>::empty(),
            r.1@ == Seq::<StoryView>::empty(),
    {
        (FactsOfTheWorld::new(), StoryEngine::new())
    }
}

/// The condition that the integer fact `name` is greater than `threshold`.
pub open spec fn is_more_than(c: Condition, name: Seq<char>, threshold: i32) -> bool {
    match c {
        Condition::IntMoreThan { fact_name, expected_value } => fact_name@ == name && expected_value
            == threshold,
        _ => false,
    }
}

/// A rule named `rule_name` with the one condition that the button was
/// pressed more than `threshold` times.
pub open spec fn is_press_rule(r: RuleView, rule_name: Seq<char>, threshold: i32) -> bool {
    &&& r.name == rule_name
    &&& r.conditions.len() == 1
    &&& is_more_than(r.conditions[0], "button_pressed"@, threshold)
}

/// An unfinished beat with one press rule whose effect sets the boolean
/// fact `flag`.
pub open spec fn is_quest_beat(
    b: BeatView,
    beat_name: Seq<char>,
    rule_name: Seq<char>,
    threshold: i32,
    flag: Seq<char>,
) -> bool {
    &&& b.name == beat_name
    &&& b.rules.len() == 1
    &&& is_press_rule(b.rules[0], rule_name, threshold)
    &&& b.effects == seq![EffectView::SetFact(FactView::Flag(flag, true))]
    &&& !b.finished
}

/// The story of the hero's journey, not started.
pub open spec fn is_heros_journey(s: StoryView) -> bool {
    &&& s.name == "Hero's Journey"@
    &&& s.pre_requisites.len() == 1
    &&& is_press_rule(s.pre_requisites[0], "Before We Start"@, 1)
    &&& s.beats.len() == 2
    &&& is_quest_beat(s.beats[0], "The Call to Adventure"@, "Enough Presses"@, 3, "quest_one_complete"@)
    &&& is_quest_beat(s.beats[1], "The Road of Trials"@, "DefeatedEnemies"@, 5, "quest_two_complete"@)
    &&& !s.is_started
    &&& s.active_beat_index == 0
}

/// Adds the condition that the button was pressed more than once.
fn pressed_more_than_once(rule: RuleBuilder) -> (r: RuleBuilder)
    ensures
        r@.name == rule@.name,
        r@.conditions == rule@.conditions.push(r@.conditions.last()),
        is_more_than(r@.conditions.last(), "button_pressed"@, 1),
{
    rule.with_condition(
        Condition::IntMoreThan { fact_name: "button_pressed".to_owned(), expected_value: 1 },
    )
}

/// Adds the condition that the button was pressed more than three times.
fn pressed_more_than_three(rule: RuleBuilder) -> (r: RuleBuilder)
    ensures
        r@.name == rule@.name,
        r@.conditions == rule@.conditions.push(r@.conditions.last()),
        is_more_than(r@.conditions.last(), "button_pressed"@, 3),
{
    rule.with_condition(
        Condition::IntMoreThan { fact_name: "button_pressed".to_owned(), expected_value: 3 },
    )
}

/// Adds the condition that the button was pressed more than five times.
fn pressed_more_than_five(rule: RuleBuilder) -> (r: RuleBuilder)
    ensures
        r@.name == rule@.name,
        r@.conditions == rule@.conditions.push(r@.conditions.last()),
        is_more_than(r@.conditions.last(), "button_pressed"@, 5),
{
    rule.with_condition(
        Condition::IntMoreThan { fact_name: "button_pressed".to_owned(), expected_value: 5 },
    )
}

/// Adds the effect that sets the first quest's flag.
fn complete_quest_one(effects: EffectBuilder) -> (r: EffectBuilder)
    ensures
        r@ == effects@.push(EffectView::SetFact(FactView::Flag("quest_one_complete"@, true))),
{
    effects.set_fact_bool("quest_one_complete", true)
}

/// Adds the effect that sets the second quest's flag.
fn complete_quest_two(effects: EffectBuilder) -> (r: EffectBuilder)
    ensures
        r@ == effects@.push(EffectView::SetFact(FactView::Flag("quest_two_complete"@, true))),
{
    effects.set_fact_bool("quest_two_complete", true)
}

/// The first beat: more than three presses complete the first quest.
fn call_to_adventure(beat: StoryBeatBuilder) -> (r: StoryBeatBuilder)
    requires
        beat@.rules.len() == 0,
        beat@.effects.len() == 0,
        !beat@.finished,
    ensures
        is_quest_beat(r@, beat@.name, "Enough Presses"@, 3, "quest_one_complete"@),
{
    let r = beat.with_rule("Enough Presses", pressed_more_than_three).with_effects(
        complete_quest_one,
    );
    assert(Seq::<EffectView>::empty() + seq![EffectView::SetFact(FactView::Flag("quest_one_complete"@, true))]
        =~= seq![EffectView::SetFact(FactView::Flag("quest_one_complete"@, true))]);
    r
}

/// The second beat: more than five presses complete the second quest.
fn road_of_trials(beat: StoryBeatBuilder) -> (r: StoryBeatBuilder)
    requires
        beat@.rules.len() == 0,
        beat@.effects.len() == 0,
        !beat@.finished,
    ensures
        is_quest_beat(r@, beat@.name, "DefeatedEnemies"@, 5, "quest_two_complete"@),
{
    let r = beat.with_rule("DefeatedEnemies", pressed_more_than_five).with_effects(
        complete_quest_two,
    );
    assert(Seq::<EffectView>::empty() + seq![EffectView::SetFact(FactView::Flag("quest_two_complete"@, true))]
        =~= seq![EffectView::SetFact(FactView::Flag("quest_two_complete"@, true))]);
    r
}

/// Registers the hero's journey: it starts once the button was pressed more
/// than once; its first beat completes after more than three presses and
/// its second after more than five, each setting a flag.
pub fn setup_stories(story_engine: &mut StoryEngine)
    ensures
        final(story_engine)@.len() == old(story_engine)@.len() + 1,
        final(story_engine)@.drop_last() == old(story_engine)@,
        is_heros_journey(final(story_engine)@.last()),
{
    let story = StoryBuilder::new("Hero's Journey")
        .add_pre_requisite("Before We Start", pressed_more_than_once)
        .add_story_beat("The Call to Adventure", call_to_adventure)
        .add_story_beat("The Road of Trials", road_of_trials)
        .build();
    story_engine.add_story(story);
    assert(final(story_engine)@.drop_last() =~= old(story_engine)@);
}

} // verus!
