//! Story beats, stories and the engine that advances them.
use vstd::prelude::*;
use crate::effects::{Effect, EffectView};
use crate::facts::{FactView, FactsOfTheWorld};
use crate::rules::{all_hold, all_rules_hold, clone_rules, Rule, RuleView};

verus! {

pub open spec fn rule_views(rules: Seq<Rule>) -> Seq<RuleView> {
    rules.map_values(|x: Rule| x@)
}

pub open spec fn effect_views(effects: Seq<Effect>) -> Seq<EffectView> {
    effects.map_values(|x: Effect| x@)
}

/// The mathematical value of a story beat.
pub struct BeatView {
    pub name: Seq<char>,
    pub rules: Seq<RuleView>,
    pub effects: Seq<EffectView>,
    pub finished: bool,
}

/// A named checkpoint: a conjunction of rules and the effects to apply
/// when they all hold.
#[derive(Debug, PartialEq, Eq, Hash)]
pub struct StoryBeat {
    pub name: String,
    pub rules: Vec<Rule>,
    pub effects: Vec<Effect>,
    pub finished: bool,
}

impl View for StoryBeat {
    type V = BeatView;

    open spec fn view(&self) -> BeatView {
        BeatView {
            name: self.name@,
            rules: rule_views(self.rules@),
            effects: effect_views(self.effects@),
            finished: self.finished,
        }
    }
}

/// A copy of each effect, in order.
pub fn clone_effects(effects: &Vec<Effect>) -> (r: Vec<Effect>)
    ensures
        effect_views(r@) == effect_views(effects@),
{
    let mut out: Vec<Effect> = Vec::new();
    let mut i: usize = 0;
    while i < effects.len()
        invariant
            i <= effects@.len(),
            out@.len() == i,
            forall|k: int| 0 <= k < i ==> #[trigger] out@[k]@ == effects@[k]@,
        decreases effects@.len() - i,
    {
        out.push(effects[i].clone());
        i = i + 1;
    }
    assert(effect_views(out@) =~= effect_views(effects@));
    out
}

impl Clone for StoryBeat {
    fn clone(&self) -> (r: Self)
        ensures
            r@ == self@,
    {
        StoryBeat {
            name: self.name.clone(),
            rules: clone_rules(&self.rules),
            effects: clone_effects(&self.effects),
            finished: self.finished,
        }
    }
}

impl StoryBeat {
    /// A beat that has not finished.
    pub fn new(name: String, rules: Vec<Rule>, effects: Vec<Effect>) -> (r: Self)
        ensures
            r@ == (BeatView {
                name: name@,
                rules: rule_views(rules@),
                effects: effect_views(effects@),
                finished: false,
            }),
    {
        StoryBeat { name, rules, effects, finished: false }
    }

    /// Whether every rule of the beat holds of the store.
    pub fn rules_hold(&self, facts: &FactsOfTheWorld) -> (r: bool)
        requires
            facts.wf(),
        ensures
            r == all_hold(self@.rules, facts@.facts),
    {
        all_rules_hold(&self.rules, facts)
    }

    /// Marks the beat finished once every one of its rules holds; a
    /// finished beat stays finished.
    pub fn evaluate(&mut self, facts: &FactsOfTheWorld)
        requires
            facts.wf(),
        ensures
            final(self)@ == (BeatView {
                finished: old(self)@.finished || all_hold(old(self)@.rules, facts@.facts),
                ..old(self)@
            }),
    {
        if self.rules_hold(facts) {
            self.finished = true;
        }
    }
}

/// The mathematical value of a story.
pub struct StoryView {
    pub name: Seq<char>,
    pub pre_requisites: Seq<RuleView>,
    pub beats: Seq<BeatView>,
    pub is_started: bool,
    pub active_beat_index: nat,
}

impl StoryView {
    /// The cursor has passed the last beat.
    pub open spec fn is_finished(self) -> bool {
        self.active_beat_index >= self.beats.len()
    }

    /// The beat under the cursor exists and its rules hold.
    pub open spec fn beat_completes(self, facts: Map<Seq<char>, FactView>) -> bool {
        self.active_beat_index < self.beats.len() && all_hold(
            self.beats[self.active_beat_index as int].rules,
            facts,
        )
    }

    /// The story with the beat under the cursor finished and the cursor
    /// moved past it.
    pub open spec fn with_active_completed(self) -> StoryView {
        let i = self.active_beat_index as int;
        StoryView {
            beats: self.beats.update(i, BeatView { finished: true, ..self.beats[i] }),
            active_beat_index: self.active_beat_index + 1,
            ..self
        }
    }

    /// The story after one evaluation pass: a story not yet started starts
    /// when its prerequisites hold, and is not otherwise evaluated in that
    /// pass; a started one completes the beat under the cursor when that
    /// beat's rules hold.
    pub open spec fn after_pass(self, facts: Map<Seq<char>, FactView>) -> StoryView {
        if !self.is_started {
            StoryView { is_started: all_hold(self.pre_requisites, facts), ..self }
        } else if self.beat_completes(facts) {
            self.with_active_completed()
        } else {
            self
        }
    }

    /// The cursor lies within the beats, and exactly the beats before it
    /// are finished.
    pub open spec fn wf(self) -> bool {
        &&& self.active_beat_index <= self.beats.len()
        &&& forall|i: int|
            0 <= i < self.beats.len() ==> (#[trigger] self.beats[i].finished <==> i
                < self.active_beat_index)
    }
}

/// An ordered sequence of beats behind prerequisite rules, advanced by a
/// cursor.
#[derive(Debug, PartialEq, Eq, Hash)]
pub struct Story {
    pub name: String,
    pub pre_requisites: Vec<Rule>,
    pub beats: Vec<StoryBeat>,
    pub is_started: bool,
    pub active_beat_index: usize,
}

pub open spec fn beat_views(beats: Seq<StoryBeat>) -> Seq<BeatView> {
    beats.map_values(|x: StoryBeat| x@)
}

impl View for Story {
    type V = StoryView;

    open spec fn view(&self) -> StoryView {
        StoryView {
            name: self.name@,
            pre_requisites: rule_views(self.pre_requisites@),
            beats: beat_views(self.beats@),
            is_started: self.is_started,
            active_beat_index: self.active_beat_index as nat,
        }
    }
}

impl Clone for Story {
    fn clone(&self) -> (r: Self)
        ensures
            r@ == self@,
    {
        let mut beats: Vec<StoryBeat> = Vec::new();
        let mut i: usize = 0;
        while i < self.beats.len()
            invariant
                i <= self.beats@.len(),
                beats@.len() == i,
                forall|k: int| 0 <= k < i ==> #[trigger] beats@[k]@ == self.beats@[k]@,
            decreases self.beats@.len() - i,
        {
            beats.push(self.beats[i].clone());
            i = i + 1;
        }
        assert(beat_views(beats@) =~= beat_views(self.beats@));
        Story {
            name: self.name.clone(),
            pre_requisites: clone_rules(&self.pre_requisites),
            beats,
            is_started: self.is_started,
            active_beat_index: self.active_beat_index,
        }
    }
}

impl Story {
    /// A story not yet started, with its cursor on the first beat.
    pub fn new(name: String, pre_requisites: Vec<Rule>, beats: Vec<StoryBeat>) -> (r: Self)
        ensures
            r@ == (StoryView {
                name: name@,
                pre_requisites: rule_views(pre_requisites@),
                beats: beat_views(beats@),
                is_started: false,
                active_beat_index: 0,
            }),
    {
        Story { name, pre_requisites, beats, is_started: false, active_beat_index: 0 }
    }

    /// Completes the beat under the cursor when its rules hold, moving the
    /// cursor past it and returning the completed beat.
    pub fn evaluate_active_beat(&mut self, facts: &FactsOfTheWorld) -> (r: Option<StoryBeat>)
        requires
            facts.wf(),
        ensures
            old(self)@.beat_completes(facts@.facts) ==> final(self)@ == old(self)@.with_active_completed()
                && r is Some && r->0@ == final(self)@.beats[old(self)@.active_beat_index as int],
            !old(self)@.beat_completes(facts@.facts) ==> final(self)@ == old(self)@ && r is None,
    {
        if self.active_beat_index < self.beats.len() {
            let i = self.active_beat_index;
            if self.beats[i].rules_hold(facts) {
                let mut beat = self.beats[i].clone();
                beat.finished = true;
                let done = beat.clone();
                self.beats.set(i, beat);
                self.active_beat_index = i + 1;
                proof {
                    assert(beat_views(self.beats@) =~= beat_views(old(self).beats@).update(
                        i as int,
                        BeatView { finished: true, ..old(self)@.beats[i as int] },
                    ));
                }
                return Some(done);
            }
        }
        None
    }

    /// Starts the story when it is not started and its prerequisites hold;
    /// a started story stays started. Returns whether it is started.
    pub fn start_if_possible(&mut self, facts: &FactsOfTheWorld) -> (r: bool)
        requires
            facts.wf(),
        ensures
            final(self)@ == (StoryView {
                is_started: old(self)@.is_started || all_hold(old(self)@.pre_requisites, facts@.facts),
                ..old(self)@
            }),
            r == final(self)@.is_started,
    {
        if !self.is_started {
            self.is_started = all_rules_hold(&self.pre_requisites, facts);
        }
        self.is_started
    }

    /// Whether the cursor has passed the last beat.
    pub fn is_finished(&self) -> (r: bool)
        ensures
            r == self@.is_finished(),
    {
        self.active_beat_index >= self.beats.len()
    }

    /// One evaluation pass over the story; returns the beat it completed.
    pub fn evaluate_pass(&mut self, facts: &FactsOfTheWorld) -> (r: Option<StoryBeat>)
        requires
            facts.wf(),
        ensures
            final(self)@ == old(self)@.after_pass(facts@.facts),
            (old(self)@.is_started && old(self)@.beat_completes(facts@.facts)) ==> r is Some
                && r->0@ == final(self)@.beats[old(self)@.active_beat_index as int],
            !(old(self)@.is_started && old(self)@.beat_completes(facts@.facts)) ==> r is None,
    {
        if !self.is_started {
            self.start_if_possible(facts);
            None
        } else {
            self.evaluate_active_beat(facts)
        }
    }
}

} // verus!
