//! Fluent builders for assembling effects, rules, beats and stories.
use vstd::prelude::*;
use crate::effects::{Effect, EffectView};
use crate::facts::{Fact, FactView};
use crate::rules::{Condition, Rule, RuleView};
use crate::story::{
    beat_views, effect_views, rule_views, BeatView, Story, StoryBeat, StoryView,
};
use crate::strings::StringHashSet;

verus! {

/// Collects effects in the order they are added.
#[derive(Debug)]
pub struct EffectBuilder {
    effects: Vec<Effect>,
}

impl View for EffectBuilder {
    type V = Seq<EffectView>;

    closed spec fn view(&self) -> Seq<EffectView> {
        effect_views(self.effects@)
    }
}

impl EffectBuilder {
    pub fn new() -> (r: Self)
        ensures
            r@ == Seq::<EffectView>::empty(),
    {
        let r = EffectBuilder { effects: Vec::new() };
        assert(r@ =~= Seq::<EffectView>::empty());
        r
    }

    fn with_fact(self, fact: Fact) -> (r: Self)
        ensures
            r@ == self@.push(EffectView::SetFact(fact@)),
    {
        let mut effects = self.effects;
        let ghost prev = effects@;
        effects.push(Effect::SetFact(fact));
        let r = EffectBuilder { effects };
        assert(r@ =~= effect_views(prev).push(EffectView::SetFact(fact@)));
        r
    }

    pub fn set_fact_int(self, name: &str, value: i32) -> (r: Self)
        ensures
            r@ == self@.push(EffectView::SetFact(FactView::Int(name@, value))),
    {
        self.with_fact(Fact::Int(name.to_owned(), value))
    }

    pub fn set_fact_string(self, name: &str, value: &str) -> (r: Self)
        ensures
            r@ == self@.push(EffectView::SetFact(FactView::Text(name@, value@))),
    {
        self.with_fact(Fact::String(name.to_owned(), value.to_owned()))
    }

    pub fn set_fact_bool(self, name: &str, value: bool) -> (r: Self)
        ensures
            r@ == self@.push(EffectView::SetFact(FactView::Flag(name@, value))),
    {
        self.with_fact(Fact::Bool(name.to_owned(), value))
    }

    pub fn set_fact_string_list(self, name: &str, values: StringHashSet) -> (r: Self)
        ensures
            r@ == self@.push(EffectView::SetFact(FactView::List(name@, values@))),
    {
        self.with_fact(Fact::StringList(name.to_owned(), values))
    }

    pub fn build(self) -> (r: Vec<Effect>)
        ensures
            effect_views(r@) == self@,
    {
        self.effects
    }
}

/// Collects the conditions of one rule in the order they are added.
#[derive(Debug)]
pub struct RuleBuilder {
    name: String,
    conditions: Vec<Condition>,
}

impl View for RuleBuilder {
    type V = RuleView;

    closed spec fn view(&self) -> RuleView {
        RuleView { name: self.name@, conditions: self.conditions@ }
    }
}

impl RuleBuilder {
    pub fn new(name: &str) -> (r: Self)
        ensures
            r@ == (RuleView { name: name@, conditions: Seq::empty() }),
    {
        let r = RuleBuilder { name: name.to_owned(), conditions: Vec::new() };
        assert(r@.conditions =~= Seq::<Condition>::empty());
        r
    }

    pub fn with_condition(self, condition: Condition) -> (r: Self)
        ensures
            r@ == (RuleView { conditions: self@.conditions.push(condition), ..self@ }),
    {
        let mut conditions = self.conditions;
        conditions.push(condition);
        RuleBuilder { name: self.name, conditions }
    }

    pub fn build(self) -> (r: Rule)
        ensures
            r@ == self@,
    {
        Rule { name: self.name, conditions: self.conditions }
    }
}

/// A rule builder that has just been made for `name`.
pub open spec fn fresh_rule(name: Seq<char>) -> RuleView {
    RuleView { name, conditions: Seq::empty() }
}

/// A beat builder that has just been made for `name`.
pub open spec fn fresh_beat(name: Seq<char>) -> BeatView {
    BeatView { name, rules: Seq::empty(), effects: Seq::empty(), finished: false }
}

/// Collects the rules and effects of one beat.
#[derive(Debug)]
pub struct StoryBeatBuilder {
    name: String,
    rules: Vec<Rule>,
    effects: Vec<Effect>,
}

impl View for StoryBeatBuilder {
    type V = BeatView;

    closed spec fn view(&self) -> BeatView {
        BeatView {
            name: self.name@,
            rules: rule_views(self.rules@),
            effects: effect_views(self.effects@),
            finished: false,
        }
    }
}

impl StoryBeatBuilder {
    pub fn new(name: &str) -> (r: Self)
        ensures
            r@ == fresh_beat(name@),
    {
        let r = StoryBeatBuilder { name: name.to_owned(), rules: Vec::new(), effects: Vec::new() };
        assert(r@.rules =~= Seq::<RuleView>::empty());
        assert(r@.effects =~= Seq::<EffectView>::empty());
        r
    }

    /// Adds the rule that `build_fn` makes from a fresh rule builder.
    pub fn with_rule<F>(self, name: &str, build_fn: F) -> (r: Self) where
        F: FnOnce(RuleBuilder) -> RuleBuilder,

        requires
            forall|b: RuleBuilder| b@ == fresh_rule(name@) ==> build_fn.requires((b,)),
        ensures
            exists|b: RuleBuilder, out: RuleBuilder|
                b@ == fresh_rule(name@) && #[trigger] build_fn.ensures((b,), out) && r@ == (
                BeatView { rules: self@.rules.push(out@), ..self@ }),
    {
        let builder = RuleBuilder::new(name);
        let ghost b = builder;
        let out = build_fn(builder);
        let ghost o = out;
        let rule = out.build();
        let mut rules = self.rules;
        let ghost prev = rules@;
        rules.push(rule);
        let r = StoryBeatBuilder { name: self.name, rules, effects: self.effects };
        assert(rule_views(r.rules@) =~= rule_views(prev).push(o@));
        assert(b@ == fresh_rule(name@) && build_fn.ensures((b,), o));
        r
    }

    /// Adds, after those already there, the effects that `build_fn` collects
    /// in a fresh effect builder.
    pub fn with_effects<F>(self, build_fn: F) -> (r: Self) where
        F: FnOnce(EffectBuilder) -> EffectBuilder,

        requires
            forall|b: EffectBuilder| b@ == Seq::<EffectView>::empty() ==> build_fn.requires((b,)),
        ensures
            exists|b: EffectBuilder, out: EffectBuilder|
                b@ == Seq::<EffectView>::empty() && #[trigger] build_fn.ensures((b,), out) && r@ == (
                BeatView { effects: self@.effects + out@, ..self@ }),
    {
        let builder = EffectBuilder::new();
        let ghost b = builder;
        let out = build_fn(builder);
        let ghost o = out;
        let mut more = out.build();
        let mut effects = self.effects;
        let ghost prev = effects@;
        let ghost added = more@;
        effects.append(&mut more);
        let r = StoryBeatBuilder { name: self.name, rules: self.rules, effects };
        assert(effect_views(r.effects@) =~= effect_views(prev) + effect_views(added));
        assert(b@ == Seq::<EffectView>::empty() && build_fn.ensures((b,), o));
        r
    }

    pub fn build(self) -> (r: StoryBeat)
        ensures
            r@ == self@,
    {
        StoryBeat { name: self.name, rules: self.rules, effects: self.effects, finished: false }
    }
}

/// A story builder that has just been made for `name`.
pub open spec fn fresh_story(name: Seq<char>) -> StoryView {
    StoryView {
        name,
        pre_requisites: Seq::empty(),
        beats: Seq::empty(),
        is_started: false,
        active_beat_index: 0,
    }
}

/// Collects the prerequisites and beats of one story.
#[derive(Debug)]
pub struct StoryBuilder {
    name: String,
    pre_requisites: Vec<Rule>,
    beats: Vec<StoryBeat>,
}

impl View for StoryBuilder {
    type V = StoryView;

    closed spec fn view(&self) -> StoryView {
        StoryView {
            name: self.name@,
            pre_requisites: rule_views(self.pre_requisites@),
            beats: beat_views(self.beats@),
            is_started: false,
            active_beat_index: 0,
        }
    }
}

impl StoryBuilder {
    pub fn new(name: &str) -> (r: Self)
        ensures
            r@ == fresh_story(name@),
    {
        let r = StoryBuilder { name: name.to_owned(), beats: Vec::new(), pre_requisites: Vec::new() };
        assert(r@.pre_requisites =~= Seq::<RuleView>::empty());
        assert(r@.beats =~= Seq::<BeatView>::empty());
        r
    }

    /// Adds, after those already there, the beat that `build_fn` makes from
    /// a fresh beat builder.
    pub fn add_story_beat<F>(self, name: &str, build_fn: F) -> (r: Self) where
        F: FnOnce(StoryBeatBuilder) -> StoryBeatBuilder,

        requires
            forall|b: StoryBeatBuilder| b@ == fresh_beat(name@) ==> build_fn.requires((b,)),
        ensures
            exists|b: StoryBeatBuilder, out: StoryBeatBuilder|
                b@ == fresh_beat(name@) && #[trigger] build_fn.ensures((b,), out) && r@ == (
                StoryView { beats: self@.beats.push(out@), ..self@ }),
    {
        let builder = StoryBeatBuilder::new(name);
        let ghost b = builder;
        let out = build_fn(builder);
        let ghost o = out;
        let beat = out.build();
        let mut beats = self.beats;
        let ghost prev = beats@;
        beats.push(beat);
        let r = StoryBuilder { name: self.name, pre_requisites: self.pre_requisites, beats };
        assert(beat_views(r.beats@) =~= beat_views(prev).push(o@));
        assert(b@ == fresh_beat(name@) && build_fn.ensures((b,), o));
        r
    }

    /// Adds, after those already there, the prerequisite rule that
    /// `build_fn` makes from a fresh rule builder.
    pub fn add_pre_requisite<F>(self, name: &str, build_fn: F) -> (r: Self) where
        F: FnOnce(RuleBuilder) -> RuleBuilder,

        requires
            forall|b: RuleBuilder| b@ == fresh_rule(name@) ==> build_fn.requires((b,)),
        ensures
            exists|b: RuleBuilder, out: RuleBuilder|
                b@ == fresh_rule(name@) && #[trigger] build_fn.ensures((b,), out) && r@ == (
                StoryView { pre_requisites: self@.pre_requisites.push(out@), ..self@ }),
    {
        let builder = RuleBuilder::new(name);
        let ghost b = builder;
        let out = build_fn(builder);
        let ghost o = out;
        let rule = out.build();
        let mut pre_requisites = self.pre_requisites;
        let ghost prev = pre_requisites@;
        pre_requisites.push(rule);
        let r = StoryBuilder { name: self.name, pre_requisites, beats: self.beats };
        assert(rule_views(r.pre_requisites@) =~= rule_views(prev).push(o@));
        assert(b@ == fresh_rule(name@) && build_fn.ensures((b,), o));
        r
    }

    pub fn build(self) -> (r: Story)
        ensures
            r@ == self@,
    {
        Story::new(self.name, self.pre_requisites, self.beats)
    }
}

} // verus!
