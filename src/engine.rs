//! The story engine and the evaluation pass run once per tick.
use vstd::prelude::*;
use crate::effects::{Effect, EffectView};
use crate::facts::{Fact, FactError, FactStoreView, FactView, FactsOfTheWorld};
use crate::story::{clone_effects, effect_views, BeatView, Story, StoryBeat, StoryView};

verus! {

pub open spec fn story_views(stories: Seq<Story>) -> Seq<StoryView> {
    stories.map_values(|x: Story| x@)
}

/// Each story after one evaluation pass.
pub open spec fn stories_after_pass(
    stories: Seq<StoryView>,
    facts: Map<Seq<char>, FactView>,
) -> Seq<StoryView> {
    Seq::new(stories.len(), |i: int| stories[i].after_pass(facts))
}

/// What one evaluation pass reports, in the order of the stories: for each
/// started story whose active beat completes, the story as it stands after
/// the pass and the completed beat.
pub open spec fn completions(
    stories: Seq<StoryView>,
    facts: Map<Seq<char>, FactView>,
) -> Seq<(StoryView, BeatView)>
    decreases stories.len(),
{
    if stories.len() == 0 {
        Seq::empty()
    } else {
        let prev = completions(stories.drop_last(), facts);
        let s = stories.last();
        if s.is_started && s.beat_completes(facts) {
            let done = s.with_active_completed();
            prev.push((done, done.beats[s.active_beat_index as int]))
        } else {
            prev
        }
    }
}

/// The mathematical value of a completion notice.
pub open spec fn finished_views(r: Seq<StoryBeatFinished>) -> Seq<(StoryView, BeatView)> {
    r.map_values(|x: StoryBeatFinished| (x.story@, x.beat@))
}

/// A beat that completed, with the story it belongs to as it stands after
/// the completion.
#[derive(Debug, PartialEq, Eq, Hash)]
pub struct StoryBeatFinished {
    pub story: Story,
    pub beat: StoryBeat,
}

/// The registry of all stories.
#[derive(Debug, PartialEq, Eq, Hash)]
pub struct StoryEngine {
    pub stories: Vec<Story>,
}

impl View for StoryEngine {
    type V = Seq<StoryView>;

    open spec fn view(&self) -> Seq<StoryView> {
        story_views(self.stories@)
    }
}

impl StoryEngine {
    /// An engine with no story.
    pub fn new() -> (r: Self)
        ensures
            r@ == Seq::<StoryView>::empty(),
    {
        let r = StoryEngine { stories: Vec::new() };
        assert(r@ =~= Seq::<StoryView>::empty());
        r
    }

    /// Registers a story after those already registered.
    pub fn add_story(&mut self, story: Story)
        ensures
            final(self)@ == old(self)@.push(story@),
    {
        self.stories.push(story);
        assert(final(self)@ =~= old(self)@.push(story@));
    }

    /// Whether every story has passed its last beat.
    pub fn all_stories_finished(&self) -> (r: bool)
        ensures
            r == forall|i: int| 0 <= i < self@.len() ==> #[trigger] self@[i].is_finished(),
    {
        let mut i: usize = 0;
        while i < self.stories.len()
            invariant
                i <= self.stories@.len(),
                forall|k: int| 0 <= k < i ==> #[trigger] self@[k].is_finished(),
            decreases self.stories@.len() - i,
        {
            if !self.stories[i].is_finished() {
                assert(!self@[i as int].is_finished());
                return false;
            }
            i = i + 1;
        }
        true
    }

    /// One evaluation pass over every story, in order of registration.
    /// Returns a notice for each beat that completed.
    pub fn evaluate(&mut self, facts: &FactsOfTheWorld) -> (r: Vec<StoryBeatFinished>)
        requires
            facts.wf(),
        ensures
            final(self)@ == stories_after_pass(old(self)@, facts@.facts),
            finished_views(r@) == completions(old(self)@, facts@.facts),
    {
        let ghost start = self@;
        let mut out: Vec<StoryBeatFinished> = Vec::new();
        let mut i: usize = 0;
        while i < self.stories.len()
            invariant
                facts.wf(),
                i <= self.stories@.len(),
                self@.len() == start.len(),
                forall|k: int| 0 <= k < i ==> #[trigger] self@[k] == start[k].after_pass(facts@.facts),
                forall|k: int| i <= k < self@.len() ==> #[trigger] self@[k] == start[k],
                finished_views(out@) == completions(start.subrange(0, i as int), facts@.facts),
            decreases self.stories@.len() - i,
        {
            let mut story = self.stories[i].clone();
            assert(self@[i as int] == start[i as int]);
            assert(story@ == start[i as int]);
            let done = story.evaluate_pass(facts);
            assert(story@ == start[i as int].after_pass(facts@.facts));
            let notice_story = story.clone();
            let ghost prev = self@;
            let ghost sv = story@;
            self.stories.set(i, story);
            proof {
                assert(self@ =~= prev.update(i as int, sv));
                let sub = start.subrange(0, i + 1);
                assert(sub.drop_last() =~= start.subrange(0, i as int));
                assert(sub.last() == start[i as int]);
            }
            match done {
                Some(beat) => {
                    out.push(StoryBeatFinished { story: notice_story, beat });
                    assert(finished_views(out@) =~= completions(start.subrange(0, i + 1), facts@.facts));
                },
                None => {
                    assert(finished_views(out@) =~= completions(start.subrange(0, i + 1), facts@.facts));
                },
            }
            i = i + 1;
        }
        assert(start.subrange(0, i as int) =~= start);
        assert(self@ =~= stories_after_pass(start, facts@.facts));
        out
    }
}

/// Whether `after` is what applying `effects`, in order and without a
/// failure, to `before` yields.
pub open spec fn effects_applied(
    effects: Seq<EffectView>,
    before: FactStoreView,
    after: FactStoreView,
) -> bool
    decreases effects.len(),
{
    if effects.len() == 0 {
        after == before
    } else {
        exists|mid: FactStoreView|
            effects_applied(effects.drop_last(), before, mid) && !effects.last().conflicts(mid)
                && #[trigger] effects.last().applied(mid, after)
    }
}

/// Applies `effects` in order, stopping at the first that fails.
pub fn apply_effects(effects: &Vec<Effect>, fact_store: &mut FactsOfTheWorld) -> (r: Result<
    (),
    FactError,
>)
    requires
        old(fact_store).wf(),
    ensures
        final(fact_store).wf(),
        r is Ok ==> effects_applied(effect_views(effects@), old(fact_store)@, final(fact_store)@),
        r is Err ==> exists|k: int|
            0 <= k < effects@.len() && effects_applied(
                effect_views(effects@).take(k),
                old(fact_store)@,
                final(fact_store)@,
            ) && #[trigger] effect_views(effects@)[k].conflicts(final(fact_store)@),
{
    let ghost views = effect_views(effects@);
    let ghost before = fact_store@;
    let mut i: usize = 0;
    assert(views.take(0) =~= Seq::<EffectView>::empty());
    while i < effects.len()
        invariant
            i <= effects@.len(),
            views == effect_views(effects@),
            before == old(fact_store)@,
            fact_store.wf(),
            effects_applied(views.take(i as int), before, fact_store@),
        decreases effects@.len() - i,
    {
        let ghost mid = fact_store@;
        match effects[i].apply(fact_store) {
            Ok(()) => {
                proof {
                    let t = views.take(i + 1);
                    assert(t.drop_last() =~= views.take(i as int));
                    assert(t.last() == views[i as int]);
                    assert(effects_applied(t.drop_last(), before, mid) && !t.last().conflicts(mid)
                        && t.last().applied(mid, fact_store@));
                }
            },
            Err(e) => {
                assert(fact_store@ == mid);
                assert(views[i as int].conflicts(fact_store@));
                assert(0 <= i < effects@.len() && effects_applied(
                    effect_views(effects@).take(i as int),
                    before,
                    fact_store@,
                ) && effect_views(effects@)[i as int].conflicts(fact_store@));
                assert(exists|k: int|
                    0 <= k < effects@.len() && effects_applied(
                        effect_views(effects@).take(k),
                        old(fact_store)@,
                        fact_store@,
                    ) && #[trigger] effect_views(effects@)[k].conflicts(fact_store@));
                return Err(e);
            },
        }
        i = i + 1;
    }
    assert(views.take(i as int) =~= views);
    Ok(())
}

/// The effects of the completed beats, beat after beat.
pub open spec fn all_effects(fins: Seq<(StoryView, BeatView)>) -> Seq<EffectView>
    decreases fins.len(),
{
    if fins.len() == 0 {
        Seq::empty()
    } else {
        all_effects(fins.drop_last()) + fins.last().1.effects
    }
}

/// A copy of the effects of every completed beat, beat after beat.
pub fn collect_effects(fins: &Vec<StoryBeatFinished>) -> (r: Vec<Effect>)
    ensures
        effect_views(r@) == all_effects(finished_views(fins@)),
{
    let ghost views = finished_views(fins@);
    let mut out: Vec<Effect> = Vec::new();
    let mut i: usize = 0;
    assert(views.take(0) =~= Seq::<(StoryView, BeatView)>::empty());
    while i < fins.len()
        invariant
            i <= fins@.len(),
            views == finished_views(fins@),
            effect_views(out@) == all_effects(views.take(i as int)),
        decreases fins@.len() - i,
    {
        let ghost prev = out@;
        let mut more = clone_effects(&fins[i].beat.effects);
        let ghost added = more@;
        out.append(&mut more);
        proof {
            let t = views.take(i + 1);
            assert(t.drop_last() =~= views.take(i as int));
            assert(t.last() == views[i as int]);
            assert(effect_views(out@) =~= effect_views(prev) + effect_views(added));
        }
        i = i + 1;
    }
    assert(views.take(i as int) =~= views);
    out
}

/// A notice that a fact changed, carrying its new value.
#[derive(Debug, PartialEq, Eq, Hash)]
pub struct FactUpdated {
    pub fact: Fact,
}

/// One notice for each fact, in order.
fn fact_notices(facts: &Vec<Fact>) -> (r: Vec<FactUpdated>)
    ensures
        r@.len() == facts@.len(),
        forall|i: int| 0 <= i < r@.len() ==> #[trigger] r@[i].fact@ == facts@[i]@,
{
    let mut out: Vec<FactUpdated> = Vec::new();
    let mut i: usize = 0;
    while i < facts.len()
        invariant
            i <= facts@.len(),
            out@.len() == i,
            forall|k: int| 0 <= k < i ==> #[trigger] out@[k].fact@ == facts@[k]@,
        decreases facts@.len() - i,
    {
        out.push(FactUpdated { fact: facts[i].clone() });
        i = i + 1;
    }
    out
}

/// What one tick did: the facts that had changed since the previous tick,
/// the beats that completed, and the error of the effect that failed, if
/// one did.
pub struct TickReport {
    pub updated_facts: Vec<FactUpdated>,
    pub finished_beats: Vec<StoryBeatFinished>,
    pub effect_error: Option<FactError>,
}

/// One tick: drains the changed facts; when there were any, runs one
/// evaluation pass over the stories and applies the effects of the beats
/// that completed, in order, stopping at the first that fails.
pub fn tick(engine: &mut StoryEngine, fact_store: &mut FactsOfTheWorld) -> (r: TickReport)
    requires
        old(fact_store).wf(),
    ensures
        final(fact_store).wf(),
        forall|x: FactView|
            old(fact_store)@.updated.contains(x) <==> exists|i: int|
                0 <= i < r.updated_facts@.len() && #[trigger] r.updated_facts@[i].fact@ == x,
        forall|i: int, j: int|
            0 <= i < r.updated_facts@.len() && 0 <= j < r.updated_facts@.len() && i != j
                ==> r.updated_facts@[i].fact@ != r.updated_facts@[j].fact@,
        old(fact_store)@.updated == Set::<FactView>::empty() ==> final(engine)@ == old(engine)@
            && r.finished_beats@.len() == 0 && final(fact_store)@ == old(fact_store)@
            && r.effect_error is None,
        old(fact_store)@.updated != Set::<FactView>::empty() ==> {
            let drained = FactStoreView {
                facts: old(fact_store)@.facts,
                updated: Set::<FactView>::empty(),
            };
            let effs = all_effects(finished_views(r.finished_beats@));
            &&& final(engine)@ == stories_after_pass(old(engine)@, old(fact_store)@.facts)
            &&& finished_views(r.finished_beats@) == completions(
                old(engine)@,
                old(fact_store)@.facts,
            )
            &&& r.effect_error is None ==> effects_applied(effs, drained, final(fact_store)@)
            &&& r.effect_error is Some ==> exists|k: int|
                0 <= k < effs.len() && effects_applied(effs.take(k), drained, final(fact_store)@)
                    && #[trigger] effs[k].conflicts(final(fact_store)@)
        },
{
    let updated_facts = fact_store.drain_updated_facts();
    assert(forall|x: FactView|
        old(fact_store)@.updated.contains(x) <==> exists|i: int|
            0 <= i < updated_facts@.len() && #[trigger] updated_facts@[i]@ == x);
    if updated_facts.len() == 0 {
        assert(old(fact_store)@.updated =~= Set::<FactView>::empty());
        return TickReport {
            updated_facts: Vec::new(),
            finished_beats: Vec::new(),
            effect_error: None,
        };
    }
    proof {
        assert(old(fact_store)@.updated.contains(updated_facts@[0]@));
    }
    let ghost drained_facts = updated_facts@;
    let finished_beats = engine.evaluate(fact_store);
    let effects = collect_effects(&finished_beats);
    let effect_error = match apply_effects(&effects, fact_store) {
        Ok(()) => None,
        Err(e) => Some(e),
    };
    let notices = fact_notices(&updated_facts);
    proof {
        assert forall|x: FactView| old(fact_store)@.updated.contains(x) implies exists|i: int|
            0 <= i < notices@.len() && #[trigger] notices@[i].fact@ == x by {
            let i = choose|i: int| 0 <= i < drained_facts.len() && #[trigger] drained_facts[i]@ == x;
            assert(notices@[i].fact@ == x);
        }
        assert forall|i: int| 0 <= i < notices@.len() implies old(fact_store)@.updated.contains(
            #[trigger] notices@[i].fact@,
        ) by {
            assert(drained_facts[i]@ == notices@[i].fact@);
        }
    }
    TickReport { updated_facts: notices, finished_beats, effect_error }
}

} // verus!
