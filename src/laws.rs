//! Properties that hold of the store, the rules and the stories over all
//! inputs, stated over the models that the operations' contracts use.
use vstd::prelude::*;
use crate::effects::{current_list, EffectView};
use crate::facts::{Fact, FactStoreView, FactView};
use crate::rules::{Condition, RuleView};
use crate::story::StoryView;

verus! {

/// Writing a fact a second time in a row changes nothing: neither the
/// facts nor the record of changed facts.
pub proof fn law_store_twice_changes_nothing(st: FactStoreView, f: FactView)
    ensures
        st.stored(f).stored(f) == st.stored(f),
{
}

/// Adding the same member to a list a second time in a row changes
/// nothing, and marks nothing changed.
pub proof fn law_list_add_twice_changes_nothing(st: FactStoreView, name: Seq<char>, value: Seq<char>)
    ensures
        st.list_added(name, value).list_added(name, value) == st.list_added(name, value),
{
    let once = st.list_added(name, value);
    if once.facts.contains_key(name) {
        match once.facts[name] {
            FactView::List(_, s) => {
                if st.facts.contains_key(name) {
                    match st.facts[name] {
                        FactView::List(_, s0) => {
                            assert(s0.insert(value).insert(value) =~= s0.insert(value));
                        },
                        _ => {},
                    }
                } else {
                    assert(Set::<Seq<char>>::empty().insert(value).insert(value) =~= Set::<
                        Seq<char>,
                    >::empty().insert(value));
                }
            },
            _ => {},
        }
    }
}

/// A rule without conditions holds of every store.
pub proof fn law_empty_rule_holds(rule: RuleView, facts: Map<Seq<char>, FactView>)
    requires
        rule.conditions.len() == 0,
    ensures
        rule.holds(facts),
{
}

/// A list-membership condition on a name that is absent, or that holds
/// another kind of fact, is false.
pub proof fn law_list_contains_needs_a_list(
    fact_name: String,
    expected_value: String,
    facts: Map<Seq<char>, FactView>,
)
    requires
        !facts.contains_key(fact_name@) || !(facts[fact_name@] is List),
    ensures
        !(Condition::ListContains { fact_name, expected_value }).holds(facts),
{
}

/// A story after one evaluation pass on each snapshot of the facts, in
/// order.
pub open spec fn after_passes(s: StoryView, snapshots: Seq<Map<Seq<char>, FactView>>) -> StoryView
    decreases snapshots.len(),
{
    if snapshots.len() == 0 {
        s
    } else {
        after_passes(s, snapshots.drop_last()).after_pass(snapshots.last())
    }
}

/// A started story stays started, whatever the facts of later passes.
pub proof fn law_started_stays_started(s: StoryView, snapshots: Seq<Map<Seq<char>, FactView>>)
    requires
        s.is_started,
    ensures
        after_passes(s, snapshots).is_started,
    decreases snapshots.len(),
{
    if snapshots.len() > 0 {
        law_started_stays_started(s, snapshots.drop_last());
    }
}

/// The cursor of a story never moves back, whatever the facts of later
/// passes.
pub proof fn law_cursor_never_decreases(s: StoryView, snapshots: Seq<Map<Seq<char>, FactView>>)
    ensures
        after_passes(s, snapshots).active_beat_index >= s.active_beat_index,
    decreases snapshots.len(),
{
    if snapshots.len() > 0 {
        law_cursor_never_decreases(s, snapshots.drop_last());
    }
}

/// A pass keeps a story's cursor within its beats, with exactly the beats
/// before the cursor finished.
pub proof fn law_pass_keeps_finished_beats_behind_cursor(
    s: StoryView,
    facts: Map<Seq<char>, FactView>,
)
    requires
        s.wf(),
    ensures
        s.after_pass(facts).wf(),
{
    let t = s.after_pass(facts);
    if s.is_started && s.beat_completes(facts) {
        assert forall|i: int| 0 <= i < t.beats.len() implies (#[trigger] t.beats[i].finished <==> i
            < t.active_beat_index) by {
            if i != s.active_beat_index {
                assert(t.beats[i] == s.beats[i]);
            }
        }
    }
}

/// A list effect changes the store only where it brings a member the list
/// lacks, and then marks the joined list changed; applied a second time, it
/// changes nothing at all.
pub proof fn law_list_effect_twice(
    name: Seq<char>,
    members: Set<Seq<char>>,
    before: FactStoreView,
    mid: FactStoreView,
    after: FactStoreView,
)
    requires
        before.names_match(),
        EffectView::SetFact(FactView::List(name, members)).applied(before, mid),
        EffectView::SetFact(FactView::List(name, members)).applied(mid, after),
    ensures
        members.subset_of(current_list(before, name)) ==> mid == before,
        !members.subset_of(current_list(before, name)) && !(before.facts.contains_key(name)
            && !(before.facts[name] is List)) ==> mid.updated.contains(
            FactView::List(name, current_list(before, name).union(members)),
        ),
        after == mid,
{
    let s0 = current_list(before, name);
    if before.facts.contains_key(name) && !(before.facts[name] is List) {
    } else if members.subset_of(s0) {
    } else {
        let u = s0.union(members);
        assert(mid.facts.contains_key(name));
        assert(current_list(mid, name) == u);
        assert(members.subset_of(u));
    }
}

/// Two stores that hold exactly the facts of one snapshot hold the same
/// facts: restoring a store from its snapshot gives back its facts.
pub proof fn law_snapshot_round_trip(st: FactStoreView, snapshot: Seq<Fact>, restored: FactStoreView)
    requires
        st.holds_exactly(snapshot),
        restored.holds_exactly(snapshot),
    ensures
        restored.facts == st.facts,
{
    assert forall|k: Seq<char>| #[trigger] restored.facts.contains_key(k) == st.facts.contains_key(k) by {
        if restored.facts.contains_key(k) {
            let i = choose|i: int| 0 <= i < snapshot.len() && #[trigger] snapshot[i]@.name() == k;
        }
        if st.facts.contains_key(k) {
            let i = choose|i: int| 0 <= i < snapshot.len() && #[trigger] snapshot[i]@.name() == k;
        }
    }
    assert forall|k: Seq<char>| #[trigger] restored.facts.contains_key(k) implies restored.facts[k] == st.facts[k] by {
        let i = choose|i: int| 0 <= i < snapshot.len() && #[trigger] snapshot[i]@.name() == k;
    }
    assert(restored.facts =~= st.facts);
}

} // verus!
