//! Effects: writes into the fact store that a completed beat performs.
use vstd::prelude::*;
use crate::facts::{lemma_names_match, Fact, FactError, FactStoreView, FactView, FactsOfTheWorld};

verus! {

/// The members of a list fact; empty for any other kind.
pub open spec fn list_members(f: FactView) -> Set<Seq<char>> {
    match f {
        FactView::List(_, s) => s,
        _ => Set::empty(),
    }
}

/// The list under `name` in `st`, taken as empty where there is none.
pub open spec fn current_list(st: FactStoreView, name: Seq<char>) -> Set<Seq<char>> {
    if st.facts.contains_key(name) {
        list_members(st.facts[name])
    } else {
        Set::empty()
    }
}

/// Whether `after` is what adding each member of `s` to the list `name` of
/// `before`, one at a time and in any order, yields. A name that holds
/// another kind of fact is left alone, as is a list that already has every
/// member of `s`. Otherwise the list becomes the union, the changed facts
/// keep what they had and gain the union, and each fact they gain is a list
/// under `name` that lies between the old list and the union.
pub open spec fn list_union_outcome(
    before: FactStoreView,
    name: Seq<char>,
    s: Set<Seq<char>>,
    after: FactStoreView,
) -> bool {
    let s0 = current_list(before, name);
    if before.facts.contains_key(name) && !(before.facts[name] is List) {
        after == before
    } else if s.subset_of(s0) {
        after == before
    } else {
        &&& after.facts == before.facts.insert(name, FactView::List(name, s0.union(s)))
        &&& before.updated.subset_of(after.updated)
        &&& after.updated.contains(FactView::List(name, s0.union(s)))
        &&& forall|x: FactView|
            #[trigger] after.updated.contains(x) && !before.updated.contains(x) ==> {
                &&& x is List
                &&& x.name() == name
                &&& s0.subset_of(list_members(x))
                &&& list_members(x).subset_of(s0.union(s))
                &&& list_members(x) != s0
            }
    }
}

proof fn lemma_list_union_step(
    before: FactStoreView,
    name: Seq<char>,
    p: Set<Seq<char>>,
    mid: FactStoreView,
    v: Seq<char>,
)
    requires
        list_union_outcome(before, name, p, mid),
        before.names_match(),
        mid.names_match(),
    ensures
        list_union_outcome(before, name, p.insert(v), mid.list_added(name, v)),
{
    let s0 = current_list(before, name);
    let q = p.insert(v);
    let next = mid.list_added(name, v);
    if before.facts.contains_key(name) && !(before.facts[name] is List) {
    } else if p.subset_of(s0) {
        if s0.contains(v) {
            assert(before.facts.contains_key(name));
            assert(s0.insert(v) =~= s0);
            assert(q.subset_of(s0));
        } else {
            assert(!q.subset_of(s0));
            assert(s0.union(q) =~= s0.insert(v));
            if !before.facts.contains_key(name) {
                assert(s0 =~= Set::<Seq<char>>::empty());
            }
            assert(s0.insert(v).contains(v));
            assert(list_members(FactView::List(name, s0.insert(v))) != s0);
            assert(s0.subset_of(s0.insert(v)));
            assert(s0.insert(v).subset_of(s0.union(q)));
            assert(next.facts == before.facts.insert(name, FactView::List(name, s0.insert(v))));
            assert(next.facts == before.facts.insert(name, FactView::List(name, s0.union(q))));
        }
    } else {
        let c = s0.union(p);
        assert(mid.facts.contains_key(name));
        assert(mid.facts[name] == FactView::List(name, c));
        assert(!q.subset_of(s0));
        if c.contains(v) {
            assert(c.insert(v) =~= c);
            assert(s0.union(q) =~= c);
        } else {
            assert(s0.union(q) =~= c.insert(v));
            assert(c.subset_of(s0.union(q)));
            assert(next.facts == mid.facts.insert(name, FactView::List(name, c.insert(v))));
            assert(mid.facts.insert(name, FactView::List(name, c.insert(v))) =~= before.facts.insert(name, FactView::List(name, c.insert(v))));
            assert forall|x: FactView|
                #[trigger] next.updated.contains(x) && !before.updated.contains(x) implies {
                &&& x is List
                &&& x.name() == name
                &&& s0.subset_of(list_members(x))
                &&& list_members(x).subset_of(s0.union(q))
                &&& list_members(x) != s0
            } by {
                if x != FactView::List(name, c.insert(v)) {
                    assert(mid.updated.contains(x));
                }
            }
        }
    }
}

/// The mathematical value of an effect.
pub enum EffectView {
    SetFact(FactView),
}

impl EffectView {
    /// Applying the effect to `st` fails: a scalar write meets a fact of
    /// another kind under its name.
    pub open spec fn conflicts(self, st: FactStoreView) -> bool {
        match self {
            EffectView::SetFact(f) => !(f is List) && st.conflicts(f),
        }
    }

    /// Whether `after` is what applying the effect to `before` yields: a
    /// scalar fact is written over whatever was there, a list fact is
    /// joined member by member to the list under its name.
    pub open spec fn applied(self, before: FactStoreView, after: FactStoreView) -> bool {
        match self {
            EffectView::SetFact(f) => match f {
                FactView::List(name, s) => list_union_outcome(before, name, s, after),
                _ => after == before.stored(f),
            },
        }
    }
}

/// A write into the fact store, performed when a beat completes.
#[derive(Debug, PartialEq, Eq, Hash)]
pub enum Effect {
    SetFact(Fact),
}

impl View for Effect {
    type V = EffectView;

    open spec fn view(&self) -> EffectView {
        match self {
            Effect::SetFact(f) => EffectView::SetFact(f@),
        }
    }
}

impl Clone for Effect {
    fn clone(&self) -> (r: Self)
        ensures
            r@ == self@,
    {
        match self {
            Effect::SetFact(f) => Effect::SetFact(f.clone()),
        }
    }
}

impl Effect {
    /// Applies the effect to the store: integers, strings and booleans are
    /// overwritten, lists are joined member by member.
    pub fn apply(&self, fact_store: &mut FactsOfTheWorld) -> (r: Result<(), FactError>)
        requires
            old(fact_store).wf(),
        ensures
            final(fact_store).wf(),
            r is Err <==> self@.conflicts(old(fact_store)@),
            r is Ok ==> self@.applied(old(fact_store)@, final(fact_store)@),
            r is Err ==> final(fact_store)@ == old(fact_store)@,
    {
        match self {
            Effect::SetFact(fact) => match fact {
                Fact::Int(name, value) => fact_store.store_int(name.clone(), *value),
                Fact::String(name, value) => fact_store.store_string(name.clone(), value.clone()),
                Fact::Bool(name, value) => fact_store.store_bool(name.clone(), *value),
                Fact::StringList(name, values) => {
                    let ghost before = fact_store@;
                    proof {
                        lemma_names_match(fact_store);
                    }
                    let members = values.members();
                    let mut i: usize = 0;
                    assert(Set::new(|x: Seq<char>| exists|k: int| 0 <= k < 0 && #[trigger] members@[k]@ == x)
                        =~= Set::<Seq<char>>::empty());
                    assert(list_union_outcome(before, name@, Set::empty(), fact_store@));
                    while i < members.len()
                        invariant
                            i <= members@.len(),
                            fact_store.wf(),
                            before.names_match(),
                            list_union_outcome(
                                before,
                                name@,
                                Set::new(|x: Seq<char>| exists|k: int| 0 <= k < i && #[trigger] members@[k]@ == x),
                                fact_store@,
                            ),
                        decreases members@.len() - i,
                    {
                        let ghost p = Set::new(|x: Seq<char>| exists|k: int| 0 <= k < i && #[trigger] members@[k]@ == x);
                        let ghost mid = fact_store@;
                        proof {
                            lemma_names_match(fact_store);
                        }
                        fact_store.add_to_list(name.clone(), members[i].clone());
                        proof {
                            lemma_list_union_step(before, name@, p, mid, members@[i as int]@);
                            let q = Set::new(|x: Seq<char>| exists|k: int| 0 <= k < i + 1 && #[trigger] members@[k]@ == x);
                            assert(q =~= p.insert(members@[i as int]@));
                        }
                        i = i + 1;
                    }
                    assert(Set::new(|x: Seq<char>| exists|k: int| 0 <= k < members@.len() && #[trigger] members@[k]@ == x) =~= values@);
                    Ok(())
                },
            },
        }
    }
}

} // verus!
