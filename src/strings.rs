//! A set of strings kept in canonical (code point) order, so that two sets
//! with the same members are also equal element by element.
use vstd::prelude::*;
use crate::text::{compare_text, lemma_text_lt_irreflexive, lemma_text_lt_transitive, text_lt};

verus! {

/// An unordered set of strings: membership only, duplicates collapse.
#[derive(Debug, Hash)]
pub struct StringHashSet(Vec<String>);

impl View for StringHashSet {
    type V = Set<Seq<char>>;

    closed spec fn view(&self) -> Set<Seq<char>> {
        Set::new(|x: Seq<char>| exists|i: int| 0 <= i < self.0@.len() && #[trigger] self.0@[i]@ == x)
    }
}

impl StringHashSet {
    #[verifier::type_invariant]
    spec fn ordered(self) -> bool {
        forall|i: int, j: int|
            0 <= i < j < self.0@.len() ==> #[trigger] text_lt(self.0@[i]@, self.0@[j]@)
    }

    /// The empty set.
    pub fn new() -> (r: Self)
        ensures
            r@ == Set::<Seq<char>>::empty(),
    {
        let r = StringHashSet(Vec::new());
        assert(r@ =~= Set::<Seq<char>>::empty());
        r
    }

    /// The members, each once, in canonical order.
    pub fn members(&self) -> (r: &Vec<String>)
        ensures
            forall|x: Seq<char>| self@.contains(x) <==> exists|i: int| 0 <= i < r@.len() && #[trigger] r@[i]@ == x,
            forall|i: int, j: int| 0 <= i < j < r@.len() ==> r@[i]@ != r@[j]@,
    {
        proof {
            use_type_invariant(self);
            assert forall|i: int, j: int| 0 <= i < j < self.0@.len() implies self.0@[i]@ != self.0@[j]@ by {
                assert(text_lt(self.0@[i]@, self.0@[j]@));
                lemma_text_lt_irreflexive(self.0@[i]@);
            }
        }
        &self.0
    }

    /// Whether the set has no member.
    pub fn is_empty(&self) -> (r: bool)
        ensures
            r == (self@ == Set::<Seq<char>>::empty()),
    {
        if self.0.len() == 0 {
            assert(self@ =~= Set::<Seq<char>>::empty());
            true
        } else {
            assert(self@.contains(self.0@[0]@));
            false
        }
    }

    /// Whether `value` is a member.
    pub fn contains(&self, value: &str) -> (r: bool)
        ensures
            r == self@.contains(value@),
    {
        let mut i: usize = 0;
        while i < self.0.len()
            invariant
                i <= self.0@.len(),
                forall|k: int| 0 <= k < i ==> self.0@[k]@ != value@,
            decreases self.0@.len() - i,
        {
            if compare_text(self.0[i].as_str(), value) == 0 {
                return true;
            }
            i = i + 1;
        }
        false
    }

    /// Adds `value`; returns whether the set gained a member.
    pub fn insert(&mut self, value: String) -> (r: bool)
        ensures
            r == !old(self)@.contains(value@),
            final(self)@ == old(self)@.insert(value@),
    {
        proof {
            use_type_invariant(&*self);
        }
        let mut i: usize = 0;
        while i < self.0.len()
            invariant
                i <= self.0@.len(),
                forall|k: int| 0 <= k < i ==> text_lt(#[trigger] self.0@[k]@, value@),
            ensures
                i <= self.0@.len(),
                forall|k: int| 0 <= k < i ==> text_lt(#[trigger] self.0@[k]@, value@),
                i < self.0@.len() ==> text_lt(value@, self.0@[i as int]@),
            decreases self.0@.len() - i,
        {
            let c = compare_text(self.0[i].as_str(), value.as_str());
            if c == 0 {
                assert(self@.contains(self.0@[i as int]@));
                assert(self@ =~= self@.insert(value@));
                return false;
            }
            if c > 0 {
                break;
            }
            i = i + 1;
        }
        let ghost before = self.0@;
        proof {
            assert forall|k: int| 0 <= k < before.len() implies before[k]@ != value@ by {
                if k < i {
                    lemma_text_lt_irreflexive(value@);
                } else {
                    if k > i {
                        assert(text_lt(before[i as int]@, before[k]@));
                        lemma_text_lt_transitive(value@, before[i as int]@, before[k]@);
                    }
                    lemma_text_lt_irreflexive(value@);
                }
            }
        }
        let mut items: Vec<String> = Vec::new();
        std::mem::swap(&mut items, &mut self.0);
        items.insert(i, value);
        proof {
            assert forall|a: int, b: int| 0 <= a < b < items@.len() implies #[trigger] text_lt(
                items@[a]@,
                items@[b]@,
            ) by {
                if b < i {
                    assert(items@[a] == before[a] && items@[b] == before[b]);
                } else if b == i {
                    assert(items@[a] == before[a]);
                } else if a == i {
                    if b - 1 > i {
                        assert(text_lt(before[i as int]@, before[b - 1]@));
                        lemma_text_lt_transitive(value@, before[i as int]@, before[b - 1]@);
                    }
                } else if a < i {
                    assert(items@[a] == before[a] && items@[b] == before[b - 1]);
                } else {
                    assert(items@[a] == before[a - 1] && items@[b] == before[b - 1]);
                }
            }
        }
        *self = StringHashSet(items);
        proof {
            assert forall|x: Seq<char>| #[trigger] final(self)@.contains(x) == old(self)@.insert(value@).contains(x) by {
                if old(self)@.insert(value@).contains(x) {
                    if x == value@ {
                        assert(self.0@[i as int]@ == x);
                    } else {
                        let k = choose|k: int| 0 <= k < before.len() && #[trigger] before[k]@ == x;
                        if k < i {
                            assert(self.0@[k]@ == x);
                        } else {
                            assert(self.0@[k + 1]@ == x);
                        }
                    }
                }
                if final(self)@.contains(x) {
                    let k = choose|k: int| 0 <= k < self.0@.len() && #[trigger] self.0@[k]@ == x;
                    if k < i {
                        assert(before[k]@ == x);
                    } else if k > i {
                        assert(before[k - 1]@ == x);
                    }
                }
            }
            assert(final(self)@ =~= old(self)@.insert(value@));
        }
        true
    }

    /// Removes `value`; returns whether the set lost a member.
    pub fn remove(&mut self, value: &String) -> (r: bool)
        ensures
            r == old(self)@.contains(value@),
            final(self)@ == old(self)@.remove(value@),
    {
        proof {
            use_type_invariant(&*self);
        }
        let mut i: usize = 0;
        while i < self.0.len()
            invariant
                i <= self.0@.len(),
                forall|k: int| 0 <= k < i ==> self.0@[k]@ != value@,
            ensures
                i <= self.0@.len(),
                forall|k: int| 0 <= k < i ==> self.0@[k]@ != value@,
                i < self.0@.len() ==> self.0@[i as int]@ == value@,
            decreases self.0@.len() - i,
        {
            if compare_text(self.0[i].as_str(), value.as_str()) == 0 {
                break;
            }
            i = i + 1;
        }
        if i == self.0.len() {
            assert(self@ =~= self@.remove(value@));
            return false;
        }
        let ghost before = self.0@;
        proof {
            assert(self@.contains(before[i as int]@));
            assert forall|k: int| 0 <= k < before.len() && k != i implies before[k]@ != value@ by {
                if k < i {
                    assert(text_lt(before[k]@, before[i as int]@));
                } else {
                    assert(text_lt(before[i as int]@, before[k]@));
                }
                lemma_text_lt_irreflexive(value@);
            }
        }
        let mut items: Vec<String> = Vec::new();
        std::mem::swap(&mut items, &mut self.0);
        items.remove(i);
        proof {
            assert forall|a: int, b: int| 0 <= a < b < items@.len() implies #[trigger] text_lt(
                items@[a]@,
                items@[b]@,
            ) by {
                if b < i {
                    assert(items@[a] == before[a] && items@[b] == before[b]);
                } else if a < i {
                    assert(items@[a] == before[a] && items@[b] == before[b + 1]);
                } else {
                    assert(items@[a] == before[a + 1] && items@[b] == before[b + 1]);
                }
            }
        }
        *self = StringHashSet(items);
        proof {
            assert forall|x: Seq<char>| #[trigger] final(self)@.contains(x) == old(self)@.remove(value@).contains(x) by {
                if old(self)@.remove(value@).contains(x) {
                    let k = choose|k: int| 0 <= k < before.len() && #[trigger] before[k]@ == x;
                    if k < i {
                        assert(self.0@[k]@ == x);
                    } else if k > i {
                        assert(self.0@[k - 1]@ == x);
                    }
                }
                if final(self)@.contains(x) {
                    let k = choose|k: int| 0 <= k < self.0@.len() && #[trigger] self.0@[k]@ == x;
                    if k < i {
                        assert(before[k]@ == x);
                    } else {
                        assert(before[k + 1]@ == x);
                    }
                }
            }
            assert(final(self)@ =~= old(self)@.remove(value@));
        }
        true
    }

    /// Whether every member of `self` is a member of `other`.
    fn is_subset_of(&self, other: &StringHashSet) -> (r: bool)
        ensures
            r == self@.subset_of(other@),
    {
        let mut i: usize = 0;
        while i < self.0.len()
            invariant
                i <= self.0@.len(),
                forall|k: int| 0 <= k < i ==> other@.contains(#[trigger] self.0@[k]@),
            decreases self.0@.len() - i,
        {
            if !other.contains(self.0[i].as_str()) {
                assert(self@.contains(self.0@[i as int]@));
                return false;
            }
            i = i + 1;
        }
        true
    }
}

impl Clone for StringHashSet {
    fn clone(&self) -> (r: Self)
        ensures
            r@ == self@,
    {
        proof {
            use_type_invariant(self);
        }
        let mut items: Vec<String> = Vec::new();
        let mut i: usize = 0;
        while i < self.0.len()
            invariant
                i <= self.0@.len(),
                items@ == self.0@.subrange(0, i as int),
            decreases self.0@.len() - i,
        {
            items.push(self.0[i].clone());
            proof {
                assert(items@ =~= self.0@.subrange(0, i + 1));
            }
            i = i + 1;
        }
        assert(items@ =~= self.0@);
        let r = StringHashSet(items);
        assert(r@ =~= self@);
        r
    }
}

impl PartialEq for StringHashSet {
    fn eq(&self, other: &StringHashSet) -> (r: bool)
        ensures
            r == (self@ == other@),
    {
        let r = self.is_subset_of(other) && other.is_subset_of(self);
        proof {
            if self@.subset_of(other@) && other@.subset_of(self@) {
                assert(self@ =~= other@);
            }
        }
        r
    }
}

impl vstd::std_specs::cmp::PartialEqSpecImpl for StringHashSet {
    open spec fn obeys_eq_spec() -> bool {
        true
    }

    open spec fn eq_spec(&self, other: &StringHashSet) -> bool {
        self@ == other@
    }
}

impl Eq for StringHashSet {
}

} // verus!
