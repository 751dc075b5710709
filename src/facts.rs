//! Facts and the store that holds the current value of each one.
use vstd::prelude::*;
use crate::strings::StringHashSet;
use crate::text::compare_text;

verus! {

/// The mathematical value of a fact: its name and its typed value.
pub enum FactView {
    Int(Seq<char>, i32),
    Text(Seq<char>, Seq<char>),
    Flag(Seq<char>, bool),
    List(Seq<char>, Set<Seq<char>>),
}

impl FactView {
    pub open spec fn name(self) -> Seq<char> {
        match self {
            FactView::Int(n, _) => n,
            FactView::Text(n, _) => n,
            FactView::Flag(n, _) => n,
            FactView::List(n, _) => n,
        }
    }

    pub open spec fn same_kind(self, other: FactView) -> bool {
        ||| (self is Int && other is Int)
        ||| (self is Text && other is Text)
        ||| (self is Flag && other is Flag)
        ||| (self is List && other is List)
    }
}

/// A named, typed unit of world state.
#[derive(Debug, Hash)]
pub enum Fact {
    Int(String, i32),
    String(String, String),
    Bool(String, bool),
    StringList(String, StringHashSet),
}

impl View for Fact {
    type V = FactView;

    open spec fn view(&self) -> FactView {
        match self {
            Fact::Int(n, v) => FactView::Int(n@, *v),
            Fact::String(n, v) => FactView::Text(n@, v@),
            Fact::Bool(n, v) => FactView::Flag(n@, *v),
            Fact::StringList(n, v) => FactView::List(n@, v@),
        }
    }
}

impl Fact {
    /// The name the fact is stored under.
    pub fn name(&self) -> (r: &String)
        ensures
            r@ == self@.name(),
    {
        match self {
            Fact::Int(n, _) => n,
            Fact::String(n, _) => n,
            Fact::Bool(n, _) => n,
            Fact::StringList(n, _) => n,
        }
    }
}

impl Clone for Fact {
    fn clone(&self) -> (r: Self)
        ensures
            r@ == self@,
    {
        match self {
            Fact::Int(n, v) => Fact::Int(n.clone(), *v),
            Fact::String(n, v) => Fact::String(n.clone(), v.clone()),
            Fact::Bool(n, v) => Fact::Bool(n.clone(), *v),
            Fact::StringList(n, v) => Fact::StringList(n.clone(), v.clone()),
        }
    }
}

impl PartialEq for Fact {
    fn eq(&self, other: &Fact) -> (r: bool)
        ensures
            r == (self@ == other@),
    {
        match (self, other) {
            (Fact::Int(n, v), Fact::Int(m, w)) => *n == *m && *v == *w,
            (Fact::String(n, v), Fact::String(m, w)) => *n == *m && *v == *w,
            (Fact::Bool(n, v), Fact::Bool(m, w)) => *n == *m && *v == *w,
            (Fact::StringList(n, v), Fact::StringList(m, w)) => *n == *m && v.eq(w),
            _ => false,
        }
    }
}

impl vstd::std_specs::cmp::PartialEqSpecImpl for Fact {
    open spec fn obeys_eq_spec() -> bool {
        true
    }

    open spec fn eq_spec(&self, other: &Fact) -> bool {
        self@ == other@
    }
}

impl Eq for Fact {
}

/// A write under an existing name with a different kind of fact.
#[derive(Debug, Clone, Copy, PartialEq, Eq, Structural)]
pub enum FactError {
    KindMismatch,
}

/// The mathematical value of a store: each name's fact, and the facts that
/// changed since the last drain.
pub struct FactStoreView {
    pub facts: Map<Seq<char>, FactView>,
    pub updated: Set<FactView>,
}

impl FactStoreView {
    /// Each fact is stored under its own name.
    pub open spec fn names_match(self) -> bool {
        forall|k: Seq<char>| #[trigger] self.facts.contains_key(k) ==> self.facts[k].name() == k
    }

    /// The store holds exactly the facts of `facts`, each under its name.
    pub open spec fn holds_exactly(self, facts: Seq<Fact>) -> bool {
        &&& forall|i: int|
            0 <= i < facts.len() ==> self.facts.contains_key(#[trigger] facts[i]@.name())
                && self.facts[facts[i]@.name()] == facts[i]@
        &&& forall|k: Seq<char>|
            #[trigger] self.facts.contains_key(k) ==> exists|i: int|
                0 <= i < facts.len() && #[trigger] facts[i]@.name() == k
    }

    /// A write of `f` meets a fact of another kind under the same name.
    pub open spec fn conflicts(self, f: FactView) -> bool {
        self.facts.contains_key(f.name()) && !self.facts[f.name()].same_kind(f)
    }

    /// The store after `f` is written: unchanged when it already holds `f`,
    /// else `f` replaces the fact under its name and is marked changed.
    pub open spec fn stored(self, f: FactView) -> FactStoreView {
        if self.facts.contains_key(f.name()) && self.facts[f.name()] == f {
            self
        } else {
            FactStoreView { facts: self.facts.insert(f.name(), f), updated: self.updated.insert(f) }
        }
    }

    /// The integer under `name`, or zero where there is none.
    pub open spec fn int_or_zero(self, name: Seq<char>) -> i32 {
        if self.facts.contains_key(name) {
            match self.facts[name] {
                FactView::Int(_, v) => v,
                _ => 0,
            }
        } else {
            0
        }
    }

    /// The store after `value` is added to the list under `name`; a name
    /// that holds another kind of fact is left alone.
    pub open spec fn list_added(self, name: Seq<char>, value: Seq<char>) -> FactStoreView {
        if !self.facts.contains_key(name) {
            self.stored(FactView::List(name, Set::empty().insert(value)))
        } else {
            match self.facts[name] {
                FactView::List(_, s) => self.stored(FactView::List(name, s.insert(value))),
                _ => self,
            }
        }
    }

    /// The store after `value` is removed from the list under `name`; a name
    /// that is absent or holds another kind of fact is left alone.
    pub open spec fn list_removed(self, name: Seq<char>, value: Seq<char>) -> FactStoreView {
        if self.facts.contains_key(name) {
            match self.facts[name] {
                FactView::List(_, s) => self.stored(FactView::List(name, s.remove(value))),
                _ => self,
            }
        } else {
            self
        }
    }
}

/// The map from name to fact that a sequence of facts with distinct names
/// stands for.
pub closed spec fn fact_map(s: Seq<Fact>) -> Map<Seq<char>, FactView> {
    Map::new(
        |k: Seq<char>| exists|i: int| 0 <= i < s.len() && #[trigger] s[i]@.name() == k,
        |k: Seq<char>| s[choose|i: int| 0 <= i < s.len() && #[trigger] s[i]@.name() == k]@,
    )
}

pub closed spec fn names_unique(s: Seq<Fact>) -> bool {
    forall|i: int, j: int| 0 <= i < s.len() && 0 <= j < s.len() && i != j ==> s[i]@.name() != s[j]@.name()
}

pub closed spec fn fact_set(s: Seq<Fact>) -> Set<FactView> {
    Set::new(|f: FactView| exists|i: int| 0 <= i < s.len() && #[trigger] s[i]@ == f)
}

pub closed spec fn views_distinct(s: Seq<Fact>) -> bool {
    forall|i: int, j: int| 0 <= i < s.len() && 0 <= j < s.len() && i != j ==> s[i]@ != s[j]@
}

proof fn lemma_fact_map_index(s: Seq<Fact>, i: int)
    requires
        names_unique(s),
        0 <= i < s.len(),
    ensures
        fact_map(s).contains_key(s[i]@.name()),
        fact_map(s)[s[i]@.name()] == s[i]@,
{
    let k = s[i]@.name();
    assert(fact_map(s).contains_key(k));
    let j = choose|j: int| 0 <= j < s.len() && #[trigger] s[j]@.name() == k;
    assert(j == i);
}

proof fn lemma_fact_map_update(s: Seq<Fact>, i: int, f: Fact)
    requires
        names_unique(s),
        0 <= i < s.len(),
        s[i]@.name() == f@.name(),
    ensures
        names_unique(s.update(i, f)),
        fact_map(s.update(i, f)) == fact_map(s).insert(f@.name(), f@),
{
    let t = s.update(i, f);
    assert forall|a: int, b: int| 0 <= a < t.len() && 0 <= b < t.len() && a != b implies t[a]@.name() != t[b]@.name() by {
        assert(s[a]@.name() != s[b]@.name());
    }
    lemma_fact_map_index(t, i);
    assert forall|k: Seq<char>| #[trigger] fact_map(t).contains_key(k) == fact_map(s).insert(f@.name(), f@).contains_key(k) by {
        if fact_map(s).contains_key(k) {
            let j = choose|j: int| 0 <= j < s.len() && #[trigger] s[j]@.name() == k;
            if j != i {
                assert(t[j]@.name() == k);
            }
        }
        if fact_map(t).contains_key(k) {
            let j = choose|j: int| 0 <= j < t.len() && #[trigger] t[j]@.name() == k;
            if j != i {
                assert(s[j]@.name() == k);
            }
        }
    }
    assert forall|k: Seq<char>| #[trigger] fact_map(t).contains_key(k) implies fact_map(t)[k] == fact_map(s).insert(f@.name(), f@)[k] by {
        if k != f@.name() {
            let j = choose|j: int| 0 <= j < t.len() && #[trigger] t[j]@.name() == k;
            assert(j != i);
            lemma_fact_map_index(t, j);
            lemma_fact_map_index(s, j);
        }
    }
    assert(fact_map(t) =~= fact_map(s).insert(f@.name(), f@));
}

proof fn lemma_fact_map_push(s: Seq<Fact>, f: Fact)
    requires
        names_unique(s),
        !fact_map(s).contains_key(f@.name()),
    ensures
        names_unique(s.push(f)),
        fact_map(s.push(f)) == fact_map(s).insert(f@.name(), f@),
{
    let t = s.push(f);
    assert forall|a: int, b: int| 0 <= a < t.len() && 0 <= b < t.len() && a != b implies t[a]@.name() != t[b]@.name() by {
        if a < s.len() && b < s.len() {
            assert(s[a]@.name() != s[b]@.name());
        } else if a < s.len() {
            assert(s[a]@.name() == t[a]@.name());
        } else {
            assert(s[b]@.name() == t[b]@.name());
        }
    }
    lemma_fact_map_index(t, s.len() as int);
    assert forall|k: Seq<char>| #[trigger] fact_map(t).contains_key(k) == fact_map(s).insert(f@.name(), f@).contains_key(k) by {
        if fact_map(s).contains_key(k) {
            let j = choose|j: int| 0 <= j < s.len() && #[trigger] s[j]@.name() == k;
            assert(t[j]@.name() == k);
        }
        if fact_map(t).contains_key(k) {
            let j = choose|j: int| 0 <= j < t.len() && #[trigger] t[j]@.name() == k;
            if j < s.len() {
                assert(s[j]@.name() == k);
            }
        }
    }
    assert forall|k: Seq<char>| #[trigger] fact_map(t).contains_key(k) implies fact_map(t)[k] == fact_map(s).insert(f@.name(), f@)[k] by {
        if k != f@.name() {
            let j = choose|j: int| 0 <= j < t.len() && #[trigger] t[j]@.name() == k;
            assert(j < s.len());
            lemma_fact_map_index(t, j);
            lemma_fact_map_index(s, j);
        }
    }
    assert(fact_map(t) =~= fact_map(s).insert(f@.name(), f@));
}

/// The store of facts: the current fact under each name, and the facts that
/// changed since the last drain.
pub struct FactsOfTheWorld {
    facts: Vec<Fact>,
    updated_facts: Vec<Fact>,
}

impl View for FactsOfTheWorld {
    type V = FactStoreView;

    closed spec fn view(&self) -> FactStoreView {
        FactStoreView { facts: fact_map(self.facts@), updated: fact_set(self.updated_facts@) }
    }
}

/// Every fact of a store is stored under its own name.
pub proof fn lemma_names_match(st: &FactsOfTheWorld)
    ensures
        st@.names_match(),
{
    assert forall|k: Seq<char>| #[trigger] st@.facts.contains_key(k) implies st@.facts[k].name() == k by {
        let s = st.facts@;
        let i = choose|i: int| 0 <= i < s.len() && #[trigger] s[i]@.name() == k;
    }
}

impl FactsOfTheWorld {
    /// Names are unique, and no changed fact is recorded twice.
    pub closed spec fn wf(&self) -> bool {
        names_unique(self.facts@) && views_distinct(self.updated_facts@)
    }

    /// An empty store.
    pub fn new() -> (r: Self)
        ensures
            r.wf(),
            r@.facts == Map::<Seq<char>, FactView>::empty(),
            r@.updated == Set::<FactView>::empty(),
    {
        let r = FactsOfTheWorld { facts: Vec::new(), updated_facts: Vec::new() };
        assert(r@.facts =~= Map::<Seq<char>, FactView>::empty());
        assert(r@.updated =~= Set::<FactView>::empty());
        r
    }

    /// The index of the fact named `key`.
    fn find(&self, key: &str) -> (r: Option<usize>)
        requires
            self.wf(),
        ensures
            match r {
                Some(i) => i < self.facts@.len() && self.facts@[i as int]@.name() == key@
                    && self@.facts.contains_key(key@) && self@.facts[key@] == self.facts@[i as int]@,
                None => !self@.facts.contains_key(key@),
            },
    {
        let mut i: usize = 0;
        while i < self.facts.len()
            invariant
                i <= self.facts@.len(),
                names_unique(self.facts@),
                forall|k: int| 0 <= k < i ==> #[trigger] self.facts@[k]@.name() != key@,
            decreases self.facts@.len() - i,
        {
            if compare_text(self.facts[i].name().as_str(), key) == 0 {
                proof {
                    lemma_fact_map_index(self.facts@, i as int);
                }
                return Some(i);
            }
            i = i + 1;
        }
        None
    }

    /// Records `f` among the changed facts, once.
    fn mark_updated(&mut self, f: Fact)
        requires
            views_distinct(old(self).updated_facts@),
        ensures
            views_distinct(final(self).updated_facts@),
            final(self).facts == old(self).facts,
            final(self)@.updated == old(self)@.updated.insert(f@),
    {
        let ghost before = self.updated_facts@;
        let mut i: usize = 0;
        while i < self.updated_facts.len()
            invariant
                i <= self.updated_facts@.len(),
                self.updated_facts@ == before,
                views_distinct(before),
                forall|k: int| 0 <= k < i ==> #[trigger] self.updated_facts@[k]@ != f@,
            decreases self.updated_facts@.len() - i,
        {
            if self.updated_facts[i].eq(&f) {
                assert(self@.updated.contains(f@));
                assert(self@.updated =~= self@.updated.insert(f@));
                return;
            }
            i = i + 1;
        }
        self.updated_facts.push(f);
        proof {
            let t = self.updated_facts@;
            assert forall|a: int, b: int| 0 <= a < t.len() && 0 <= b < t.len() && a != b implies t[a]@ != t[b]@ by {
                if a < before.len() && b < before.len() {
                    assert(before[a]@ != before[b]@);
                }
            }
            assert forall|x: FactView| #[trigger] fact_set(t).contains(x) == fact_set(before).insert(f@).contains(x) by {
                if fact_set(before).contains(x) && x != f@ {
                    let j = choose|j: int| 0 <= j < before.len() && #[trigger] before[j]@ == x;
                    assert(t[j]@ == x);
                }
                if x == f@ {
                    assert(t[before.len() as int]@ == x);
                }
                if fact_set(t).contains(x) {
                    let j = choose|j: int| 0 <= j < t.len() && #[trigger] t[j]@ == x;
                    if j < before.len() {
                        assert(before[j]@ == x);
                    }
                }
            }
            assert(fact_set(t) =~= fact_set(before).insert(f@));
        }
    }

    /// Puts `f` at index `i`, whose fact has the same name, and marks it changed.
    fn replace_at(&mut self, i: usize, f: Fact)
        requires
            old(self).wf(),
            i < old(self).facts@.len(),
            old(self).facts@[i as int]@.name() == f@.name(),
        ensures
            final(self).wf(),
            final(self)@.facts == old(self)@.facts.insert(f@.name(), f@),
            final(self)@.updated == old(self)@.updated.insert(f@),
    {
        proof {
            lemma_fact_map_update(self.facts@, i as int, f);
        }
        let marked = f.clone();
        self.facts.set(i, f);
        self.mark_updated(marked);
    }

    /// Adds `f`, whose name is not yet stored, and marks it changed.
    fn insert_new(&mut self, f: Fact)
        requires
            old(self).wf(),
            !old(self)@.facts.contains_key(f@.name()),
        ensures
            final(self).wf(),
            final(self)@.facts == old(self)@.facts.insert(f@.name(), f@),
            final(self)@.updated == old(self)@.updated.insert(f@),
    {
        proof {
            lemma_fact_map_push(self.facts@, f);
        }
        let marked = f.clone();
        self.facts.push(f);
        self.mark_updated(marked);
    }

    /// Stores `value` as the integer fact `key`. Fails, changing nothing,
    /// where `key` holds another kind of fact.
    pub fn store_int(&mut self, key: String, value: i32) -> (r: Result<(), FactError>)
        requires
            old(self).wf(),
        ensures
            final(self).wf(),
            r is Err <==> old(self)@.conflicts(FactView::Int(key@, value)),
            r is Ok ==> final(self)@ == old(self)@.stored(FactView::Int(key@, value)),
            r is Err ==> final(self)@ == old(self)@,
    {
        match self.find(key.as_str()) {
            Some(i) => {
                let same = match &self.facts[i] {
                    Fact::Int(_, v) => Some(*v == value),
                    _ => None,
                };
                match same {
                    None => Err(FactError::KindMismatch),
                    Some(true) => Ok(()),
                    Some(false) => {
                        self.replace_at(i, Fact::Int(key, value));
                        Ok(())
                    },
                }
            },
            None => {
                self.insert_new(Fact::Int(key, value));
                Ok(())
            },
        }
    }

    /// Adds `value` to the integer fact `key`, taken as zero where absent.
    pub fn add_to_int(&mut self, key: String, value: i32) -> (r: Result<(), FactError>)
        requires
            old(self).wf(),
            i32::MIN <= old(self)@.int_or_zero(key@) + value <= i32::MAX,
        ensures
            final(self).wf(),
            r is Err <==> old(self)@.conflicts(FactView::Int(key@, 0)),
            r is Ok ==> final(self)@ == old(self)@.stored(
                FactView::Int(key@, (old(self)@.int_or_zero(key@) + value) as i32),
            ),
            r is Err ==> final(self)@ == old(self)@,
    {
        let current: i32 = match self.get_int(key.as_str()) {
            Some(v) => *v,
            None => 0,
        };
        self.store_int(key, current + value)
    }

    /// Stores `value` as the string fact `key`. Fails, changing nothing,
    /// where `key` holds another kind of fact.
    pub fn store_string(&mut self, key: String, value: String) -> (r: Result<(), FactError>)
        requires
            old(self).wf(),
        ensures
            final(self).wf(),
            r is Err <==> old(self)@.conflicts(FactView::Text(key@, value@)),
            r is Ok ==> final(self)@ == old(self)@.stored(FactView::Text(key@, value@)),
            r is Err ==> final(self)@ == old(self)@,
    {
        match self.find(key.as_str()) {
            Some(i) => {
                let same = match &self.facts[i] {
                    Fact::String(_, v) => Some(*v == value),
                    _ => None,
                };
                match same {
                    None => Err(FactError::KindMismatch),
                    Some(true) => Ok(()),
                    Some(false) => {
                        self.replace_at(i, Fact::String(key, value));
                        Ok(())
                    },
                }
            },
            None => {
                self.insert_new(Fact::String(key, value));
                Ok(())
            },
        }
    }

    /// Stores `value` as the boolean fact `key`. Fails, changing nothing,
    /// where `key` holds another kind of fact.
    pub fn store_bool(&mut self, key: String, value: bool) -> (r: Result<(), FactError>)
        requires
            old(self).wf(),
        ensures
            final(self).wf(),
            r is Err <==> old(self)@.conflicts(FactView::Flag(key@, value)),
            r is Ok ==> final(self)@ == old(self)@.stored(FactView::Flag(key@, value)),
            r is Err ==> final(self)@ == old(self)@,
    {
        match self.find(key.as_str()) {
            Some(i) => {
                let same = match &self.facts[i] {
                    Fact::Bool(_, v) => Some(*v == value),
                    _ => None,
                };
                match same {
                    None => Err(FactError::KindMismatch),
                    Some(true) => Ok(()),
                    Some(false) => {
                        self.replace_at(i, Fact::Bool(key, value));
                        Ok(())
                    },
                }
            },
            None => {
                self.insert_new(Fact::Bool(key, value));
                Ok(())
            },
        }
    }

    /// Adds `value` to the list fact `key`, creating the list where absent.
    /// The fact is marked changed only when the list gains a member; a name
    /// that holds another kind of fact is left alone.
    pub fn add_to_list(&mut self, key: String, value: String)
        requires
            old(self).wf(),
        ensures
            final(self).wf(),
            final(self)@ == old(self)@.list_added(key@, value@),
    {
        match self.find(key.as_str()) {
            None => {
                let mut list = StringHashSet::new();
                list.insert(value);
                self.insert_new(Fact::StringList(key, list));
            },
            Some(i) => {
                let current = match &self.facts[i] {
                    Fact::StringList(_, list) => Some(list.clone()),
                    _ => None,
                };
                if let Some(mut list) = current {
                    let ghost s = list@;
                    let ghost v = value@;
                    if list.insert(value) {
                        self.replace_at(i, Fact::StringList(key, list));
                    } else {
                        assert(s.insert(v) =~= s);
                    }
                }
            },
        }
    }

    /// Removes `value` from the list fact `key`. The fact is marked changed
    /// only when the list loses a member; an absent name, or one that holds
    /// another kind of fact, is left alone.
    pub fn remove_from_list(&mut self, key: String, value: String)
        requires
            old(self).wf(),
        ensures
            final(self).wf(),
            final(self)@ == old(self)@.list_removed(key@, value@),
    {
        match self.find(key.as_str()) {
            None => {},
            Some(i) => {
                let current = match &self.facts[i] {
                    Fact::StringList(_, list) => Some(list.clone()),
                    _ => None,
                };
                if let Some(mut list) = current {
                    let ghost s = list@;
                    if list.remove(&value) {
                        self.replace_at(i, Fact::StringList(key, list));
                    } else {
                        assert(s.remove(value@) =~= s);
                    }
                }
            },
        }
    }

    /// The integer under `key`, if `key` holds an integer fact.
    pub fn get_int(&self, key: &str) -> (r: Option<&i32>)
        requires
            self.wf(),
        ensures
            match r {
                Some(v) => self@.facts.contains_key(key@) && self@.facts[key@] == FactView::Int(key@, *v),
                None => !(self@.facts.contains_key(key@) && self@.facts[key@] is Int),
            },
    {
        match self.find(key) {
            Some(i) => match &self.facts[i] {
                Fact::Int(_, v) => Some(v),
                _ => None,
            },
            None => None,
        }
    }

    /// The string under `key`, if `key` holds a string fact.
    pub fn get_string(&self, key: &str) -> (r: Option<&String>)
        requires
            self.wf(),
        ensures
            match r {
                Some(v) => self@.facts.contains_key(key@) && self@.facts[key@] == FactView::Text(key@, v@),
                None => !(self@.facts.contains_key(key@) && self@.facts[key@] is Text),
            },
    {
        match self.find(key) {
            Some(i) => match &self.facts[i] {
                Fact::String(_, v) => Some(v),
                _ => None,
            },
            None => None,
        }
    }

    /// The boolean under `key`, if `key` holds a boolean fact.
    pub fn get_bool(&self, key: &str) -> (r: Option<&bool>)
        requires
            self.wf(),
        ensures
            match r {
                Some(v) => self@.facts.contains_key(key@) && self@.facts[key@] == FactView::Flag(key@, *v),
                None => !(self@.facts.contains_key(key@) && self@.facts[key@] is Flag),
            },
    {
        match self.find(key) {
            Some(i) => match &self.facts[i] {
                Fact::Bool(_, v) => Some(v),
                _ => None,
            },
            None => None,
        }
    }

    /// The list under `key`, if `key` holds a list fact.
    pub fn get_list(&self, key: &str) -> (r: Option<&StringHashSet>)
        requires
            self.wf(),
        ensures
            match r {
                Some(v) => self@.facts.contains_key(key@) && self@.facts[key@] == FactView::List(key@, v@),
                None => !(self@.facts.contains_key(key@) && self@.facts[key@] is List),
            },
    {
        match self.find(key) {
            Some(i) => match &self.facts[i] {
                Fact::StringList(_, v) => Some(v),
                _ => None,
            },
            None => None,
        }
    }

    /// The fact under `key`, of any kind.
    pub fn get(&self, key: &str) -> (r: Option<&Fact>)
        requires
            self.wf(),
        ensures
            match r {
                Some(f) => self@.facts.contains_key(key@) && self@.facts[key@] == f@,
                None => !self@.facts.contains_key(key@),
            },
    {
        match self.find(key) {
            Some(i) => Some(&self.facts[i]),
            None => None,
        }
    }

    /// Every stored fact, once each, in no particular order.
    pub fn snapshot(&self) -> (r: Vec<Fact>)
        requires
            self.wf(),
        ensures
            forall|i: int, j: int|
                0 <= i < r@.len() && 0 <= j < r@.len() && i != j ==> r@[i]@.name() != r@[j]@.name(),
            self@.holds_exactly(r@),
    {
        let mut out: Vec<Fact> = Vec::new();
        let mut i: usize = 0;
        while i < self.facts.len()
            invariant
                self.wf(),
                i <= self.facts@.len(),
                out@.len() == i,
                forall|k: int| 0 <= k < i ==> #[trigger] out@[k]@ == self.facts@[k]@,
            decreases self.facts@.len() - i,
        {
            out.push(self.facts[i].clone());
            i = i + 1;
        }
        proof {
            assert forall|a: int| 0 <= a < out@.len() implies self@.facts.contains_key(
                #[trigger] out@[a]@.name(),
            ) && self@.facts[out@[a]@.name()] == out@[a]@ by {
                lemma_fact_map_index(self.facts@, a);
            }
            assert forall|k: Seq<char>| #[trigger] self@.facts.contains_key(k) implies exists|a: int|
                0 <= a < out@.len() && #[trigger] out@[a]@.name() == k by {
                let a = choose|a: int| 0 <= a < self.facts@.len() && #[trigger] self.facts@[a]@.name() == k;
                assert(out@[a]@.name() == k);
            }
        }
        out
    }

    /// A store that holds exactly `facts` with nothing marked changed, or
    /// `None` where two of them share a name.
    pub fn from_facts(facts: Vec<Fact>) -> (r: Option<FactsOfTheWorld>)
        ensures
            r is Some <==> forall|i: int, j: int|
                0 <= i < facts@.len() && 0 <= j < facts@.len() && i != j ==> facts@[i]@.name()
                    != facts@[j]@.name(),
            r matches Some(st) ==> st.wf() && st@.updated == Set::<FactView>::empty()
                && st@.holds_exactly(facts@),
    {
        let mut i: usize = 0;
        while i < facts.len()
            invariant
                i <= facts@.len(),
                forall|a: int, b: int|
                    0 <= a < facts@.len() && 0 <= b < i && a != b ==> facts@[a]@.name()
                        != facts@[b]@.name(),
            decreases facts@.len() - i,
        {
            let mut j: usize = 0;
            while j < facts.len()
                invariant
                    i < facts@.len(),
                    j <= facts@.len(),
                    forall|a: int, b: int|
                        0 <= a < facts@.len() && 0 <= b < i && a != b ==> facts@[a]@.name()
                            != facts@[b]@.name(),
                    forall|a: int| 0 <= a < j && a != i ==> facts@[a]@.name() != facts@[i as int]@.name(),
                decreases facts@.len() - j,
            {
                if j != i && compare_text(facts[j].name().as_str(), facts[i].name().as_str()) == 0 {
                    return None;
                }
                j = j + 1;
            }
            i = i + 1;
        }
        let st = FactsOfTheWorld { facts, updated_facts: Vec::new() };
        proof {
            assert(st@.updated =~= Set::<FactView>::empty());
            assert forall|a: int| 0 <= a < st.facts@.len() implies st@.facts.contains_key(
                #[trigger] st.facts@[a]@.name(),
            ) && st@.facts[st.facts@[a]@.name()] == st.facts@[a]@ by {
                lemma_fact_map_index(st.facts@, a);
            }
        }
        Some(st)
    }

    /// Takes the facts that changed since the last drain, each once, and
    /// clears that record.
    pub fn drain_updated_facts(&mut self) -> (r: Vec<Fact>)
        requires
            old(self).wf(),
        ensures
            final(self).wf(),
            final(self)@.facts == old(self)@.facts,
            final(self)@.updated == Set::<FactView>::empty(),
            forall|x: FactView| old(self)@.updated.contains(x) <==> exists|i: int| 0 <= i < r@.len() && #[trigger] r@[i]@ == x,
            forall|i: int, j: int| 0 <= i < r@.len() && 0 <= j < r@.len() && i != j ==> r@[i]@ != r@[j]@,
    {
        let mut drained: Vec<Fact> = Vec::new();
        std::mem::swap(&mut drained, &mut self.updated_facts);
        assert(self@.updated =~= Set::<FactView>::empty());
        drained
    }
}

} // verus!
