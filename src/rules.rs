//! Conditions over single facts, and rules that join conditions.
use vstd::prelude::*;
use crate::facts::{FactView, FactsOfTheWorld};

verus! {

/// A predicate over one named fact.
#[derive(Debug, PartialEq, Eq, Hash)]
pub enum Condition {
    IntEquals { fact_name: String, expected_value: i32 },
    IntMoreThan { fact_name: String, expected_value: i32 },
    IntLessThan { fact_name: String, expected_value: i32 },
    StringEquals { fact_name: String, expected_value: String },
    BoolEquals { fact_name: String, expected_value: bool },
    ListContains { fact_name: String, expected_value: String },
}

impl Condition {
    /// Whether the condition holds of the facts; an absent name, or one
    /// that holds another kind of fact, makes it false.
    pub open spec fn holds(self, facts: Map<Seq<char>, FactView>) -> bool {
        match self {
            Condition::IntEquals { fact_name, expected_value } => facts.contains_key(fact_name@)
                && match facts[fact_name@] {
                FactView::Int(_, v) => v == expected_value,
                _ => false,
            },
            Condition::IntMoreThan { fact_name, expected_value } => facts.contains_key(fact_name@)
                && match facts[fact_name@] {
                FactView::Int(_, v) => v > expected_value,
                _ => false,
            },
            Condition::IntLessThan { fact_name, expected_value } => facts.contains_key(fact_name@)
                && match facts[fact_name@] {
                FactView::Int(_, v) => v < expected_value,
                _ => false,
            },
            Condition::StringEquals { fact_name, expected_value } => facts.contains_key(
                fact_name@,
            ) && match facts[fact_name@] {
                FactView::Text(_, v) => v == expected_value@,
                _ => false,
            },
            Condition::BoolEquals { fact_name, expected_value } => facts.contains_key(fact_name@)
                && match facts[fact_name@] {
                FactView::Flag(_, v) => v == expected_value,
                _ => false,
            },
            Condition::ListContains { fact_name, expected_value } => facts.contains_key(
                fact_name@,
            ) && match facts[fact_name@] {
                FactView::List(_, s) => s.contains(expected_value@),
                _ => false,
            },
        }
    }

    /// Evaluates the condition against the store; never fails.
    pub fn evaluate(&self, facts: &FactsOfTheWorld) -> (r: bool)
        requires
            facts.wf(),
        ensures
            r == self.holds(facts@.facts),
    {
        match self {
            Condition::IntEquals { fact_name, expected_value } => match facts.get_int(
                fact_name.as_str(),
            ) {
                Some(v) => *v == *expected_value,
                None => false,
            },
            Condition::IntMoreThan { fact_name, expected_value } => match facts.get_int(
                fact_name.as_str(),
            ) {
                Some(v) => *v > *expected_value,
                None => false,
            },
            Condition::IntLessThan { fact_name, expected_value } => match facts.get_int(
                fact_name.as_str(),
            ) {
                Some(v) => *v < *expected_value,
                None => false,
            },
            Condition::StringEquals { fact_name, expected_value } => match facts.get_string(
                fact_name.as_str(),
            ) {
                Some(v) => *v == *expected_value,
                None => false,
            },
            Condition::BoolEquals { fact_name, expected_value } => match facts.get_bool(
                fact_name.as_str(),
            ) {
                Some(v) => *v == *expected_value,
                None => false,
            },
            Condition::ListContains { fact_name, expected_value } => match facts.get_list(
                fact_name.as_str(),
            ) {
                Some(list) => list.contains(expected_value.as_str()),
                None => false,
            },
        }
    }
}

impl Clone for Condition {
    fn clone(&self) -> (r: Self)
        ensures
            r == *self,
    {
        match self {
            Condition::IntEquals { fact_name, expected_value } => Condition::IntEquals {
                fact_name: fact_name.clone(),
                expected_value: *expected_value,
            },
            Condition::IntMoreThan { fact_name, expected_value } => Condition::IntMoreThan {
                fact_name: fact_name.clone(),
                expected_value: *expected_value,
            },
            Condition::IntLessThan { fact_name, expected_value } => Condition::IntLessThan {
                fact_name: fact_name.clone(),
                expected_value: *expected_value,
            },
            Condition::StringEquals { fact_name, expected_value } => Condition::StringEquals {
                fact_name: fact_name.clone(),
                expected_value: expected_value.clone(),
            },
            Condition::BoolEquals { fact_name, expected_value } => Condition::BoolEquals {
                fact_name: fact_name.clone(),
                expected_value: *expected_value,
            },
            Condition::ListContains { fact_name, expected_value } => Condition::ListContains {
                fact_name: fact_name.clone(),
                expected_value: expected_value.clone(),
            },
        }
    }
}

/// The mathematical value of a rule.
pub struct RuleView {
    pub name: Seq<char>,
    pub conditions: Seq<Condition>,
}

impl RuleView {
    /// A rule holds when every one of its conditions holds; one without
    /// conditions always holds.
    pub open spec fn holds(self, facts: Map<Seq<char>, FactView>) -> bool {
        forall|i: int| 0 <= i < self.conditions.len() ==> #[trigger] self.conditions[i].holds(facts)
    }
}

/// Every rule of the sequence holds.
pub open spec fn all_hold(rules: Seq<RuleView>, facts: Map<Seq<char>, FactView>) -> bool {
    forall|i: int| 0 <= i < rules.len() ==> #[trigger] rules[i].holds(facts)
}

/// A named conjunction of conditions.
#[derive(Debug, PartialEq, Eq, Hash)]
pub struct Rule {
    pub name: String,
    pub conditions: Vec<Condition>,
}

impl View for Rule {
    type V = RuleView;

    open spec fn view(&self) -> RuleView {
        RuleView { name: self.name@, conditions: self.conditions@ }
    }
}

impl Rule {
    pub fn new(name: String, conditions: Vec<Condition>) -> (r: Self)
        ensures
            r@ == (RuleView { name: name@, conditions: conditions@ }),
    {
        Rule { name, conditions }
    }

    /// Whether every condition holds of the store.
    pub fn evaluate(&self, facts: &FactsOfTheWorld) -> (r: bool)
        requires
            facts.wf(),
        ensures
            r == self@.holds(facts@.facts),
    {
        let mut i: usize = 0;
        while i < self.conditions.len()
            invariant
                i <= self.conditions@.len(),
                facts.wf(),
                forall|k: int| 0 <= k < i ==> #[trigger] self.conditions@[k].holds(facts@.facts),
            decreases self.conditions@.len() - i,
        {
            if !self.conditions[i].evaluate(facts) {
                assert(self@.conditions[i as int] == self.conditions@[i as int]);
                assert(!self@.conditions[i as int].holds(facts@.facts));
                assert(!self@.holds(facts@.facts));
                return false;
            }
            i = i + 1;
        }
        true
    }
}

impl Clone for Rule {
    fn clone(&self) -> (r: Self)
        ensures
            r@ == self@,
    {
        let mut conditions: Vec<Condition> = Vec::new();
        let mut i: usize = 0;
        while i < self.conditions.len()
            invariant
                i <= self.conditions@.len(),
                conditions@ == self.conditions@.subrange(0, i as int),
            decreases self.conditions@.len() - i,
        {
            conditions.push(self.conditions[i].clone());
            assert(conditions@ =~= self.conditions@.subrange(0, i + 1));
            i = i + 1;
        }
        assert(conditions@ =~= self.conditions@);
        Rule { name: self.name.clone(), conditions }
    }
}

/// Whether every rule of `rules` holds of the store.
pub fn all_rules_hold(rules: &Vec<Rule>, facts: &FactsOfTheWorld) -> (r: bool)
    requires
        facts.wf(),
    ensures
        r == all_hold(rules@.map_values(|x: Rule| x@), facts@.facts),
{
    let ghost views = rules@.map_values(|x: Rule| x@);
    let mut i: usize = 0;
    while i < rules.len()
        invariant
            i <= rules@.len(),
            facts.wf(),
            views == rules@.map_values(|x: Rule| x@),
            forall|k: int| 0 <= k < i ==> #[trigger] views[k].holds(facts@.facts),
        decreases rules@.len() - i,
    {
        if !rules[i].evaluate(facts) {
            assert(!views[i as int].holds(facts@.facts));
            return false;
        }
        i = i + 1;
    }
    true
}

/// A copy of each rule, in order.
pub fn clone_rules(rules: &Vec<Rule>) -> (r: Vec<Rule>)
    ensures
        r@.map_values(|x: Rule| x@) == rules@.map_values(|x: Rule| x@),
{
    let mut out: Vec<Rule> = Vec::new();
    let mut i: usize = 0;
    while i < rules.len()
        invariant
            i <= rules@.len(),
            out@.len() == i,
            forall|k: int| 0 <= k < i ==> #[trigger] out@[k]@ == rules@[k]@,
        decreases rules@.len() - i,
    {
        out.push(rules[i].clone());
        i = i + 1;
    }
    assert(out@.map_values(|x: Rule| x@) =~= rules@.map_values(|x: Rule| x@));
    out
}

} // verus!
