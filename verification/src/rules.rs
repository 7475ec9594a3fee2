use vstd::prelude::*;

use crate::alphabet::{clone_word, word_eq, Word};

verus! {

/// The mathematical value of a production rule: the pair of symbol
/// sequences that the rule rewrites between.
pub struct RuleView {
    pub start: Seq<char>,
    pub end: Seq<char>,
}

/// A production rule `start -> end`: an ordered pair of words permitting
/// `start` to be replaced by `end` in a derivation.
#[derive(Debug)]
pub struct Rule {
    pub start: Word,
    pub end: Word,
}

impl View for Rule {
    type V = RuleView;

    open spec fn view(&self) -> RuleView {
        RuleView { start: self.start@, end: self.end@ }
    }
}

impl Clone for Rule {
    fn clone(&self) -> (r: Self)
        ensures
            r@ == self@,
    {
        Rule { start: clone_word(&self.start), end: clone_word(&self.end) }
    }
}

impl Rule {
    pub fn new(start: Word, end: Word) -> (r: Rule)
        ensures
            r@ == (RuleView { start: start@, end: end@ }),
    {
        Rule { start, end }
    }
}

/// Reports whether two rules rewrite the same pair of words.
pub fn rule_eq(a: &Rule, b: &Rule) -> (r: bool)
    ensures
        r == (a@ == b@),
{
    word_eq(&a.start, &b.start) && word_eq(&a.end, &b.end)
}

/// A collection of production rules; inserting a rule already present
/// changes nothing, so structurally equal rules collapse to one.
#[derive(Debug)]
pub struct RuleSet {
    pub rules: Vec<Rule>,
}

impl View for RuleSet {
    type V = Seq<RuleView>;

    open spec fn view(&self) -> Seq<RuleView> {
        self.rules@.map_values(|r: Rule| r@)
    }
}

impl RuleSet {
    /// The empty rule set.
    pub fn new() -> (rs: RuleSet)
        ensures
            rs@ == Seq::<RuleView>::empty(),
    {
        let rs = RuleSet { rules: Vec::new() };
        proof {
            assert(rs@ =~= Seq::<RuleView>::empty());
        }
        rs
    }

    /// Reports whether a rule with the same start and end is present.
    pub fn contains_rule(&self, rule: &Rule) -> (r: bool)
        ensures
            r == self@.contains(rule@),
    {
        let mut i: usize = 0;
        while i < self.rules.len()
            invariant
                0 <= i <= self.rules@.len(),
                forall|j: int| 0 <= j < i ==> self@[j] != rule@,
            decreases self.rules@.len() - i,
        {
            if rule_eq(&self.rules[i], rule) {
                proof {
                    assert(self@[i as int] == rule@);
                }
                return true;
            }
            proof {
                assert(self@[i as int] == self.rules@[i as int]@);
            }
            i += 1;
        }
        proof {
            assert(!self@.contains(rule@));
        }
        false
    }

    /// Inserts a rule; a rule structurally equal to one already present
    /// collapses into it.
    pub fn add_rule(&mut self, rule: Rule)
        ensures
            old(self)@.contains(rule@) ==> final(self)@ == old(self)@,
            !old(self)@.contains(rule@) ==> final(self)@ == old(self)@.push(rule@),
    {
        if !self.contains_rule(&rule) {
            let ghost pre = self@;
            self.rules.push(rule);
            proof {
                assert(self@ =~= pre.push(self.rules@[pre.len() as int]@));
            }
        }
    }

    /// Merges another rule set into this one: afterwards a rule is present
    /// exactly when it was present in either set.
    pub fn merge(&mut self, other: &RuleSet)
        ensures
            forall|rv: RuleView|
                final(self)@.contains(rv) <==> (old(self)@.contains(rv) || other@.contains(rv)),
    {
        let mut i: usize = 0;
        while i < other.rules.len()
            invariant
                0 <= i <= other.rules@.len(),
                forall|rv: RuleView|
                    self@.contains(rv) <==> (old(self)@.contains(rv) || other@.take(
                        i as int,
                    ).contains(rv)),
            decreases other.rules@.len() - i,
        {
            let ghost pre = self@;
            let ghost taken = other@.take(i as int);
            self.add_rule(other.rules[i].clone());
            proof {
                let rv = other.rules@[i as int]@;
                assert(other@[i as int] == rv);
                if pre.contains(rv) {
                    assert(self@ == pre);
                    assert(forall|v: RuleView|
                        self@.contains(v) <==> (pre.contains(v) || v == rv));
                } else {
                    assert(self@ == pre.push(rv));
                    assert forall|v: RuleView| self@.contains(v) implies (pre.contains(v) || v
                        == rv) by {
                        let j = choose|j: int| 0 <= j < self@.len() && self@[j] == v;
                        if j < pre.len() {
                            assert(pre[j] == v);
                        }
                    }
                    assert forall|v: RuleView| pre.contains(v) || v == rv implies self@.contains(
                        v,
                    ) by {
                        if pre.contains(v) {
                            let j = choose|j: int| 0 <= j < pre.len() && pre[j] == v;
                            assert(self@[j] == v);
                        } else {
                            assert(self@[pre.len() as int] == v);
                        }
                    }
                }
                let post = other@.take(i + 1);
                assert(post =~= taken.push(rv));
                assert forall|v: RuleView| post.contains(v) implies (taken.contains(v) || v == rv) by {
                    let j = choose|j: int| 0 <= j < post.len() && post[j] == v;
                    if j < taken.len() {
                        assert(taken[j] == v);
                    }
                }
                assert forall|v: RuleView| taken.contains(v) || v == rv implies post.contains(v) by {
                    if taken.contains(v) {
                        let j = choose|j: int| 0 <= j < taken.len() && taken[j] == v;
                        assert(post[j] == v);
                    } else {
                        assert(post[taken.len() as int] == v);
                    }
                }
                assert forall|v: RuleView|
                    self@.contains(v) <==> (old(self)@.contains(v) || post.contains(v)) by {
                    assert(pre.contains(v) <==> (old(self)@.contains(v) || taken.contains(v)));
                    assert(self@.contains(v) <==> (pre.contains(v) || v == rv));
                    assert(post.contains(v) <==> (taken.contains(v) || v == rv));
                }
            }
            i += 1;
        }
        proof {
            assert(other@.take(other@.len() as int) =~= other@);
        }
    }
}

} // verus!
