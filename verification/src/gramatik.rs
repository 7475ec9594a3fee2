use vstd::prelude::*;

use crate::alphabet::{word_contains, Alphabet, Letter, EPSILON};
use crate::rules::{Rule, RuleSet, RuleView};

verus! {

/// A construction-time validation failure: the grammar named an entity
/// that its own alphabets do not account for.
#[derive(Debug, PartialEq, Eq)]
pub enum GramatikError {
    /// The start symbol is not a member of the non-terminal alphabet.
    InvalidStartSymbol { symbol: char },
    /// A rule holds a symbol that is neither a non-terminal, nor a
    /// terminal, nor the empty-sequence marker.
    SymbolOutsideAlphabet { symbol: char, rule_index: usize },
}

/// A symbol is accounted for when it is a non-terminal, a terminal, or
/// the empty-sequence marker.
pub open spec fn symbol_ok(n: Set<char>, t: Set<char>, c: char) -> bool {
    n.contains(c) || t.contains(c) || c == EPSILON
}

/// Every symbol of the rule's start and end words is accounted for.
pub open spec fn rule_symbols_ok(n: Set<char>, t: Set<char>, r: RuleView) -> bool {
    (forall|i: int| 0 <= i < r.start.len() ==> symbol_ok(n, t, #[trigger] r.start[i]))
        && (forall|i: int| 0 <= i < r.end.len() ==> symbol_ok(n, t, #[trigger] r.end[i]))
}

/// The two invariants a grammar establishes at construction: the start
/// symbol is a non-terminal, and every rule symbol is accounted for.
pub open spec fn grammar_ok(n: Set<char>, t: Set<char>, rules: Seq<RuleView>, s: char) -> bool {
    n.contains(s) && (forall|i: int| 0 <= i < rules.len() ==> rule_symbols_ok(n, t, #[trigger] rules[i]))
}

/// The rule's start is a single symbol that is a non-terminal or the
/// start symbol itself.
pub open spec fn left_regular(n: Set<char>, s: char, r: RuleView) -> bool {
    r.start.len() == 1 && (n.contains(r.start[0]) || r.start[0] == s)
}

/// Every symbol of the rule's end except the final one is a terminal;
/// the final symbol may be anything the grammar accounts for.
pub open spec fn right_linear_end(t: Set<char>, r: RuleView) -> bool {
    forall|i: int| 0 <= i < r.end.len() - 1 ==> t.contains(#[trigger] r.end[i])
}

/// A rule admissible in a regular (class 3) grammar.
pub open spec fn regular_rule(n: Set<char>, t: Set<char>, s: char, r: RuleView) -> bool {
    left_regular(n, s, r) && right_linear_end(t, r)
}

/// The rule never shortens, and wherever start and end disagree at a
/// shared position, the start symbol there is a non-terminal.
pub open spec fn monotonic_rule(n: Set<char>, r: RuleView) -> bool {
    r.start.len() <= r.end.len() && (forall|i: int|
        0 <= i < r.start.len() && #[trigger] r.start[i] != r.end[i] ==> n.contains(r.start[i]))
}

/// The one permitted emptying rule: exactly `S -> epsilon`.
pub open spec fn start_epsilon_rule(s: char, r: RuleView) -> bool {
    r.start == seq![s] && r.end == seq![EPSILON]
}

/// Some rule other than `S -> epsilon` carries the empty-sequence marker
/// on its right-hand side.
pub open spec fn epsilon_elsewhere(s: char, rules: Seq<RuleView>) -> bool {
    exists|i: int|
        0 <= i < rules.len() && (#[trigger] rules[i]).end.contains(EPSILON)
            && !start_epsilon_rule(s, rules[i])
}

/// The rule set holds the rule `S -> epsilon`.
pub open spec fn has_start_epsilon_rule(s: char, rules: Seq<RuleView>) -> bool {
    exists|i: int| 0 <= i < rules.len() && start_epsilon_rule(s, #[trigger] rules[i])
}

/// Context-sensitive (class 1), monotonic form: every rule is monotonic
/// and rewrites only at non-terminal positions. The adopted empty-sequence
/// policy is the strict one: the single rule `S -> epsilon` is admitted
/// only when no other rule's right-hand side introduces the marker.
pub open spec fn is_class_1_spec(n: Set<char>, s: char, rules: Seq<RuleView>) -> bool {
    (forall|i: int| 0 <= i < rules.len() ==> monotonic_rule(n, #[trigger] rules[i]))
        && (has_start_epsilon_rule(s, rules) ==> !epsilon_elsewhere(s, rules))
}

/// Context-free (class 2): every rule's start is a single non-terminal
/// (or the start symbol); the end word is unconstrained.
pub open spec fn is_class_2_spec(n: Set<char>, s: char, rules: Seq<RuleView>) -> bool {
    forall|i: int| 0 <= i < rules.len() ==> left_regular(n, s, #[trigger] rules[i])
}

/// Regular (class 3): every rule is left-regular with a right-linear end.
pub open spec fn is_class_3_spec(n: Set<char>, t: Set<char>, s: char, rules: Seq<RuleView>) -> bool {
    forall|i: int| 0 <= i < rules.len() ==> regular_rule(n, t, s, #[trigger] rules[i])
}

/// Represents a G(N, T, P, S) grammar.
///   N: alphabet of non-terminal symbols
///   T: alphabet of terminal symbols
///   P: the production rules
///   S: start symbol
#[derive(Debug)]
pub struct Gramatik(pub Alphabet, pub Alphabet, pub RuleSet, pub Letter);

impl Gramatik {
    /// Membership in one hierarchy class; class 0 is universal.
    pub open spec fn spec_is_class(&self, class: int) -> bool {
        if class == 3 {
            is_class_3_spec(self.0@, self.1@, self.3, self.2@)
        } else if class == 2 {
            is_class_2_spec(self.0@, self.3, self.2@)
        } else if class == 1 {
            is_class_1_spec(self.0@, self.3, self.2@)
        } else {
            class == 0
        }
    }

    /// Creates a new grammar, validating it once: the start symbol must be
    /// a non-terminal and every rule symbol must come from N, from T, or be
    /// the empty-sequence marker. A violating input is rejected, never
    /// silently coerced, and the failure names the offending entity.
    pub fn new(n: Alphabet, t: Alphabet, p: RuleSet, s: Letter) -> (r: Result<
        Gramatik,
        GramatikError,
    >)
        ensures
            r is Ok <==> grammar_ok(n@, t@, p@, s),
            r matches Ok(g) ==> g.0@ == n@ && g.1@ == t@ && g.2@ == p@ && g.3 == s
                && grammar_ok(g.0@, g.1@, g.2@, g.3),
            r matches Err(e) ==> match e {
                GramatikError::InvalidStartSymbol { symbol } => symbol == s && !n@.contains(s),
                GramatikError::SymbolOutsideAlphabet { symbol, rule_index } => n@.contains(s)
                    && rule_index < p@.len() && !symbol_ok(n@, t@, symbol) && (p@[
                    rule_index as int
                ].start.contains(symbol) || p@[rule_index as int].end.contains(symbol)),
            },
    {
        if !n.contains(s) {
            return Err(GramatikError::InvalidStartSymbol { symbol: s });
        }
        let mut i: usize = 0;
        while i < p.rules.len()
            invariant
                0 <= i <= p.rules@.len(),
                n@.contains(s),
                forall|j: int| 0 <= j < i ==> rule_symbols_ok(n@, t@, #[trigger] p@[j]),
            decreases p.rules@.len() - i,
        {
            proof {
                assert(p@[i as int] == p.rules@[i as int]@);
            }
            match check_word_symbols(&n, &t, &p.rules[i].start) {
                Some(j) => {
                    let symbol = p.rules[i].start[j];
                    proof {
                        assert(p@[i as int].start[j as int] == symbol);
                        assert(p@[i as int].start.contains(symbol));
                        assert(!rule_symbols_ok(n@, t@, p@[i as int]));
                    }
                    return Err(GramatikError::SymbolOutsideAlphabet { symbol, rule_index: i });
                },
                None => {},
            }
            match check_word_symbols(&n, &t, &p.rules[i].end) {
                Some(j) => {
                    let symbol = p.rules[i].end[j];
                    proof {
                        assert(p@[i as int].end[j as int] == symbol);
                        assert(p@[i as int].end.contains(symbol));
                        assert(!rule_symbols_ok(n@, t@, p@[i as int]));
                    }
                    return Err(GramatikError::SymbolOutsideAlphabet { symbol, rule_index: i });
                },
                None => {},
            }
            i += 1;
        }
        Ok(Gramatik(n, t, p, s))
    }

    /// Reports membership in hierarchy class 1, 2 or 3. Asking for any
    /// other class number is a caller error that this contract rules out.
    pub fn is_class(&self, class: u8) -> (r: bool)
        requires
            1 <= class <= 3,
        ensures
            r == self.spec_is_class(class as int),
    {
        if class == 3 {
            self.check_class_3()
        } else if class == 2 {
            self.check_class_2()
        } else {
            self.check_class_1()
        }
    }

    /// The most specific hierarchy class: the highest of 3, 2, 1 that the
    /// grammar satisfies, and 0 — the universal fallback — when none holds.
    pub fn class(&self) -> (c: u8)
        ensures
            c <= 3,
            self.spec_is_class(c as int),
            forall|k: int| c < k <= 3 ==> !self.spec_is_class(k),
    {
        if self.is_class(3) {
            3
        } else if self.is_class(2) {
            2
        } else if self.is_class(1) {
            1
        } else {
            0
        }
    }

    fn check_left_regular(&self, rule: &Rule) -> (r: bool)
        ensures
            r == left_regular(self.0@, self.3, rule@),
    {
        if rule.start.len() != 1 {
            return false;
        }
        let c = rule.start[0];
        self.0.contains(c) || c == self.3
    }

    fn check_right_linear_end(&self, rule: &Rule) -> (r: bool)
        ensures
            r == right_linear_end(self.1@, rule@),
    {
        let m: usize = rule.end.len();
        if m == 0 {
            return true;
        }
        let mut i: usize = 0;
        while i < m - 1
            invariant
                0 <= i <= rule.end@.len(),
                m == rule.end@.len(),
                m >= 1,
                forall|j: int| 0 <= j < i ==> self.1@.contains(#[trigger] rule.end@[j]),
            decreases rule.end@.len() - i,
        {
            if !self.1.contains(rule.end[i]) {
                proof {
                    assert(0 <= i < rule.end@.len() - 1);
                    assert(!self.1@.contains(rule.end@[i as int]));
                    assert(rule@.end == rule.end@);
                    assert(!right_linear_end(self.1@, rule@)) by {
                        assert(right_linear_end(self.1@, rule@) ==> self.1@.contains(
                            rule@.end[i as int],
                        ));
                    }
                }
                return false;
            }
            i += 1;
        }
        true
    }

    fn check_class_3(&self) -> (r: bool)
        ensures
            r == is_class_3_spec(self.0@, self.1@, self.3, self.2@),
    {
        let mut i: usize = 0;
        while i < self.2.rules.len()
            invariant
                0 <= i <= self.2.rules@.len(),
                forall|j: int| 0 <= j < i ==> regular_rule(self.0@, self.1@, self.3, #[trigger] self.2@[j]),
            decreases self.2.rules@.len() - i,
        {
            proof {
                assert(self.2@[i as int] == self.2.rules@[i as int]@);
            }
            let rule = &self.2.rules[i];
            if !self.check_left_regular(rule) {
                return false;
            }
            if !self.check_right_linear_end(rule) {
                return false;
            }
            i += 1;
        }
        true
    }

    fn check_class_2(&self) -> (r: bool)
        ensures
            r == is_class_2_spec(self.0@, self.3, self.2@),
    {
        let mut i: usize = 0;
        while i < self.2.rules.len()
            invariant
                0 <= i <= self.2.rules@.len(),
                forall|j: int| 0 <= j < i ==> left_regular(self.0@, self.3, #[trigger] self.2@[j]),
            decreases self.2.rules@.len() - i,
        {
            proof {
                assert(self.2@[i as int] == self.2.rules@[i as int]@);
            }
            if !self.check_left_regular(&self.2.rules[i]) {
                return false;
            }
            i += 1;
        }
        true
    }

    fn has_epsilon_elsewhere(&self) -> (r: bool)
        ensures
            r == epsilon_elsewhere(self.3, self.2@),
    {
        let mut i: usize = 0;
        while i < self.2.rules.len()
            invariant
                0 <= i <= self.2.rules@.len(),
                forall|j: int|
                    0 <= j < i ==> !((#[trigger] self.2@[j]).end.contains(EPSILON)
                        && !start_epsilon_rule(self.3, self.2@[j])),
            decreases self.2.rules@.len() - i,
        {
            proof {
                assert(self.2@[i as int] == self.2.rules@[i as int]@);
            }
            let rule = &self.2.rules[i];
            if word_contains(&rule.end, EPSILON) && !is_start_epsilon(self.3, rule) {
                return true;
            }
            i += 1;
        }
        false
    }

    fn check_monotonic(&self, rule: &Rule) -> (r: bool)
        ensures
            r == monotonic_rule(self.0@, rule@),
    {
        if rule.start.len() > rule.end.len() {
            return false;
        }
        let mut j: usize = 0;
        while j < rule.start.len()
            invariant
                0 <= j <= rule.start@.len(),
                rule.start@.len() <= rule.end@.len(),
                forall|k: int|
                    0 <= k < j && #[trigger] rule.start@[k] != rule.end@[k] ==> self.0@.contains(
                        rule.start@[k],
                    ),
            decreases rule.start@.len() - j,
        {
            if rule.start[j] != rule.end[j] && !self.0.contains(rule.start[j]) {
                return false;
            }
            j += 1;
        }
        true
    }

    fn check_class_1(&self) -> (r: bool)
        ensures
            r == is_class_1_spec(self.0@, self.3, self.2@),
    {
        let kes = self.has_epsilon_elsewhere();
        let mut i: usize = 0;
        while i < self.2.rules.len()
            invariant
                0 <= i <= self.2.rules@.len(),
                kes == epsilon_elsewhere(self.3, self.2@),
                forall|j: int| 0 <= j < i ==> monotonic_rule(self.0@, #[trigger] self.2@[j]),
                forall|j: int|
                    0 <= j < i ==> !(kes && start_epsilon_rule(self.3, #[trigger] self.2@[j])),
            decreases self.2.rules@.len() - i,
        {
            proof {
                assert(self.2@[i as int] == self.2.rules@[i as int]@);
            }
            let rule = &self.2.rules[i];
            if kes && is_start_epsilon(self.3, rule) {
                proof {
                    assert(has_start_epsilon_rule(self.3, self.2@));
                }
                return false;
            }
            if !self.check_monotonic(rule) {
                proof {
                    assert(!monotonic_rule(self.0@, self.2@[i as int]));
                }
                return false;
            }
            i += 1;
        }
        proof {
            if has_start_epsilon_rule(self.3, self.2@) {
                let w = choose|w: int|
                    0 <= w < self.2@.len() && start_epsilon_rule(self.3, #[trigger] self.2@[w]);
                assert(!(kes && start_epsilon_rule(self.3, self.2@[w])));
            }
        }
        true
    }
}

/// Reports whether the rule is exactly `S -> epsilon`.
fn is_start_epsilon(s: Letter, rule: &Rule) -> (r: bool)
    ensures
        r == start_epsilon_rule(s, rule@),
{
    proof {
        assert(seq![s].len() == 1 && seq![s][0] == s);
        assert(seq![EPSILON].len() == 1 && seq![EPSILON][0] == EPSILON);
    }
    if rule.start.len() == 1 && rule.end.len() == 1 {
        let hit = rule.start[0] == s && rule.end[0] == EPSILON;
        proof {
            if hit {
                assert(rule.start@ =~= seq![s]);
                assert(rule.end@ =~= seq![EPSILON]);
            }
        }
        hit
    } else {
        false
    }
}

/// Looks for a symbol of the word that neither alphabet accounts for;
/// yields the position of the first one, if any.
fn check_word_symbols(n: &Alphabet, t: &Alphabet, w: &Vec<char>) -> (r: Option<usize>)
    ensures
        r is None ==> forall|i: int| 0 <= i < w@.len() ==> symbol_ok(n@, t@, #[trigger] w@[i]),
        r matches Some(j) ==> j < w@.len() && !symbol_ok(n@, t@, w@[j as int]),
{
    let mut i: usize = 0;
    while i < w.len()
        invariant
            0 <= i <= w@.len(),
            forall|j: int| 0 <= j < i ==> symbol_ok(n@, t@, #[trigger] w@[j]),
        decreases w@.len() - i,
    {
        let c = w[i];
        if !(n.contains(c) || t.contains(c) || c == EPSILON) {
            return Some(i);
        }
        i += 1;
    }
    None
}

/// Hierarchy monotonicity: a grammar of class 3 is also of class 2 —
/// every left-regular rule set with right-linear ends is context-free.
pub proof fn lemma_class_3_implies_class_2(g: Gramatik)
    requires
        g.spec_is_class(3),
    ensures
        g.spec_is_class(2),
{
    assert forall|i: int| 0 <= i < g.2@.len() implies left_regular(g.0@, g.3, #[trigger] g.2@[i]) by {
        assert(regular_rule(g.0@, g.1@, g.3, g.2@[i]));
    }
}

} // verus!
