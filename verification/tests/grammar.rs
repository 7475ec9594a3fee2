use gramatik::alphabet::{Alphabet, EPSILON};
use gramatik::gramatik::{Gramatik, GramatikError};
use gramatik::rules::{Rule, RuleSet};

fn ruleset(rules: Vec<(&str, &str)>) -> RuleSet {
    let mut p = RuleSet::new();
    for (start, end) in rules {
        p.add_rule(Rule::new(start.chars().collect(), end.chars().collect()));
    }
    p
}

fn grammar(n: &str, t: &str, rules: Vec<(&str, &str)>, s: char) -> Result<Gramatik, GramatikError> {
    let n = Alphabet::from_letters(&n.chars().collect());
    let t = Alphabet::from_letters(&t.chars().collect());
    Gramatik::new(n, t, ruleset(rules), s)
}

#[test]
fn construction_keeps_start_symbol_and_rule_symbols() {
    let g = grammar("ABCS", "abc", vec![("S", "\u{03b5}"), ("A", "aB")], 'S').unwrap();
    assert!(g.0.contains('S'));
    for rule in g.2.rules.iter() {
        for c in rule.start.iter().chain(rule.end.iter()) {
            assert!(g.0.contains(*c) || g.1.contains(*c) || *c == EPSILON);
        }
    }
}

#[test]
fn construction_rejects_missing_start_symbol() {
    let err = grammar("AB", "abc", vec![], 'S').unwrap_err();
    assert_eq!(err, GramatikError::InvalidStartSymbol { symbol: 'S' });
}

#[test]
fn construction_rejects_symbol_outside_alphabets() {
    let err = grammar("S", "ab", vec![("S", "ab"), ("S", "ax")], 'S').unwrap_err();
    assert_eq!(err, GramatikError::SymbolOutsideAlphabet { symbol: 'x', rule_index: 1 });
}

#[test]
fn scenario_context_sensitive_swap() {
    // N={A,B,C,S}, T={a,b,c}, P={S -> epsilon, AC -> CA}: the swap rule is
    // not left-regular, but lengths are monotonic and only non-terminals
    // are rewritten, so the most specific class is 1.
    let g = grammar("ABCS", "abc", vec![("S", "\u{03b5}"), ("AC", "CA")], 'S').unwrap();
    assert!(!g.is_class(2));
    assert!(!g.is_class(3));
    assert!(g.is_class(1));
    assert_eq!(g.class(), 1);
}

#[test]
fn scenario_regular_grammar() {
    // N={A,B,C,S}, T={a,b,c}, P={S -> epsilon, A -> abc, A -> aB, B -> b}.
    let g = grammar(
        "ABCS",
        "abc",
        vec![("S", "\u{03b5}"), ("A", "abc"), ("A", "aB"), ("B", "b")],
        'S',
    )
    .unwrap();
    assert!(g.is_class(2));
    assert_eq!(g.class(), 3);
}

#[test]
fn class_three_implies_class_two() {
    let g = grammar(
        "ABCS",
        "abc",
        vec![("S", "\u{03b5}"), ("A", "abc"), ("A", "aB"), ("B", "b")],
        'S',
    )
    .unwrap();
    assert!(g.is_class(3));
    assert!(g.is_class(2));
}

#[test]
fn shortening_rule_falls_to_class_zero() {
    // AS -> a shortens, so even class 1 is refused; class 0 is universal.
    let g = grammar("AS", "a", vec![("AS", "a")], 'S').unwrap();
    assert!(!g.is_class(1));
    assert!(!g.is_class(2));
    assert!(!g.is_class(3));
    assert_eq!(g.class(), 0);
}

#[test]
fn epsilon_elsewhere_refuses_class_one() {
    // S -> epsilon is only admissible while no other rule's right-hand
    // side introduces the marker; A -> epsilon b does, so class 1 fails,
    // while every start is still a single non-terminal (class 2).
    let g = grammar("ABS", "b", vec![("S", "\u{03b5}"), ("A", "\u{03b5}b")], 'S').unwrap();
    assert!(!g.is_class(1));
    assert!(g.is_class(2));
    assert!(!g.is_class(3));
    assert_eq!(g.class(), 2);
}

#[test]
fn empty_rule_set_is_regular() {
    let g = grammar("S", "a", vec![], 'S').unwrap();
    assert!(g.is_class(1));
    assert!(g.is_class(2));
    assert!(g.is_class(3));
    assert_eq!(g.class(), 3);
}

#[test]
fn terminal_prefix_with_trailing_nonterminal_is_regular() {
    let g = grammar("BS", "ab", vec![("S", "abB"), ("B", "b")], 'S').unwrap();
    assert_eq!(g.class(), 3);
}

#[test]
fn nonterminal_before_last_position_refuses_class_three() {
    // S -> Ba carries a non-terminal in a non-final position of the end.
    let g = grammar("BS", "ab", vec![("S", "Ba"), ("B", "b")], 'S').unwrap();
    assert!(!g.is_class(3));
    assert_eq!(g.class(), 2);
}
