use gramatik::alphabet::{word_contains, word_eq, Alphabet, EPSILON};
use gramatik::rules::{rule_eq, Rule, RuleSet};

#[test]
fn alphabet_membership() {
    let a = Alphabet::from_letters(&vec!['a', 'b']);
    assert!(a.contains('a'));
    assert!(a.contains('b'));
    assert!(!a.contains('c'));
    assert!(!a.contains(EPSILON));
}

#[test]
fn alphabet_collapses_duplicates() {
    let a = Alphabet::from_letters(&vec!['a', 'a', 'b', 'a']);
    assert_eq!(a.iter().len(), 2);
    assert!(a.contains('a'));
    assert!(a.contains('b'));
}

#[test]
fn alphabet_union_holds_letters_of_both() {
    let a = Alphabet::from_letters(&vec!['a', 'b']);
    let b = Alphabet::from_letters(&vec!['b', 'c']);
    let u = a.union(&b);
    assert!(u.contains('a'));
    assert!(u.contains('b'));
    assert!(u.contains('c'));
    assert!(!u.contains('d'));
    assert_eq!(u.iter().len(), 3);
}

#[test]
fn alphabet_grows_letter_by_letter() {
    let mut a = Alphabet::new();
    assert!(!a.contains('x'));
    a.add('x');
    a.add('x');
    assert!(a.contains('x'));
    assert_eq!(a.iter().len(), 1);
}

#[test]
fn words_compare_by_their_letters() {
    assert!(word_eq(&vec!['a', 'b'], &vec!['a', 'b']));
    assert!(!word_eq(&vec!['a', 'b'], &vec!['a', 'c']));
    assert!(!word_eq(&vec!['a'], &vec!['a', 'b']));
    assert!(word_eq(&vec![], &vec![]));
}

#[test]
fn word_contains_finds_a_letter() {
    assert!(word_contains(&vec!['a', EPSILON, 'b'], EPSILON));
    assert!(!word_contains(&vec!['a', 'b'], EPSILON));
    assert!(!word_contains(&vec![], 'a'));
}

#[test]
fn rules_compare_structurally() {
    let r1 = Rule::new(vec!['S'], vec!['a', 'B']);
    let r2 = Rule::new(vec!['S'], vec!['a', 'B']);
    let r3 = Rule::new(vec!['S'], vec!['a']);
    assert!(rule_eq(&r1, &r2));
    assert!(!rule_eq(&r1, &r3));
    assert!(rule_eq(&r1, &r1.clone()));
}

#[test]
fn rule_set_collapses_duplicates() {
    let mut p = RuleSet::new();
    let rule = Rule::new(vec!['S'], vec!['a']);
    p.add_rule(rule.clone());
    p.add_rule(rule.clone());
    assert_eq!(p.rules.len(), 1);
    assert!(p.contains_rule(&rule));
    assert!(!p.contains_rule(&Rule::new(vec!['S'], vec!['b'])));
}

#[test]
fn rule_set_merge_unites_both_sets() {
    let shared = Rule::new(vec!['S'], vec!['a']);
    let only_second = Rule::new(vec!['S'], vec!['b']);
    let mut first = RuleSet::new();
    first.add_rule(shared.clone());
    let mut second = RuleSet::new();
    second.add_rule(shared.clone());
    second.add_rule(only_second.clone());
    first.merge(&second);
    assert_eq!(first.rules.len(), 2);
    assert!(first.contains_rule(&shared));
    assert!(first.contains_rule(&only_second));
}
