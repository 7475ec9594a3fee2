use gramatik::alphabet::Alphabet;
use gramatik::automata::{Automata, AutomataError, DeltaFn, State, WordProcessor};
use gramatik::language::Language;

fn state_of(name: &str) -> State {
    State(name.to_string())
}

fn abc_alphabet() -> Alphabet {
    Alphabet::from_letters(&vec!['a', 'b', 'c'])
}

fn toggle_delta() -> DeltaFn {
    let mut delta = DeltaFn::new();
    delta.add_transition(state_of("q0"), 'a', state_of("q1"));
    delta.add_transition(state_of("q1"), 'a', state_of("q0"));
    delta.add_transition(state_of("q1"), 'b', state_of("q2"));
    delta
}

fn toggle_automaton() -> Automata {
    let states = vec![state_of("q0"), state_of("q1"), state_of("q2")];
    Automata::new(states, abc_alphabet(), toggle_delta(), state_of("q0"), vec![state_of("q2")])
        .unwrap()
}

#[test]
fn construction_rejects_empty_state_set() {
    let err = Automata::new(vec![], abc_alphabet(), toggle_delta(), state_of("q0"), vec![])
        .unwrap_err();
    assert_eq!(err, AutomataError::EmptyStateSet);
}

#[test]
fn construction_rejects_unknown_start_state() {
    let err = Automata::new(
        vec![state_of("q0"), state_of("q1")],
        abc_alphabet(),
        toggle_delta(),
        state_of("q9"),
        vec![],
    )
    .unwrap_err();
    assert_eq!(err, AutomataError::UnknownStartState);
}

#[test]
fn construction_rejects_accepting_outside_states() {
    let err = Automata::new(
        vec![state_of("q0"), state_of("q1")],
        abc_alphabet(),
        toggle_delta(),
        state_of("q0"),
        vec![state_of("q9")],
    )
    .unwrap_err();
    assert_eq!(err, AutomataError::AcceptingNotSubset);
}

#[test]
fn fresh_automaton_stands_at_start_state() {
    let automaton = toggle_automaton();
    assert_eq!(*automaton.initial_state(), state_of("q0"));
    assert_eq!(*automaton.current_state(), state_of("q0"));
}

#[test]
fn processing_word_visits_each_reached_state() {
    let mut automaton = toggle_automaton();
    let visited = automaton.process_word(&vec!['a', 'a', 'a', 'b']);
    assert_eq!(
        visited,
        vec![state_of("q1"), state_of("q0"), state_of("q1"), state_of("q2")],
    );
    assert_eq!(*automaton.current_state(), state_of("q2"));
    assert!(automaton.check_state(automaton.current_state()));
}

#[test]
fn replaying_a_word_yields_the_identical_sequence() {
    let mut first = toggle_automaton();
    let mut second = toggle_automaton();
    let word = vec!['a', 'a', 'a', 'b'];
    assert_eq!(first.process_word(&word), second.process_word(&word));
}

#[test]
fn undefined_transition_ends_the_run_without_error() {
    // From q0 no 'b' transition exists: the run keeps the prefix of
    // states reached so far and simply stops.
    let mut automaton = toggle_automaton();
    let visited = automaton.process_word(&vec!['a', 'a', 'b']);
    assert_eq!(visited, vec![state_of("q1"), state_of("q0")]);
    assert_eq!(*automaton.current_state(), state_of("q0"));
    assert!(!automaton.check_state(automaton.current_state()));
}

#[test]
fn each_run_starts_fresh_from_the_start_state() {
    let mut automaton = toggle_automaton();
    let first = automaton.process_word(&vec!['a', 'b']);
    assert_eq!(first, vec![state_of("q1"), state_of("q2")]);
    let second = automaton.process_word(&vec!['a']);
    assert_eq!(second, vec![state_of("q1")]);
    assert_eq!(*automaton.current_state(), state_of("q1"));
}

#[test]
fn empty_word_visits_nothing() {
    let mut automaton = toggle_automaton();
    let visited = automaton.process_word(&vec![]);
    assert_eq!(visited, vec![]);
    assert_eq!(*automaton.current_state(), state_of("q0"));
}

#[test]
fn accepting_states_are_recognized() {
    let automaton = toggle_automaton();
    assert!(automaton.check_state(&state_of("q2")));
    assert!(!automaton.check_state(&state_of("q0")));
    assert!(!automaton.check_state(&state_of("q9")));
}

#[test]
fn word_processor_steps_one_state_at_a_time() {
    let automaton = toggle_automaton();
    let mut run = WordProcessor::new(&automaton, &vec!['a', 'b', 'c']);
    assert_eq!(run.next(&automaton), Some(state_of("q1")));
    assert_eq!(run.next(&automaton), Some(state_of("q2")));
    // From q2 no 'c' transition exists; the run stays put from here on.
    assert_eq!(run.next(&automaton), None);
    assert_eq!(run.next(&automaton), None);
}

#[test]
fn first_matching_table_entry_decides() {
    let mut delta = DeltaFn::new();
    delta.add_transition(state_of("q0"), 'a', state_of("q1"));
    delta.add_transition(state_of("q0"), 'a', state_of("q2"));
    let states = vec![state_of("q0"), state_of("q1"), state_of("q2")];
    let mut automaton =
        Automata::new(states, abc_alphabet(), delta, state_of("q0"), vec![]).unwrap();
    assert_eq!(automaton.process_word(&vec!['a']), vec![state_of("q1")]);
}

#[test]
fn language_of_an_automaton_is_left_unenumerated() {
    let automaton = toggle_automaton();
    let language = Language::from_automata(&automaton);
    assert_eq!(language.words.len(), 0);
}
