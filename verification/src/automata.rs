use vstd::prelude::*;

use crate::alphabet::{clone_word, Alphabet, Letter, Word};

verus! {

/// A named machine state; equality is by name.
#[derive(Debug, PartialEq, Eq)]
pub struct State(pub String);

impl View for State {
    type V = Seq<char>;

    open spec fn view(&self) -> Seq<char> {
        self.0@
    }
}

impl Clone for State {
    fn clone(&self) -> (r: Self)
        ensures
            r@ == self@,
    {
        State(self.0.clone())
    }
}

/// The names of a row of states, in order.
pub open spec fn names_of(states: Seq<State>) -> Seq<Seq<char>> {
    states.map_values(|s: State| s@)
}

/// Every name of the first row occurs somewhere in the second.
pub open spec fn names_subset(sub: Seq<Seq<char>>, sup: Seq<Seq<char>>) -> bool {
    forall|i: int| 0 <= i < sub.len() ==> sup.contains(#[trigger] sub[i])
}

/// The mathematical value of one transition-table entry.
pub struct TransitionView {
    pub from: Seq<char>,
    pub letter: char,
    pub to: Seq<char>,
}

/// One entry of a transition table: in state `from`, reading `letter`
/// moves to state `to`.
#[derive(Debug)]
pub struct Transition {
    pub from: State,
    pub letter: Letter,
    pub to: State,
}

impl View for Transition {
    type V = TransitionView;

    open spec fn view(&self) -> TransitionView {
        TransitionView { from: self.from@, letter: self.letter, to: self.to@ }
    }
}

/// What a transition table yields on a state and a letter: the target of
/// the first matching entry, if any.
pub open spec fn delta_spec(d: Seq<TransitionView>, q: Seq<char>, a: char) -> Option<Seq<char>>
    decreases d.len(),
{
    if d.len() == 0 {
        None
    } else if d[0].from == q && d[0].letter == a {
        Some(d[0].to)
    } else {
        delta_spec(d.drop_first(), q, a)
    }
}

/// A deterministic transition function, given as a finite table built
/// entry by entry; the first entry matching a (state, letter) pair decides.
#[derive(Debug)]
pub struct DeltaFn {
    entries: Vec<Transition>,
}

impl View for DeltaFn {
    type V = Seq<TransitionView>;

    closed spec fn view(&self) -> Seq<TransitionView> {
        self.entries@.map_values(|e: Transition| e@)
    }
}

impl DeltaFn {
    /// The empty table: no transition is defined.
    pub fn new() -> (d: DeltaFn)
        ensures
            d@ == Seq::<TransitionView>::empty(),
    {
        let d = DeltaFn { entries: Vec::new() };
        proof {
            assert(d@ =~= Seq::<TransitionView>::empty());
        }
        d
    }

    /// Appends one entry to the table.
    pub fn add_transition(&mut self, from: State, letter: Letter, to: State)
        ensures
            final(self)@ == old(self)@.push(
                TransitionView { from: from@, letter, to: to@ },
            ),
    {
        let ghost pre = self@;
        let ghost entry = TransitionView { from: from@, letter, to: to@ };
        self.entries.push(Transition { from, letter, to });
        proof {
            assert(self@ =~= pre.push(entry));
        }
    }

    /// Evaluates the table on a state and a letter.
    pub fn lookup(&self, q: &State, a: Letter) -> (r: Option<State>)
        ensures
            r is Some <==> delta_spec(self@, q@, a) is Some,
            r matches Some(st) ==> delta_spec(self@, q@, a) == Some(st@),
    {
        let mut i: usize = 0;
        proof {
            assert(self@.skip(0) =~= self@);
        }
        while i < self.entries.len()
            invariant
                0 <= i <= self.entries@.len(),
                delta_spec(self@, q@, a) == delta_spec(self@.skip(i as int), q@, a),
            decreases self.entries@.len() - i,
        {
            let e = &self.entries[i];
            proof {
                assert(self@[i as int] == e@);
                assert(self@.skip(i as int)[0] == self@[i as int]);
            }
            if e.from.0 == q.0 && e.letter == a {
                proof {
                    assert(delta_spec(self@.skip(i as int), q@, a) == Some(e@.to));
                }
                return Some(e.to.clone());
            }
            proof {
                assert(self@.skip(i as int).drop_first() =~= self@.skip(i + 1));
            }
            i += 1;
        }
        proof {
            assert(self@.skip(self@.len() as int) =~= Seq::<TransitionView>::empty());
        }
        None
    }
}

/// A construction-time validation failure for an automaton.
#[derive(Debug, PartialEq, Eq)]
pub enum AutomataError {
    /// The state set is empty.
    EmptyStateSet,
    /// The start state is not one of the declared states.
    UnknownStartState,
    /// The accepting states are not all declared states.
    AcceptingNotSubset,
}

/// The mathematical value of an automaton: its configuration together
/// with the mutable execution state of the latest run.
pub struct AutomataView {
    pub states: Seq<Seq<char>>,
    pub alphabet: Set<char>,
    pub delta: Seq<TransitionView>,
    pub initial: Seq<char>,
    pub accepted: Seq<Seq<char>>,
    pub current: Seq<char>,
    pub cursor: int,
}

/// The fixed configuration of two automaton values is the same; only the
/// run state (current state and cursor) may differ.
pub open spec fn same_configuration(a: AutomataView, b: AutomataView) -> bool {
    a.states == b.states && a.alphabet == b.alphabet && a.delta == b.delta && a.initial
        == b.initial && a.accepted == b.accepted
}

/// The construction-time invariants of an automaton, kept by every run:
/// states are non-empty, the start and current states are declared, and
/// the accepting states are declared.
pub open spec fn automata_wf(v: AutomataView) -> bool {
    v.states.len() > 0 && v.states.contains(v.initial) && names_subset(v.accepted, v.states)
        && v.states.contains(v.current)
}

/// The states a run visits, one per consumed letter: from `current`,
/// consume `word` letter by letter until the word ends or the table
/// yields no next state.
pub open spec fn run_spec(d: Seq<TransitionView>, current: Seq<char>, word: Seq<char>) -> Seq<
    Seq<char>,
>
    decreases word.len(),
{
    if word.len() == 0 {
        Seq::empty()
    } else {
        match delta_spec(d, current, word[0]) {
            Option::None => Seq::empty(),
            Option::Some(next) => seq![next] + run_spec(d, next, word.drop_first()),
        }
    }
}

/// A deterministic finite automaton: declared states, an input alphabet,
/// a transition table, a start state and accepting states, together with
/// the execution state of the latest word-processing run.
#[derive(Debug)]
pub struct Automata {
    states: Vec<State>,
    alphabet: Alphabet,
    delta_fn: DeltaFn,
    initial_state: State,
    accepted_states: Vec<State>,
    current_state: State,
    current_letter_index: usize,
}

impl View for Automata {
    type V = AutomataView;

    closed spec fn view(&self) -> AutomataView {
        AutomataView {
            states: names_of(self.states@),
            alphabet: self.alphabet@,
            delta: self.delta_fn@,
            initial: self.initial_state@,
            accepted: names_of(self.accepted_states@),
            current: self.current_state@,
            cursor: self.current_letter_index as int,
        }
    }
}

/// Reports whether some declared state carries the given name.
fn contains_state(states: &Vec<State>, s: &State) -> (r: bool)
    ensures
        r == names_of(states@).contains(s@),
{
    let mut i: usize = 0;
    while i < states.len()
        invariant
            0 <= i <= states@.len(),
            forall|j: int| 0 <= j < i ==> names_of(states@)[j] != s@,
        decreases states@.len() - i,
    {
        proof {
            assert(names_of(states@)[i as int] == states@[i as int]@);
        }
        if states[i].0 == s.0 {
            return true;
        }
        i += 1;
    }
    proof {
        assert(!names_of(states@).contains(s@));
    }
    false
}

/// Reports whether every state of the first row is declared in the second.
fn check_subset(sub: &Vec<State>, sup: &Vec<State>) -> (r: bool)
    ensures
        r == names_subset(names_of(sub@), names_of(sup@)),
{
    let mut i: usize = 0;
    while i < sub.len()
        invariant
            0 <= i <= sub@.len(),
            forall|j: int| 0 <= j < i ==> names_of(sup@).contains(#[trigger] names_of(sub@)[j]),
        decreases sub@.len() - i,
    {
        proof {
            assert(names_of(sub@)[i as int] == sub@[i as int]@);
        }
        if !contains_state(sup, &sub[i]) {
            return false;
        }
        i += 1;
    }
    true
}

impl Automata {
    /// Creates a new automaton, validating it once: the state set must be
    /// non-empty, the start state declared, and the accepting states a
    /// subset of the declared states. A violating input is rejected.
    pub fn new(
        states: Vec<State>,
        alphabet: Alphabet,
        delta_fn: DeltaFn,
        initial_state: State,
        accepted_states: Vec<State>,
    ) -> (r: Result<Automata, AutomataError>)
        ensures
            r is Ok <==> (states@.len() > 0 && names_of(states@).contains(initial_state@)
                && names_subset(names_of(accepted_states@), names_of(states@))),
            r matches Ok(a) ==> a@.states == names_of(states@) && a@.alphabet == alphabet@
                && a@.delta == delta_fn@ && a@.initial == initial_state@ && a@.accepted
                == names_of(accepted_states@) && a@.current == initial_state@ && a@.cursor == 0
                && automata_wf(a@),
            r matches Err(e) ==> match e {
                AutomataError::EmptyStateSet => states@.len() == 0,
                AutomataError::UnknownStartState => states@.len() > 0 && !names_of(
                    states@,
                ).contains(initial_state@),
                AutomataError::AcceptingNotSubset => states@.len() > 0 && names_of(
                    states@,
                ).contains(initial_state@) && !names_subset(
                    names_of(accepted_states@),
                    names_of(states@),
                ),
            },
    {
        if states.len() == 0 {
            return Err(AutomataError::EmptyStateSet);
        }
        if !contains_state(&states, &initial_state) {
            return Err(AutomataError::UnknownStartState);
        }
        if !check_subset(&accepted_states, &states) {
            return Err(AutomataError::AcceptingNotSubset);
        }
        let current_state = initial_state.clone();
        Ok(
            Automata {
                states,
                alphabet,
                delta_fn,
                initial_state,
                accepted_states,
                current_state,
                current_letter_index: 0,
            },
        )
    }

    /// The start state.
    pub fn initial_state(&self) -> (r: &State)
        ensures
            r@ == self@.initial,
    {
        &self.initial_state
    }

    /// The present state: the start state before any run, or the state
    /// last reached by a run or partial run.
    pub fn current_state(&self) -> (r: &State)
        ensures
            r@ == self@.current,
    {
        &self.current_state
    }

    /// Reports whether the given state is an accepting state.
    pub fn check_state(&self, state: &State) -> (r: bool)
        ensures
            r == self@.accepted.contains(state@),
    {
        contains_state(&self.accepted_states, state)
    }

    /// Processes a word as a fresh run from the start state, yielding the
    /// visited states, one per consumed letter. At the first letter for
    /// which the table yields no next state the run ends early, without
    /// error, keeping the prefix visited so far. Afterwards the automaton
    /// stands at the last visited state — at the start state when no
    /// letter was consumed — with its cursor past the consumed letters.
    ///
    /// Handing the run a letter outside the alphabet, or a table entry
    /// leading outside the declared states, is caller misuse that this
    /// contract rules out.
    pub fn process_word(&mut self, word: &Word) -> (visited: Vec<State>)
        requires
            automata_wf(old(self)@),
            forall|i: int|
                0 <= i < word@.len() && i <= run_spec(
                    old(self)@.delta,
                    old(self)@.initial,
                    word@,
                ).len() ==> old(self)@.alphabet.contains(#[trigger] word@[i]),
            forall|i: int|
                0 <= i < run_spec(old(self)@.delta, old(self)@.initial, word@).len() ==> old(
                    self,
                )@.states.contains(
                    #[trigger] run_spec(old(self)@.delta, old(self)@.initial, word@)[i],
                ),
        ensures
            names_of(visited@) == run_spec(old(self)@.delta, old(self)@.initial, word@),
            same_configuration(final(self)@, old(self)@),
            final(self)@.cursor == visited@.len(),
            final(self)@.current == if visited@.len() == 0 {
                old(self)@.initial
            } else {
                names_of(visited@).last()
            },
            automata_wf(final(self)@),
    {
        let ghost d = self@.delta;
        let ghost full = run_spec(self@.delta, self@.initial, word@);
        let mut wp = WordProcessor::new(self, word);
        let mut visited: Vec<State> = Vec::new();
        proof {
            assert(names_of(visited@) =~= Seq::<Seq<char>>::empty());
            assert(word@.skip(0) =~= word@);
            assert(names_of(visited@) + run_spec(d, wp@.current, word@.skip(0)) =~= run_spec(
                d,
                wp@.current,
                word@,
            ));
        }
        loop
            invariant_except_break
                *self == *old(self),
                automata_wf(self@),
                d == self@.delta,
                full == run_spec(self@.delta, self@.initial, word@),
                forall|i: int|
                    0 <= i < word@.len() && i <= full.len() ==> self@.alphabet.contains(
                        #[trigger] word@[i],
                    ),
                forall|i: int| 0 <= i < full.len() ==> self@.states.contains(#[trigger] full[i]),
                wp@.word == word@,
                0 <= wp@.index <= word@.len(),
                visited@.len() == wp@.index,
                names_of(visited@) + run_spec(d, wp@.current, word@.skip(wp@.index)) == full,
                wp@.current == if visited@.len() == 0 {
                    self@.initial
                } else {
                    names_of(visited@).last()
                },
            ensures
                *self == *old(self),
                names_of(visited@) == full,
                visited@.len() <= word@.len(),
                wp@.current == if visited@.len() == 0 {
                    self@.initial
                } else {
                    names_of(visited@).last()
                },
            decreases word@.len() - wp@.index,
        {
            proof {
                let cont = run_spec(d, wp@.current, word@.skip(wp@.index as int));
                if wp@.index < word@.len() {
                    assert(word@.skip(wp@.index as int)[0] == word@[wp@.index as int]);
                    assert(full.len() >= wp@.index) by {
                        assert(names_of(visited@).len() == visited@.len());
                    }
                    assert(self@.alphabet.contains(word@[wp@.index as int]));
                    if delta_spec(d, wp@.current, word@[wp@.index as int]) is Some {
                        let n = delta_spec(d, wp@.current, word@[wp@.index as int])->Some_0;
                        assert(cont == seq![n] + run_spec(
                            d,
                            n,
                            word@.skip(wp@.index as int).drop_first(),
                        ));
                        assert(cont[0] == n);
                        assert(full[wp@.index as int] == n);
                        assert(self@.states.contains(n));
                    }
                }
            }
            let step = wp.next(self);
            match step {
                Some(st) => {
                    let ghost pre_visited = visited@;
                    visited.push(st);
                    proof {
                        let idx: int = pre_visited.len() as int;
                        let n = wp@.current;
                        assert(names_of(visited@) =~= names_of(pre_visited).push(n));
                        assert(word@.skip(idx).drop_first() =~= word@.skip(idx + 1));
                        assert(names_of(visited@) + run_spec(d, n, word@.skip(idx + 1)) =~= (
                        names_of(pre_visited) + (seq![n] + run_spec(d, n, word@.skip(idx + 1)))));
                        assert(names_of(visited@).last() == n);
                    }
                },
                None => {
                    proof {
                        let cont = run_spec(d, wp@.current, word@.skip(wp@.index as int));
                        assert(cont =~= Seq::<Seq<char>>::empty());
                        assert(names_of(visited@) + cont =~= names_of(visited@));
                    }
                    break ;
                },
            }
        }
        let consumed: usize = visited.len();
        if consumed == 0 {
            let fresh = self.initial_state.clone();
            self.current_state = fresh;
        } else {
            let last = visited[consumed - 1].clone();
            self.current_state = last;
            proof {
                assert(names_of(visited@)[consumed - 1] == visited@[consumed - 1]@);
                assert(names_of(visited@).last() == visited@[consumed - 1]@);
            }
        }
        self.current_letter_index = consumed;
        proof {
            if visited@.len() > 0 {
                assert(self@.states.contains(full[full.len() - 1]));
            }
        }
        visited
    }

}

/// The mathematical value of a word-processing run: the word, the
/// position of the next letter, and the state reached so far.
pub struct WordProcessorView {
    pub word: Seq<char>,
    pub index: int,
    pub current: Seq<char>,
}

/// What one step of a run yields: the table's verdict on the present
/// state and the next letter, or nothing once the word is exhausted.
pub open spec fn step_result(d: Seq<TransitionView>, w: WordProcessorView) -> Option<Seq<char>> {
    if w.index < w.word.len() {
        delta_spec(d, w.current, w.word[w.index])
    } else {
        None
    }
}

/// The run state of one word-processing walk. Each walk carries its own
/// copy of the word, cursor and current state, so independent runs over
/// one automaton cannot corrupt each other.
#[derive(Debug)]
pub struct WordProcessor {
    word: Word,
    index: usize,
    current: State,
}

impl View for WordProcessor {
    type V = WordProcessorView;

    closed spec fn view(&self) -> WordProcessorView {
        WordProcessorView { word: self.word@, index: self.index as int, current: self.current@ }
    }
}

impl WordProcessor {
    /// A fresh run of the given word, standing at the automaton's start
    /// state with no letter consumed yet.
    pub fn new(automata: &Automata, word: &Word) -> (w: WordProcessor)
        ensures
            w@.word == word@,
            w@.index == 0,
            w@.current == automata@.initial,
    {
        WordProcessor { word: clone_word(word), index: 0, current: automata.initial_state.clone() }
    }

    /// One step of the walk: consumes the next letter and yields the state
    /// reached when the table defines a transition; otherwise consumes
    /// nothing and yields nothing, leaving the run state unchanged.
    ///
    /// Stepping onto a letter outside the alphabet, or through a table
    /// entry leading outside the declared states, is caller misuse that
    /// this contract rules out.
    pub fn next(&mut self, automata: &Automata) -> (r: Option<State>)
        requires
            old(self)@.index < old(self)@.word.len() ==> automata@.alphabet.contains(
                old(self)@.word[old(self)@.index],
            ),
            step_result(automata@.delta, old(self)@) matches Some(n) ==> automata@.states.contains(
                n,
            ),
        ensures
            final(self)@.word == old(self)@.word,
            match step_result(automata@.delta, old(self)@) {
                Option::Some(n) => r matches Some(st) && st@ == n && final(self)@.index == old(
                    self,
                )@.index + 1 && final(self)@.current == n,
                Option::None => r is None && final(self)@ == old(self)@,
            },
    {
        if self.index < self.word.len() {
            let letter = self.word[self.index];
            match automata.delta_fn.lookup(&self.current, letter) {
                Some(next_state) => {
                    self.index = self.index + 1;
                    self.current = next_state;
                    Some(self.current.clone())
                },
                None => None,
            }
        } else {
            None
        }
    }
}

/// Determinism of a run: the visited sequence is a function of the
/// transition table, the start state and the word alone, so replaying a
/// word on automata sharing a configuration yields the same sequence.
pub proof fn lemma_run_deterministic(a1: AutomataView, a2: AutomataView, word: Seq<char>)
    requires
        a1.delta == a2.delta,
        a1.initial == a2.initial,
    ensures
        run_spec(a1.delta, a1.initial, word) == run_spec(a2.delta, a2.initial, word),
{
}

/// The state a run stands in just before consuming its letter number `i`.
pub open spec fn state_before(run: Seq<Seq<char>>, init: Seq<char>, i: int) -> Seq<char> {
    if i == 0 {
        init
    } else {
        run[i - 1]
    }
}

/// Characterization of a run: it never outlives its word, every visited
/// state comes from a defined transition on the letter consumed, and a
/// run shorter than its word stops exactly at the first letter whose
/// transition is undefined — an early end is not an error.
pub proof fn lemma_run_characterization(d: Seq<TransitionView>, init: Seq<char>, word: Seq<char>)
    ensures
        run_spec(d, init, word).len() <= word.len(),
        forall|i: int|
            0 <= i < run_spec(d, init, word).len() ==> delta_spec(
                d,
                state_before(run_spec(d, init, word), init, i),
                word[i],
            ) == Some(#[trigger] run_spec(d, init, word)[i]),
        run_spec(d, init, word).len() < word.len() ==> delta_spec(
            d,
            state_before(run_spec(d, init, word), init, run_spec(d, init, word).len() as int),
            word[run_spec(d, init, word).len() as int],
        ) is None,
    decreases word.len(),
{
    let run = run_spec(d, init, word);
    if word.len() == 0 {
    } else {
        match delta_spec(d, init, word[0]) {
            Option::None => {
                assert(run.len() == 0);
            },
            Option::Some(n) => {
                let rest_word = word.drop_first();
                let rest = run_spec(d, n, rest_word);
                lemma_run_characterization(d, n, rest_word);
                assert(run == seq![n] + rest);
                assert(run[0] == n);
                assert forall|i: int|
                    0 <= i < run.len() implies delta_spec(
                    d,
                    state_before(run, init, i),
                    word[i],
                ) == Some(#[trigger] run[i]) by {
                    if i == 0 {
                    } else {
                        assert(run[i] == rest[i - 1]);
                        assert(word[i] == rest_word[i - 1]);
                        assert(state_before(run, init, i) == state_before(rest, n, i - 1));
                        assert(delta_spec(d, state_before(rest, n, i - 1), rest_word[i - 1])
                            == Some(rest[i - 1]));
                    }
                }
                if run.len() < word.len() {
                    assert(rest.len() < rest_word.len());
                    assert(state_before(run, init, run.len() as int) == state_before(
                        rest,
                        n,
                        rest.len() as int,
                    ));
                    assert(word[run.len() as int] == rest_word[rest.len() as int]);
                }
            },
        }
    }
}

} // verus!
