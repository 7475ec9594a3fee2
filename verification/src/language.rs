use vstd::prelude::*;

use crate::alphabet::Word;
use crate::automata::Automata;

verus! {

/// Represents a language: a collection of words. Enumerating the words
/// an automaton accepts is a declared non-goal, so conversion from an
/// automaton yields the empty collection.
#[derive(Debug)]
pub struct Language {
    pub words: Vec<Word>,
}

impl View for Language {
    type V = Seq<Seq<char>>;

    open spec fn view(&self) -> Seq<Seq<char>> {
        self.words@.map_values(|w: Word| w@)
    }
}

impl Language {
    /// The language of an automaton; word enumeration is unimplemented,
    /// so the collection comes back empty.
    pub fn from_automata(_automata: &Automata) -> (l: Language)
        ensures
            l@ == Seq::<Seq<char>>::empty(),
    {
        let l = Language { words: Vec::new() };
        proof {
            assert(l@ =~= Seq::<Seq<char>>::empty());
        }
        l
    }
}

} // verus!
