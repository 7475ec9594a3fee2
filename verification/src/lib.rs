//! A small formal-language toolkit: alphabets of symbols, phrase-structure
//! grammars with a Chomsky-hierarchy classifier, and deterministic finite
//! automata with a verified word-processing walk.

pub mod alphabet;
pub mod automata;
pub mod gramatik;
pub mod language;
pub mod rules;
