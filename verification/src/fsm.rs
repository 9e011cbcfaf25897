//! The structural envelope shared by deterministic and
//! non-deterministic automata: state set, alphabet, accepting states.

use vstd::prelude::*;
use crate::state::StateSet;
use crate::state::name_set;
use crate::symbol::SymbolSet;

verus! {

/// The mathematical content of a finite-state machine: the names of
/// its states, the values of its alphabet symbols, and the names of
/// its accepting states.
pub ghost struct FsmModel {
    pub states: Set<Seq<char>>,
    pub alphabet: Set<Seq<char>>,
    pub ends: Set<Seq<char>>,
}

/// A finite-state machine envelope. It stores the three sets verbatim
/// and performs no cross-set validation: keeping `ends` inside
/// `states`, and the transitions inside both, is the loader's
/// responsibility.
pub struct FiniteStateMachine {
    states: StateSet,
    alphabet: SymbolSet,
    ends: StateSet,
}

impl View for FiniteStateMachine {
    type V = FsmModel;

    closed spec fn view(&self) -> FsmModel {
        FsmModel { states: self.states@, alphabet: self.alphabet@, ends: self.ends@ }
    }
}

impl FiniteStateMachine {
    /// Store the three sets exactly as given.
    pub fn new(_states: StateSet, _alphabet: SymbolSet, _ends: StateSet) -> (r: Self)
        ensures
            r@ == (FsmModel { states: _states@, alphabet: _alphabet@, ends: _ends@ }),
    {
        FiniteStateMachine { states: _states, alphabet: _alphabet, ends: _ends }
    }

    /// Build the envelope from plain lists of names, as a loader hands
    /// them over: each list becomes the set of its entries.
    pub fn from_description(states: &Vec<String>, alphabet: &Vec<String>, ends: &Vec<String>) -> (r:
        Self)
        ensures
            r@.states == name_set(states@),
            r@.alphabet == name_set(alphabet@),
            r@.ends == name_set(ends@),
    {
        FiniteStateMachine::new(
            StateSet::from_names(states),
            SymbolSet::from_values(alphabet),
            StateSet::from_names(ends),
        )
    }

    /// The states of the machine.
    pub fn get_states(&self) -> (r: &StateSet)
        ensures
            r@ == self@.states,
    {
        &self.states
    }

    /// The alphabet of the machine.
    pub fn get_alphabet(&self) -> (r: &SymbolSet)
        ensures
            r@ == self@.alphabet,
    {
        &self.alphabet
    }

    /// The accepting states of the machine.
    pub fn get_ends(&self) -> (r: &StateSet)
        ensures
            r@ == self@.ends,
    {
        &self.ends
    }
}

impl Clone for FiniteStateMachine {
    fn clone(&self) -> (r: Self)
        ensures
            r@ == self@,
    {
        FiniteStateMachine {
            states: self.states.clone(),
            alphabet: self.alphabet.clone(),
            ends: self.ends.clone(),
        }
    }
}

} // verus!
