//! Finite-state automata: states, symbols, transition tables, and a
//! non-deterministic acceptance engine based on subset simulation.

use vstd::prelude::*;

mod dfa;
mod fsm;
mod nfa;
mod state;
mod symbol;
mod transition;

pub use dfa::DeterministicFiniteAutomaton;
pub use dfa::DfaDelta;
pub use dfa::DfaDeltaEntry;
pub use dfa::DfaModel;
pub use dfa::dfa_description_delta;
pub use dfa::dfa_description_states;
pub use dfa::dfa_description_symbols;
pub use fsm::FiniteStateMachine;
pub use fsm::FsmModel;
pub use nfa::NfaDelta;
pub use nfa::NfaDeltaEntry;
pub use nfa::NfaModel;
pub use nfa::NonDeterministicFiniteAutomaton;
pub use nfa::accepting;
pub use nfa::alphabet_covers_delta;
pub use nfa::delta_extends;
pub use nfa::description_delta;
pub use nfa::description_states;
pub use nfa::description_symbols;
pub use nfa::image_of;
pub use nfa::lemma_accept_concat;
pub use nfa::lemma_accept_deterministic;
pub use nfa::lemma_accept_empty_word;
pub use nfa::lemma_accept_monotone;
pub use nfa::lemma_run_concat;
pub use nfa::lemma_run_empty;
pub use nfa::lemma_run_monotone;
pub use nfa::lemma_unknown_symbol_rejects;
pub use nfa::run;
pub use nfa::spec_accept;
pub use nfa::spec_accept_from;
pub use nfa::step;

pub use state::State;
pub use state::StateSet;
pub use state::name_set;
pub use state::state_names;
pub use symbol::Symbol;
pub use symbol::SymbolSet;
pub use symbol::symbol_values;
pub use transition::Transition;

verus! {

/// Insert every member of `from` into `into`: the union of the two
/// sets of states.
pub fn insert_all(into: StateSet, from: StateSet) -> (r: StateSet)
    ensures
        r@ == into@.union(from@),
{
    let mut r = into;
    let items: &Vec<State> = from.as_vec();
    proof {
        assert(r@ =~= into@.union(state_names(items@.take(0))));
    }
    let mut i: usize = 0;
    while i < items.len()
        invariant
            0 <= i <= items.len(),
            r@ == into@.union(state_names(items@.take(i as int))),
        decreases items.len() - i,
    {
        proof {
            state::lemma_state_names_snoc(items@, i as int);
        }
        r.insert(items[i].clone());
        proof {
            assert(r@ =~= into@.union(state_names(items@.take(i + 1))));
        }
        i += 1;
    }
    proof {
        assert(items@.take(items@.len() as int) =~= items@);
    }
    r
}

} // verus!
