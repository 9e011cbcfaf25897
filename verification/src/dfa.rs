//! The deterministic finite automaton: a typed container with one
//! start state and a single-successor transition table.

use vstd::prelude::*;
use crate::fsm::FiniteStateMachine;
use crate::state::State;
use crate::state::StateSet;
use crate::state::lemma_name_set_snoc;
use crate::state::name_set;
use crate::symbol::Symbol;
use crate::symbol::SymbolSet;
use crate::transition::Transition;

verus! {

/// The transition function described by a sequence of table rows:
/// every keyed (symbol, source state) pair maps to the successor of
/// the last row that keys it.
spec fn dfa_delta_map(entries: Seq<(Transition<State>, State)>) -> Map<
    (Seq<char>, Seq<char>),
    Seq<char>,
>
    decreases entries.len(),
{
    if entries.len() == 0 {
        Map::<(Seq<char>, Seq<char>), Seq<char>>::empty()
    } else {
        dfa_delta_map(entries.drop_last()).insert(entries.last().0@, entries.last().1@)
    }
}

/// A deterministic transition table: a partial function mapping each
/// (symbol, source state) pair to exactly one successor state. Its
/// view is the map from keyed pairs to successor names.
#[derive(Debug)]
pub struct DfaDelta {
    entries: Vec<(Transition<State>, State)>,
}

impl View for DfaDelta {
    type V = Map<(Seq<char>, Seq<char>), Seq<char>>;

    closed spec fn view(&self) -> Map<(Seq<char>, Seq<char>), Seq<char>> {
        dfa_delta_map(self.entries@)
    }
}

impl DfaDelta {
    /// The empty transition table.
    pub fn new() -> (r: Self)
        ensures
            r@ == Map::<(Seq<char>, Seq<char>), Seq<char>>::empty(),
    {
        DfaDelta { entries: Vec::new() }
    }

    /// Record that reading the key's symbol in the key's state moves
    /// to the given successor; an earlier row for the same pair is
    /// superseded.
    pub fn insert(&mut self, key: Transition<State>, image: State)
        ensures
            final(self)@ == old(self)@.insert(key@, image@),
    {
        let ghost k = key@;
        let ghost v = image@;
        self.entries.push((key, image));
        proof {
            assert(self.entries@.drop_last() =~= old(self).entries@);
            assert(self.entries@.last().0@ == k);
            assert(self.entries@.last().1@ == v);
        }
    }

    /// Look the pair up: the successor of the last row that keys it,
    /// if any row does.
    pub fn get(&self, key: &Transition<State>) -> (r: Option<&State>)
        ensures
            match r {
                Some(image) => self@.contains_key(key@) && image@ == self@[key@],
                None => !self@.contains_key(key@),
            },
    {
        proof {
            assert(self.entries@.take(self.entries@.len() as int) =~= self.entries@);
        }
        let mut i: usize = self.entries.len();
        while i > 0
            invariant
                0 <= i <= self.entries.len(),
                self@.contains_key(key@) == dfa_delta_map(
                    self.entries@.take(i as int),
                ).contains_key(key@),
                dfa_delta_map(self.entries@.take(i as int)).contains_key(key@) ==> self@[key@]
                    == dfa_delta_map(self.entries@.take(i as int))[key@],
            decreases i,
        {
            i -= 1;
            proof {
                assert(self.entries@.take(i + 1).drop_last() =~= self.entries@.take(i as int));
                assert(self.entries@.take(i + 1).last() == self.entries@[i as int]);
            }
            let row: &Transition<State> = &self.entries[i].0;
            if *row.get_symbol() == *key.get_symbol() && *row.get_content() == *key.get_content() {
                proof {
                    assert(row@ == key@);
                }
                return Some(&self.entries[i].1);
            }
            proof {
                assert(row@ != key@);
            }
        }
        proof {
            assert(self.entries@.take(0).len() == 0);
        }
        None
    }
}

/// One row of a loader's transition description: reading `symbol` in
/// `state` moves to `image`.
#[derive(Debug)]
pub struct DfaDeltaEntry {
    pub state: String,
    pub symbol: String,
    pub image: String,
}

/// The transition function described by the rows: each keyed
/// (symbol, state) pair maps to the image name of the last row
/// keying it.
pub open spec fn dfa_description_delta(entries: Seq<DfaDeltaEntry>) -> Map<
    (Seq<char>, Seq<char>),
    Seq<char>,
>
    decreases entries.len(),
{
    if entries.len() == 0 {
        Map::<(Seq<char>, Seq<char>), Seq<char>>::empty()
    } else {
        dfa_description_delta(entries.drop_last()).insert(
            (entries.last().symbol@, entries.last().state@),
            entries.last().image@,
        )
    }
}

/// The symbols the description's rows read.
pub open spec fn dfa_description_symbols(entries: Seq<DfaDeltaEntry>) -> Set<Seq<char>>
    decreases entries.len(),
{
    if entries.len() == 0 {
        Set::<Seq<char>>::empty()
    } else {
        dfa_description_symbols(entries.drop_last()).insert(entries.last().symbol@)
    }
}

/// The states the description's rows mention, as sources or images.
pub open spec fn dfa_description_states(entries: Seq<DfaDeltaEntry>) -> Set<Seq<char>>
    decreases entries.len(),
{
    if entries.len() == 0 {
        Set::<Seq<char>>::empty()
    } else {
        dfa_description_states(entries.drop_last()).insert(entries.last().state@).insert(
            entries.last().image@,
        )
    }
}

/// The mathematical content of a deterministic automaton: its start
/// state's name, its transition function, and the three sets of the
/// embedded machine.
pub ghost struct DfaModel {
    pub start: Seq<char>,
    pub delta: Map<(Seq<char>, Seq<char>), Seq<char>>,
    pub states: Set<Seq<char>>,
    pub alphabet: Set<Seq<char>>,
    pub ends: Set<Seq<char>>,
}

/// A deterministic finite automaton: one start state, a transition
/// function, and the shared machine envelope. It is a typed container
/// ready for a single-successor acceptance routine; no acceptance
/// operation is defined on it here.
pub struct DeterministicFiniteAutomaton {
    start: State,
    delta: DfaDelta,
    fsm: FiniteStateMachine,
}

impl View for DeterministicFiniteAutomaton {
    type V = DfaModel;

    closed spec fn view(&self) -> DfaModel {
        DfaModel {
            start: self.start@,
            delta: self.delta@,
            states: self.fsm@.states,
            alphabet: self.fsm@.alphabet,
            ends: self.fsm@.ends,
        }
    }
}

impl DeterministicFiniteAutomaton {
    /// Store the three pieces exactly as given, with no structural
    /// validation: consistency is the loader's responsibility.
    pub fn new(_start: State, _delta: DfaDelta, _fsm: FiniteStateMachine) -> (r: Self)
        ensures
            r@ == (DfaModel {
                start: _start@,
                delta: _delta@,
                states: _fsm@.states,
                alphabet: _fsm@.alphabet,
                ends: _fsm@.ends,
            }),
    {
        DeterministicFiniteAutomaton { start: _start, delta: _delta, fsm: _fsm }
    }

    /// Assemble an automaton from a loader's plain description: the
    /// start-state name, the transition rows, and the accepting-state
    /// names. The state set collects the start state and every state
    /// a row mentions, and the alphabet collects every symbol a row
    /// reads, as a loader that enumerates the transitions produces
    /// them.
    pub fn from_description(start: String, delta: Vec<DfaDeltaEntry>, ends: Vec<String>) -> (r:
        Self)
        ensures
            r@.start == start@,
            r@.delta == dfa_description_delta(delta@),
            r@.alphabet == dfa_description_symbols(delta@),
            r@.states == dfa_description_states(delta@).insert(start@),
            r@.ends == name_set(ends@),
    {
        let state_init = State::new(start);
        let mut states = StateSet::new();
        let mut table = DfaDelta::new();
        let mut alphabet = SymbolSet::new();
        proof {
            assert(states@ =~= dfa_description_states(delta@.take(0)));
            assert(alphabet@ =~= dfa_description_symbols(delta@.take(0)));
        }
        let mut d: usize = 0;
        while d < delta.len()
            invariant
                0 <= d <= delta.len(),
                table@ == dfa_description_delta(delta@.take(d as int)),
                alphabet@ == dfa_description_symbols(delta@.take(d as int)),
                states@ == dfa_description_states(delta@.take(d as int)),
            decreases delta.len() - d,
        {
            let symbol = Symbol::new(delta[d].symbol.clone());
            let source = State::new(delta[d].state.clone());
            let image = State::new(delta[d].image.clone());
            let transition = Transition::new(symbol.clone(), source.clone());
            table.insert(transition, image.clone());
            states.insert(source);
            states.insert(image);
            alphabet.insert(symbol);
            proof {
                assert(delta@.take(d + 1).drop_last() =~= delta@.take(d as int));
                assert(delta@.take(d + 1).last() == delta@[d as int]);
            }
            d += 1;
        }
        proof {
            assert(delta@.take(delta@.len() as int) =~= delta@);
        }
        states.insert(state_init.clone());
        let mut end_set = StateSet::new();
        proof {
            assert(end_set@ =~= name_set(ends@.take(0)));
        }
        let mut e: usize = 0;
        while e < ends.len()
            invariant
                0 <= e <= ends.len(),
                end_set@ == name_set(ends@.take(e as int)),
            decreases ends.len() - e,
        {
            proof {
                lemma_name_set_snoc(ends@, e as int);
            }
            end_set.insert(State::new(ends[e].clone()));
            e += 1;
        }
        proof {
            assert(ends@.take(ends@.len() as int) =~= ends@);
        }
        let fsm = FiniteStateMachine::new(states, alphabet, end_set);
        DeterministicFiniteAutomaton::new(state_init, table, fsm)
    }

    /// The start state of the automaton.
    pub fn get_start(&self) -> (r: &State)
        ensures
            r@ == self@.start,
    {
        &self.start
    }

    /// The transition table of the automaton.
    pub fn get_delta(&self) -> (r: &DfaDelta)
        ensures
            r@ == self@.delta,
    {
        &self.delta
    }

    /// The states of the automaton.
    pub fn get_states(&self) -> (r: &StateSet)
        ensures
            r@ == self@.states,
    {
        self.fsm.get_states()
    }

    /// The alphabet of the automaton.
    pub fn get_alphabet(&self) -> (r: &SymbolSet)
        ensures
            r@ == self@.alphabet,
    {
        self.fsm.get_alphabet()
    }

    /// The accepting states of the automaton.
    pub fn get_ends(&self) -> (r: &StateSet)
        ensures
            r@ == self@.ends,
    {
        self.fsm.get_ends()
    }
}

} // verus!
