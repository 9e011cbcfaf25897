//! The non-deterministic finite automaton and its acceptance engine.

use vstd::prelude::*;
use vstd::string::StrSliceExecFns;
use crate::fsm::FiniteStateMachine;
use crate::state::State;
use crate::state::StateSet;
use crate::state::lemma_name_set_snoc;
use crate::state::name_set;
use crate::state::state_names;
use crate::symbol::Symbol;
use crate::symbol::SymbolSet;
use crate::transition::Transition;

verus! {

/// The transition map described by a sequence of table rows: every
/// keyed (symbol, source state) pair maps to the successor set of the
/// last row that keys it.
spec fn nfa_delta_map(entries: Seq<(Transition<State>, StateSet)>) -> Map<
    (Seq<char>, Seq<char>),
    Set<Seq<char>>,
>
    decreases entries.len(),
{
    if entries.len() == 0 {
        Map::<(Seq<char>, Seq<char>), Set<Seq<char>>>::empty()
    } else {
        nfa_delta_map(entries.drop_last()).insert(entries.last().0@, entries.last().1@)
    }
}

/// A non-deterministic transition table: a relation mapping each
/// (symbol, source state) pair to a whole set of successor states.
/// Its view is the map from keyed pairs to successor-name sets.
#[derive(Debug)]
pub struct NfaDelta {
    entries: Vec<(Transition<State>, StateSet)>,
}

impl View for NfaDelta {
    type V = Map<(Seq<char>, Seq<char>), Set<Seq<char>>>;

    closed spec fn view(&self) -> Map<(Seq<char>, Seq<char>), Set<Seq<char>>> {
        nfa_delta_map(self.entries@)
    }
}

impl NfaDelta {
    /// The empty transition table.
    pub fn new() -> (r: Self)
        ensures
            r@ == Map::<(Seq<char>, Seq<char>), Set<Seq<char>>>::empty(),
    {
        NfaDelta { entries: Vec::new() }
    }

    /// Record that reading the key's symbol in the key's state may
    /// move to any of the given successor states; an earlier row for
    /// the same pair is superseded.
    pub fn insert(&mut self, key: Transition<State>, images: StateSet)
        ensures
            final(self)@ == old(self)@.insert(key@, images@),
    {
        let ghost k = key@;
        let ghost v = images@;
        self.entries.push((key, images));
        proof {
            assert(self.entries@.drop_last() =~= old(self).entries@);
            assert(self.entries@.last().0@ == k);
            assert(self.entries@.last().1@ == v);
        }
    }

    /// Look the pair up: the successor set of the last row that keys
    /// it, if any row does.
    pub fn get(&self, key: &Transition<State>) -> (r: Option<&StateSet>)
        ensures
            match r {
                Some(images) => self@.contains_key(key@) && images@ == self@[key@],
                None => !self@.contains_key(key@),
            },
    {
        proof {
            assert(self.entries@.take(self.entries@.len() as int) =~= self.entries@);
        }
        let mut i: usize = self.entries.len();
        while i > 0
            invariant
                0 <= i <= self.entries.len(),
                self@.contains_key(key@) == nfa_delta_map(
                    self.entries@.take(i as int),
                ).contains_key(key@),
                nfa_delta_map(self.entries@.take(i as int)).contains_key(key@) ==> self@[key@]
                    == nfa_delta_map(self.entries@.take(i as int))[key@],
            decreases i,
        {
            i -= 1;
            proof {
                assert(self.entries@.take(i + 1).drop_last() =~= self.entries@.take(i as int));
                assert(self.entries@.take(i + 1).last() == self.entries@[i as int]);
            }
            let row: &Transition<State> = &self.entries[i].0;
            if *row.get_symbol() == *key.get_symbol() && *row.get_content() == *key.get_content() {
                proof {
                    assert(row@ == key@);
                }
                return Some(&self.entries[i].1);
            }
            proof {
                assert(row@ != key@);
            }
        }
        proof {
            assert(self.entries@.take(0).len() == 0);
        }
        None
    }
}

/// The set of states reachable from one state by reading one symbol:
/// the successor set the transition map records for the pair, or the
/// empty set when it records none.
pub open spec fn image_of(
    delta: Map<(Seq<char>, Seq<char>), Set<Seq<char>>>,
    sym: Seq<char>,
    state: Seq<char>,
) -> Set<Seq<char>> {
    if delta.contains_key((sym, state)) {
        delta[(sym, state)]
    } else {
        Set::<Seq<char>>::empty()
    }
}

/// One subset-simulation step: every state reachable from some member
/// of the frontier by reading the symbol.
pub open spec fn step(
    delta: Map<(Seq<char>, Seq<char>), Set<Seq<char>>>,
    sym: Seq<char>,
    frontier: Set<Seq<char>>,
) -> Set<Seq<char>> {
    Set::new(
        |n: Seq<char>|
            exists|s: Seq<char>| #[trigger] frontier.contains(s) && image_of(
                delta,
                sym,
                s,
            ).contains(n),
    )
}

/// The single-state images accumulated along a sequence of frontier
/// members, as the executable step computes them.
spec fn step_over(
    delta: Map<(Seq<char>, Seq<char>), Set<Seq<char>>>,
    sym: Seq<char>,
    items: Seq<State>,
) -> Set<Seq<char>>
    decreases items.len(),
{
    if items.len() == 0 {
        Set::<Seq<char>>::empty()
    } else {
        step_over(delta, sym, items.drop_last()).union(image_of(delta, sym, items.last()@))
    }
}

/// Accumulating the images over a vector of frontier members reaches
/// exactly the step over the set of their names.
proof fn lemma_step_over_equals_step(
    delta: Map<(Seq<char>, Seq<char>), Set<Seq<char>>>,
    sym: Seq<char>,
    items: Seq<State>,
)
    ensures
        step_over(delta, sym, items) == step(delta, sym, state_names(items)),
    decreases items.len(),
{
    let lhs = step_over(delta, sym, items);
    let rhs = step(delta, sym, state_names(items));
    if items.len() == 0 {
        assert forall|n: Seq<char>| rhs.contains(n) implies lhs.contains(n) by {
            let s = choose|s: Seq<char>| #[trigger] state_names(items).contains(s) && image_of(
                delta,
                sym,
                s,
            ).contains(n);
            assert(false);
        }
        assert(lhs =~= rhs);
    } else {
        let prefix = items.drop_last();
        let lastn = items.last()@;
        lemma_step_over_equals_step(delta, sym, prefix);
        assert forall|n: Seq<char>| lhs.contains(n) implies rhs.contains(n) by {
            if step(delta, sym, state_names(prefix)).contains(n) {
                let s = choose|s: Seq<char>| #[trigger] state_names(prefix).contains(s)
                    && image_of(delta, sym, s).contains(n);
                let j = choose|j: int| 0 <= j < prefix.len() && #[trigger] prefix[j]@ == s;
                assert(items[j]@ == s);
                assert(state_names(items).contains(s));
            } else {
                assert(image_of(delta, sym, lastn).contains(n));
                assert(items[items.len() - 1]@ == lastn);
                assert(state_names(items).contains(lastn));
            }
        }
        assert forall|n: Seq<char>| rhs.contains(n) implies lhs.contains(n) by {
            let s = choose|s: Seq<char>| #[trigger] state_names(items).contains(s) && image_of(
                delta,
                sym,
                s,
            ).contains(n);
            let j = choose|j: int| 0 <= j < items.len() && #[trigger] items[j]@ == s;
            if j < items.len() - 1 {
                assert(prefix[j]@ == s);
                assert(state_names(prefix).contains(s));
                assert(step(delta, sym, state_names(prefix)).contains(n));
            } else {
                assert(s == lastn);
            }
        }
        assert(lhs =~= rhs);
    }
}

/// The frontier reached after reading a whole word, symbol by symbol,
/// from left to right.
pub open spec fn run(
    delta: Map<(Seq<char>, Seq<char>), Set<Seq<char>>>,
    frontier: Set<Seq<char>>,
    word: Seq<char>,
) -> Set<Seq<char>>
    decreases word.len(),
{
    if word.len() == 0 {
        frontier
    } else {
        run(delta, step(delta, seq![word[0]], frontier), word.skip(1))
    }
}

/// Whether a frontier contains an accepting state.
pub open spec fn accepting(frontier: Set<Seq<char>>, ends: Set<Seq<char>>) -> bool {
    exists|s: Seq<char>| #[trigger] frontier.contains(s) && ends.contains(s)
}

/// Acceptance of a word read from an arbitrary frontier.
pub open spec fn spec_accept_from(
    delta: Map<(Seq<char>, Seq<char>), Set<Seq<char>>>,
    frontier: Set<Seq<char>>,
    ends: Set<Seq<char>>,
    word: Seq<char>,
) -> bool {
    accepting(run(delta, frontier, word), ends)
}

/// The acceptance predicate of the automaton: the word is accepted
/// when reading it from the start states reaches a frontier holding
/// an accepting state.
pub open spec fn spec_accept(m: NfaModel, word: Seq<char>) -> bool {
    spec_accept_from(m.delta, m.starts, m.ends, word)
}

/// Reading any word from the empty frontier leaves the frontier empty:
/// a dead walk stays dead.
pub proof fn lemma_run_empty(delta: Map<(Seq<char>, Seq<char>), Set<Seq<char>>>, word: Seq<char>)
    ensures
        run(delta, Set::<Seq<char>>::empty(), word) == Set::<Seq<char>>::empty(),
    decreases word.len(),
{
    if word.len() == 0 {
    } else {
        let stepped = step(delta, seq![word[0]], Set::<Seq<char>>::empty());
        assert forall|n: Seq<char>| !stepped.contains(n) by {
            if stepped.contains(n) {
                let s = choose|s: Seq<char>| #[trigger] Set::<Seq<char>>::empty().contains(s)
                    && image_of(delta, seq![word[0]], s).contains(n);
                assert(false);
            }
        }
        assert(stepped =~= Set::<Seq<char>>::empty());
        lemma_run_empty(delta, word.skip(1));
    }
}

/// Reading a one-symbol word is exactly one step.
proof fn lemma_run_single(
    delta: Map<(Seq<char>, Seq<char>), Set<Seq<char>>>,
    frontier: Set<Seq<char>>,
    c: char,
)
    ensures
        run(delta, frontier, seq![c]) == step(delta, seq![c], frontier),
{
    let w = seq![c];
    assert(w.len() == 1);
    assert(w[0] == c);
    assert(w.skip(1).len() == 0);
    assert(seq![w[0]] =~= seq![c]);
    assert(run(delta, frontier, w) == run(delta, step(delta, seq![w[0]], frontier), w.skip(1)));
}

/// Prefix-frontier composability: reading a concatenation is reading
/// the first word, then reading the second from the frontier the
/// first one reached.
pub proof fn lemma_run_concat(
    delta: Map<(Seq<char>, Seq<char>), Set<Seq<char>>>,
    frontier: Set<Seq<char>>,
    w1: Seq<char>,
    w2: Seq<char>,
)
    ensures
        run(delta, frontier, w1 + w2) == run(delta, run(delta, frontier, w1), w2),
    decreases w1.len(),
{
    if w1.len() == 0 {
        assert(w1 + w2 =~= w2);
    } else {
        assert((w1 + w2)[0] == w1[0]);
        assert((w1 + w2).skip(1) =~= w1.skip(1) + w2);
        lemma_run_concat(delta, step(delta, seq![w1[0]], frontier), w1.skip(1), w2);
    }
}

/// Acceptance of a concatenation depends only on the frontier reached
/// after the first word and on the remaining suffix.
pub proof fn lemma_accept_concat(m: NfaModel, w1: Seq<char>, w2: Seq<char>)
    ensures
        spec_accept(m, w1 + w2) == spec_accept_from(
            m.delta,
            run(m.delta, m.starts, w1),
            m.ends,
            w2,
        ),
{
    lemma_run_concat(m.delta, m.starts, w1, w2);
}

/// The empty word is accepted exactly when some start state is itself
/// an accepting state.
pub proof fn lemma_accept_empty_word(m: NfaModel)
    ensures
        spec_accept(m, Seq::<char>::empty()) == accepting(m.starts, m.ends),
{
}

/// Whether every pair the transition map records reads a symbol of
/// the alphabet, as a structurally valid automaton does.
pub open spec fn alphabet_covers_delta(m: NfaModel) -> bool {
    forall|k: (Seq<char>, Seq<char>)| #[trigger] m.delta.contains_key(k) ==> m.alphabet.contains(
        k.0,
    )
}

/// A word holding a symbol outside the alphabet is rejected: the
/// frontier dies at that symbol and a dead walk rejects.
pub proof fn lemma_unknown_symbol_rejects(m: NfaModel, word: Seq<char>, i: int)
    requires
        alphabet_covers_delta(m),
        0 <= i < word.len(),
        !m.alphabet.contains(seq![word[i]]),
    ensures
        !spec_accept(m, word),
{
    let delta = m.delta;
    let f1 = run(delta, m.starts, word.take(i));
    let stepped = step(delta, seq![word[i]], f1);
    assert forall|n: Seq<char>| !stepped.contains(n) by {
        if stepped.contains(n) {
            let s = choose|s: Seq<char>| #[trigger] f1.contains(s) && image_of(
                delta,
                seq![word[i]],
                s,
            ).contains(n);
            assert(delta.contains_key((seq![word[i]], s)));
            assert(false);
        }
    }
    assert(stepped =~= Set::<Seq<char>>::empty());
    assert(word =~= word.take(i) + (seq![word[i]] + word.skip(i + 1)));
    lemma_run_concat(delta, m.starts, word.take(i), seq![word[i]] + word.skip(i + 1));
    assert((seq![word[i]] + word.skip(i + 1))[0] == word[i]);
    assert((seq![word[i]] + word.skip(i + 1)).skip(1) =~= word.skip(i + 1));
    lemma_run_empty(delta, word.skip(i + 1));
    assert(run(delta, m.starts, word) =~= Set::<Seq<char>>::empty());
    assert(!accepting(Set::<Seq<char>>::empty(), m.ends));
}

/// Repeated acceptance checks of one automaton and one word agree:
/// the result is a function of the automaton's model and the word.
pub proof fn lemma_accept_deterministic(m: NfaModel, word: Seq<char>, r1: bool, r2: bool)
    requires
        r1 == spec_accept(m, word),
        r2 == spec_accept(m, word),
    ensures
        r1 == r2,
{
}

/// Whether `d2` extends `d1`: every pair `d1` records is recorded by
/// `d2` with at least the same successor states.
pub open spec fn delta_extends(
    d1: Map<(Seq<char>, Seq<char>), Set<Seq<char>>>,
    d2: Map<(Seq<char>, Seq<char>), Set<Seq<char>>>,
) -> bool {
    forall|k: (Seq<char>, Seq<char>)| #[trigger] d1.contains_key(k) ==> d2.contains_key(k)
        && d1[k].subset_of(d2[k])
}

/// One step under an extended transition map, from a frontier at
/// least as large, reaches a frontier at least as large.
proof fn lemma_step_monotone(
    d1: Map<(Seq<char>, Seq<char>), Set<Seq<char>>>,
    d2: Map<(Seq<char>, Seq<char>), Set<Seq<char>>>,
    sym: Seq<char>,
    f1: Set<Seq<char>>,
    f2: Set<Seq<char>>,
)
    requires
        delta_extends(d1, d2),
        f1.subset_of(f2),
    ensures
        step(d1, sym, f1).subset_of(step(d2, sym, f2)),
{
    assert forall|n: Seq<char>| step(d1, sym, f1).contains(n) implies step(d2, sym, f2).contains(
        n,
    ) by {
        let s = choose|s: Seq<char>| #[trigger] f1.contains(s) && image_of(d1, sym, s).contains(n);
        assert(d1.contains_key((sym, s)));
        assert(image_of(d2, sym, s).contains(n));
        assert(f2.contains(s));
    }
}

/// Extending the transition map can only grow each frontier the walk
/// reaches, never shrink it.
pub proof fn lemma_run_monotone(
    d1: Map<(Seq<char>, Seq<char>), Set<Seq<char>>>,
    d2: Map<(Seq<char>, Seq<char>), Set<Seq<char>>>,
    f1: Set<Seq<char>>,
    f2: Set<Seq<char>>,
    word: Seq<char>,
)
    requires
        delta_extends(d1, d2),
        f1.subset_of(f2),
    ensures
        run(d1, f1, word).subset_of(run(d2, f2, word)),
    decreases word.len(),
{
    if word.len() == 0 {
    } else {
        lemma_step_monotone(d1, d2, seq![word[0]], f1, f2);
        lemma_run_monotone(
            d1,
            d2,
            step(d1, seq![word[0]], f1),
            step(d2, seq![word[0]], f2),
            word.skip(1),
        );
    }
}

/// Monotonicity of acceptance in the transition relation: with the
/// same start and accepting states, an automaton whose transition map
/// extends another's accepts every word the other accepts.
pub proof fn lemma_accept_monotone(m1: NfaModel, m2: NfaModel, word: Seq<char>)
    requires
        delta_extends(m1.delta, m2.delta),
        m1.starts == m2.starts,
        m1.ends == m2.ends,
        spec_accept(m1, word),
    ensures
        spec_accept(m2, word),
{
    lemma_run_monotone(m1.delta, m2.delta, m1.starts, m2.starts, word);
    let s = choose|s: Seq<char>| #[trigger] run(m1.delta, m1.starts, word).contains(s)
        && m1.ends.contains(s);
    assert(run(m2.delta, m2.starts, word).contains(s));
}

/// The mathematical content of a non-deterministic automaton: its
/// start-state names, its transition map, and the three sets of the
/// embedded machine.
pub ghost struct NfaModel {
    pub starts: Set<Seq<char>>,
    pub delta: Map<(Seq<char>, Seq<char>), Set<Seq<char>>>,
    pub states: Set<Seq<char>>,
    pub alphabet: Set<Seq<char>>,
    pub ends: Set<Seq<char>>,
}

/// One row of a loader's transition description: reading `symbol` in
/// `state` may move to any of the `images`.
#[derive(Debug)]
pub struct NfaDeltaEntry {
    pub state: String,
    pub symbol: String,
    pub images: Vec<String>,
}

/// The transition map described by the rows: each keyed
/// (symbol, state) pair maps to the image names of the last row
/// keying it.
pub open spec fn description_delta(entries: Seq<NfaDeltaEntry>) -> Map<
    (Seq<char>, Seq<char>),
    Set<Seq<char>>,
>
    decreases entries.len(),
{
    if entries.len() == 0 {
        Map::<(Seq<char>, Seq<char>), Set<Seq<char>>>::empty()
    } else {
        description_delta(entries.drop_last()).insert(
            (entries.last().symbol@, entries.last().state@),
            name_set(entries.last().images@),
        )
    }
}

/// The symbols the description's rows read.
pub open spec fn description_symbols(entries: Seq<NfaDeltaEntry>) -> Set<Seq<char>>
    decreases entries.len(),
{
    if entries.len() == 0 {
        Set::<Seq<char>>::empty()
    } else {
        description_symbols(entries.drop_last()).insert(entries.last().symbol@)
    }
}

/// The states the description's rows mention, as sources or images.
pub open spec fn description_states(entries: Seq<NfaDeltaEntry>) -> Set<Seq<char>>
    decreases entries.len(),
{
    if entries.len() == 0 {
        Set::<Seq<char>>::empty()
    } else {
        description_states(entries.drop_last()).union(
            name_set(entries.last().images@),
        ).insert(entries.last().state@)
    }
}

/// A non-deterministic finite automaton: a set of start states, a
/// transition relation, and the shared machine envelope. Acceptance
/// of a word is decided by subset simulation over the relation.
pub struct NonDeterministicFiniteAutomaton {
    starts: StateSet,
    delta: NfaDelta,
    fsm: FiniteStateMachine,
}

impl View for NonDeterministicFiniteAutomaton {
    type V = NfaModel;

    closed spec fn view(&self) -> NfaModel {
        NfaModel {
            starts: self.starts@,
            delta: self.delta@,
            states: self.fsm@.states,
            alphabet: self.fsm@.alphabet,
            ends: self.fsm@.ends,
        }
    }
}

impl NonDeterministicFiniteAutomaton {
    /// Store the three pieces exactly as given, with no structural
    /// validation: consistency is the loader's responsibility.
    pub fn new(_starts: StateSet, _delta: NfaDelta, _fsm: FiniteStateMachine) -> (r: Self)
        ensures
            r@ == (NfaModel {
                starts: _starts@,
                delta: _delta@,
                states: _fsm@.states,
                alphabet: _fsm@.alphabet,
                ends: _fsm@.ends,
            }),
    {
        NonDeterministicFiniteAutomaton { starts: _starts, delta: _delta, fsm: _fsm }
    }

    /// Assemble an automaton from a loader's plain description: the
    /// start-state names, the transition rows, and the accepting-state
    /// names. The state set collects every state the description
    /// mentions and the alphabet collects every symbol its rows read,
    /// as a loader that enumerates the transitions produces them.
    pub fn from_description(starts: Vec<String>, delta: Vec<NfaDeltaEntry>, ends: Vec<String>) -> (r:
        Self)
        ensures
            r@.starts == name_set(starts@),
            r@.delta == description_delta(delta@),
            r@.alphabet == description_symbols(delta@),
            r@.states == name_set(starts@).union(description_states(delta@)).union(
                name_set(ends@),
            ),
            r@.ends == name_set(ends@),
    {
        let mut start_set = StateSet::new();
        let mut states = StateSet::new();
        proof {
            assert(start_set@ =~= name_set(starts@.take(0)));
        }
        let mut i: usize = 0;
        while i < starts.len()
            invariant
                0 <= i <= starts.len(),
                start_set@ == name_set(starts@.take(i as int)),
                states@ == name_set(starts@.take(i as int)),
            decreases starts.len() - i,
        {
            proof {
                lemma_name_set_snoc(starts@, i as int);
            }
            let st = State::new(starts[i].clone());
            start_set.insert(st.clone());
            states.insert(st);
            i += 1;
        }
        proof {
            assert(starts@.take(starts@.len() as int) =~= starts@);
        }
        let mut table = NfaDelta::new();
        let mut alphabet = SymbolSet::new();
        proof {
            assert(states@ =~= name_set(starts@).union(description_states(delta@.take(0))));
            assert(alphabet@ =~= description_symbols(delta@.take(0)));
        }
        let mut d: usize = 0;
        while d < delta.len()
            invariant
                0 <= d <= delta.len(),
                table@ == description_delta(delta@.take(d as int)),
                alphabet@ == description_symbols(delta@.take(d as int)),
                states@ == name_set(starts@).union(description_states(delta@.take(d as int))),
            decreases delta.len() - d,
        {
            let mut images = StateSet::new();
            proof {
                assert(images@ =~= name_set(delta@[d as int].images@.take(0)));
            }
            let mut j: usize = 0;
            while j < delta[d].images.len()
                invariant
                    0 <= d < delta@.len(),
                    0 <= j <= delta@[d as int].images@.len(),
                    images@ == name_set(delta@[d as int].images@.take(j as int)),
                    states@ == name_set(starts@).union(
                        description_states(delta@.take(d as int)),
                    ).union(name_set(delta@[d as int].images@.take(j as int))),
                decreases delta@[d as int].images@.len() - j,
            {
                proof {
                    lemma_name_set_snoc(delta@[d as int].images@, j as int);
                }
                let img = State::new(delta[d].images[j].clone());
                states.insert(img.clone());
                images.insert(img);
                proof {
                    assert(states@ =~= name_set(starts@).union(
                        description_states(delta@.take(d as int)),
                    ).union(name_set(delta@[d as int].images@.take(j + 1))));
                }
                j += 1;
            }
            proof {
                assert(delta@[d as int].images@.take(delta@[d as int].images@.len() as int)
                    =~= delta@[d as int].images@);
            }
            let symbol = Symbol::new(delta[d].symbol.clone());
            let source = State::new(delta[d].state.clone());
            let transition = Transition::new(symbol.clone(), source.clone());
            table.insert(transition, images);
            states.insert(source);
            alphabet.insert(symbol);
            proof {
                assert(delta@.take(d + 1).drop_last() =~= delta@.take(d as int));
                assert(delta@.take(d + 1).last() == delta@[d as int]);
                assert(states@ =~= name_set(starts@).union(
                    description_states(delta@.take(d + 1)),
                ));
            }
            d += 1;
        }
        proof {
            assert(delta@.take(delta@.len() as int) =~= delta@);
        }
        let mut end_set = StateSet::new();
        proof {
            assert(end_set@ =~= name_set(ends@.take(0)));
            assert(states@ =~= name_set(starts@).union(description_states(delta@)).union(
                name_set(ends@.take(0)),
            ));
        }
        let mut e: usize = 0;
        while e < ends.len()
            invariant
                0 <= e <= ends.len(),
                end_set@ == name_set(ends@.take(e as int)),
                states@ == name_set(starts@).union(description_states(delta@)).union(
                    name_set(ends@.take(e as int)),
                ),
            decreases ends.len() - e,
        {
            proof {
                lemma_name_set_snoc(ends@, e as int);
            }
            let en = State::new(ends[e].clone());
            end_set.insert(en.clone());
            states.insert(en);
            proof {
                assert(states@ =~= name_set(starts@).union(description_states(delta@)).union(
                    name_set(ends@.take(e + 1)),
                ));
            }
            e += 1;
        }
        proof {
            assert(ends@.take(ends@.len() as int) =~= ends@);
        }
        let fsm = FiniteStateMachine::new(states, alphabet, end_set);
        NonDeterministicFiniteAutomaton::new(start_set, table, fsm)
    }

    /// The start states of the automaton.
    pub fn get_starts(&self) -> (r: &StateSet)
        ensures
            r@ == self@.starts,
    {
        &self.starts
    }

    /// The transition table of the automaton.
    pub fn get_delta(&self) -> (r: &NfaDelta)
        ensures
            r@ == self@.delta,
    {
        &self.delta
    }

    /// The states of the automaton.
    pub fn get_states(&self) -> (r: &StateSet)
        ensures
            r@ == self@.states,
    {
        self.fsm.get_states()
    }

    /// The alphabet of the automaton.
    pub fn get_alphabet(&self) -> (r: &SymbolSet)
        ensures
            r@ == self@.alphabet,
    {
        self.fsm.get_alphabet()
    }

    /// The accepting states of the automaton.
    pub fn get_ends(&self) -> (r: &StateSet)
        ensures
            r@ == self@.ends,
    {
        self.fsm.get_ends()
    }

    /// Apply one simulated step to a whole frontier of active states:
    /// the union, over the frontier, of each state's successor set for
    /// the symbol, or nothing when no frontier state has a move.
    pub fn apply_deltas(&self, set_transition: Transition<StateSet>) -> (r: Option<StateSet>)
        ensures
            ({
                let img = step(self@.delta, set_transition@.0, set_transition@.1);
                match r {
                    Some(images) => images@ == img && img != Set::<Seq<char>>::empty(),
                    None => img == Set::<Seq<char>>::empty(),
                }
            }),
    {
        let mut images = StateSet::new();
        let symbol: &Symbol = set_transition.get_symbol();
        let items: &Vec<State> = set_transition.get_content().as_vec();
        proof {
            assert(images@ =~= step_over(self@.delta, symbol@, items@.take(0)));
        }
        let mut i: usize = 0;
        while i < items.len()
            invariant
                0 <= i <= items.len(),
                images@ == step_over(self@.delta, symbol@, items@.take(i as int)),
                symbol@ == set_transition@.0,
                state_names(items@) == set_transition@.1,
            decreases items.len() - i,
        {
            let transition = Transition::new(symbol.clone(), items[i].clone());
            let current = self.apply_delta(transition);
            proof {
                assert(items@.take(i + 1).drop_last() =~= items@.take(i as int));
                assert(items@.take(i + 1).last() == items@[i as int]);
            }
            match current {
                Some(more) => {
                    images = crate::insert_all(images, more);
                },
                None => {
                    proof {
                        assert(image_of(self@.delta, symbol@, items@[i as int]@) =~= Set::<
                            Seq<char>,
                        >::empty());
                        assert(images@ =~= step_over(self@.delta, symbol@, items@.take(i + 1)));
                    }
                },
            }
            i += 1;
        }
        proof {
            assert(items@.take(items@.len() as int) =~= items@);
            lemma_step_over_equals_step(self@.delta, set_transition@.0, items@);
        }
        if images.is_empty() {
            return None;
        }
        Some(images)
    }

    /// Whether the automaton accepts the word: subset simulation from
    /// the start states, one symbol at a time, and acceptance exactly
    /// when the final frontier contains an accepting state. A symbol
    /// with no recorded move, in particular one outside the alphabet,
    /// kills the walk, and a dead walk rejects.
    pub fn accept(&self, _word: &str) -> (r: bool)
        ensures
            r == spec_accept(self@, _word@),
    {
        let mut currents: StateSet = self.get_starts().clone();
        let n: usize = _word.unicode_len();
        proof {
            assert(_word@.take(0) =~= Seq::<char>::empty());
        }
        let mut i: usize = 0;
        while i < n
            invariant
                0 <= i <= n,
                n == _word@.len(),
                currents@ == run(self@.delta, self@.starts, _word@.take(i as int)),
            decreases n - i,
        {
            let lettre = _word.get_char(i);
            let symbol = Symbol::from_char(lettre);
            let transition = Transition::new(symbol, currents.clone());
            let temp = self.apply_deltas(transition);
            proof {
                assert(_word@.take(i + 1) =~= _word@.take(i as int) + seq![_word@[i as int]]);
                lemma_run_concat(
                    self@.delta,
                    self@.starts,
                    _word@.take(i as int),
                    seq![_word@[i as int]],
                );
                lemma_run_single(
                    self@.delta,
                    run(self@.delta, self@.starts, _word@.take(i as int)),
                    _word@[i as int],
                );
            }
            match temp {
                Some(next) => {
                    currents = next;
                },
                None => {
                    proof {
                        assert(run(self@.delta, self@.starts, _word@.take(i + 1)) =~= Set::<
                            Seq<char>,
                        >::empty());
                        assert(_word@ =~= _word@.take(i + 1) + _word@.skip(i + 1));
                        lemma_run_concat(
                            self@.delta,
                            self@.starts,
                            _word@.take(i + 1),
                            _word@.skip(i + 1),
                        );
                        lemma_run_empty(self@.delta, _word@.skip(i + 1));
                        assert(!accepting(Set::<Seq<char>>::empty(), self@.ends));
                    }
                    return false;
                },
            }
            i += 1;
        }
        proof {
            assert(_word@.take(n as int) =~= _word@);
        }
        let items: &Vec<State> = currents.as_vec();
        let ends: &StateSet = self.get_ends();
        let mut k: usize = 0;
        while k < items.len()
            invariant
                0 <= k <= items.len(),
                forall|j: int| 0 <= j < k ==> !self@.ends.contains(#[trigger] items@[j]@),
                state_names(items@) == run(self@.delta, self@.starts, _word@),
                ends@ == self@.ends,
            decreases items.len() - k,
        {
            if ends.contains(&items[k]) {
                proof {
                    assert(state_names(items@).contains(items@[k as int]@));
                    assert(accepting(run(self@.delta, self@.starts, _word@), self@.ends));
                }
                return true;
            }
            k += 1;
        }
        proof {
            assert forall|s: Seq<char>|
                run(self@.delta, self@.starts, _word@).contains(s) implies !self@.ends.contains(
                s,
            ) by {
                let j = choose|j: int| 0 <= j < items@.len() && #[trigger] items@[j]@ == s;
            }
            assert(!accepting(run(self@.delta, self@.starts, _word@), self@.ends));
        }
        false
    }

    /// Apply one transition: the recorded successor set of the pair,
    /// cloned, or nothing when the automaton has no move for that
    /// symbol from that state.
    pub fn apply_delta(&self, transition: Transition<State>) -> (r: Option<StateSet>)
        ensures
            match r {
                Some(images) => self@.delta.contains_key(transition@) && images@
                    == self@.delta[transition@],
                None => !self@.delta.contains_key(transition@),
            },
    {
        if let Some(n) = self.get_delta().get(&transition) {
            return Some(n.clone());
        }
        None
    }
}

} // verus!
