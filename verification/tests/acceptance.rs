use automate::FiniteStateMachine;
use automate::NfaDelta;
use automate::NfaDeltaEntry;
use automate::NonDeterministicFiniteAutomaton;
use automate::State;
use automate::StateSet;
use automate::Symbol;
use automate::SymbolSet;
use automate::Transition;

fn reference_rows() -> Vec<NfaDeltaEntry> {
    vec![
        NfaDeltaEntry {
            state: String::from("s"),
            symbol: String::from("a"),
            images: vec![
                String::from("s"),
                String::from("t"),
                String::from("u"),
                String::from("v"),
            ],
        },
        NfaDeltaEntry {
            state: String::from("t"),
            symbol: String::from("b"),
            images: vec![String::from("s")],
        },
        NfaDeltaEntry {
            state: String::from("u"),
            symbol: String::from("b"),
            images: vec![String::from("t")],
        },
        NfaDeltaEntry {
            state: String::from("v"),
            symbol: String::from("b"),
            images: vec![String::from("u")],
        },
    ]
}

fn reference_nfa() -> NonDeterministicFiniteAutomaton {
    NonDeterministicFiniteAutomaton::from_description(
        vec![String::from("s")],
        reference_rows(),
        vec![String::from("s")],
    )
}

#[test]
fn nfa_creation_partial_eq_copy() {
    let nfa = reference_nfa();

    let mut table: NfaDelta = NfaDelta::new();
    table.insert(
        Transition::new(Symbol::new(String::from("a")), State::new(String::from("s"))),
        StateSet::from_names(&vec![
            String::from("s"),
            String::from("t"),
            String::from("u"),
            String::from("v"),
        ]),
    );
    table.insert(
        Transition::new(Symbol::new(String::from("b")), State::new(String::from("t"))),
        StateSet::from_names(&vec![String::from("s")]),
    );
    table.insert(
        Transition::new(Symbol::new(String::from("b")), State::new(String::from("u"))),
        StateSet::from_names(&vec![String::from("t")]),
    );
    table.insert(
        Transition::new(Symbol::new(String::from("b")), State::new(String::from("v"))),
        StateSet::from_names(&vec![String::from("u")]),
    );
    let fsm: FiniteStateMachine = FiniteStateMachine::new(
        StateSet::from_names(&vec![
            String::from("s"),
            String::from("t"),
            String::from("u"),
            String::from("v"),
        ]),
        SymbolSet::from_values(&vec![String::from("a"), String::from("b")]),
        StateSet::from_names(&vec![String::from("s")]),
    );
    let nfa3: NonDeterministicFiniteAutomaton = NonDeterministicFiniteAutomaton::new(
        StateSet::from_names(&vec![String::from("s")]),
        table,
        fsm,
    );

    assert_eq!(nfa.get_starts(), nfa3.get_starts());
    assert_eq!(nfa.get_ends(), nfa3.get_ends());
    assert_eq!(nfa.get_states(), nfa3.get_states());
    assert_eq!(nfa.get_alphabet(), nfa3.get_alphabet());

    for (symbol, state) in [("a", "s"), ("b", "t"), ("b", "u"), ("b", "v"), ("b", "s")] {
        let key = || {
            Transition::new(
                Symbol::new(String::from(symbol)),
                State::new(String::from(state)),
            )
        };
        assert_eq!(nfa.apply_delta(key()), nfa3.apply_delta(key()));
    }

    assert_eq!(nfa.accept("abbbb"), false);
    assert_eq!(nfa.accept("b"), false);
    assert_eq!(nfa.accept("aabb"), true);
    assert_eq!(nfa3.accept("abbbb"), false);
    assert_eq!(nfa3.accept("b"), false);
    assert_eq!(nfa3.accept("aabb"), true);
}

#[test]
fn reference_scenarios() {
    let nfa = reference_nfa();
    assert_eq!(nfa.accept("aabb"), true);
    assert_eq!(nfa.accept("b"), false);
    assert_eq!(nfa.accept("abbbb"), false);
    assert_eq!(nfa.accept("a"), true);
    assert_eq!(nfa.accept("ab"), true);
    assert_eq!(nfa.accept("abb"), true);
    assert_eq!(nfa.accept("abbb"), true);
    assert_eq!(nfa.accept("bb"), false);
}

#[test]
fn empty_word_acceptance() {
    let nfa = reference_nfa();
    assert_eq!(nfa.accept(""), true);

    let disjoint = NonDeterministicFiniteAutomaton::from_description(
        vec![String::from("s")],
        reference_rows(),
        vec![String::from("t")],
    );
    assert_eq!(disjoint.accept(""), false);

    let no_starts = NonDeterministicFiniteAutomaton::from_description(
        vec![],
        reference_rows(),
        vec![String::from("s")],
    );
    assert_eq!(no_starts.accept(""), false);
}

#[test]
fn unknown_symbol_rejects() {
    let nfa = reference_nfa();
    assert_eq!(nfa.accept("c"), false);
    assert_eq!(nfa.accept("ac"), false);
    assert_eq!(nfa.accept("ca"), false);
    assert_eq!(nfa.accept("aacbb"), false);
}

#[test]
fn added_transitions_only_grow_acceptance() {
    let base = NonDeterministicFiniteAutomaton::from_description(
        vec![String::from("s")],
        vec![NfaDeltaEntry {
            state: String::from("s"),
            symbol: String::from("a"),
            images: vec![String::from("t")],
        }],
        vec![String::from("t")],
    );
    let extended = NonDeterministicFiniteAutomaton::from_description(
        vec![String::from("s")],
        vec![
            NfaDeltaEntry {
                state: String::from("s"),
                symbol: String::from("a"),
                images: vec![String::from("t")],
            },
            NfaDeltaEntry {
                state: String::from("t"),
                symbol: String::from("b"),
                images: vec![String::from("t")],
            },
        ],
        vec![String::from("t")],
    );

    assert_eq!(base.accept("a"), true);
    assert_eq!(extended.accept("a"), true);
    assert_eq!(base.accept("ab"), false);
    assert_eq!(extended.accept("ab"), true);
    assert_eq!(base.accept("abb"), false);
    assert_eq!(extended.accept("abb"), true);
}

#[test]
fn apply_delta_looks_pairs_up() {
    let nfa = reference_nfa();
    let hit = nfa.apply_delta(Transition::new(
        Symbol::new(String::from("b")),
        State::new(String::from("u")),
    ));
    assert_eq!(hit, Some(StateSet::from_names(&vec![String::from("t")])));
    let miss = nfa.apply_delta(Transition::new(
        Symbol::new(String::from("b")),
        State::new(String::from("s")),
    ));
    assert_eq!(miss, None);
}

#[test]
fn apply_deltas_unions_the_frontier() {
    let nfa = reference_nfa();
    let frontier = StateSet::from_names(&vec![
        String::from("t"),
        String::from("u"),
        String::from("v"),
    ]);
    let moved = nfa.apply_deltas(Transition::new(Symbol::new(String::from("b")), frontier));
    assert_eq!(
        moved,
        Some(StateSet::from_names(&vec![
            String::from("s"),
            String::from("t"),
            String::from("u"),
        ]))
    );

    let dead = nfa.apply_deltas(Transition::new(
        Symbol::new(String::from("a")),
        StateSet::from_names(&vec![String::from("t"), String::from("u")]),
    ));
    assert_eq!(dead, None);
}

#[test]
fn multi_character_symbols_never_match_input() {
    let nfa = NonDeterministicFiniteAutomaton::from_description(
        vec![String::from("s")],
        vec![NfaDeltaEntry {
            state: String::from("s"),
            symbol: String::from("ab"),
            images: vec![String::from("t")],
        }],
        vec![String::from("t")],
    );
    let key = Transition::new(Symbol::new(String::from("ab")), State::new(String::from("s")));
    assert_eq!(
        nfa.apply_delta(key),
        Some(StateSet::from_names(&vec![String::from("t")]))
    );
    assert_eq!(nfa.accept("ab"), false);
    assert_eq!(nfa.accept("a"), false);
}

#[test]
fn later_rows_supersede_earlier_ones() {
    let nfa = NonDeterministicFiniteAutomaton::from_description(
        vec![String::from("s")],
        vec![
            NfaDeltaEntry {
                state: String::from("s"),
                symbol: String::from("a"),
                images: vec![String::from("t")],
            },
            NfaDeltaEntry {
                state: String::from("s"),
                symbol: String::from("a"),
                images: vec![String::from("u")],
            },
        ],
        vec![String::from("u")],
    );
    let key = Transition::new(Symbol::new(String::from("a")), State::new(String::from("s")));
    assert_eq!(
        nfa.apply_delta(key),
        Some(StateSet::from_names(&vec![String::from("u")]))
    );
    assert_eq!(nfa.accept("a"), true);
}

#[test]
fn repeated_acceptance_agrees() {
    let nfa = reference_nfa();
    for word in ["", "a", "aabb", "abbbb", "b", "aacbb"] {
        let first = nfa.accept(word);
        for _ in 0..3 {
            assert_eq!(nfa.accept(word), first);
        }
    }
}
