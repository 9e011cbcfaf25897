use automate::DeterministicFiniteAutomaton;
use automate::DfaDelta;
use automate::DfaDeltaEntry;
use automate::FiniteStateMachine;
use automate::State;
use automate::StateSet;
use automate::Symbol;
use automate::SymbolSet;
use automate::Transition;
use automate::insert_all;

#[test]
fn state_creation_partial_eq_copy() {
    let string_one: String = String::from("state");
    let string_two: String = String::from("state two");

    let state_one: State = State::new(string_one.clone());
    let state_one_bis: State = State::new(string_one.clone());
    let state_two: State = State::new(string_two);

    assert_eq!(state_one, state_one_bis);
    assert_eq!(state_one == state_two, false);
    assert_eq!(state_one.get_name(), &(string_one));
}

#[test]
fn symbol_creation_partial_eq_copy() {
    let string_one: String = String::from("Symbol");
    let string_two: String = String::from("Symbol two");

    let symbol_one: Symbol = Symbol::new(string_one.clone());
    let symbol_one_bis: Symbol = Symbol::new(string_one.clone());
    let symbol_two: Symbol = Symbol::new(string_two);

    assert_eq!(symbol_one, symbol_one_bis);
    assert_eq!(symbol_one == symbol_two, false);
    assert_eq!(symbol_one.get_symbol(), &(string_one));
}

#[test]
fn symbol_from_char_matches_new() {
    let from_char: Symbol = Symbol::from_char('a');
    let from_string: Symbol = Symbol::new(String::from("a"));
    assert_eq!(from_char, from_string);
    assert_eq!(from_char == Symbol::new(String::from("b")), false);
}

#[test]
fn state_set_semantics() {
    let mut set: StateSet = StateSet::new();
    assert!(set.is_empty());
    set.insert(State::new(String::from("s")));
    set.insert(State::new(String::from("t")));
    set.insert(State::new(String::from("s")));
    assert!(!set.is_empty());
    assert!(set.contains(&State::new(String::from("s"))));
    assert!(set.contains(&State::new(String::from("t"))));
    assert!(!set.contains(&State::new(String::from("u"))));

    let duplicated: StateSet = StateSet::from_names(&vec![
        String::from("s"),
        String::from("s"),
        String::from("t"),
    ]);
    let plain: StateSet = StateSet::from_names(&vec![String::from("t"), String::from("s")]);
    assert_eq!(duplicated, plain);
    assert_eq!(duplicated == StateSet::from_names(&vec![String::from("s")]), false);
}

#[test]
fn symbol_set_semantics() {
    let mut set: SymbolSet = SymbolSet::new();
    set.insert(Symbol::new(String::from("a")));
    set.insert(Symbol::new(String::from("a")));
    set.insert(Symbol::new(String::from("b")));
    assert!(set.contains(&Symbol::new(String::from("a"))));
    assert!(!set.contains(&Symbol::new(String::from("c"))));

    let built: SymbolSet = SymbolSet::from_values(&vec![
        String::from("b"),
        String::from("a"),
        String::from("b"),
    ]);
    assert_eq!(set, built);
}

#[test]
fn insert_all_is_union() {
    let left: StateSet = StateSet::from_names(&vec![String::from("s"), String::from("t")]);
    let right: StateSet = StateSet::from_names(&vec![String::from("t"), String::from("u")]);
    let union: StateSet = insert_all(left, right);
    let expected: StateSet = StateSet::from_names(&vec![
        String::from("s"),
        String::from("t"),
        String::from("u"),
    ]);
    assert_eq!(union, expected);
}

#[test]
fn creation_fsm() {
    let states: Vec<String> = vec![String::from("q_0"), String::from("q_1")];
    let alphabet: Vec<String> = vec![String::from("b"), String::from("a")];
    let ends: Vec<String> = vec![String::from("q_0")];

    let fsm: FiniteStateMachine = FiniteStateMachine::from_description(&states, &alphabet, &ends);
    let fsm2: FiniteStateMachine = FiniteStateMachine::new(
        StateSet::from_names(&states),
        SymbolSet::from_values(&alphabet),
        StateSet::from_names(&ends),
    );
    let fsm3: FiniteStateMachine = fsm.clone();

    assert_eq!(fsm.get_states(), fsm2.get_states());
    assert_eq!(fsm.get_ends(), fsm2.get_ends());
    assert_eq!(fsm.get_alphabet(), fsm2.get_alphabet());
    assert_eq!(fsm.get_states(), fsm3.get_states());
    assert_eq!(fsm.get_ends(), fsm3.get_ends());
    assert_eq!(fsm.get_alphabet(), fsm3.get_alphabet());
}

#[test]
fn dfa_creation_partial_eq_copy() {
    let delta_rows: Vec<DfaDeltaEntry> = vec![
        DfaDeltaEntry {
            state: String::from("q_0"),
            symbol: String::from("a"),
            image: String::from("q_1"),
        },
        DfaDeltaEntry {
            state: String::from("q_1"),
            symbol: String::from("b"),
            image: String::from("q_0"),
        },
    ];
    let ends: Vec<String> = vec![String::from("q_0")];
    let dfa: DeterministicFiniteAutomaton =
        DeterministicFiniteAutomaton::from_description(String::from("q_0"), delta_rows, ends);

    let mut table: DfaDelta = DfaDelta::new();
    table.insert(
        Transition::new(Symbol::new(String::from("a")), State::new(String::from("q_0"))),
        State::new(String::from("q_1")),
    );
    table.insert(
        Transition::new(Symbol::new(String::from("b")), State::new(String::from("q_1"))),
        State::new(String::from("q_0")),
    );
    let fsm: FiniteStateMachine = FiniteStateMachine::new(
        StateSet::from_names(&vec![String::from("q_0"), String::from("q_1")]),
        SymbolSet::from_values(&vec![String::from("a"), String::from("b")]),
        StateSet::from_names(&vec![String::from("q_0")]),
    );
    let dfa2: DeterministicFiniteAutomaton =
        DeterministicFiniteAutomaton::new(State::new(String::from("q_0")), table, fsm);

    assert_eq!(dfa.get_start(), dfa2.get_start());
    assert_eq!(dfa.get_states(), dfa2.get_states());
    assert_eq!(dfa.get_alphabet(), dfa2.get_alphabet());
    assert_eq!(dfa.get_ends(), dfa2.get_ends());

    let key = Transition::new(Symbol::new(String::from("a")), State::new(String::from("q_0")));
    assert_eq!(dfa.get_delta().get(&key), Some(&State::new(String::from("q_1"))));
    let key2 = Transition::new(Symbol::new(String::from("b")), State::new(String::from("q_1")));
    assert_eq!(dfa2.get_delta().get(&key2), Some(&State::new(String::from("q_0"))));
    let missing = Transition::new(Symbol::new(String::from("b")), State::new(String::from("q_0")));
    assert_eq!(dfa.get_delta().get(&missing), None);
    assert_eq!(dfa2.get_delta().get(&missing), None);
}
