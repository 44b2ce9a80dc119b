use dfa_simulator::{Automaton, ExecutionError, State, Transition, ValidationError};

fn edge(symbol: char, target: &str) -> Transition {
    Transition { symbol, target: target.to_string() }
}

fn state(name: &str, is_accepting: bool, transitions: Vec<Transition>) -> State {
    State::new(name.to_string(), is_accepting, transitions)
}

fn refusal(states: Vec<State>, alphabet: Vec<char>, start_state: &str) -> Option<ValidationError> {
    Automaton::new(states, alphabet, start_state.to_string()).err()
}

#[test]
fn definition_without_states_is_refused() {
    assert_eq!(refusal(vec![], vec!['0'], "S0"), Some(ValidationError::EmptyStateSet));
    assert_eq!(refusal(vec![], vec![], ""), Some(ValidationError::EmptyStateSet));
}

#[test]
fn start_state_that_is_not_listed_is_refused() {
    let states = vec![state("S0", true, vec![edge('0', "S0")])];
    assert_eq!(refusal(states, vec!['0'], "S1"), Some(ValidationError::UnknownStartState));
}

#[test]
fn state_names_are_compared_exactly() {
    let states = vec![state("S0", true, vec![])];
    assert_eq!(refusal(states, vec![], "s0"), Some(ValidationError::UnknownStartState));
}

#[test]
fn transition_to_a_state_that_is_not_listed_is_refused() {
    let states = vec![
        state("S0", true, vec![edge('0', "S0"), edge('1', "S2")]),
        state("S1", false, vec![edge('0', "S0")]),
    ];
    assert_eq!(
        refusal(states, vec!['0', '1'], "S0"),
        Some(ValidationError::DanglingTransitionTarget)
    );
}

#[test]
fn transition_on_a_symbol_outside_the_alphabet_is_refused() {
    let states = vec![state("S0", true, vec![edge('0', "S0"), edge('x', "S0")])];
    assert_eq!(
        refusal(states, vec!['0', '1'], "S0"),
        Some(ValidationError::TransitionSymbolNotInAlphabet)
    );
}

#[test]
fn unknown_start_state_comes_before_the_transition_rules() {
    let states = vec![state("S0", true, vec![edge('x', "S7")])];
    assert_eq!(refusal(states, vec!['0'], "S9"), Some(ValidationError::UnknownStartState));
}

#[test]
fn dangling_target_comes_before_a_symbol_outside_the_alphabet() {
    let states = vec![
        state("S0", true, vec![edge('x', "S0")]),
        state("S1", false, vec![edge('0', "S7")]),
    ];
    assert_eq!(
        refusal(states, vec!['0'], "S0"),
        Some(ValidationError::DanglingTransitionTarget)
    );
}

#[test]
fn well_formed_definition_is_accepted() {
    let states = vec![
        state("S0", true, vec![edge('0', "S0"), edge('1', "S1")]),
        state("S1", false, vec![edge('0', "S0"), edge('1', "S1")]),
    ];
    assert!(Automaton::new(states, vec!['0', '1'], "S0".to_string()).is_ok());
}

#[test]
fn state_without_transitions_is_accepted() {
    let states = vec![state("S0", false, vec![])];
    let automaton = Automaton::new(states, vec!['0'], "S0".to_string())
        .expect("the definition is well formed");
    assert_eq!(automaton.process("", false), Ok(false));
    assert_eq!(
        automaton.process("0", false),
        Err(ExecutionError::NoTransition { symbol: '0', from_state: "S0".to_string() })
    );
}

#[test]
fn later_state_replaces_an_earlier_one_of_the_same_name() {
    let states = vec![
        state("S0", false, vec![edge('0', "S9")]),
        state("S0", true, vec![edge('0', "S0")]),
    ];
    let automaton = Automaton::new(states, vec!['0'], "S0".to_string())
        .expect("the replaced state is not part of the definition");
    assert_eq!(automaton.process("", false), Ok(true));
    assert_eq!(automaton.process("00", false), Ok(true));
    assert_eq!(automaton.lookup("S0").map(|found| found.is_accepting), Some(true));
}

#[test]
fn later_transition_replaces_an_earlier_one_on_the_same_symbol() {
    let states = vec![
        state("S0", false, vec![edge('0', "S9"), edge('0', "S1")]),
        state("S1", true, vec![]),
    ];
    let automaton = Automaton::new(states, vec!['0'], "S0".to_string())
        .expect("the replaced transition is not part of the definition");
    assert_eq!(automaton.process("0", false), Ok(true));
}

#[test]
fn replacing_transition_is_held_to_the_rules() {
    let states = vec![
        state("S0", false, vec![edge('0', "S1"), edge('0', "S9")]),
        state("S1", true, vec![]),
    ];
    assert_eq!(refusal(states, vec!['0'], "S0"), Some(ValidationError::DanglingTransitionTarget));
}

#[test]
fn alphabet_may_list_a_symbol_twice() {
    let states = vec![state("S0", true, vec![edge('0', "S0")])];
    let automaton = Automaton::new(states, vec!['0', '0'], "S0".to_string())
        .expect("the definition is well formed");
    assert!(automaton.symbol_in_alphabet('0'));
    assert_eq!(automaton.process("000", false), Ok(true));
}

#[test]
fn lookup_finds_listed_states_only() {
    let states = vec![
        state("S0", true, vec![edge('0', "S0"), edge('1', "S1")]),
        state("S1", false, vec![edge('0', "S0"), edge('1', "S1")]),
    ];
    let automaton = Automaton::new(states, vec!['0', '1'], "S0".to_string())
        .expect("the definition is well formed");
    let found = automaton.lookup("S1").expect("S1 is listed");
    assert_eq!(found.name, "S1");
    assert!(!found.is_accepting);
    assert_eq!(found.target('0'), Some(&"S0".to_string()));
    assert_eq!(found.target('1'), Some(&"S1".to_string()));
    assert_eq!(found.target('2'), None);
    assert!(automaton.lookup("S2").is_none());
    assert!(automaton.lookup("").is_none());
}

#[test]
fn accessors_return_the_definition() {
    let states = vec![
        state("S0", true, vec![edge('0', "S0"), edge('1', "S1")]),
        state("S1", false, vec![edge('0', "S0"), edge('1', "S1")]),
    ];
    let automaton = Automaton::new(states.clone(), vec!['0', '1'], "S0".to_string())
        .expect("the definition is well formed");
    assert_eq!(automaton.start_state(), "S0");
    assert_eq!(automaton.alphabet(), &vec!['0', '1']);
    assert_eq!(automaton.states(), &states);
}

#[test]
fn symbol_in_alphabet_tests_membership() {
    let states = vec![state("S0", true, vec![])];
    let automaton = Automaton::new(states, vec!['0', '1'], "S0".to_string())
        .expect("the definition is well formed");
    assert!(automaton.symbol_in_alphabet('0'));
    assert!(automaton.symbol_in_alphabet('1'));
    assert!(!automaton.symbol_in_alphabet('2'));
}

#[test]
fn target_is_the_last_listed_for_the_symbol() {
    let listed = state("S0", true, vec![edge('a', "first"), edge('b', "other"), edge('a', "last")]);
    assert_eq!(listed.target('a'), Some(&"last".to_string()));
    assert_eq!(listed.target('b'), Some(&"other".to_string()));
    assert_eq!(listed.target('c'), None);
}
