use dfa_simulator::{Automaton, ExecutionError, State, Transition};

fn edge(symbol: char, target: &str) -> Transition {
    Transition { symbol, target: target.to_string() }
}

fn ends_in_zero() -> Automaton {
    let states = vec![
        State::new("S0".to_string(), true, vec![edge('0', "S0"), edge('1', "S1")]),
        State::new("S1".to_string(), false, vec![edge('0', "S0"), edge('1', "S1")]),
    ];
    Automaton::new(states, vec!['0', '1'], "S0".to_string()).expect("the definition is well formed")
}

fn shareable<T: Send + Sync>(_: &T) {}

#[test]
fn automaton_can_be_shared_between_threads() {
    shareable(&ends_in_zero());
}

#[test]
fn runs_through_several_references_agree() {
    let automaton = ends_in_zero();
    let first = &automaton;
    let second = &automaton;
    for input in ["", "00", "01", "100", "2", "0102"] {
        let expected = automaton.process(input, false);
        assert_eq!(first.process(input, true), expected);
        assert_eq!(second.process(input, false), expected);
        assert_eq!(first.process(input, false), expected);
    }
    assert_eq!(
        second.process("0102", false),
        Err(ExecutionError::InvalidSymbol { symbol: '2', position: 3 })
    );
}
