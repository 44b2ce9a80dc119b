use dfa_simulator::{Automaton, ExecutionError, State, TraceEntry, Transition};

fn edge(symbol: char, target: &str) -> Transition {
    Transition { symbol, target: target.to_string() }
}

fn ends_in_zero() -> Automaton {
    let states = vec![
        State::new("S0".to_string(), true, vec![edge('0', "S0"), edge('1', "S1")]),
        State::new("S1".to_string(), false, vec![edge('0', "S0"), edge('1', "S1")]),
    ];
    Automaton::new(states, vec!['0', '1'], "S0".to_string()).expect("the definition is well formed")
}

fn start(state: &str) -> TraceEntry {
    TraceEntry::Start { state: state.to_string() }
}

fn step(from_state: &str, symbol: char, to_state: &str) -> TraceEntry {
    TraceEntry::Transition {
        from_state: from_state.to_string(),
        symbol,
        to_state: to_state.to_string(),
    }
}

fn end(state: &str, is_accepting: bool) -> TraceEntry {
    TraceEntry::Final { state: state.to_string(), is_accepting }
}

fn steps_in(trace: &[TraceEntry]) -> usize {
    trace.iter().filter(|entry| matches!(entry, TraceEntry::Transition { .. })).count()
}

#[test]
fn trace_of_the_empty_input_holds_start_and_end() {
    let (verdict, trace) = ends_in_zero().process_traced("", true);
    assert_eq!(verdict, Ok(true));
    assert_eq!(trace, vec![start("S0"), end("S0", true)]);
}

#[test]
fn trace_records_each_step_in_order() {
    let (verdict, trace) = ends_in_zero().process_traced("01", true);
    assert_eq!(verdict, Ok(false));
    assert_eq!(
        trace,
        vec![start("S0"), step("S0", '0', "S0"), step("S0", '1', "S1"), end("S1", false)]
    );
}

#[test]
fn trace_is_empty_without_verbose() {
    let (verdict, trace) = ends_in_zero().process_traced("0110", false);
    assert_eq!(verdict, Ok(true));
    assert_eq!(trace, vec![]);
}

#[test]
fn trace_stops_at_an_invalid_symbol() {
    let (verdict, trace) = ends_in_zero().process_traced("1021", true);
    assert_eq!(verdict, Err(ExecutionError::InvalidSymbol { symbol: '2', position: 2 }));
    assert_eq!(trace, vec![start("S0"), step("S0", '1', "S1"), step("S1", '0', "S0")]);
}

#[test]
fn trace_stops_at_a_missing_transition() {
    let states = vec![
        State::new("S0".to_string(), true, vec![edge('1', "S1")]),
        State::new("S1".to_string(), false, vec![]),
    ];
    let automaton = Automaton::new(states, vec!['0', '1'], "S0".to_string())
        .expect("the definition is well formed");
    let (verdict, trace) = automaton.process_traced("110", true);
    assert_eq!(
        verdict,
        Err(ExecutionError::NoTransition { symbol: '1', from_state: "S1".to_string() })
    );
    assert_eq!(trace, vec![start("S0"), step("S0", '1', "S1")]);
}

#[test]
fn trace_holds_one_step_for_each_symbol_on_success() {
    let automaton = ends_in_zero();
    for input in ["", "0", "10", "0110", "0000000000"] {
        let (verdict, trace) = automaton.process_traced(input, true);
        assert!(verdict.is_ok());
        assert_eq!(steps_in(&trace), input.chars().count());
        assert_eq!(trace.len(), input.chars().count() + 2);
    }
}

#[test]
fn trace_holds_one_step_for_each_symbol_before_an_error() {
    let automaton = ends_in_zero();
    for (input, consumed) in [("2", 0), ("02", 1), ("0102", 3), ("01x01", 2)] {
        let (verdict, trace) = automaton.process_traced(input, true);
        assert!(verdict.is_err());
        assert_eq!(steps_in(&trace), consumed);
        assert_eq!(trace.len(), consumed + 1);
    }
}

#[test]
fn trace_steps_link_up() {
    let (_, trace) = ends_in_zero().process_traced("0110", true);
    let mut current = "S0".to_string();
    for entry in &trace {
        match entry {
            TraceEntry::Start { state } => assert_eq!(state, "S0"),
            TraceEntry::Transition { from_state, to_state, .. } => {
                assert_eq!(from_state, &current);
                current = to_state.clone();
            },
            TraceEntry::Final { state, is_accepting } => {
                assert_eq!(state, &current);
                assert!(*is_accepting);
            },
        }
    }
    assert_eq!(current, "S0");
}

#[test]
fn verdict_does_not_depend_on_verbose() {
    let automaton = ends_in_zero();
    for input in ["", "0", "1", "0101", "012"] {
        assert_eq!(automaton.process(input, true), automaton.process(input, false));
        assert_eq!(automaton.process_traced(input, true).0, automaton.process(input, false));
    }
}
