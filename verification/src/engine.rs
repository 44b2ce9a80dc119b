//! Running an automaton over an input: one pass, symbol by symbol, to a
//! verdict or to the first symbol that cannot be consumed.

use crate::model::{
    contains_symbol, find_transition, state_entries, transition_entries, Automaton, AutomatonView,
};
use crate::table::{lemma_last_position, lemma_table_lookup};
use vstd::prelude::*;
use vstd::utf8::encode_utf8;

verus! {

/// Why a run stopped before the end of its input.
#[derive(Clone, Debug, PartialEq, Eq)]
pub enum ExecutionError {
    /// The symbol at `position` (counted from 0) is not in the alphabet.
    InvalidSymbol { symbol: char, position: usize },
    /// The state `from_state` has no transition on `symbol`.
    NoTransition { symbol: char, from_state: String },
}

/// An `ExecutionError` as a mathematical value.
pub enum ExecutionErrorView {
    InvalidSymbol { symbol: char, position: nat },
    NoTransition { symbol: char, from_state: Seq<char> },
}

impl View for ExecutionError {
    type V = ExecutionErrorView;

    open spec fn view(&self) -> ExecutionErrorView {
        match *self {
            ExecutionError::InvalidSymbol { symbol, position } => {
                ExecutionErrorView::InvalidSymbol { symbol, position: position as nat }
            },
            ExecutionError::NoTransition { symbol, from_state } => {
                ExecutionErrorView::NoTransition { symbol, from_state: from_state@ }
            },
        }
    }
}

/// One entry of the record of a run.
#[derive(Clone, Debug, PartialEq, Eq)]
pub enum TraceEntry {
    /// The run begins in `state`.
    Start { state: String },
    /// On `symbol` the run went from `from_state` to `to_state`.
    Transition { from_state: String, symbol: char, to_state: String },
    /// The input is consumed; the run ends in `state`.
    Final { state: String, is_accepting: bool },
}

/// A `TraceEntry` as a mathematical value.
pub enum TraceEntryView {
    Start { state: Seq<char> },
    Transition { from_state: Seq<char>, symbol: char, to_state: Seq<char> },
    Final { state: Seq<char>, is_accepting: bool },
}

impl View for TraceEntry {
    type V = TraceEntryView;

    open spec fn view(&self) -> TraceEntryView {
        match *self {
            TraceEntry::Start { state } => TraceEntryView::Start { state: state@ },
            TraceEntry::Transition { from_state, symbol, to_state } => TraceEntryView::Transition {
                from_state: from_state@,
                symbol,
                to_state: to_state@,
            },
            TraceEntry::Final { state, is_accepting } => TraceEntryView::Final {
                state: state@,
                is_accepting,
            },
        }
    }
}

/// A verdict or error as a mathematical value.
pub open spec fn verdict_view(verdict: Result<bool, ExecutionError>) -> Result<
    bool,
    ExecutionErrorView,
> {
    match verdict {
        Ok(accepted) => Ok(accepted),
        Err(error) => Err(error@),
    }
}

/// A recorded trace as a sequence of mathematical values.
pub open spec fn trace_view(trace: Seq<TraceEntry>) -> Seq<TraceEntryView> {
    trace.map_values(|entry: TraceEntry| entry@)
}

impl AutomatonView {
    /// Consuming `symbol`, the symbol at `position` of the input, in `state`:
    /// the next state, or why there is none. Membership in the alphabet is
    /// tested first, whatever transitions the state has.
    pub open spec fn step(self, state: Seq<char>, symbol: char, position: nat) -> Result<
        Seq<char>,
        ExecutionErrorView,
    > {
        if !self.alphabet.contains(symbol) {
            Err(ExecutionErrorView::InvalidSymbol { symbol, position })
        } else if !self.states[state].transitions.contains_key(symbol) {
            Err(ExecutionErrorView::NoTransition { symbol, from_state: state })
        } else {
            Ok(self.states[state].transitions[symbol])
        }
    }

    /// Consuming `input` from `state`, where `position` is the place of the
    /// first symbol of `input` in the whole input: the state reached, or the
    /// first error met.
    pub open spec fn run_from(self, state: Seq<char>, input: Seq<char>, position: nat) -> Result<
        Seq<char>,
        ExecutionErrorView,
    >
        decreases input.len(),
    {
        if input.len() == 0 {
            Ok(state)
        } else {
            match self.step(state, input[0], position) {
                Ok(next) => self.run_from(next, input.drop_first(), position + 1),
                Err(error) => Err(error),
            }
        }
    }

    /// The result of a run over `input` from the start state: whether the
    /// state reached is accepting, or the first error met.
    pub open spec fn outcome(self, input: Seq<char>) -> Result<bool, ExecutionErrorView> {
        match self.run_from(self.start_state, input, 0) {
            Ok(last) => Ok(self.states[last].is_accepting),
            Err(error) => Err(error),
        }
    }

    /// What a run over `input` from `state` records after its start: one
    /// entry for each symbol consumed and, if the input is consumed to its
    /// end, an entry for the final state.
    pub open spec fn steps_from(self, state: Seq<char>, input: Seq<char>, position: nat) -> Seq<
        TraceEntryView,
    >
        decreases input.len(),
    {
        if input.len() == 0 {
            seq![
                TraceEntryView::Final { state, is_accepting: self.states[state].is_accepting },
            ]
        } else {
            match self.step(state, input[0], position) {
                Ok(next) => seq![
                    TraceEntryView::Transition {
                        from_state: state,
                        symbol: input[0],
                        to_state: next,
                    },
                ] + self.steps_from(next, input.drop_first(), position + 1),
                Err(_) => Seq::empty(),
            }
        }
    }

    /// The record of a run over `input` from the start state.
    pub open spec fn trace(self, input: Seq<char>) -> Seq<TraceEntryView> {
        seq![TraceEntryView::Start { state: self.start_state }] + self.steps_from(
            self.start_state,
            input,
            0,
        )
    }
}

/// The number of entries of `trace` that record a step.
pub open spec fn transition_count(trace: Seq<TraceEntryView>) -> nat {
    trace.filter(|entry: TraceEntryView| entry is Transition).len()
}

impl AutomatonView {
    /// The number of symbols of `input` that a run from `state` consumes
    /// before it meets an error or the end of `input`.
    pub open spec fn consumed_from(self, state: Seq<char>, input: Seq<char>, position: nat) -> nat
        decreases input.len(),
    {
        if input.len() == 0 {
            0
        } else {
            match self.step(state, input[0], position) {
                Ok(next) => 1 + self.consumed_from(next, input.drop_first(), position + 1),
                Err(_) => 0,
            }
        }
    }

    /// The number of symbols that a run over `input` from the start state
    /// consumes.
    pub open spec fn consumed(self, input: Seq<char>) -> nat {
        self.consumed_from(self.start_state, input, 0)
    }
}

/// On the empty input a run ends where it began: the verdict says whether
/// the start state is accepting, and it is never an error. The record holds
/// the start and the end, and no step.
pub proof fn lemma_empty_input(automaton: AutomatonView)
    ensures
        automaton.outcome(Seq::empty()) == Ok::<bool, ExecutionErrorView>(
            automaton.states[automaton.start_state].is_accepting,
        ),
        automaton.trace(Seq::empty()) == seq![
            TraceEntryView::Start { state: automaton.start_state },
            TraceEntryView::Final {
                state: automaton.start_state,
                is_accepting: automaton.states[automaton.start_state].is_accepting,
            },
        ],
{
}

/// A symbol outside the alphabet is refused as such in every state, whether
/// or not the state has a transition on it.
pub proof fn lemma_foreign_symbol_refused(
    automaton: AutomatonView,
    state: Seq<char>,
    symbol: char,
    position: nat,
)
    requires
        !automaton.alphabet.contains(symbol),
    ensures
        automaton.step(state, symbol, position) == Err::<Seq<char>, ExecutionErrorView>(
            ExecutionErrorView::InvalidSymbol { symbol, position },
        ),
{
}

/// A run over two inputs joined is the run over the first, followed from the
/// state it reaches by the run over the second; an error in the first ends it.
pub proof fn lemma_run_split(
    automaton: AutomatonView,
    state: Seq<char>,
    first: Seq<char>,
    second: Seq<char>,
    position: nat,
)
    ensures
        automaton.run_from(state, first + second, position) == match automaton.run_from(
            state,
            first,
            position,
        ) {
            Ok(middle) => automaton.run_from(middle, second, position + first.len()),
            Err(error) => Err(error),
        },
    decreases first.len(),
{
    if first.len() > 0 {
        assert((first + second).drop_first() == first.drop_first() + second);
        match automaton.step(state, first[0], position) {
            Ok(next) => {
                lemma_run_split(automaton, next, first.drop_first(), second, position + 1);
            },
            Err(_) => {},
        }
    }
}

/// In a well-formed definition a run never leaves the states: from a state
/// of the definition it reaches, where it meets no error, a state of the
/// definition.
pub proof fn lemma_run_stays_defined(
    automaton: AutomatonView,
    state: Seq<char>,
    input: Seq<char>,
    position: nat,
)
    requires
        automaton.well_formed(),
        automaton.states.contains_key(state),
    ensures
        automaton.run_from(state, input, position) matches Ok(last)
            ==> automaton.states.contains_key(last),
    decreases input.len(),
{
    if input.len() > 0 {
        match automaton.step(state, input[0], position) {
            Ok(next) => {
                assert(!automaton.dangling_at(state, input[0]));
                lemma_run_stays_defined(automaton, next, input.drop_first(), position + 1);
            },
            Err(_) => {},
        }
    }
}

/// An input that holds a symbol outside the alphabet fails with
/// `InvalidSymbol`, whatever transitions the states have, unless a transition
/// is missing before that symbol is reached. Where the symbols before it are
/// all consumed, the error names that symbol and its position.
pub proof fn lemma_alphabet_precedence(automaton: AutomatonView, input: Seq<char>, at: int)
    requires
        0 <= at < input.len(),
        !automaton.alphabet.contains(input[at]),
        !(automaton.run_from(automaton.start_state, input.take(at), 0) matches Err(
            ExecutionErrorView::NoTransition { .. },
        )),
    ensures
        automaton.outcome(input) matches Err(ExecutionErrorView::InvalidSymbol { .. }),
        automaton.run_from(automaton.start_state, input.take(at), 0) is Ok ==> automaton.outcome(
            input,
        ) == Err::<bool, ExecutionErrorView>(
            ExecutionErrorView::InvalidSymbol { symbol: input[at], position: at as nat },
        ),
{
    let before = input.take(at);
    let after = input.skip(at);
    assert(before + after == input);
    lemma_run_split(automaton, automaton.start_state, before, after, 0);
}

/// An input that holds a symbol outside the alphabet is never accepted nor
/// rejected: its run ends in an error.
pub proof fn lemma_foreign_symbol_fails(automaton: AutomatonView, input: Seq<char>, at: int)
    requires
        0 <= at < input.len(),
        !automaton.alphabet.contains(input[at]),
    ensures
        automaton.outcome(input) is Err,
{
    let before = input.take(at);
    let after = input.skip(at);
    assert(before + after == input);
    lemma_run_split(automaton, automaton.start_state, before, after, 0);
}

/// The symbols that a run consumes are the longest beginning of the input
/// that can be run without error: that beginning runs to a state, and with
/// one more symbol, where there is one, it does not.
pub proof fn lemma_consumed_is_longest(
    automaton: AutomatonView,
    state: Seq<char>,
    input: Seq<char>,
    position: nat,
)
    ensures
        automaton.consumed_from(state, input, position) <= input.len(),
        automaton.run_from(
            state,
            input.take(automaton.consumed_from(state, input, position) as int),
            position,
        ) is Ok,
        automaton.consumed_from(state, input, position) < input.len() ==> automaton.run_from(
            state,
            input.take(automaton.consumed_from(state, input, position) + 1int),
            position,
        ) is Err,
    decreases input.len(),
{
    let consumed = automaton.consumed_from(state, input, position);
    if input.len() > 0 {
        let rest = input.drop_first();
        match automaton.step(state, input[0], position) {
            Ok(next) => {
                lemma_consumed_is_longest(automaton, next, rest, position + 1);
                let further = automaton.consumed_from(next, rest, position + 1);
                assert(input.take(consumed as int).drop_first() == rest.take(further as int));
                if consumed < input.len() {
                    assert(input.take(consumed + 1int).drop_first() == rest.take(further + 1int));
                }
            },
            Err(_) => {},
        }
    }
}

/// A symbol is a Unicode scalar value. The solver does not know this by
/// itself of a symbol that is taken out of a sequence.
proof fn lemma_symbol_is_scalar(symbol: char)
    ensures
        0 <= symbol as int <= 0xD7FF || 0xE000 <= symbol as int <= 0x10FFFF,
{
}

/// What a run from `state` records: as many steps as it consumes symbols,
/// which is all of them exactly if the run meets no error.
pub proof fn lemma_steps_counted(
    automaton: AutomatonView,
    state: Seq<char>,
    input: Seq<char>,
    position: nat,
)
    ensures
        transition_count(automaton.steps_from(state, input, position)) == automaton.consumed_from(
            state,
            input,
            position,
        ),
        automaton.consumed_from(state, input, position) <= input.len(),
        automaton.run_from(state, input, position) is Ok <==> automaton.consumed_from(
            state,
            input,
            position,
        ) == input.len(),
        automaton.run_from(state, input, position) matches Err(
            ExecutionErrorView::InvalidSymbol { position: failed, .. },
        ) ==> failed == position + automaton.consumed_from(state, input, position),
    decreases input.len(),
{
    reveal_with_fuel(Seq::filter, 2);
    let is_step = |entry: TraceEntryView| entry is Transition;
    if input.len() > 0 {
        lemma_symbol_is_scalar(input[0]);
        match automaton.step(state, input[0], position) {
            Ok(next) => {
                let rest = input.drop_first();
                lemma_steps_counted(automaton, next, rest, position + 1);
                let taken = TraceEntryView::Transition {
                    from_state: state,
                    symbol: input[0],
                    to_state: next,
                };
                Seq::filter_distributes_over_add(
                    seq![taken],
                    automaton.steps_from(next, rest, position + 1),
                    is_step,
                );
            },
            Err(_) => {},
        }
    }
}

/// The record of a run holds one step for each symbol consumed before the
/// first error: all of the input where the run meets none, and the symbols
/// before the refused one where a symbol is outside the alphabet.
pub proof fn lemma_trace_fidelity(automaton: AutomatonView, input: Seq<char>)
    ensures
        transition_count(automaton.trace(input)) == automaton.consumed(input),
        automaton.consumed(input) <= input.len(),
        automaton.outcome(input) is Ok <==> automaton.consumed(input) == input.len(),
        automaton.outcome(input) matches Err(
            ExecutionErrorView::InvalidSymbol { position: failed, .. },
        ) ==> failed == automaton.consumed(input),
{
    reveal_with_fuel(Seq::filter, 2);
    let is_step = |entry: TraceEntryView| entry is Transition;
    let start = TraceEntryView::Start { state: automaton.start_state };
    lemma_steps_counted(automaton, automaton.start_state, input, 0);
    Seq::filter_distributes_over_add(
        seq![start],
        automaton.steps_from(automaton.start_state, input, 0),
        is_step,
    );
}

/// The UTF-8 form of a text holds at least one byte for each of its symbols.
proof fn lemma_symbols_within_bytes(symbols: Seq<char>)
    ensures
        symbols.len() <= encode_utf8(symbols).len(),
    decreases symbols.len(),
{
    if symbols.len() > 0 {
        lemma_symbols_within_bytes(symbols.drop_first());
    }
}

/// The number of bytes of `input`, which bounds the number of its symbols.
fn byte_length(input: &str) -> (bytes: usize)
    ensures
        input@.len() <= bytes,
{
    proof {
        lemma_symbols_within_bytes(input@);
    }
    input.as_bytes().len()
}

impl Automaton {
    /// `at` is the position of a state that its name leads to.
    pub(crate) open spec fn is_position(&self, at: usize) -> bool {
        &&& at < self.states@.len()
        &&& self.index@.contains_key(self.states@[at as int].name@)
        &&& self.index@[self.states@[at as int].name@] == at
    }

    /// The name of the state at position `at`.
    pub(crate) open spec fn name_at(&self, at: usize) -> Seq<char> {
        self.states@[at as int].name@
    }

    /// One step of a run: the position of the state that follows the state at
    /// `current` on `symbol`, or why there is none.
    fn advance(&self, current: usize, symbol: char, position: usize) -> (next: Result<
        usize,
        ExecutionError,
    >)
        requires
            self.is_position(current),
        ensures
            match next {
                Ok(at) => self.is_position(at) && self@.step(
                    self.name_at(current),
                    symbol,
                    position as nat,
                ) == Ok::<Seq<char>, ExecutionErrorView>(self.name_at(at)),
                Err(error) => self@.step(self.name_at(current), symbol, position as nat) == Err::<
                    Seq<char>,
                    ExecutionErrorView,
                >(error@),
            },
    {
        let state = &self.states[current];
        proof {
            use_type_invariant(self);
            assert(self.states@.len() == self.states.len());
            lemma_table_lookup(state_entries(self.states@), state.name@);
            lemma_last_position(state_entries(self.states@), state.name@);
            lemma_table_lookup(transition_entries(state.transitions@), symbol);
        }
        if !contains_symbol(&self.alphabet, symbol) {
            return Err(ExecutionError::InvalidSymbol { symbol, position });
        }
        match find_transition(&state.transitions, symbol) {
            Some(at) => {
                let target = &state.transitions[at].target;
                proof {
                    assert(!self@.dangling_at(state.name@, symbol));
                    lemma_table_lookup(state_entries(self.states@), target@);
                    lemma_last_position(state_entries(self.states@), target@);
                }
                Ok(*self.index.get(target.as_str()).unwrap())
            },
            None => Err(ExecutionError::NoTransition { symbol, from_state: state.name.clone() }),
        }
    }

    /// The record of one step.
    fn transition_entry(&self, from: usize, symbol: char, to: usize) -> (entry: TraceEntry)
        requires
            from < self.states@.len(),
            to < self.states@.len(),
        ensures
            entry@ == (TraceEntryView::Transition {
                from_state: self.name_at(from),
                symbol,
                to_state: self.name_at(to),
            }),
    {
        TraceEntry::Transition {
            from_state: self.states[from].name.clone(),
            symbol,
            to_state: self.states[to].name.clone(),
        }
    }

    /// The run itself: the verdict or error, and the record where it is asked for.
    fn run(&self, input: &str, verbose: bool) -> (run: (
        Result<bool, ExecutionError>,
        Vec<TraceEntry>,
    ))
        ensures
            self@.well_formed(),
            verdict_view(run.0) == self@.outcome(input@),
            trace_view(run.1@) == if verbose {
                self@.trace(input@)
            } else {
                Seq::empty()
            },
    {
        proof {
            use_type_invariant(self);
            lemma_table_lookup(state_entries(self.states@), self.start_state@);
            lemma_last_position(state_entries(self.states@), self.start_state@);
            assert(self.states@.len() == self.states.len());
        }
        let limit: usize = byte_length(input);
        let mut trace: Vec<TraceEntry> = Vec::new();
        let mut current: usize = *self.index.get(self.start_state.as_str()).unwrap();
        if verbose {
            trace.push(TraceEntry::Start { state: self.start_state.clone() });
        }
        assert(trace_view(trace@) =~= if verbose {
            seq![TraceEntryView::Start { state: self@.start_state }]
        } else {
            Seq::empty()
        });
        assert(input@.skip(0) == input@);
        let mut position: usize = 0;
        for symbol in it: input.chars()
            invariant
                position == it.index(),
                it.seq() == input@,
                input@.len() <= limit,
                self@.well_formed(),
                self.is_position(current),
                self@.run_from(self@.start_state, input@, 0) == self@.run_from(
                    self.name_at(current),
                    input@.skip(position as int),
                    position as nat,
                ),
                verbose ==> self@.trace(input@) == trace_view(trace@) + self@.steps_from(
                    self.name_at(current),
                    input@.skip(position as int),
                    position as nat,
                ),
                !verbose ==> trace@.len() == 0,
        {
            assert(input@.skip(position as int).drop_first() == input@.skip(position + 1));
            match self.advance(current, symbol, position) {
                Ok(next) => {
                    if verbose {
                        let ghost before = trace@;
                        let entry = self.transition_entry(current, symbol, next);
                        let ghost added = entry@;
                        trace.push(entry);
                        proof {
                            let tail = self@.steps_from(
                                self.name_at(next),
                                input@.skip(position + 1),
                                (position + 1) as nat,
                            );
                            assert(trace_view(before) + (seq![added] + tail) =~= trace_view(
                                before,
                            ).push(added) + tail);
                        }
                    }
                    current = next;
                },
                Err(error) => {
                    assert(trace_view(trace@) + Seq::<TraceEntryView>::empty() == trace_view(
                        trace@,
                    ));
                    return (Err(error), trace);
                },
            }
            position = position + 1;
        }
        let state = &self.states[current];
        proof {
            use_type_invariant(self);
            lemma_table_lookup(state_entries(self.states@), state.name@);
            lemma_last_position(state_entries(self.states@), state.name@);
        }
        if verbose {
            trace.push(
                TraceEntry::Final { state: state.name.clone(), is_accepting: state.is_accepting },
            );
        }
        (Ok(state.is_accepting), trace)
    }

    /// Runs the automaton over `input`, and records the run if `verbose` is
    /// set; without `verbose` the record is empty. The record is there on an
    /// error too, up to the last step before it. Verdict and record are
    /// functions of the definition, the input and `verbose` alone, so equal
    /// calls give equal results.
    pub fn process_traced(&self, input: &str, verbose: bool) -> (run: (
        Result<bool, ExecutionError>,
        Vec<TraceEntry>,
    ))
        ensures
            self@.well_formed(),
            verdict_view(run.0) == self@.outcome(input@),
            trace_view(run.1@) == if verbose {
                self@.trace(input@)
            } else {
                Seq::empty()
            },
            verbose ==> transition_count(trace_view(run.1@)) == self@.consumed(input@),
    {
        proof {
            lemma_trace_fidelity(self@, input@);
        }
        self.run(input, verbose)
    }

    /// Decides whether the automaton accepts `input`. The verdict is a
    /// function of the definition and the input alone: it does not depend on
    /// `verbose`, which only asks for the run to be recorded, and equal calls
    /// give equal verdicts.
    pub fn process(&self, input: &str, verbose: bool) -> (verdict: Result<bool, ExecutionError>)
        ensures
            verdict_view(verdict) == self@.outcome(input@),
    {
        self.run(input, verbose).0
    }

    /// Runs the automaton over `input` `iterations` times, as a harness that
    /// times the runs does, and stops at the first run that fails. Every run
    /// gives the same result, so the first run decides: the call fails exactly
    /// if there is a run at all and a run over `input` fails, and then with
    /// the error of that run.
    pub fn run_repeated(&self, input: &str, iterations: usize) -> (outcome: Result<
        (),
        ExecutionError,
    >)
        ensures
            match outcome {
                Ok(_) => iterations == 0 || self@.outcome(input@) is Ok,
                Err(error) => iterations > 0 && self@.outcome(input@) == Err::<
                    bool,
                    ExecutionErrorView,
                >(error@),
            },
    {
        let mut done: usize = 0;
        while done < iterations
            invariant
                done <= iterations,
                done > 0 ==> self@.outcome(input@) is Ok,
            decreases iterations - done,
        {
            match self.process(input, false) {
                Ok(_) => {},
                Err(error) => {
                    return Err(error);
                },
            }
            done = done + 1;
        }
        Ok(())
    }
}

} // verus!
