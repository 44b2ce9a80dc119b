//! The automaton's definition: states, alphabet, start state, and the rules
//! that a definition has to meet before it can be run.

use crate::table::{
    last_position, lemma_last_position, lemma_last_position_is, lemma_table_lookup, table,
};
use vstd::hash_map::StringHashMap;
use vstd::prelude::*;

verus! {

/// One outgoing edge of a state: on `symbol`, go to the state named `target`.
#[derive(Clone, Debug, PartialEq, Eq)]
pub struct Transition {
    pub symbol: char,
    pub target: String,
}

/// One state of a definition. Its transitions are listed in order; where two
/// of them share a symbol, the later one stands.
#[derive(Clone, Debug, PartialEq, Eq)]
pub struct State {
    pub name: String,
    pub is_accepting: bool,
    pub transitions: Vec<Transition>,
}

/// A state as a mathematical value: its transitions form a map from symbol to
/// successor name.
pub struct StateView {
    pub name: Seq<char>,
    pub is_accepting: bool,
    pub transitions: Map<char, Seq<char>>,
}

/// The listed transitions as (symbol, target) pairs.
pub open spec fn transition_entries(transitions: Seq<Transition>) -> Seq<(char, Seq<char>)> {
    transitions.map_values(|t: Transition| (t.symbol, t.target@))
}

impl View for State {
    type V = StateView;

    open spec fn view(&self) -> StateView {
        StateView {
            name: self.name@,
            is_accepting: self.is_accepting,
            transitions: table(transition_entries(self.transitions@)),
        }
    }
}

/// The listed states as (name, state) pairs.
pub open spec fn state_entries(states: Seq<State>) -> Seq<(Seq<char>, StateView)> {
    states.map_values(|s: State| (s.name@, s@))
}

/// Why a definition was refused.
#[derive(Clone, Copy, Debug, PartialEq, Eq, Structural)]
pub enum ValidationError {
    /// The definition has no state at all.
    EmptyStateSet,
    /// The start state is not among the states.
    UnknownStartState,
    /// Some transition leads to a name that no state bears.
    DanglingTransitionTarget,
    /// Some transition is keyed by a symbol outside the alphabet.
    TransitionSymbolNotInAlphabet,
}

/// A definition as a mathematical value.
pub struct AutomatonView {
    pub states: Map<Seq<char>, StateView>,
    pub alphabet: Set<char>,
    pub start_state: Seq<char>,
}

impl AutomatonView {
    /// State `name` has a transition on `symbol` whose target is no state.
    pub open spec fn dangling_at(self, name: Seq<char>, symbol: char) -> bool {
        &&& self.states.contains_key(name)
        &&& self.states[name].transitions.contains_key(symbol)
        &&& !self.states.contains_key(self.states[name].transitions[symbol])
    }

    /// State `name` has a transition on `symbol`, and `symbol` is not in the alphabet.
    pub open spec fn foreign_symbol_at(self, name: Seq<char>, symbol: char) -> bool {
        &&& self.states.contains_key(name)
        &&& self.states[name].transitions.contains_key(symbol)
        &&& !self.alphabet.contains(symbol)
    }

    /// The definition has no state.
    pub open spec fn has_no_state(self) -> bool {
        forall|name: Seq<char>| !self.states.contains_key(name)
    }

    /// Some transition leads to a name that no state bears.
    pub open spec fn has_dangling_target(self) -> bool {
        exists|name: Seq<char>, symbol: char| self.dangling_at(name, symbol)
    }

    /// Some transition is keyed by a symbol outside the alphabet.
    pub open spec fn has_foreign_symbol(self) -> bool {
        exists|name: Seq<char>, symbol: char| self.foreign_symbol_at(name, symbol)
    }

    /// The first rule that the definition breaks, if it breaks any. The rules
    /// are tried in the order of the variants of `ValidationError`.
    pub open spec fn validation_error(self) -> Option<ValidationError> {
        if self.has_no_state() {
            Some(ValidationError::EmptyStateSet)
        } else if !self.states.contains_key(self.start_state) {
            Some(ValidationError::UnknownStartState)
        } else if self.has_dangling_target() {
            Some(ValidationError::DanglingTransitionTarget)
        } else if self.has_foreign_symbol() {
            Some(ValidationError::TransitionSymbolNotInAlphabet)
        } else {
            None
        }
    }

    /// The definition can be run: there is a state, the start state is one,
    /// every transition leads to a state, and every transition symbol is in
    /// the alphabet.
    pub open spec fn well_formed(self) -> bool {
        &&& !self.has_no_state()
        &&& self.states.contains_key(self.start_state)
        &&& !self.has_dangling_target()
        &&& !self.has_foreign_symbol()
    }
}

/// The definition that the three parts of a raw definition denote. Where two
/// listed states share a name, the later one stands.
pub open spec fn definition(
    states: Seq<State>,
    alphabet: Seq<char>,
    start_state: Seq<char>,
) -> AutomatonView {
    AutomatonView {
        states: table(state_entries(states)),
        alphabet: alphabet.to_set(),
        start_state,
    }
}

/// The listed state `i` stands: no later state has its name.
pub open spec fn state_stands(states: Seq<State>, i: int) -> bool {
    &&& 0 <= i < states.len()
    &&& last_position(state_entries(states), states[i].name@) == i
}

/// Transition `j` of the listed state `i` stands: the state stands, and no
/// later transition of it has the same symbol.
pub open spec fn stands(states: Seq<State>, i: int, j: int) -> bool {
    &&& state_stands(states, i)
    &&& 0 <= j < states[i].transitions@.len()
    &&& last_position(
        transition_entries(states[i].transitions@),
        states[i].transitions@[j].symbol,
    ) == j
}

/// A definition breaks no rule exactly if it is well formed.
pub proof fn lemma_valid_iff_well_formed(def: AutomatonView)
    ensures
        def.validation_error() is None <==> def.well_formed(),
{
}

/// The states of a definition are those that are listed: a name is a state's
/// exactly if some listed state bears it.
pub proof fn lemma_defined_names(states: Seq<State>, name: Seq<char>)
    ensures
        table(state_entries(states)).contains_key(name) <==> exists|i: int|
            0 <= i < states.len() && #[trigger] states[i].name@ == name,
{
    let entries = state_entries(states);
    lemma_table_lookup(entries, name);
    lemma_last_position(entries, name);
    if exists|i: int| 0 <= i < states.len() && #[trigger] states[i].name@ == name {
        let i = choose|i: int| 0 <= i < states.len() && #[trigger] states[i].name@ == name;
        assert(entries[i].0 == name);
    }
}

/// A definition that lists a state, but none under the name of its start
/// state, is refused for its start state.
pub proof fn lemma_unknown_start_state(
    states: Seq<State>,
    alphabet: Seq<char>,
    start_state: Seq<char>,
)
    requires
        states.len() > 0,
        forall|i: int| 0 <= i < states.len() ==> (#[trigger] states[i]).name@ != start_state,
    ensures
        definition(states, alphabet, start_state).validation_error() == Some(
            ValidationError::UnknownStartState,
        ),
{
    lemma_defined_names(states, start_state);
    lemma_defined_names(states, states[0].name@);
}

/// A definition whose start state is listed, and in which a transition that
/// stands leads to a name that no listed state bears, is refused for that
/// transition.
pub proof fn lemma_dangling_target(
    states: Seq<State>,
    alphabet: Seq<char>,
    start_state: Seq<char>,
    start: int,
    i: int,
    j: int,
)
    requires
        0 <= start < states.len(),
        states[start].name@ == start_state,
        stands(states, i, j),
        forall|k: int|
            0 <= k < states.len() ==> (#[trigger] states[k]).name@
                != states[i].transitions@[j].target@,
    ensures
        definition(states, alphabet, start_state).validation_error() == Some(
            ValidationError::DanglingTransitionTarget,
        ),
{
    let def = definition(states, alphabet, start_state);
    lemma_defined_names(states, start_state);
    lemma_defined_names(states, states[i].transitions@[j].target@);
    lemma_standing_is_defined(states, i, j);
    assert(def.dangling_at(states[i].name@, states[i].transitions@[j].symbol));
}

/// A definition with a start state and no dangling target, in which a
/// transition that stands is keyed by a symbol that the alphabet lacks, is
/// refused for that symbol.
pub proof fn lemma_foreign_symbol(
    states: Seq<State>,
    alphabet: Seq<char>,
    start_state: Seq<char>,
    i: int,
    j: int,
)
    requires
        table(state_entries(states)).contains_key(start_state),
        !definition(states, alphabet, start_state).has_dangling_target(),
        stands(states, i, j),
        !alphabet.contains(states[i].transitions@[j].symbol),
    ensures
        definition(states, alphabet, start_state).validation_error() == Some(
            ValidationError::TransitionSymbolNotInAlphabet,
        ),
{
    let def = definition(states, alphabet, start_state);
    lemma_standing_is_defined(states, i, j);
    assert(def.foreign_symbol_at(states[i].name@, states[i].transitions@[j].symbol));
}

/// A transition that stands is a transition of the definition.
proof fn lemma_standing_is_defined(states: Seq<State>, i: int, j: int)
    requires
        stands(states, i, j),
    ensures
        table(state_entries(states)).contains_key(states[i].name@),
        table(state_entries(states))[states[i].name@] == states[i]@,
        states[i]@.transitions.contains_key(states[i].transitions@[j].symbol),
        states[i]@.transitions[states[i].transitions@[j].symbol]
            == states[i].transitions@[j].target@,
{
    lemma_table_lookup(state_entries(states), states[i].name@);
    lemma_table_lookup(
        transition_entries(states[i].transitions@),
        states[i].transitions@[j].symbol,
    );
}

/// Every transition of the definition is a listed transition that stands.
proof fn lemma_defined_is_standing(states: Seq<State>, name: Seq<char>, symbol: char) -> (at: (
    int,
    int,
))
    requires
        table(state_entries(states)).contains_key(name),
        table(state_entries(states))[name].transitions.contains_key(symbol),
    ensures
        stands(states, at.0, at.1),
        states[at.0].name@ == name,
        states[at.0].transitions@[at.1].symbol == symbol,
        table(state_entries(states))[name] == states[at.0]@,
        table(state_entries(states))[name].transitions[symbol]
            == states[at.0].transitions@[at.1].target@,
{
    let i = last_position(state_entries(states), name);
    lemma_table_lookup(state_entries(states), name);
    lemma_last_position(state_entries(states), name);
    let listed = transition_entries(states[i].transitions@);
    let j = last_position(listed, symbol);
    lemma_table_lookup(listed, symbol);
    lemma_last_position(listed, symbol);
    (i, j)
}

/// Whether `symbol` occurs in `alphabet`.
pub(crate) fn contains_symbol(alphabet: &Vec<char>, symbol: char) -> (found: bool)
    ensures
        found == alphabet@.to_set().contains(symbol),
{
    let mut i: usize = 0;
    while i < alphabet.len()
        invariant
            i <= alphabet.len(),
            forall|k: int| 0 <= k < i ==> alphabet@[k] != symbol,
        decreases alphabet.len() - i,
    {
        if alphabet[i] == symbol {
            return true;
        }
        i = i + 1;
    }
    false
}

/// The position of the transition that stands for `symbol`: the last one
/// listed with it.
pub(crate) fn find_transition(transitions: &Vec<Transition>, symbol: char) -> (found: Option<
    usize,
>)
    ensures
        match found {
            Some(at) => at < transitions.len() && at == last_position(
                transition_entries(transitions@),
                symbol,
            ),
            None => last_position(transition_entries(transitions@), symbol) == -1,
        },
{
    let ghost entries = transition_entries(transitions@);
    let mut at: usize = transitions.len();
    while at > 0
        invariant
            at <= transitions.len(),
            entries == transition_entries(transitions@),
            forall|j: int| at <= j < entries.len() ==> (#[trigger] entries[j]).0 != symbol,
        decreases at,
    {
        at = at - 1;
        if transitions[at].symbol == symbol {
            proof {
                lemma_last_position_is(entries, symbol, at as int);
            }
            return Some(at);
        }
    }
    proof {
        lemma_last_position(entries, symbol);
    }
    None
}

impl State {
    /// A state of the given name, kind and transitions.
    pub fn new(name: String, is_accepting: bool, transitions: Vec<Transition>) -> (state: State)
        ensures
            state.name == name,
            state.is_accepting == is_accepting,
            state.transitions == transitions,
    {
        State { name, is_accepting, transitions }
    }

    /// The name of the state that follows this one on `symbol`, if this state
    /// has a transition on it.
    pub fn target(&self, symbol: char) -> (target: Option<&String>)
        ensures
            match target {
                Some(name) => self@.transitions.contains_key(symbol) && name@
                    == self@.transitions[symbol],
                None => !self@.transitions.contains_key(symbol),
            },
    {
        proof {
            lemma_table_lookup(transition_entries(self.transitions@), symbol);
        }
        match find_transition(&self.transitions, symbol) {
            Some(at) => Some(&self.transitions[at].target),
            None => None,
        }
    }
}

/// A definition that has passed validation. It cannot be changed afterwards.
pub struct Automaton {
    pub(crate) states: Vec<State>,
    pub(crate) alphabet: Vec<char>,
    pub(crate) start_state: String,
    /// For each name, the position in `states` of the state that bears it.
    pub(crate) index: StringHashMap<usize>,
}

impl Automaton {
    /// The states as they were listed when the automaton was built.
    pub open(crate) spec fn listed_states(&self) -> Seq<State> {
        self.states@
    }

    /// The alphabet as it was listed when the automaton was built.
    pub open(crate) spec fn listed_alphabet(&self) -> Seq<char> {
        self.alphabet@
    }

    /// The name of the start state.
    pub open(crate) spec fn start_name(&self) -> Seq<char> {
        self.start_state@
    }
}

impl View for Automaton {
    type V = AutomatonView;

    open spec fn view(&self) -> AutomatonView {
        definition(self.listed_states(), self.listed_alphabet(), self.start_name())
    }
}

/// The position at which each name is found: that of the last listed state
/// that bears it.
pub(crate) open spec fn position_map(entries: Seq<(Seq<char>, StateView)>) -> Map<
    Seq<char>,
    usize,
> {
    Map::new(
        |name: Seq<char>| last_position(entries, name) >= 0,
        |name: Seq<char>| last_position(entries, name) as usize,
    )
}

/// Fills the index of names for `states`.
fn build_index(states: &Vec<State>) -> (index: StringHashMap<usize>)
    ensures
        index@ == position_map(state_entries(states@)),
{
    let ghost entries = state_entries(states@);
    let mut index: StringHashMap<usize> = StringHashMap::new();
    let mut i: usize = 0;
    while i < states.len()
        invariant
            i <= states.len(),
            entries == state_entries(states@),
            index@ == position_map(entries.take(i as int)),
        decreases states.len() - i,
    {
        index.insert(states[i].name.clone(), i);
        assert(entries.take(i + 1).drop_last() == entries.take(i as int));
        i = i + 1;
    }
    assert(entries.take(i as int) == entries);
    index
}

/// The transitions before `(i, j)`, in the order of the listing, that stand
/// all lead to states.
spec fn targets_defined_before(states: Seq<State>, def: AutomatonView, i: int, j: int) -> bool {
    forall|i2: int, j2: int|
        (i2 < i || (i2 == i && j2 < j)) && #[trigger] stands(states, i2, j2)
            ==> def.states.contains_key(states[i2].transitions@[j2].target@)
}

/// The transitions before `(i, j)`, in the order of the listing, that stand
/// are all keyed by symbols of the alphabet.
spec fn symbols_known_before(states: Seq<State>, def: AutomatonView, i: int, j: int) -> bool {
    forall|i2: int, j2: int|
        (i2 < i || (i2 == i && j2 < j)) && #[trigger] stands(states, i2, j2)
            ==> def.alphabet.contains(states[i2].transitions@[j2].symbol)
}

/// Holds the transitions of the definition to the two rules on them, in one
/// pass over the listing. A dangling target, wherever it is listed, comes
/// before a symbol outside the alphabet.
fn check_transitions(
    states: &Vec<State>,
    alphabet: &Vec<char>,
    index: &StringHashMap<usize>,
    Ghost(def): Ghost<AutomatonView>,
) -> (broken: Option<ValidationError>)
    requires
        index@ == position_map(state_entries(states@)),
        def.states == table(state_entries(states@)),
        def.alphabet == alphabet@.to_set(),
    ensures
        broken == if def.has_dangling_target() {
            Some(ValidationError::DanglingTransitionTarget)
        } else if def.has_foreign_symbol() {
            Some(ValidationError::TransitionSymbolNotInAlphabet)
        } else {
            None
        },
{
    let mut foreign = false;
    let mut i: usize = 0;
    while i < states.len()
        invariant
            i <= states.len(),
            index@ == position_map(state_entries(states@)),
            def.states == table(state_entries(states@)),
            def.alphabet == alphabet@.to_set(),
            targets_defined_before(states@, def, i as int, 0),
            foreign ==> def.has_foreign_symbol(),
            !foreign ==> symbols_known_before(states@, def, i as int, 0),
        decreases states.len() - i,
    {
        let state = &states[i];
        proof {
            lemma_last_position(state_entries(states@), state.name@);
        }
        let state_counts = match index.get(state.name.as_str()) {
            Some(at) => *at == i,
            None => false,
        };
        let mut j: usize = 0;
        while state_counts && j < state.transitions.len()
            invariant
                i < states.len(),
                state == states@[i as int],
                j <= state.transitions.len(),
                state_counts == state_stands(states@, i as int),
                index@ == position_map(state_entries(states@)),
                def.states == table(state_entries(states@)),
                def.alphabet == alphabet@.to_set(),
                targets_defined_before(states@, def, i as int, j as int),
                foreign ==> def.has_foreign_symbol(),
                !foreign ==> symbols_known_before(states@, def, i as int, j as int),
            decreases state.transitions.len() - j,
        {
            let transition = &state.transitions[j];
            let transition_counts = match find_transition(&state.transitions, transition.symbol) {
                Some(at) => at == j,
                None => false,
            };
            if transition_counts {
                proof {
                    lemma_standing_is_defined(states@, i as int, j as int);
                    lemma_table_lookup(state_entries(states@), transition.target@);
                }
                if !index.contains_key(transition.target.as_str()) {
                    assert(def.dangling_at(state.name@, transition.symbol));
                    return Some(ValidationError::DanglingTransitionTarget);
                }
                if !contains_symbol(alphabet, transition.symbol) {
                    assert(def.foreign_symbol_at(state.name@, transition.symbol));
                    foreign = true;
                }
            }
            j = j + 1;
        }
        i = i + 1;
    }
    proof {
        assert forall|name: Seq<char>, symbol: char| !def.dangling_at(name, symbol) by {
            if def.states.contains_key(name) && def.states[name].transitions.contains_key(symbol) {
                lemma_defined_is_standing(states@, name, symbol);
            }
        }
        if !foreign {
            assert forall|name: Seq<char>, symbol: char| !def.foreign_symbol_at(name, symbol) by {
                if def.states.contains_key(name) && def.states[name].transitions.contains_key(
                    symbol,
                ) {
                    lemma_defined_is_standing(states@, name, symbol);
                }
            }
        }
    }
    if foreign {
        Some(ValidationError::TransitionSymbolNotInAlphabet)
    } else {
        None
    }
}

impl Automaton {
    #[verifier::type_invariant]
    pub(crate) open spec fn inv(self) -> bool {
        &&& self.index@ == position_map(state_entries(self.states@))
        &&& definition(self.states@, self.alphabet@, self.start_state@).well_formed()
    }

    /// Validates a raw definition. It is accepted exactly if it breaks no
    /// rule; otherwise the error names the first rule that it breaks.
    pub fn new(states: Vec<State>, alphabet: Vec<char>, start_state: String) -> (built: Result<
        Automaton,
        ValidationError,
    >)
        ensures
            match definition(states@, alphabet@, start_state@).validation_error() {
                Some(error) => built == Err::<Automaton, ValidationError>(error),
                None => {
                    &&& built is Ok
                    &&& built->Ok_0.listed_states() == states@
                    &&& built->Ok_0.listed_alphabet() == alphabet@
                    &&& built->Ok_0.start_name() == start_state@
                    &&& built->Ok_0@ == definition(states@, alphabet@, start_state@)
                    &&& built->Ok_0@.well_formed()
                },
            },
    {
        let ghost def = definition(states@, alphabet@, start_state@);
        let index = build_index(&states);
        proof {
            lemma_table_lookup(state_entries(states@), start_state@);
        }
        if states.len() == 0 {
            return Err(ValidationError::EmptyStateSet);
        }
        proof {
            let first = state_entries(states@)[0].0;
            lemma_table_lookup(state_entries(states@), first);
            lemma_last_position(state_entries(states@), first);
            assert(def.states.contains_key(first));
        }
        if !index.contains_key(start_state.as_str()) {
            return Err(ValidationError::UnknownStartState);
        }
        match check_transitions(&states, &alphabet, &index, Ghost(def)) {
            Some(error) => Err(error),
            None => Ok(Automaton { states, alphabet, start_state, index }),
        }
    }

    /// The state that bears `name`, if there is one: the last that was
    /// listed under that name.
    pub fn lookup(&self, name: &str) -> (found: Option<&State>)
        ensures
            match found {
                Some(state) => {
                    &&& self@.states.contains_key(name@)
                    &&& state@ == self@.states[name@]
                    &&& state_stands(
                        self.listed_states(),
                        last_position(state_entries(self.listed_states()), name@),
                    )
                    &&& *state == self.listed_states()[last_position(
                        state_entries(self.listed_states()),
                        name@,
                    )]
                },
                None => !self@.states.contains_key(name@),
            },
    {
        proof {
            use_type_invariant(self);
            lemma_table_lookup(state_entries(self.states@), name@);
            lemma_last_position(state_entries(self.states@), name@);
        }
        match self.index.get(name) {
            Some(at) => {
                assert(self.states@.len() == self.states.len());
                Some(&self.states[*at])
            },
            None => None,
        }
    }

    /// Whether `symbol` belongs to the alphabet. Symbols are compared as they
    /// are, with no folding of case or form.
    pub fn symbol_in_alphabet(&self, symbol: char) -> (found: bool)
        ensures
            found == self@.alphabet.contains(symbol),
    {
        contains_symbol(&self.alphabet, symbol)
    }

    /// The name of the start state.
    pub fn start_state(&self) -> (name: &String)
        ensures
            name@ == self.start_name(),
    {
        &self.start_state
    }

    /// The alphabet as it was listed.
    pub fn alphabet(&self) -> (symbols: &Vec<char>)
        ensures
            symbols@ == self.listed_alphabet(),
    {
        &self.alphabet
    }

    /// The states as they were listed.
    pub fn states(&self) -> (listed: &Vec<State>)
        ensures
            listed@ == self.listed_states(),
    {
        &self.states
    }
}

} // verus!
