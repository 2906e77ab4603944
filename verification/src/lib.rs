//! A compiler for a small declarative state-machine language.
//!
//! A machine description names its states, events and transitions
//! (`event: from => to` rules), optional initial states, and optional
//! guard/action resource parameters.  The pipeline parses the
//! description into a grammar model, derives its closed sets (all
//! states, terminal and non-terminal states, events, and the
//! deduplicated variant enumeration), synthesizes a first-match-wins
//! guarded dispatch table, and compiles everything into an executable
//! machine representation whose instances reject any undeclared
//! `(state, event)` pair at the first call boundary.

use vstd::prelude::*;

pub mod model;
pub mod parser;
pub mod analyzer;
pub mod dispatch;
pub mod emitter;
pub mod machine;

verus! {

/// Marker capability for a value usable as a state of a machine.
/// State names are byte-string labels: two states are equal exactly
/// when their declared names are equal.
pub trait State {}

/// Marker capability for a state legal as a machine's starting value.
/// In the compiled, table-based representation, legality is checked
/// against the machine's declared initial-state list by
/// `machine::Instance::new`.
pub trait InitialState: State {}

/// Marker capability for a value usable as an event of a machine.
/// Event names are byte-string labels; the no-event sentinel of a
/// freshly constructed instance is the absent `Option`.
pub trait Event {}

impl State for Vec<u8> {

}

impl InitialState for Vec<u8> {

}

impl Event for Vec<u8> {

}

/// Capability of querying a machine instance for its current state.
pub trait Machine {
    /// The representation of the machine's states.
    type State;

    /// The current state of the machine.
    fn state(&self) -> Self::State;
}

impl Machine for machine::Instance {
    type State = Vec<u8>;

    fn state(&self) -> Vec<u8> {
        self.current_state()
    }
}

/// Capability of initializing a machine from a state marked as
/// initial.  The compiled, table-based equivalent is
/// `machine::Instance::new`, which takes the compiled machine and
/// rejects a state outside its initial-state list.
pub trait NewMachine<S: InitialState> {
    /// The machine the initializer returns.
    type Machine;

    /// Initializes a new machine from the provided initial state.
    fn new(state: S) -> Self::Machine;
}

/// Capability of transitioning from one state to another.  The
/// compiled, table-based equivalent is `machine::Instance::transition`,
/// which takes the compiled machine and rejects any `(state, event)`
/// pair without a declared transition.
pub trait Transition<E: Event> {
    /// The machine the transition produces.
    type Machine;

    /// Consumes the machine and returns a new one in the state the
    /// event leads to.
    fn transition(self, event: E) -> Self::Machine;
}

/// Capability of converting a machine instance into its case of the
/// machine's variant enumeration.  The compiled, table-based
/// equivalent is `machine::Instance::as_enum`, which takes the
/// compiled machine and returns the position of the matching case.
pub trait AsEnum {
    /// The enumeration of the machine's variants.
    type Enum;

    /// Consumes the machine instance and returns the variant case that
    /// represents it.
    fn as_enum(self) -> Self::Enum;
}

} // verus!
