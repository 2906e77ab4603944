//! The emitter: renders one machine definition, its derived sets and
//! its synthesized dispatch table into the executable representation.
//!
//! The target representation is a value, not text: a `CompiledMachine`
//! carries the definition, every derived set, the variant enumeration
//! and the dispatch table, and `machine::Instance` operations run
//! against it.  Any `(state, event)` pair without a declared transition
//! is rejected at the first call boundary of an instance (see
//! `machine::transition`), which preserves the guarantee that no
//! undeclared transition is reachable.

use vstd::prelude::*;
use crate::model::{MachineSpec, MachineModel, Variant};
use crate::model::{copy_name, copy_names, copy_resources, copy_transitions};
use crate::analyzer::{
    spec_states, spec_non_terminal_states, spec_terminal_states, spec_events, spec_variants,
    states, non_terminal_states, terminal_states, events, variants,
};
use crate::dispatch::{spec_dispatch, synthesize_dispatch, DispatchArm};

verus! {

/// The compiled form of one machine: the definition it came from, the
/// derived sets, the variant enumeration and the dispatch table.
#[derive(Debug)]
pub struct CompiledMachine {
    pub name: Vec<u8>,
    pub transitions: Vec<crate::model::TransitionDecl>,
    pub initial_states: Vec<Vec<u8>>,
    pub guard_resources: Vec<crate::model::ResourceParam>,
    pub action_resources: Vec<crate::model::ResourceParam>,
    pub states: Vec<Vec<u8>>,
    pub non_terminal_states: Vec<Vec<u8>>,
    pub terminal_states: Vec<Vec<u8>>,
    pub events: Vec<Vec<u8>>,
    pub variants: Vec<Variant>,
    pub dispatch: Vec<DispatchArm>,
}

impl CompiledMachine {
    /// The machine definition this compiled form was derived from.
    pub open spec fn src(self) -> MachineModel {
        MachineModel {
            name: self.name@,
            transitions: self.transitions.deep_view(),
            initial_states: self.initial_states.deep_view(),
            guard_resources: self.guard_resources.deep_view(),
            action_resources: self.action_resources.deep_view(),
        }
    }

    /// Every derived field equals its derivation from the definition.
    pub open spec fn wf(self) -> bool {
        &&& self.states.deep_view() == spec_states(self.src())
        &&& self.non_terminal_states.deep_view() == spec_non_terminal_states(
            self.src().transitions,
        )
        &&& self.terminal_states.deep_view() == spec_terminal_states(self.src())
        &&& self.events.deep_view() == spec_events(self.src().transitions)
        &&& self.variants.deep_view() == spec_variants(self.src())
        &&& self.dispatch.deep_view() == spec_dispatch(self.src())
    }
}

/// Compiles one machine definition: computes the derived sets,
/// synthesizes the dispatch table, and assembles the executable
/// representation.  The emitter is pure: the result is a function of
/// the definition alone.
pub fn compile(m: &MachineSpec) -> (r: CompiledMachine)
    ensures
        r.src() == m@,
        r.wf(),
{
    let r = CompiledMachine {
        name: copy_name(&m.name),
        transitions: copy_transitions(&m.transitions),
        initial_states: copy_names(&m.initial_states),
        guard_resources: copy_resources(&m.guard_resources),
        action_resources: copy_resources(&m.action_resources),
        states: states(m),
        non_terminal_states: non_terminal_states(m),
        terminal_states: terminal_states(m),
        events: events(m),
        variants: variants(m),
        dispatch: synthesize_dispatch(m),
    };
    proof {
        assert(r.src() =~= m@);
    }
    r
}

/// Compiles a list of machine definitions, one executable
/// representation per definition, in order.
pub fn compile_all(ms: &Vec<MachineSpec>) -> (r: Vec<CompiledMachine>)
    ensures
        r@.len() == ms@.len(),
        forall|i: int| 0 <= i < r@.len() ==> (#[trigger] r@[i]).src() == ms@[i]@ && r@[i].wf(),
{
    let mut r: Vec<CompiledMachine> = Vec::new();
    let mut k: usize = 0;
    while k < ms.len()
        invariant
            k <= ms.len(),
            r@.len() == k,
            forall|i: int| 0 <= i < k ==> (#[trigger] r@[i]).src() == ms@[i]@ && r@[i].wf(),
        decreases ms.len() - k,
    {
        let c = compile(&ms[k]);
        r.push(c);
        k = k + 1;
    }
    r
}

} // verus!
