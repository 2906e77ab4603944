//! The runtime representation of a machine instance, and the
//! operations the compiled machine exposes: the initial constructor,
//! the transition operation, the conversion to the variant enumeration,
//! and the guarded evaluation entry point.
//!
//! An instance owns exactly one `(state, last-triggering-event)` pair
//! and is immutable: transitioning consumes it and produces a new one.
//! Any `(state, event)` pair without a declared transition is rejected
//! at the call boundary with an explicit error, which preserves the
//! guarantee that no undeclared transition is reachable.

use vstd::prelude::*;
use crate::model::{copy_name, bytes_eq, names_contain, lemma_filter_members, TransModel, VariantModel};
use crate::analyzer::{
    make_initial_tag, make_by_tag, tag_initial, tag_by, spec_variants, spec_events,
    spec_non_terminal_states,
};
use crate::dispatch::{
    spec_transitions_from, first_enabled, event_enabled, find_name, lemma_find_name_at,
    lemma_first_match_wins, lemma_no_match, DispatchKind, spec_dispatch, spec_arm_for,
};
use crate::emitter::CompiledMachine;

verus! {

/// Why an operation on an instance was rejected.
#[derive(Clone, Copy, Debug, PartialEq, Eq, Structural)]
pub enum MachineError {
    /// The state handed to the initial constructor is not declared an
    /// initial state of the machine.
    NotAnInitialState,
    /// No transition is declared for the instance's current state and
    /// the event applied to it.
    UnsupportedTransition,
}

/// One machine instance: the current state and the event that produced
/// it (the no-event sentinel, `None`, for a freshly constructed one).
#[derive(Debug)]
pub struct Instance {
    pub state: Vec<u8>,
    pub trigger: Option<Vec<u8>>,
}

/// Mathematical view of an instance.
#[verifier::ext_equal]
pub struct InstanceModel {
    pub state: Seq<u8>,
    pub trigger: Option<Seq<u8>>,
}

impl View for Instance {
    type V = InstanceModel;

    open spec fn view(&self) -> InstanceModel {
        InstanceModel {
            state: self.state@,
            trigger: match self.trigger {
                Option::Some(e) => Option::Some(e@),
                Option::None => Option::None,
            },
        }
    }
}

/// The tag of the variant an instance belongs to: `Initial<State>` for
/// a fresh instance, `<State>By<Event>` after a transition.
pub open spec fn spec_instance_tag(i: InstanceModel) -> Seq<u8> {
    match i.trigger {
        Option::Some(e) => tag_by(i.state, e),
        Option::None => tag_initial(i.state),
    }
}

/// The first declared transition applying to `(from, ev)`, if any.
pub open spec fn spec_find_transition(ts: Seq<TransModel>, from: Seq<u8>, ev: Seq<u8>) -> Option<
    TransModel,
>
    decreases ts.len(),
{
    if ts.len() == 0 {
        Option::None
    } else if ts[0].from == from && ts[0].event == ev {
        Option::Some(ts[0])
    } else {
        spec_find_transition(ts.drop_first(), from, ev)
    }
}

/// `spec_find_transition` returns exactly the first applicable rule.
proof fn lemma_find_transition_at(ts: Seq<TransModel>, from: Seq<u8>, ev: Seq<u8>, k: int)
    requires
        0 <= k <= ts.len(),
        forall|j: int| 0 <= j < k ==> !((#[trigger] ts[j]).from == from && ts[j].event == ev),
        k < ts.len() ==> ts[k].from == from && ts[k].event == ev,
    ensures
        k < ts.len() ==> spec_find_transition(ts, from, ev) == Option::Some(ts[k]),
        k == ts.len() ==> spec_find_transition(ts, from, ev) is None,
    decreases ts.len(),
{
    if ts.len() == 0 {
    } else if k == 0 {
        if !(ts[0].from == from && ts[0].event == ev) {
            lemma_find_transition_at(ts.drop_first(), from, ev, 0);
        }
    } else {
        let rest = ts.drop_first();
        assert(forall|j: int| 0 <= j < k - 1 ==> rest[j] == ts[j + 1]);
        lemma_find_transition_at(rest, from, ev, k - 1);
    }
}

/// The first variant carrying `tag`, if any.
pub open spec fn spec_variant_with_tag(vs: Seq<VariantModel>, tag: Seq<u8>) -> Option<VariantModel>
    decreases vs.len(),
{
    if vs.len() == 0 {
        Option::None
    } else if vs[0].tag == tag {
        Option::Some(vs[0])
    } else {
        spec_variant_with_tag(vs.drop_first(), tag)
    }
}

/// `spec_variant_with_tag` returns exactly the first carrier of the
/// tag.
proof fn lemma_variant_with_tag_at(vs: Seq<VariantModel>, tag: Seq<u8>, k: int)
    requires
        0 <= k <= vs.len(),
        forall|j: int| 0 <= j < k ==> (#[trigger] vs[j]).tag != tag,
        k < vs.len() ==> vs[k].tag == tag,
    ensures
        k < vs.len() ==> spec_variant_with_tag(vs, tag) == Option::Some(vs[k]),
        k == vs.len() ==> spec_variant_with_tag(vs, tag) is None,
    decreases vs.len(),
{
    if vs.len() == 0 {
    } else if k == 0 {
        if vs[0].tag != tag {
            lemma_variant_with_tag_at(vs.drop_first(), tag, 0);
        }
    } else {
        let rest = vs.drop_first();
        assert(forall|j: int| 0 <= j < k - 1 ==> rest[j] == vs[j + 1]);
        lemma_variant_with_tag_at(rest, tag, k - 1);
    }
}

/// The instance the initial constructor yields for initial state `s`:
/// the state itself, paired with the no-event sentinel.
pub open spec fn spec_new_instance(s: Seq<u8>) -> InstanceModel {
    InstanceModel { state: s, trigger: Option::None }
}

/// What `current_state` reads: the instance's state.
pub open spec fn spec_current_state(i: InstanceModel) -> Seq<u8> {
    i.state
}

/// Law: round trip.  Constructing an instance from a state `s` and
/// reading its current state yields `s` again.
pub proof fn lemma_new_instance_round_trip(s: Seq<u8>)
    ensures
        spec_current_state(spec_new_instance(s)) == s,
{
}

/// Builds the tag of the variant an instance belongs to.
pub fn make_instance_tag(inst: &Instance) -> (r: Vec<u8>)
    ensures
        r@ == spec_instance_tag(inst@),
{
    match &inst.trigger {
        Option::Some(e) => make_by_tag(&inst.state, e),
        Option::None => make_initial_tag(&inst.state),
    }
}

impl Instance {
    /// The initial constructor: accepts any state the machine declares
    /// as initial and produces an instance tagged with the no-event
    /// sentinel, whose current state is exactly the state handed in.
    /// Any other state is rejected.
    pub fn new(m: &CompiledMachine, state: Vec<u8>) -> (r: Result<Instance, MachineError>)
        ensures
            match r {
                Result::Ok(inst) => m.src().initial_states.contains(state@) && inst@
                    == spec_new_instance(state@),
                Result::Err(e) => e == MachineError::NotAnInitialState
                    && !m.src().initial_states.contains(state@),
            },
    {
        if names_contain(&m.initial_states, &state) {
            Result::Ok(Instance { state, trigger: Option::None })
        } else {
            Result::Err(MachineError::NotAnInitialState)
        }
    }

    /// The current state of the instance.
    pub fn current_state(&self) -> (r: Vec<u8>)
        ensures
            r@ == spec_current_state(self@),
    {
        copy_name(&self.state)
    }

    /// The event that produced the instance, or the no-event sentinel
    /// for a freshly constructed one.
    pub fn trigger(&self) -> (r: Option<Vec<u8>>)
        ensures
            match r {
                Option::Some(e) => self@.trigger == Option::Some(e@),
                Option::None => self@.trigger is None,
            },
    {
        match &self.trigger {
            Option::Some(e) => Option::Some(copy_name(e)),
            Option::None => Option::None,
        }
    }

    /// The transition operation: consumes the instance and produces a
    /// new one in the target state of the first declared transition for
    /// `(current state, event)`.  A pair with no declared transition is
    /// rejected, before any new instance is produced.
    pub fn transition(self, m: &CompiledMachine, event: Vec<u8>) -> (r: Result<
        Instance,
        MachineError,
    >)
        ensures
            match spec_find_transition(m.src().transitions, self@.state, event@) {
                Option::Some(t) => match r {
                    Result::Ok(inst) => inst@.state == t.to && inst@.trigger == Option::Some(
                        event@,
                    ),
                    Result::Err(_) => false,
                },
                Option::None => r == Result::<Instance, MachineError>::Err(
                    MachineError::UnsupportedTransition,
                ),
            },
    {
        let ghost ts = m.src().transitions;
        let mut k: usize = 0;
        while k < m.transitions.len()
            invariant
                k <= m.transitions.len(),
                ts == m.src().transitions,
                forall|j: int| 0 <= j < k ==> !((#[trigger] ts[j]).from == self@.state && ts[j].event
                    == event@),
            decreases m.transitions.len() - k,
        {
            if bytes_eq(&m.transitions[k].from, &self.state) && bytes_eq(
                &m.transitions[k].event,
                &event,
            ) {
                proof {
                    lemma_find_transition_at(ts, self@.state, event@, k as int);
                }
                let to = copy_name(&m.transitions[k].to);
                return Result::Ok(Instance { state: to, trigger: Option::Some(event) });
            }
            k = k + 1;
        }
        proof {
            lemma_find_transition_at(ts, self@.state, event@, ts.len() as int);
        }
        Result::Err(MachineError::UnsupportedTransition)
    }

    /// Converts the instance into its case of the variant enumeration:
    /// the index of the first variant whose tag matches the instance's
    /// tag, or nothing when the enumeration has no such case.
    pub fn as_enum(&self, m: &CompiledMachine) -> (r: Option<usize>)
        ensures
            match r {
                Option::Some(k) => k < m.variants@.len() && spec_variant_with_tag(
                    m.variants.deep_view(),
                    spec_instance_tag(self@),
                ) == Option::Some(m.variants.deep_view()[k as int]),
                Option::None => spec_variant_with_tag(
                    m.variants.deep_view(),
                    spec_instance_tag(self@),
                ) is None,
            },
    {
        let tag = make_instance_tag(self);
        let ghost vs = m.variants.deep_view();
        let mut k: usize = 0;
        while k < m.variants.len()
            invariant
                k <= m.variants.len(),
                tag@ == spec_instance_tag(self@),
                vs == m.variants.deep_view(),
                forall|j: int| 0 <= j < k ==> (#[trigger] vs[j]).tag != tag@,
            decreases m.variants.len() - k,
        {
            if bytes_eq(&m.variants[k].tag, &tag) {
                proof {
                    lemma_variant_with_tag_at(vs, tag@, k as int);
                }
                return Option::Some(k);
            }
            k = k + 1;
        }
        proof {
            lemma_variant_with_tag_at(vs, tag@, vs.len() as int);
        }
        Option::None
    }
}

/// Position of the first event named `e` in the event set.
fn find_event(events: &Vec<Vec<u8>>, e: &Vec<u8>) -> (r: Option<usize>)
    ensures
        match r {
            Option::Some(k) => k < events@.len() && find_name(events.deep_view(), e@) == k as int,
            Option::None => find_name(events.deep_view(), e@) == -1,
        },
{
    let ghost ns = events.deep_view();
    let mut k: usize = 0;
    while k < events.len()
        invariant
            k <= events.len(),
            ns == events.deep_view(),
            forall|j: int| 0 <= j < k ==> ns[j] != e@,
        decreases events.len() - k,
    {
        if bytes_eq(&events[k], e) {
            proof {
                crate::model::lemma_byte_vec_deep_view(events@[k as int]);
                lemma_find_name_at(ns, e@, k as int);
            }
            return Option::Some(k);
        }
        proof {
            crate::model::lemma_byte_vec_deep_view(events@[k as int]);
        }
        k = k + 1;
    }
    proof {
        lemma_find_name_at(ns, e@, ns.len() as int);
    }
    Option::None
}

/// Position of the dispatch arm whose variant carries `tag`.
fn find_arm(m: &CompiledMachine, tag: &Vec<u8>) -> (r: Option<usize>)
    requires
        m.wf(),
    ensures
        match r {
            Option::Some(k) => k < m.dispatch@.len() && spec_variant_with_tag(
                spec_variants(m.src()),
                tag@,
            ) == Option::Some(spec_variants(m.src())[k as int]) && m.dispatch.deep_view()[k as int]
                == spec_arm_for(m.src(), spec_variants(m.src())[k as int]),
            Option::None => spec_variant_with_tag(spec_variants(m.src()), tag@) is None,
        },
{
    let ghost vs = spec_variants(m.src());
    proof {
        assert(m.dispatch.deep_view().len() == m.dispatch@.len());
        assert(spec_dispatch(m.src()).len() == vs.len());
    }
    let mut k: usize = 0;
    while k < m.dispatch.len()
        invariant
            k <= m.dispatch.len(),
            m.wf(),
            vs == spec_variants(m.src()),
            m.dispatch@.len() == vs.len(),
            forall|j: int| 0 <= j < k ==> (#[trigger] vs[j]).tag != tag@,
        decreases m.dispatch.len() - k,
    {
        proof {
            assert(m.dispatch.deep_view()[k as int] == spec_dispatch(m.src())[k as int]);
            assert(spec_dispatch(m.src())[k as int] == spec_arm_for(m.src(), vs[k as int]));
        }
        if bytes_eq(&m.dispatch[k].variant.tag, tag) {
            proof {
                lemma_variant_with_tag_at(vs, tag@, k as int);
            }
            return Option::Some(k);
        }
        k = k + 1;
    }
    proof {
        assert(m.dispatch.deep_view().len() == vs.len());
        lemma_variant_with_tag_at(vs, tag@, vs.len() as int);
    }
    Option::None
}

/// The guarded evaluation entry point: one guard outcome per member of
/// the machine's event set, aligned by position.
///
/// The instance's variant is looked up by tag.  An unknown tag, a
/// pass-through arm (a terminal state), or a guard chain in which no
/// candidate's guard is enabled returns the instance unchanged and no
/// action.  Otherwise the first candidate transition from the variant's
/// state whose event's guard is enabled wins: the result is a new
/// instance in that candidate's target state, together with the event
/// whose action is to be invoked by the caller.
pub fn eval_machine(m: &CompiledMachine, inst: Instance, enabled: &Vec<bool>) -> (r: (
    Instance,
    Option<Vec<u8>>,
))
    requires
        m.wf(),
        enabled@.len() == m.events@.len(),
    ensures
        ({
            let evs = spec_events(m.src().transitions);
            match spec_variant_with_tag(spec_variants(m.src()), spec_instance_tag(inst@)) {
                Option::None => r.0@ == inst@ && r.1 is None,
                Option::Some(v) => match first_enabled(
                    spec_transitions_from(m.src().transitions, v.state),
                    evs,
                    enabled@,
                ) {
                    Option::Some(t) => r.0@.state == t.to && r.0@.trigger == Option::Some(t.event)
                        && (match r.1 {
                        Option::Some(a) => a@ == t.event,
                        Option::None => false,
                    }),
                    Option::None => r.0@ == inst@ && r.1 is None,
                },
            }
        }),
{
    let ghost vs = spec_variants(m.src());
    let ghost evs = spec_events(m.src().transitions);
    let tag = make_instance_tag(&inst);
    match find_arm(m, &tag) {
        Option::None => (inst, Option::None),
        Option::Some(k) => {
            let ghost v = vs[k as int];
            let ghost cands_spec = spec_transitions_from(m.src().transitions, v.state);
            match &m.dispatch[k].kind {
                DispatchKind::PassThrough => {
                    proof {
                        assert(m.dispatch.deep_view()[k as int] == spec_arm_for(m.src(), v));
                        assert(!spec_non_terminal_states(m.src().transitions).contains(v.state));
                        crate::analyzer::lemma_non_terminal_elems(m.src().transitions);
                        lemma_filter_members(
                            m.src().transitions,
                            |t: TransModel| t.from == v.state,
                        );
                        if cands_spec.len() > 0 {
                            assert(cands_spec.contains(cands_spec[0]));
                        }
                        assert(cands_spec.len() == 0);
                    }
                    (inst, Option::None)
                },
                DispatchKind::Guarded(cands) => {
                    proof {
                        assert(m.dispatch.deep_view()[k as int] == spec_arm_for(m.src(), v));
                        assert(cands.deep_view() == cands_spec);
                    }
                    let mut j: usize = 0;
                    while j < cands.len()
                        invariant
                            j <= cands.len(),
                            m.wf(),
                            cands.deep_view() == cands_spec,
                            evs == spec_events(m.src().transitions),
                            enabled@.len() == m.events@.len(),
                            spec_variant_with_tag(spec_variants(m.src()), spec_instance_tag(inst@))
                                == Option::Some(v),
                            cands_spec == spec_transitions_from(m.src().transitions, v.state),
                            forall|i: int| 0 <= i < j ==> !event_enabled(
                                #[trigger] cands_spec[i],
                                evs,
                                enabled@,
                            ),
                        decreases cands.len() - j,
                    {
                        let hit: bool = match find_event(&m.events, &cands[j].event) {
                            Option::Some(idx) => enabled[idx],
                            Option::None => false,
                        };
                        proof {
                            assert(hit == event_enabled(cands_spec[j as int], evs, enabled@));
                        }
                        if hit {
                            proof {
                                lemma_first_match_wins(cands_spec, evs, enabled@, j as int);
                            }
                            let to = copy_name(&cands[j].to);
                            let ev = copy_name(&cands[j].event);
                            let act = copy_name(&cands[j].event);
                            return (
                                Instance { state: to, trigger: Option::Some(ev) },
                                Option::Some(act),
                            );
                        }
                        j = j + 1;
                    }
                    proof {
                        lemma_no_match(cands_spec, evs, enabled@);
                    }
                    (inst, Option::None)
                },
            }
        },
    }
}

} // verus!
