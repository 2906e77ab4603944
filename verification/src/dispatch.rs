//! The dispatch synthesizer: for every variant of the machine's
//! enumeration it builds one arm of the evaluation entry point.
//!
//! A variant whose state is terminal gets a pass-through arm: the
//! instance is returned unchanged.  A variant whose state is
//! non-terminal gets the ordered list of candidate transitions
//! departing from that state, in declaration order; at evaluation time
//! the first candidate whose event's guard is enabled wins.  The
//! declaration order is a semantic tie-break and is preserved.

use vstd::prelude::*;
use crate::model::{MachineSpec, MachineModel, TransModel, TransitionDecl, Variant, VariantModel};
use crate::model::{copy_transition, copy_variant, names_contain, lemma_deep_view_push, lemma_byte_vec_deep_view};
use crate::analyzer::{spec_non_terminal_states, spec_variants, non_terminal_states, variants};

verus! {

/// The ordered candidate list for state `s`: every transition whose
/// `from` equals `s`, in declaration order.
pub open spec fn spec_transitions_from(ts: Seq<TransModel>, s: Seq<u8>) -> Seq<TransModel> {
    ts.filter(|t: TransModel| t.from == s)
}

/// Position of the first occurrence of `n` in a name list, or -1 when
/// absent.
pub open spec fn find_name(ns: Seq<Seq<u8>>, n: Seq<u8>) -> int
    decreases ns.len(),
{
    if ns.len() == 0 {
        -1
    } else if ns[0] == n {
        0
    } else {
        let r = find_name(ns.drop_first(), n);
        if r < 0 {
            -1
        } else {
            1 + r
        }
    }
}

/// `find_name` returns exactly the first index whose name matches.
pub proof fn lemma_find_name_at(ns: Seq<Seq<u8>>, n: Seq<u8>, k: int)
    requires
        0 <= k <= ns.len(),
        forall|j: int| 0 <= j < k ==> ns[j] != n,
        k < ns.len() ==> ns[k] == n,
    ensures
        k < ns.len() ==> find_name(ns, n) == k,
        k == ns.len() ==> find_name(ns, n) == -1,
    decreases ns.len(),
{
    if ns.len() == 0 {
    } else if k == 0 {
        if ns.len() > 0 && ns[0] != n {
            lemma_find_name_at(ns.drop_first(), n, 0);
        }
    } else {
        assert(ns[0] != n);
        let rest = ns.drop_first();
        assert(forall|j: int| 0 <= j < k - 1 ==> rest[j] == ns[j + 1] && rest[j] != n);
        lemma_find_name_at(rest, n, k - 1);
    }
}

/// Whether the guard of `t`'s event is enabled, given one guard
/// outcome per member of the event set.
pub open spec fn event_enabled(t: TransModel, events: Seq<Seq<u8>>, enabled: Seq<bool>) -> bool {
    let k = find_name(events, t.event);
    0 <= k < enabled.len() && enabled[k]
}

/// The first candidate whose event's guard is enabled: the
/// first-match-wins rule of guarded dispatch.
pub open spec fn first_enabled(
    cands: Seq<TransModel>,
    events: Seq<Seq<u8>>,
    enabled: Seq<bool>,
) -> Option<TransModel>
    decreases cands.len(),
{
    if cands.len() == 0 {
        Option::None
    } else if event_enabled(cands[0], events, enabled) {
        Option::Some(cands[0])
    } else {
        first_enabled(cands.drop_first(), events, enabled)
    }
}

/// Law: first match wins.  When candidate `i` is the first whose guard
/// is enabled — in particular when a later candidate's guard is also
/// enabled — dispatch selects candidate `i`, the one declared first.
pub proof fn lemma_first_match_wins(
    cands: Seq<TransModel>,
    events: Seq<Seq<u8>>,
    enabled: Seq<bool>,
    i: int,
)
    requires
        0 <= i < cands.len(),
        event_enabled(cands[i], events, enabled),
        forall|k: int| 0 <= k < i ==> !event_enabled(#[trigger] cands[k], events, enabled),
    ensures
        first_enabled(cands, events, enabled) == Option::Some(cands[i]),
    decreases cands.len(),
{
    if i > 0 {
        let rest = cands.drop_first();
        assert(forall|k: int| 0 <= k < i - 1 ==> rest[k] == cands[k + 1]);
        lemma_first_match_wins(rest, events, enabled, i - 1);
    }
}

/// When no candidate's guard is enabled, dispatch selects nothing.
pub proof fn lemma_no_match(cands: Seq<TransModel>, events: Seq<Seq<u8>>, enabled: Seq<bool>)
    requires
        forall|k: int| 0 <= k < cands.len() ==> !event_enabled(#[trigger] cands[k], events, enabled),
    ensures
        first_enabled(cands, events, enabled) is None,
    decreases cands.len(),
{
    if cands.len() > 0 {
        let rest = cands.drop_first();
        assert(forall|k: int| 0 <= k < rest.len() ==> rest[k] == cands[k + 1]);
        lemma_no_match(rest, events, enabled);
    }
}

/// What one arm of the evaluation entry point does.
#[derive(Debug)]
pub enum DispatchKind {
    /// The variant's state is terminal: the instance passes through
    /// unchanged.
    PassThrough,
    /// The variant's state is non-terminal: the ordered guard chain
    /// over the candidate transitions departing from it.
    Guarded(Vec<TransitionDecl>),
}

/// Mathematical view of an arm's kind.
#[verifier::ext_equal]
pub enum DispatchKindModel {
    PassThrough,
    Guarded(Seq<TransModel>),
}

impl View for DispatchKind {
    type V = DispatchKindModel;

    open spec fn view(&self) -> DispatchKindModel {
        match self {
            DispatchKind::PassThrough => DispatchKindModel::PassThrough,
            DispatchKind::Guarded(cands) => DispatchKindModel::Guarded(cands.deep_view()),
        }
    }
}

impl DeepView for DispatchKind {
    type V = DispatchKindModel;

    open spec fn deep_view(&self) -> DispatchKindModel {
        self@
    }
}

/// One match arm of the evaluation entry point: the variant it handles
/// and what it does.
#[derive(Debug)]
pub struct DispatchArm {
    pub variant: Variant,
    pub kind: DispatchKind,
}

/// Mathematical view of an arm.
#[verifier::ext_equal]
pub struct DispatchArmModel {
    pub variant: VariantModel,
    pub kind: DispatchKindModel,
}

impl View for DispatchArm {
    type V = DispatchArmModel;

    open spec fn view(&self) -> DispatchArmModel {
        DispatchArmModel { variant: self.variant@, kind: self.kind@ }
    }
}

impl DeepView for DispatchArm {
    type V = DispatchArmModel;

    open spec fn deep_view(&self) -> DispatchArmModel {
        self@
    }
}

/// The arm synthesized for variant `v`: a pass-through when its state
/// has no outgoing transition, otherwise the guard chain over the
/// candidates departing from it.
pub open spec fn spec_arm_for(m: MachineModel, v: VariantModel) -> DispatchArmModel {
    DispatchArmModel {
        variant: v,
        kind: if spec_non_terminal_states(m.transitions).contains(v.state) {
            DispatchKindModel::Guarded(spec_transitions_from(m.transitions, v.state))
        } else {
            DispatchKindModel::PassThrough
        },
    }
}

/// The synthesized dispatch table: one arm per variant, in variant
/// order.
pub open spec fn spec_dispatch(m: MachineModel) -> Seq<DispatchArmModel> {
    Seq::new(spec_variants(m).len(), |i: int| spec_arm_for(m, spec_variants(m)[i]))
}

/// The candidate transitions departing from `state`, in declaration
/// order.
pub fn transitions_from(m: &MachineSpec, state: &Vec<u8>) -> (r: Vec<TransitionDecl>)
    ensures
        r.deep_view() == spec_transitions_from(m@.transitions, state@),
{
    let mut r: Vec<TransitionDecl> = Vec::new();
    let mut i: usize = 0;
    while i < m.transitions.len()
        invariant
            i <= m.transitions.len(),
            r.deep_view() == m.transitions.deep_view().take(i as int).filter(
                |t: TransModel| t.from == state@,
            ),
        decreases m.transitions.len() - i,
    {
        proof {
            reveal(Seq::filter);
            assert(m.transitions.deep_view().take(i as int + 1).drop_last()
                =~= m.transitions.deep_view().take(i as int));
            assert(m.transitions.deep_view().take(i as int + 1).last()
                == m.transitions.deep_view()[i as int]);
        }
        if crate::model::bytes_eq(&m.transitions[i].from, state) {
            let c = copy_transition(&m.transitions[i]);
            let ghost cg = c;
            let ghost pre = r;
            r.push(c);
            proof {
                lemma_deep_view_push(pre, r, cg);
            }
        }
        i = i + 1;
    }
    proof {
        assert(m.transitions.deep_view().take(m.transitions.len() as int)
            =~= m.transitions.deep_view());
    }
    r
}

/// Synthesizes the dispatch table: one arm per variant, a pass-through
/// for terminal states, a guard chain for non-terminal ones.
pub fn synthesize_dispatch(m: &MachineSpec) -> (r: Vec<DispatchArm>)
    ensures
        r.deep_view() == spec_dispatch(m@),
{
    let vs = variants(m);
    let non_terminal = non_terminal_states(m);
    let mut r: Vec<DispatchArm> = Vec::new();
    let mut i: usize = 0;
    while i < vs.len()
        invariant
            i <= vs.len(),
            vs.deep_view() == spec_variants(m@),
            non_terminal.deep_view() == spec_non_terminal_states(m@.transitions),
            r.deep_view().len() == i,
            forall|j: int| 0 <= j < i ==> r.deep_view()[j] == spec_dispatch(m@)[j],
        decreases vs.len() - i,
    {
        let kind: DispatchKind = if names_contain(&non_terminal, &vs[i].state) {
            DispatchKind::Guarded(transitions_from(m, &vs[i].state))
        } else {
            DispatchKind::PassThrough
        };
        proof {
            lemma_byte_vec_deep_view(vs@[i as int].state);
        }
        let variant = copy_variant(&vs[i]);
        let arm = DispatchArm { variant, kind };
        assert(arm@ == spec_arm_for(m@, vs.deep_view()[i as int]));
        let ghost ag = arm;
        let ghost pre = r;
        r.push(arm);
        proof {
            lemma_deep_view_push(pre, r, ag);
        }
        i = i + 1;
    }
    proof {
        assert(r.deep_view() =~= spec_dispatch(m@));
    }
    r
}

} // verus!
