//! The semantic analyzer: derives the closed sets of a machine
//! definition, deterministically and in order of first appearance, so
//! that the compiled representation is reproducible on unchanged input.
//!
//! Derived sets:
//! - the state set: `from` then `to` of every transition in declaration
//!   order, then the initial states, each added once by name equality;
//! - the non-terminal states: the states some transition departs from.
//!   Initial states are not added unconditionally: an initial state
//!   with no outgoing transition counts as terminal, so evaluating an
//!   event against it is a pass-through rather than an error;
//! - the terminal states: the state set minus the non-terminal states,
//!   in state-set order;
//! - the event set: one entry per distinct event name, in declaration
//!   order;
//! - the variant enumeration: one case per initial state, then one per
//!   reachable `(target state, event)` pair, deduplicated by tag with
//!   the first occurrence winning (two transitions that share target
//!   and event collapse into one case).

use vstd::prelude::*;
use crate::model::{MachineSpec, MachineModel, TransModel, Variant, VariantModel};
use crate::model::{
    append_bytes, bytes_eq, copy_name, names_contain, lemma_byte_vec_deep_view,
    lemma_deep_view_push,
};

verus! {

/// Appends `n` unless it is already present: the dedup step every
/// derived set is built from.
pub open spec fn push_unique(s: Seq<Seq<u8>>, n: Seq<u8>) -> Seq<Seq<u8>> {
    if s.contains(n) {
        s
    } else {
        s.push(n)
    }
}

/// The states reached after folding the endpoints (`from`, then `to`)
/// of the transitions in declaration order.
pub open spec fn transition_states(ts: Seq<TransModel>) -> Seq<Seq<u8>>
    decreases ts.len(),
{
    if ts.len() == 0 {
        Seq::empty()
    } else {
        push_unique(push_unique(transition_states(ts.drop_last()), ts.last().from), ts.last().to)
    }
}

/// Folds a list of names onto an already-collected list, keeping first
/// occurrences.
pub open spec fn add_names(acc: Seq<Seq<u8>>, ns: Seq<Seq<u8>>) -> Seq<Seq<u8>>
    decreases ns.len(),
{
    if ns.len() == 0 {
        acc
    } else {
        push_unique(add_names(acc, ns.drop_last()), ns.last())
    }
}

/// The full state set: transition endpoints, then initial states.
pub open spec fn spec_states(m: MachineModel) -> Seq<Seq<u8>> {
    add_names(transition_states(m.transitions), m.initial_states)
}

/// The non-terminal states: each transition's `from`, collected once,
/// in declaration order.
pub open spec fn spec_non_terminal_states(ts: Seq<TransModel>) -> Seq<Seq<u8>>
    decreases ts.len(),
{
    if ts.len() == 0 {
        Seq::empty()
    } else {
        push_unique(spec_non_terminal_states(ts.drop_last()), ts.last().from)
    }
}

/// The terminal states: the state set minus the non-terminal states,
/// in state-set order.
pub open spec fn spec_terminal_states(m: MachineModel) -> Seq<Seq<u8>> {
    spec_states(m).filter(|s: Seq<u8>| !spec_non_terminal_states(m.transitions).contains(s))
}

/// The event set: one entry per distinct event name, in declaration
/// order.
pub open spec fn spec_events(ts: Seq<TransModel>) -> Seq<Seq<u8>>
    decreases ts.len(),
{
    if ts.len() == 0 {
        Seq::empty()
    } else {
        push_unique(spec_events(ts.drop_last()), ts.last().event)
    }
}

/// No name occurs twice.
pub open spec fn distinct_names(ns: Seq<Seq<u8>>) -> bool {
    forall|i: int, j: int| 0 <= i < j < ns.len() ==> ns[i] != ns[j]
}

/// `push_unique` adds exactly the missing name, and keeps the list
/// duplicate-free.
proof fn lemma_push_unique(s: Seq<Seq<u8>>, n: Seq<u8>)
    ensures
        forall|x: Seq<u8>| #[trigger] push_unique(s, n).contains(x) <==> (s.contains(x) || x == n),
        distinct_names(s) ==> distinct_names(push_unique(s, n)),
{
    if !s.contains(n) {
        assert forall|x: Seq<u8>| #[trigger] push_unique(s, n).contains(x) implies (s.contains(x)
            || x == n) by {
            let k = choose|k: int| 0 <= k < push_unique(s, n).len() && push_unique(s, n)[k] == x;
            if k < s.len() {
                assert(s[k] == x);
            }
        }
        assert forall|x: Seq<u8>| s.contains(x) || x == n implies #[trigger] push_unique(
            s,
            n,
        ).contains(x) by {
            if s.contains(x) {
                let k = choose|k: int| 0 <= k < s.len() && s[k] == x;
                assert(push_unique(s, n)[k] == x);
            } else {
                assert(push_unique(s, n)[s.len() as int] == n);
            }
        }
    }
}

/// The transition-endpoint fold holds exactly the `from` and `to`
/// names, without duplicates.
proof fn lemma_transition_states_elems(ts: Seq<TransModel>)
    ensures
        forall|x: Seq<u8>| #[trigger] transition_states(ts).contains(x) <==> exists|i: int|
            0 <= i < ts.len() && ((#[trigger] ts[i]).from == x || ts[i].to == x),
        distinct_names(transition_states(ts)),
    decreases ts.len(),
{
    if ts.len() == 0 {
    } else {
        let prefix = ts.drop_last();
        lemma_transition_states_elems(prefix);
        lemma_push_unique(transition_states(prefix), ts.last().from);
        lemma_push_unique(push_unique(transition_states(prefix), ts.last().from), ts.last().to);
        assert forall|x: Seq<u8>| #[trigger] transition_states(ts).contains(x) implies exists|i: int|
            0 <= i < ts.len() && ((#[trigger] ts[i]).from == x || ts[i].to == x) by {
            if transition_states(prefix).contains(x) {
                let i = choose|i: int|
                    0 <= i < prefix.len() && ((#[trigger] prefix[i]).from == x
                        || prefix[i].to == x);
                assert(ts[i].from == x || ts[i].to == x);
            } else {
                assert(ts[ts.len() - 1].from == x || ts[ts.len() - 1].to == x);
            }
        }
        assert forall|x: Seq<u8>, i: int|
            0 <= i < ts.len() && ((#[trigger] ts[i]).from == x || ts[i].to == x)
            implies #[trigger] transition_states(ts).contains(x) by {
            if i < ts.len() - 1 {
                assert(prefix[i].from == x || prefix[i].to == x);
            }
        }
    }
}

/// Folding extra names in keeps exactly the union, without introducing
/// duplicates.
proof fn lemma_add_names_elems(acc: Seq<Seq<u8>>, ns: Seq<Seq<u8>>)
    ensures
        forall|x: Seq<u8>| #[trigger] add_names(acc, ns).contains(x) <==> (acc.contains(x)
            || ns.contains(x)),
        distinct_names(acc) ==> distinct_names(add_names(acc, ns)),
    decreases ns.len(),
{
    if ns.len() == 0 {
        assert(forall|x: Seq<u8>| !ns.contains(x));
    } else {
        let prefix = ns.drop_last();
        lemma_add_names_elems(acc, prefix);
        lemma_push_unique(add_names(acc, prefix), ns.last());
        assert forall|x: Seq<u8>| #[trigger] add_names(acc, ns).contains(x) implies (acc.contains(x)
            || ns.contains(x)) by {
            if !acc.contains(x) {
                if prefix.contains(x) {
                    let i = choose|i: int| 0 <= i < prefix.len() && prefix[i] == x;
                    assert(ns[i] == x);
                } else {
                    assert(ns[ns.len() - 1] == x);
                }
            }
        }
        assert forall|x: Seq<u8>| acc.contains(x) || ns.contains(x) implies #[trigger] add_names(
            acc,
            ns,
        ).contains(x) by {
            if ns.contains(x) && x != ns.last() {
                let i = choose|i: int| 0 <= i < ns.len() && ns[i] == x;
                if i < ns.len() - 1 {
                    assert(prefix[i] == x);
                }
            }
        }
    }
}

/// The non-terminal fold holds exactly the `from` names, without
/// duplicates.
pub proof fn lemma_non_terminal_elems(ts: Seq<TransModel>)
    ensures
        forall|x: Seq<u8>| #[trigger] spec_non_terminal_states(ts).contains(x) <==> exists|i: int|
            0 <= i < ts.len() && (#[trigger] ts[i]).from == x,
        distinct_names(spec_non_terminal_states(ts)),
    decreases ts.len(),
{
    if ts.len() == 0 {
    } else {
        let prefix = ts.drop_last();
        lemma_non_terminal_elems(prefix);
        lemma_push_unique(spec_non_terminal_states(prefix), ts.last().from);
        assert forall|x: Seq<u8>| #[trigger] spec_non_terminal_states(ts).contains(x)
            implies exists|i: int| 0 <= i < ts.len() && (#[trigger] ts[i]).from == x by {
            if spec_non_terminal_states(prefix).contains(x) {
                let i = choose|i: int| 0 <= i < prefix.len() && (#[trigger] prefix[i]).from == x;
                assert(ts[i].from == x);
            } else {
                assert(ts[ts.len() - 1].from == x);
            }
        }
        assert forall|x: Seq<u8>, i: int| 0 <= i < ts.len() && (#[trigger] ts[i]).from == x
            implies #[trigger] spec_non_terminal_states(ts).contains(x) by {
            if i < ts.len() - 1 {
                assert(prefix[i].from == x);
            }
        }
    }
}

/// Law: the state set holds exactly the `from` and `to` name of every
/// transition together with every initial-state name, each name once.
pub proof fn lemma_state_set(m: MachineModel)
    ensures
        forall|x: Seq<u8>| #[trigger] spec_states(m).contains(x) <==> ((exists|i: int|
            0 <= i < m.transitions.len() && ((#[trigger] m.transitions[i]).from == x
                || m.transitions[i].to == x)) || m.initial_states.contains(x)),
        distinct_names(spec_states(m)),
{
    lemma_transition_states_elems(m.transitions);
    lemma_add_names_elems(transition_states(m.transitions), m.initial_states);
}

/// Law: the terminal and the non-terminal states are disjoint, and
/// together they are exactly the state set.
pub proof fn lemma_terminal_partition(m: MachineModel)
    ensures
        forall|x: Seq<u8>| #[trigger] spec_states(m).contains(x) <==> (spec_terminal_states(
            m,
        ).contains(x) || spec_non_terminal_states(m.transitions).contains(x)),
        forall|x: Seq<u8>| !(#[trigger] spec_terminal_states(m).contains(x)
            && spec_non_terminal_states(m.transitions).contains(x)),
{
    let pred = |s: Seq<u8>| !spec_non_terminal_states(m.transitions).contains(s);
    crate::model::lemma_filter_members(spec_states(m), pred);
    lemma_state_set(m);
    lemma_non_terminal_elems(m.transitions);
    assert forall|x: Seq<u8>| #[trigger] spec_states(m).contains(x) implies (spec_terminal_states(
        m,
    ).contains(x) || spec_non_terminal_states(m.transitions).contains(x)) by {
        if !spec_non_terminal_states(m.transitions).contains(x) {
            assert(pred(x));
        }
    }
    assert forall|x: Seq<u8>| spec_terminal_states(m).contains(x) || spec_non_terminal_states(
        m.transitions,
    ).contains(x) implies #[trigger] spec_states(m).contains(x) by {
        if spec_non_terminal_states(m.transitions).contains(x) {
            let i = choose|i: int|
                0 <= i < m.transitions.len() && (#[trigger] m.transitions[i]).from == x;
            assert(m.transitions[i].from == x || m.transitions[i].to == x);
        }
    }
}

/// Appends a copy of `n` to `acc` unless an equal name is already
/// present.
fn add_name_unique(acc: &mut Vec<Vec<u8>>, n: &Vec<u8>)
    ensures
        final(acc).deep_view() == push_unique(old(acc).deep_view(), n@),
{
    if !names_contain(acc, n) {
        let c = copy_name(n);
        let ghost cg = c;
        let ghost pre = *acc;
        acc.push(c);
        proof {
            lemma_deep_view_push(pre, *acc, cg);
            lemma_byte_vec_deep_view(cg);
        }
    }
}

/// All states of the machine: every `from` and `to` of a transition and
/// every initial state, each once, in order of first appearance.
pub fn states(m: &MachineSpec) -> (r: Vec<Vec<u8>>)
    ensures
        r.deep_view() == spec_states(m@),
{
    let mut r: Vec<Vec<u8>> = Vec::new();
    let mut i: usize = 0;
    while i < m.transitions.len()
        invariant
            i <= m.transitions.len(),
            r.deep_view() == transition_states(m.transitions.deep_view().take(i as int)),
        decreases m.transitions.len() - i,
    {
        proof {
            assert(m.transitions.deep_view().take(i as int + 1).drop_last()
                =~= m.transitions.deep_view().take(i as int));
            assert(m.transitions.deep_view().take(i as int + 1).last()
                == m.transitions.deep_view()[i as int]);
        }
        add_name_unique(&mut r, &m.transitions[i].from);
        add_name_unique(&mut r, &m.transitions[i].to);
        i = i + 1;
    }
    proof {
        assert(m.transitions.deep_view().take(m.transitions.len() as int)
            =~= m.transitions.deep_view());
    }
    let mut j: usize = 0;
    while j < m.initial_states.len()
        invariant
            j <= m.initial_states.len(),
            r.deep_view() == add_names(
                transition_states(m.transitions.deep_view()),
                m.initial_states.deep_view().take(j as int),
            ),
        decreases m.initial_states.len() - j,
    {
        proof {
            assert(m.initial_states.deep_view().take(j as int + 1).drop_last()
                =~= m.initial_states.deep_view().take(j as int));
            assert(m.initial_states.deep_view().take(j as int + 1).last()
                == m.initial_states.deep_view()[j as int]);
            lemma_byte_vec_deep_view(m.initial_states@[j as int]);
        }
        add_name_unique(&mut r, &m.initial_states[j]);
        j = j + 1;
    }
    proof {
        assert(m.initial_states.deep_view().take(m.initial_states.len() as int)
            =~= m.initial_states.deep_view());
    }
    r
}

/// The states from which a transition departs, each once, in
/// declaration order.
pub fn non_terminal_states(m: &MachineSpec) -> (r: Vec<Vec<u8>>)
    ensures
        r.deep_view() == spec_non_terminal_states(m@.transitions),
{
    let mut r: Vec<Vec<u8>> = Vec::new();
    let mut i: usize = 0;
    while i < m.transitions.len()
        invariant
            i <= m.transitions.len(),
            r.deep_view() == spec_non_terminal_states(m.transitions.deep_view().take(i as int)),
        decreases m.transitions.len() - i,
    {
        proof {
            assert(m.transitions.deep_view().take(i as int + 1).drop_last()
                =~= m.transitions.deep_view().take(i as int));
            assert(m.transitions.deep_view().take(i as int + 1).last()
                == m.transitions.deep_view()[i as int]);
        }
        add_name_unique(&mut r, &m.transitions[i].from);
        i = i + 1;
    }
    proof {
        assert(m.transitions.deep_view().take(m.transitions.len() as int)
            =~= m.transitions.deep_view());
    }
    r
}

/// The states with no outgoing transition, in state-set order.
pub fn terminal_states(m: &MachineSpec) -> (r: Vec<Vec<u8>>)
    ensures
        r.deep_view() == spec_terminal_states(m@),
{
    let all = states(m);
    let non_terminal = non_terminal_states(m);
    let mut r: Vec<Vec<u8>> = Vec::new();
    let mut i: usize = 0;
    while i < all.len()
        invariant
            i <= all.len(),
            all.deep_view() == spec_states(m@),
            non_terminal.deep_view() == spec_non_terminal_states(m@.transitions),
            r.deep_view() == all.deep_view().take(i as int).filter(
                |s: Seq<u8>| !spec_non_terminal_states(m@.transitions).contains(s),
            ),
        decreases all.len() - i,
    {
        proof {
            reveal(Seq::filter);
            assert(all.deep_view().take(i as int + 1).drop_last()
                =~= all.deep_view().take(i as int));
            assert(all.deep_view().take(i as int + 1).last() == all.deep_view()[i as int]);
            lemma_byte_vec_deep_view(all@[i as int]);
        }
        if !names_contain(&non_terminal, &all[i]) {
            let c = copy_name(&all[i]);
            let ghost cg = c;
            let ghost pre = r;
            r.push(c);
            proof {
                lemma_deep_view_push(pre, r, cg);
                lemma_byte_vec_deep_view(cg);
            }
        }
        i = i + 1;
    }
    proof {
        assert(all.deep_view().take(all.len() as int) =~= all.deep_view());
    }
    r
}

/// The distinct event names, in declaration order.
pub fn events(m: &MachineSpec) -> (r: Vec<Vec<u8>>)
    ensures
        r.deep_view() == spec_events(m@.transitions),
{
    let mut r: Vec<Vec<u8>> = Vec::new();
    let mut i: usize = 0;
    while i < m.transitions.len()
        invariant
            i <= m.transitions.len(),
            r.deep_view() == spec_events(m.transitions.deep_view().take(i as int)),
        decreases m.transitions.len() - i,
    {
        proof {
            assert(m.transitions.deep_view().take(i as int + 1).drop_last()
                =~= m.transitions.deep_view().take(i as int));
            assert(m.transitions.deep_view().take(i as int + 1).last()
                == m.transitions.deep_view()[i as int]);
        }
        add_name_unique(&mut r, &m.transitions[i].event);
        i = i + 1;
    }
    proof {
        assert(m.transitions.deep_view().take(m.transitions.len() as int)
            =~= m.transitions.deep_view());
    }
    r
}

/// The byte spelling of the tag prefix marking an initial-state case:
/// the word `Initial`.
pub open spec fn initial_tag_prefix() -> Seq<u8> {
    seq![73u8, 110u8, 105u8, 116u8, 105u8, 97u8, 108u8]
}

/// The byte spelling of the infix joining a target state and its
/// producing event: the word `By`.
pub open spec fn by_tag_infix() -> Seq<u8> {
    seq![66u8, 121u8]
}

/// The tag of the case for initial state `s`.
pub open spec fn tag_initial(s: Seq<u8>) -> Seq<u8> {
    initial_tag_prefix() + s
}

/// The tag of the case for reaching `to` by event `ev`.
pub open spec fn tag_by(to: Seq<u8>, ev: Seq<u8>) -> Seq<u8> {
    to + by_tag_infix() + ev
}

/// Whether some variant in the list carries `tag`.
pub open spec fn has_tag(vs: Seq<VariantModel>, tag: Seq<u8>) -> bool {
    exists|i: int| 0 <= i < vs.len() && vs[i].tag == tag
}

/// Appends a variant unless its tag was already emitted: first
/// occurrence wins, later ones with the same tag are dropped.
pub open spec fn push_variant(vs: Seq<VariantModel>, v: VariantModel) -> Seq<VariantModel> {
    if has_tag(vs, v.tag) {
        vs
    } else {
        vs.push(v)
    }
}

/// The case an initial state contributes: its state paired with the
/// no-event sentinel.
pub open spec fn initial_variant(s: Seq<u8>) -> VariantModel {
    VariantModel { tag: tag_initial(s), state: s, event: Option::None }
}

/// The case a transition contributes: its target state paired with its
/// event.
pub open spec fn transition_variant(t: TransModel) -> VariantModel {
    VariantModel { tag: tag_by(t.to, t.event), state: t.to, event: Option::Some(t.event) }
}

/// First pass of the variant derivation: the initial states, in
/// declaration order.
pub open spec fn initial_variants(acc: Seq<VariantModel>, is: Seq<Seq<u8>>) -> Seq<VariantModel>
    decreases is.len(),
{
    if is.len() == 0 {
        acc
    } else {
        push_variant(initial_variants(acc, is.drop_last()), initial_variant(is.last()))
    }
}

/// Second pass of the variant derivation: the transitions, in
/// declaration order.
pub open spec fn transition_variants(acc: Seq<VariantModel>, ts: Seq<TransModel>) -> Seq<
    VariantModel,
>
    decreases ts.len(),
{
    if ts.len() == 0 {
        acc
    } else {
        push_variant(transition_variants(acc, ts.drop_last()), transition_variant(ts.last()))
    }
}

/// The machine's variant enumeration: one case per initial state, then
/// one per reachable `(target state, event)` pair, deduplicated by tag.
pub open spec fn spec_variants(m: MachineModel) -> Seq<VariantModel> {
    transition_variants(initial_variants(Seq::empty(), m.initial_states), m.transitions)
}

/// No tag occurs twice.
pub open spec fn distinct_tags(vs: Seq<VariantModel>) -> bool {
    forall|i: int, j: int| 0 <= i < j < vs.len() ==> vs[i].tag != vs[j].tag
}

/// Builds the tag of the case for initial state `s`.
pub fn make_initial_tag(s: &Vec<u8>) -> (r: Vec<u8>)
    ensures
        r@ == tag_initial(s@),
{
    let mut r: Vec<u8> = Vec::new();
    r.push(73u8);
    r.push(110u8);
    r.push(105u8);
    r.push(116u8);
    r.push(105u8);
    r.push(97u8);
    r.push(108u8);
    proof {
        assert(r@ =~= initial_tag_prefix());
    }
    append_bytes(&mut r, s);
    r
}

/// Builds the tag of the case for reaching `to` by event `ev`.
pub fn make_by_tag(to: &Vec<u8>, ev: &Vec<u8>) -> (r: Vec<u8>)
    ensures
        r@ == tag_by(to@, ev@),
{
    let mut r: Vec<u8> = copy_name(to);
    r.push(66u8);
    r.push(121u8);
    proof {
        assert(r@ =~= to@ + by_tag_infix());
    }
    append_bytes(&mut r, ev);
    proof {
        assert((to@ + by_tag_infix()) + ev@ =~= tag_by(to@, ev@));
    }
    r
}

/// Whether some variant in the list carries `tag`.
pub fn variants_have_tag(vs: &Vec<Variant>, tag: &Vec<u8>) -> (r: bool)
    ensures
        r == has_tag(vs.deep_view(), tag@),
{
    let mut k: usize = 0;
    while k < vs.len()
        invariant
            k <= vs.len(),
            forall|j: int| 0 <= j < k ==> vs.deep_view()[j].tag != tag@,
        decreases vs.len() - k,
    {
        if bytes_eq(&vs[k].tag, tag) {
            assert(vs.deep_view()[k as int].tag == tag@);
            return true;
        }
        k = k + 1;
    }
    false
}

/// Appends a variant unless its tag was already emitted.
fn append_variant_unique(vs: &mut Vec<Variant>, v: Variant)
    ensures
        final(vs).deep_view() == push_variant(old(vs).deep_view(), v@),
{
    if !variants_have_tag(vs, &v.tag) {
        let ghost vg = v;
        let ghost pre = *vs;
        vs.push(v);
        proof {
            lemma_deep_view_push(pre, *vs, vg);
        }
    }
}

/// The variant enumeration: one case per initial state (paired with
/// the no-event sentinel), then one per transition's `(target, event)`
/// pair, in declaration order, deduplicated by tag.
pub fn variants(m: &MachineSpec) -> (r: Vec<Variant>)
    ensures
        r.deep_view() == spec_variants(m@),
{
    let mut r: Vec<Variant> = Vec::new();
    let mut j: usize = 0;
    while j < m.initial_states.len()
        invariant
            j <= m.initial_states.len(),
            r.deep_view() == initial_variants(
                Seq::empty(),
                m.initial_states.deep_view().take(j as int),
            ),
        decreases m.initial_states.len() - j,
    {
        proof {
            assert(m.initial_states.deep_view().take(j as int + 1).drop_last()
                =~= m.initial_states.deep_view().take(j as int));
            assert(m.initial_states.deep_view().take(j as int + 1).last()
                == m.initial_states.deep_view()[j as int]);
            lemma_byte_vec_deep_view(m.initial_states@[j as int]);
        }
        let tag = make_initial_tag(&m.initial_states[j]);
        let state = copy_name(&m.initial_states[j]);
        let v = Variant { tag, state, event: Option::None };
        assert(v@ == initial_variant(m.initial_states.deep_view()[j as int]));
        append_variant_unique(&mut r, v);
        j = j + 1;
    }
    proof {
        assert(m.initial_states.deep_view().take(m.initial_states.len() as int)
            =~= m.initial_states.deep_view());
    }
    let mut i: usize = 0;
    while i < m.transitions.len()
        invariant
            i <= m.transitions.len(),
            r.deep_view() == transition_variants(
                initial_variants(Seq::empty(), m.initial_states.deep_view()),
                m.transitions.deep_view().take(i as int),
            ),
        decreases m.transitions.len() - i,
    {
        proof {
            assert(m.transitions.deep_view().take(i as int + 1).drop_last()
                =~= m.transitions.deep_view().take(i as int));
            assert(m.transitions.deep_view().take(i as int + 1).last()
                == m.transitions.deep_view()[i as int]);
        }
        let tag = make_by_tag(&m.transitions[i].to, &m.transitions[i].event);
        let state = copy_name(&m.transitions[i].to);
        let event = copy_name(&m.transitions[i].event);
        let v = Variant { tag, state, event: Option::Some(event) };
        assert(v@ == transition_variant(m.transitions.deep_view()[i as int]));
        append_variant_unique(&mut r, v);
        i = i + 1;
    }
    proof {
        assert(m.transitions.deep_view().take(m.transitions.len() as int)
            =~= m.transitions.deep_view());
    }
    r
}


/// The cases one state contributes to the variant enumeration: the
/// variants whose state is `state`, in enumeration order.  The
/// dispatch synthesizer emits one arm per such case.
pub fn variants_of(m: &MachineSpec, state: &Vec<u8>) -> (r: Vec<Variant>)
    ensures
        r.deep_view() == spec_variants(m@).filter(|v: VariantModel| v.state == state@),
{
    let vs = variants(m);
    let mut r: Vec<Variant> = Vec::new();
    let mut i: usize = 0;
    while i < vs.len()
        invariant
            i <= vs.len(),
            vs.deep_view() == spec_variants(m@),
            r.deep_view() == vs.deep_view().take(i as int).filter(
                |v: VariantModel| v.state == state@,
            ),
        decreases vs.len() - i,
    {
        proof {
            reveal(Seq::filter);
            assert(vs.deep_view().take(i as int + 1).drop_last()
                =~= vs.deep_view().take(i as int));
            assert(vs.deep_view().take(i as int + 1).last() == vs.deep_view()[i as int]);
        }
        if bytes_eq(&vs[i].state, state) {
            let c = crate::model::copy_variant(&vs[i]);
            let ghost cg = c;
            let ghost pre = r;
            r.push(c);
            proof {
                lemma_deep_view_push(pre, r, cg);
            }
        }
        i = i + 1;
    }
    proof {
        assert(vs.deep_view().take(vs.len() as int) =~= vs.deep_view());
    }
    r
}

/// `push_variant` adds exactly the missing tag, and keeps the tags
/// duplicate-free.
proof fn lemma_push_variant(vs: Seq<VariantModel>, v: VariantModel)
    ensures
        forall|t: Seq<u8>| #[trigger] has_tag(push_variant(vs, v), t) <==> (has_tag(vs, t) || t
            == v.tag),
        distinct_tags(vs) ==> distinct_tags(push_variant(vs, v)),
{
    if !has_tag(vs, v.tag) {
        assert forall|t: Seq<u8>| #[trigger] has_tag(push_variant(vs, v), t) implies (has_tag(vs, t)
            || t == v.tag) by {
            let k = choose|k: int| 0 <= k < push_variant(vs, v).len() && push_variant(vs, v)[k].tag
                == t;
            if k < vs.len() {
                assert(vs[k].tag == t);
            }
        }
        assert forall|t: Seq<u8>| has_tag(vs, t) || t == v.tag implies #[trigger] has_tag(
            push_variant(vs, v),
            t,
        ) by {
            if has_tag(vs, t) {
                let k = choose|k: int| 0 <= k < vs.len() && vs[k].tag == t;
                assert(push_variant(vs, v)[k].tag == t);
            } else {
                assert(push_variant(vs, v)[vs.len() as int].tag == t);
            }
        }
        assert forall|k: int| 0 <= k < vs.len() implies vs[k].tag != v.tag by {
            if vs[k].tag == v.tag {
                assert(has_tag(vs, v.tag));
            }
        }
    }
}

/// The initial pass keeps tags duplicate-free and adds exactly the
/// initial tags.
proof fn lemma_initial_variants(acc: Seq<VariantModel>, is: Seq<Seq<u8>>)
    ensures
        forall|t: Seq<u8>| #[trigger] has_tag(initial_variants(acc, is), t) <==> (has_tag(acc, t)
            || exists|i: int| 0 <= i < is.len() && tag_initial(#[trigger] is[i]) == t),
        distinct_tags(acc) ==> distinct_tags(initial_variants(acc, is)),
    decreases is.len(),
{
    if is.len() == 0 {
    } else {
        let prefix = is.drop_last();
        lemma_initial_variants(acc, prefix);
        lemma_push_variant(initial_variants(acc, prefix), initial_variant(is.last()));
        assert forall|t: Seq<u8>| #[trigger] has_tag(initial_variants(acc, is), t) implies (has_tag(
            acc,
            t,
        ) || exists|i: int| 0 <= i < is.len() && tag_initial(#[trigger] is[i]) == t) by {
            if !has_tag(acc, t) {
                if has_tag(initial_variants(acc, prefix), t) {
                    let i = choose|i: int|
                        0 <= i < prefix.len() && tag_initial(#[trigger] prefix[i]) == t;
                    assert(tag_initial(is[i]) == t);
                } else {
                    assert(tag_initial(is[is.len() - 1]) == t);
                }
            }
        }
        assert forall|t: Seq<u8>|
            has_tag(acc, t) || exists|i: int| 0 <= i < is.len() && tag_initial(#[trigger] is[i])
                == t implies #[trigger] has_tag(initial_variants(acc, is), t) by {
            if !has_tag(acc, t) {
                let i = choose|i: int| 0 <= i < is.len() && tag_initial(#[trigger] is[i]) == t;
                if i < is.len() - 1 {
                    assert(tag_initial(prefix[i]) == t);
                }
            }
        }
    }
}

/// The transition pass keeps tags duplicate-free and adds exactly the
/// `(target, event)` tags.
proof fn lemma_transition_variants(acc: Seq<VariantModel>, ts: Seq<TransModel>)
    ensures
        forall|t: Seq<u8>| #[trigger] has_tag(transition_variants(acc, ts), t) <==> (has_tag(acc, t)
            || exists|i: int| 0 <= i < ts.len() && tag_by(
                (#[trigger] ts[i]).to,
                ts[i].event,
            ) == t),
        distinct_tags(acc) ==> distinct_tags(transition_variants(acc, ts)),
    decreases ts.len(),
{
    if ts.len() == 0 {
    } else {
        let prefix = ts.drop_last();
        lemma_transition_variants(acc, prefix);
        lemma_push_variant(transition_variants(acc, prefix), transition_variant(ts.last()));
        assert forall|t: Seq<u8>| #[trigger] has_tag(transition_variants(acc, ts), t)
            implies (has_tag(acc, t) || exists|i: int| 0 <= i < ts.len() && tag_by(
            (#[trigger] ts[i]).to,
            ts[i].event,
        ) == t) by {
            if !has_tag(acc, t) {
                if has_tag(transition_variants(acc, prefix), t) {
                    let i = choose|i: int|
                        0 <= i < prefix.len() && tag_by((#[trigger] prefix[i]).to, prefix[i].event)
                            == t;
                    assert(tag_by(ts[i].to, ts[i].event) == t);
                } else {
                    assert(tag_by(ts[ts.len() - 1].to, ts[ts.len() - 1].event) == t);
                }
            }
        }
        assert forall|t: Seq<u8>|
            has_tag(acc, t) || exists|i: int| 0 <= i < ts.len() && tag_by(
                (#[trigger] ts[i]).to,
                ts[i].event,
            ) == t implies #[trigger] has_tag(transition_variants(acc, ts), t) by {
            if !has_tag(acc, t) {
                let i = choose|i: int|
                    0 <= i < ts.len() && tag_by((#[trigger] ts[i]).to, ts[i].event) == t;
                if i < ts.len() - 1 {
                    assert(tag_by(prefix[i].to, prefix[i].event) == t);
                }
            }
        }
    }
}

/// Law: two transitions that share target state and event collapse
/// into exactly one variant — its tag is present once, and no tag in
/// the enumeration occurs twice.
pub proof fn lemma_variant_dedup(m: MachineModel, i: int, j: int)
    requires
        0 <= i < m.transitions.len(),
        0 <= j < m.transitions.len(),
        m.transitions[i].to == m.transitions[j].to,
        m.transitions[i].event == m.transitions[j].event,
    ensures
        has_tag(spec_variants(m), tag_by(m.transitions[i].to, m.transitions[i].event)),
        distinct_tags(spec_variants(m)),
{
    lemma_initial_variants(Seq::empty(), m.initial_states);
    lemma_transition_variants(initial_variants(Seq::empty(), m.initial_states), m.transitions);
    assert(tag_by((m.transitions[i]).to, m.transitions[i].event) == tag_by(
        m.transitions[i].to,
        m.transitions[i].event,
    ));
}

} // verus!
