//! The grammar model: the typed representation of one parsed machine
//! description, together with its mathematical view.
//!
//! Identifiers (state names, event names, resource names, type descriptors)
//! are byte strings.  A `MachineSpec` owns everything parsed from one
//! machine block; the derived sets are pure functions of it (see
//! `analyzer`).

use vstd::prelude::*;

verus! {

/// One declared transition rule: `event: from => to`.
#[derive(Debug)]
pub struct TransitionDecl {
    pub event: Vec<u8>,
    pub from: Vec<u8>,
    pub to: Vec<u8>,
}

/// Mathematical view of a transition: the three identifiers as sequences.
#[verifier::ext_equal]
pub struct TransModel {
    pub event: Seq<u8>,
    pub from: Seq<u8>,
    pub to: Seq<u8>,
}

impl View for TransitionDecl {
    type V = TransModel;

    open spec fn view(&self) -> TransModel {
        TransModel { event: self.event@, from: self.from@, to: self.to@ }
    }
}

impl DeepView for TransitionDecl {
    type V = TransModel;

    open spec fn deep_view(&self) -> TransModel {
        self@
    }
}

/// A named, typed value that every guard predicate or action receives.
/// The order of resource parameters is significant: they form a
/// positional parameter list shared by all events of one machine.
#[derive(Debug)]
pub struct ResourceParam {
    pub name: Vec<u8>,
    pub ty: Vec<u8>,
}

/// Mathematical view of a resource parameter.
#[verifier::ext_equal]
pub struct ResModel {
    pub name: Seq<u8>,
    pub ty: Seq<u8>,
}

impl View for ResourceParam {
    type V = ResModel;

    open spec fn view(&self) -> ResModel {
        ResModel { name: self.name@, ty: self.ty@ }
    }
}

impl DeepView for ResourceParam {
    type V = ResModel;

    open spec fn deep_view(&self) -> ResModel {
        self@
    }
}

/// One complete machine definition: its name, the ordered transition
/// list, the initial-state list, and the guard/action resource lists.
///
/// Invariant (`MachineSpec::wf`): the transition list or the
/// initial-state list is non-empty.
#[derive(Debug)]
pub struct MachineSpec {
    pub name: Vec<u8>,
    pub transitions: Vec<TransitionDecl>,
    pub initial_states: Vec<Vec<u8>>,
    pub guard_resources: Vec<ResourceParam>,
    pub action_resources: Vec<ResourceParam>,
}

/// Mathematical view of a machine definition.
#[verifier::ext_equal]
pub struct MachineModel {
    pub name: Seq<u8>,
    pub transitions: Seq<TransModel>,
    pub initial_states: Seq<Seq<u8>>,
    pub guard_resources: Seq<ResModel>,
    pub action_resources: Seq<ResModel>,
}

impl View for MachineSpec {
    type V = MachineModel;

    open spec fn view(&self) -> MachineModel {
        MachineModel {
            name: self.name@,
            transitions: self.transitions.deep_view(),
            initial_states: self.initial_states.deep_view(),
            guard_resources: self.guard_resources.deep_view(),
            action_resources: self.action_resources.deep_view(),
        }
    }
}

impl DeepView for MachineSpec {
    type V = MachineModel;

    open spec fn deep_view(&self) -> MachineModel {
        self@
    }
}

impl MachineModel {
    /// A machine definition declares at least one transition or at
    /// least one initial state.
    pub open spec fn wf(self) -> bool {
        self.transitions.len() > 0 || self.initial_states.len() > 0
    }
}

impl MachineSpec {
    /// A machine definition declares at least one transition or at
    /// least one initial state.
    pub open spec fn wf(self) -> bool {
        self@.wf()
    }
}

/// One distinguishable `(state, producing-event)` case of a machine's
/// exhaustive enumeration.  An initial state `S` yields the case
/// `InitialS` with the no-event sentinel (`event` empty); a transition
/// targeting `S` on event `E` yields the case `SByE`.  Cases are
/// deduplicated by tag, first occurrence wins.
#[derive(Debug)]
pub struct Variant {
    pub tag: Vec<u8>,
    pub state: Vec<u8>,
    pub event: Option<Vec<u8>>,
}

/// Mathematical view of a variant.
#[verifier::ext_equal]
pub struct VariantModel {
    pub tag: Seq<u8>,
    pub state: Seq<u8>,
    pub event: Option<Seq<u8>>,
}

impl View for Variant {
    type V = VariantModel;

    open spec fn view(&self) -> VariantModel {
        VariantModel {
            tag: self.tag@,
            state: self.state@,
            event: match self.event {
                Option::Some(e) => Option::Some(e@),
                Option::None => Option::None,
            },
        }
    }
}

impl DeepView for Variant {
    type V = VariantModel;

    open spec fn deep_view(&self) -> VariantModel {
        self@
    }
}

/// A filtered sequence holds exactly the members that pass the
/// predicate.
pub proof fn lemma_filter_members<A>(s: Seq<A>, pred: spec_fn(A) -> bool)
    ensures
        forall|x: A| #[trigger] s.filter(pred).contains(x) <==> (s.contains(x) && pred(x)),
    decreases s.len(),
{
    reveal(Seq::filter);
    if s.len() == 0 {
    } else {
        let prefix = s.drop_last();
        lemma_filter_members(prefix, pred);
        assert forall|x: A| #[trigger] s.filter(pred).contains(x) implies (s.contains(x) && pred(
            x,
        )) by {
            if prefix.filter(pred).contains(x) {
                let i = choose|i: int| 0 <= i < prefix.len() && prefix[i] == x;
                assert(s[i] == x);
            } else {
                assert(pred(s.last()) && s.filter(pred).last() == s.last() && x == s.last());
                assert(s[s.len() - 1] == x);
            }
        }
        assert forall|x: A| s.contains(x) && pred(x) implies #[trigger] s.filter(pred).contains(
            x,
        ) by {
            let i = choose|i: int| 0 <= i < s.len() && s[i] == x;
            if i < s.len() - 1 {
                assert(prefix[i] == x);
                assert(prefix.filter(pred).contains(x));
                let j = choose|j: int| 0 <= j < prefix.filter(pred).len() && prefix.filter(pred)[j]
                    == x;
                assert(s.filter(pred)[j] == x);
            } else {
                assert(s.filter(pred).last() == x);
            }
        }
    }
}

/// The deep view of a byte vector is its view.
pub broadcast proof fn lemma_byte_vec_deep_view(v: Vec<u8>)
    ensures
        #[trigger] v.deep_view() == v@,
{
    assert(v.deep_view() =~= v@);
}

/// Pushing onto a vector pushes onto its deep view.
pub proof fn lemma_deep_view_push<T: DeepView>(pre: Vec<T>, post: Vec<T>, x: T)
    requires
        post@ == pre@.push(x),
    ensures
        post.deep_view() == pre.deep_view().push(x.deep_view()),
{
    assert(post.deep_view() =~= pre.deep_view().push(x.deep_view()));
}

/// Compares two identifiers byte for byte.
pub fn bytes_eq(a: &Vec<u8>, b: &Vec<u8>) -> (r: bool)
    ensures
        r == (a@ == b@),
{
    if a.len() != b.len() {
        return false;
    }
    let mut k: usize = 0;
    while k < a.len()
        invariant
            a.len() == b.len(),
            k <= a.len(),
            forall|j: int| 0 <= j < k ==> a@[j] == b@[j],
        decreases a.len() - k,
    {
        if a[k] != b[k] {
            return false;
        }
        k = k + 1;
    }
    proof {
        assert(a@ =~= b@);
    }
    true
}

/// Copies an identifier.
pub fn copy_name(a: &Vec<u8>) -> (r: Vec<u8>)
    ensures
        r@ == a@,
{
    let mut r: Vec<u8> = Vec::new();
    let mut k: usize = 0;
    while k < a.len()
        invariant
            k <= a.len(),
            r@ == a@.take(k as int),
        decreases a.len() - k,
    {
        r.push(a[k]);
        proof {
            assert(a@.take(k + 1 as int) =~= a@.take(k as int).push(a@[k as int]));
        }
        k = k + 1;
    }
    proof {
        assert(a@.take(a.len() as int) =~= a@);
    }
    r
}

/// Appends the bytes of `s` to `r`.
pub fn append_bytes(r: &mut Vec<u8>, s: &Vec<u8>)
    ensures
        final(r)@ == old(r)@ + s@,
{
    let mut k: usize = 0;
    while k < s.len()
        invariant
            k <= s.len(),
            r@ == old(r)@ + s@.take(k as int),
        decreases s.len() - k,
    {
        r.push(s[k]);
        proof {
            assert(old(r)@ + s@.take(k as int + 1)
                =~= (old(r)@ + s@.take(k as int)).push(s@[k as int]));
        }
        k = k + 1;
    }
    proof {
        assert(old(r)@ + s@.take(s.len() as int) =~= old(r)@ + s@);
    }
}

/// Copies a transition rule.
pub fn copy_transition(t: &TransitionDecl) -> (r: TransitionDecl)
    ensures
        r@ == t@,
{
    TransitionDecl { event: copy_name(&t.event), from: copy_name(&t.from), to: copy_name(&t.to) }
}

/// Copies a resource parameter.
pub fn copy_resource(p: &ResourceParam) -> (r: ResourceParam)
    ensures
        r@ == p@,
{
    ResourceParam { name: copy_name(&p.name), ty: copy_name(&p.ty) }
}

/// Copies a variant.
pub fn copy_variant(v: &Variant) -> (r: Variant)
    ensures
        r@ == v@,
{
    let event: Option<Vec<u8>> = match &v.event {
        Option::Some(e) => Option::Some(copy_name(e)),
        Option::None => Option::None,
    };
    Variant { tag: copy_name(&v.tag), state: copy_name(&v.state), event }
}

/// Copies a transition list.
pub fn copy_transitions(v: &Vec<TransitionDecl>) -> (r: Vec<TransitionDecl>)
    ensures
        r.deep_view() == v.deep_view(),
{
    let mut r: Vec<TransitionDecl> = Vec::new();
    let mut k: usize = 0;
    while k < v.len()
        invariant
            k <= v.len(),
            r.deep_view() =~= v.deep_view().take(k as int),
        decreases v.len() - k,
    {
        let c = copy_transition(&v[k]);
        let ghost cg = c;
        let ghost pre = r;
        r.push(c);
        proof {
            lemma_deep_view_push(pre, r, cg);
        }
        k = k + 1;
    }
    proof {
        assert(v.deep_view().take(v.len() as int) =~= v.deep_view());
    }
    r
}

/// Copies a resource-parameter list.
pub fn copy_resources(v: &Vec<ResourceParam>) -> (r: Vec<ResourceParam>)
    ensures
        r.deep_view() == v.deep_view(),
{
    let mut r: Vec<ResourceParam> = Vec::new();
    let mut k: usize = 0;
    while k < v.len()
        invariant
            k <= v.len(),
            r.deep_view() =~= v.deep_view().take(k as int),
        decreases v.len() - k,
    {
        let c = copy_resource(&v[k]);
        let ghost cg = c;
        let ghost pre = r;
        r.push(c);
        proof {
            lemma_deep_view_push(pre, r, cg);
        }
        k = k + 1;
    }
    proof {
        assert(v.deep_view().take(v.len() as int) =~= v.deep_view());
    }
    r
}

/// Whether a list of identifiers holds `n`, by name equality.
pub fn names_contain(v: &Vec<Vec<u8>>, n: &Vec<u8>) -> (r: bool)
    ensures
        r == v.deep_view().contains(n@),
{
    let mut k: usize = 0;
    while k < v.len()
        invariant
            k <= v.len(),
            forall|j: int| 0 <= j < k ==> v.deep_view()[j] != n@,
        decreases v.len() - k,
    {
        proof {
            lemma_byte_vec_deep_view(v@[k as int]);
        }
        if bytes_eq(&v[k], n) {
            assert(v.deep_view()[k as int] == n@);
            return true;
        }
        k = k + 1;
    }
    assert(!v.deep_view().contains(n@)) by {
        assert(forall|j: int| 0 <= j < v.deep_view().len() ==> v.deep_view()[j] != n@);
    }
    false
}

/// Copies a list of identifiers.
pub fn copy_names(v: &Vec<Vec<u8>>) -> (r: Vec<Vec<u8>>)
    ensures
        r.deep_view() == v.deep_view(),
{
    let mut r: Vec<Vec<u8>> = Vec::new();
    let mut k: usize = 0;
    while k < v.len()
        invariant
            k <= v.len(),
            r.deep_view() =~= v.deep_view().take(k as int),
        decreases v.len() - k,
    {
        let c = copy_name(&v[k]);
        let ghost cg = c;
        let ghost pre = r;
        r.push(c);
        proof {
            lemma_deep_view_push(pre, r, cg);
            lemma_byte_vec_deep_view(cg);
            lemma_byte_vec_deep_view(v@[k as int]);
            assert(v.deep_view().take(k as int + 1)
                =~= v.deep_view().take(k as int).push(v.deep_view()[k as int]));
        }
        k = k + 1;
    }
    proof {
        assert(v.deep_view().take(v.len() as int) =~= v.deep_view());
    }
    r
}

} // verus!
