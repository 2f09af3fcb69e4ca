//! The sandboxes that were accepted, and which of them run in which workload.

use vstd::prelude::*;

use super::discovery::{message_fault, sandbox_is, Sandbox, SandboxError, SandboxFault, SandboxMessage};
use crate::index::{ids_of, lemma_rebound, lemma_rebound_unique, rebound, Index};
use crate::rbac::chain::{RuleContent, TrafficPolicy};
use crate::rbac::store::{law_policies_that_say_the_same, same_rules};
use crate::table::{lists, Table};
use crate::text::{copy_opt, opt_view, same_list, same_opt, same_text, views};

verus! {

/// The sandboxes by identifier, and the identifiers of each workload's sandboxes in
/// the order in which they were bound.
pub struct StoreModel {
    pub resources: Map<Seq<char>, Sandbox>,
    pub bound: Map<Seq<char>, Seq<Seq<char>>>,
}

/// The workload that the known sandbox of this identifier is bound to.
pub open spec fn known_workload(model: StoreModel, id: Seq<char>) -> Option<Seq<char>> {
    if model.resources.dom().contains(id) {
        opt_view(model.resources[id].workload_uid)
    } else {
        None
    }
}

/// The store with a sandbox in place of the one of the same identifier. The order of
/// the bindings changes only where the workload does.
pub open spec fn inserted(model: StoreModel, sandbox: Sandbox) -> StoreModel {
    StoreModel {
        resources: model.resources.insert(sandbox.uid@, sandbox),
        bound: rebound(
            model.bound,
            known_workload(model, sandbox.uid@),
            opt_view(sandbox.workload_uid),
            sandbox.uid@,
        ),
    }
}

/// The store without a sandbox.
pub open spec fn removed(model: StoreModel, id: Seq<char>) -> StoreModel {
    StoreModel {
        resources: model.resources.remove(id),
        bound: rebound(model.bound, known_workload(model, id), None, id),
    }
}

/// What a policy says, where there is one.
pub open spec fn policy_content(policy: Option<TrafficPolicy>) -> Option<
    (Option<Seq<RuleContent>>, Option<Seq<RuleContent>>),
> {
    match policy {
        Some(policy) => Some(policy@),
        None => None,
    }
}

/// Whether the sandbox changes which policies apply to whom.
pub open spec fn changes_policies(model: StoreModel, sandbox: Sandbox) -> bool {
    !model.resources.dom().contains(sandbox.uid@) || {
        let known = model.resources[sandbox.uid@];
        ||| opt_view(known.workload_uid) != opt_view(sandbox.workload_uid)
        ||| policy_content(known.traffic_policy) != policy_content(sandbox.traffic_policy)
        ||| views(known.traffic_policy_refs@) != views(sandbox.traffic_policy_refs@)
    }
}

/// Each sandbox that names a workload is bound to it, once, and nothing else is.
pub open spec fn consistent(model: StoreModel) -> bool {
    &&& forall|id: Seq<char>| #[trigger]
        model.resources.dom().contains(id) ==> model.resources[id].uid@ == id
    &&& forall|w: Seq<char>| #[trigger]
        model.bound.dom().contains(w) ==> model.bound[w].len() > 0
            && model.bound[w].no_duplicates()
    &&& forall|w: Seq<char>, id: Seq<char>|
        #![trigger ids_of(model.bound, w).contains(id)]
        ids_of(model.bound, w).contains(id) == (known_workload(model, id) == Some(w))
}

/// Whatever is inserted, the store stays consistent.
pub proof fn law_insert_keeps_the_store_consistent(model: StoreModel, sandbox: Sandbox)
    requires
        consistent(model),
    ensures
        consistent(inserted(model, sandbox)),
{
    let id = sandbox.uid@;
    let from = known_workload(model, id);
    let to = opt_view(sandbox.workload_uid);
    let next = inserted(model, sandbox);
    assert forall|v: Seq<char>| #[trigger] ids_of(model.bound, v).contains(id) == (from == Some(
        v,
    )) by {}
    lemma_rebound_unique(model.bound, from, to, id);
    assert forall|w: Seq<char>, x: Seq<char>|
        #![trigger ids_of(next.bound, w).contains(x)]
        ids_of(next.bound, w).contains(x) == (known_workload(next, x) == Some(w)) by {
        lemma_rebound(model.bound, from, to, id, w, x);
        assert(ids_of(model.bound, w).contains(x) == (known_workload(model, x) == Some(w)));
    }
    assert forall|x: Seq<char>| #[trigger] next.resources.dom().contains(x) implies next.resources[x].uid@
        == x by {
        if x != id {
            assert(model.resources.dom().contains(x));
        }
    }
}

/// Whatever is removed, the store stays consistent.
pub proof fn law_remove_keeps_the_store_consistent(model: StoreModel, id: Seq<char>)
    requires
        consistent(model),
    ensures
        consistent(removed(model, id)),
{
    let from = known_workload(model, id);
    let next = removed(model, id);
    assert forall|v: Seq<char>| #[trigger] ids_of(model.bound, v).contains(id) == (from == Some(
        v,
    )) by {}
    lemma_rebound_unique(model.bound, from, None, id);
    assert forall|w: Seq<char>, x: Seq<char>|
        #![trigger ids_of(next.bound, w).contains(x)]
        ids_of(next.bound, w).contains(x) == (known_workload(next, x) == Some(w)) by {
        lemma_rebound(model.bound, from, None, id, w, x);
        assert(ids_of(model.bound, w).contains(x) == (known_workload(model, x) == Some(w)));
    }
    assert forall|x: Seq<char>| #[trigger] next.resources.dom().contains(x) implies next.resources[x].uid@
        == x by {
        assert(model.resources.dom().contains(x));
    }
}

/// An update that does not move the sandbox keeps the order of all bindings.
pub proof fn law_update_keeps_the_order(model: StoreModel, sandbox: Sandbox)
    requires
        known_workload(model, sandbox.uid@) == opt_view(sandbox.workload_uid),
    ensures
        inserted(model, sandbox).bound == model.bound,
{
}

/// A sandbox that moves stands behind those that were bound to the workload before.
pub proof fn law_moved_sandbox_comes_last(model: StoreModel, sandbox: Sandbox, workload: Seq<char>)
    requires
        opt_view(sandbox.workload_uid) == Some(workload),
        known_workload(model, sandbox.uid@) != Some(workload),
    ensures
        ids_of(inserted(model, sandbox).bound, workload) == ids_of(model.bound, workload).push(
            sandbox.uid@,
        ),
{
    assert(ids_of(inserted(model, sandbox).bound, workload) =~= ids_of(model.bound, workload).push(
        sandbox.uid@,
    ));
}

struct Inner {
    resources: Table<String, Sandbox>,
    by_workload: Index,
}

/// The sandboxes that were accepted.
pub struct SandboxStore {
    inner: Inner,
}

impl Inner {
    spec fn model(self) -> StoreModel {
        StoreModel { resources: self.resources@, bound: self.by_workload@ }
    }
}

impl View for SandboxStore {
    type V = StoreModel;

    closed spec fn view(&self) -> StoreModel {
        self.inner.model()
    }
}

fn same_policy(a: &Option<TrafficPolicy>, b: &Option<TrafficPolicy>) -> (r: bool)
    ensures
        r == (policy_content(*a) == policy_content(*b)),
{
    match (a, b) {
        (Some(a), Some(b)) => a.same(b),
        (None, None) => true,
        _ => false,
    }
}

/// The sandbox that stands for a workload, where there is one.
pub open spec fn is_fetched(
    model: StoreModel,
    workload: Seq<char>,
    fetched: Option<&Sandbox>,
) -> bool {
    match fetched {
        Some(sandbox) => ids_of(model.bound, workload).len() > 0 && *sandbox
            == model.resources[ids_of(model.bound, workload)[0]],
        None => ids_of(model.bound, workload).len() == 0,
    }
}

impl SandboxStore {
    #[verifier::type_invariant]
    spec fn well_formed(self) -> bool {
        consistent(self.inner.model())
    }

    /// No sandboxes yet.
    pub fn new() -> (r: SandboxStore)
        ensures
            r@.resources == Map::<Seq<char>, Sandbox>::empty(),
            r@.bound == Map::<Seq<char>, Seq<Seq<char>>>::empty(),
    {
        let inner: Inner = empty_inner();
        proof {
            lemma_empty_is_consistent(inner.model());
        }
        SandboxStore { inner }
    }

    /// All sandboxes, each with its identifier.
    pub fn entries(&self) -> (r: &Vec<(String, Sandbox)>)
        ensures
            lists(r@, self@.resources),
    {
        self.inner.resources.entries()
    }

    /// Stores the sandbox that the control plane sent, and says whether it changes
    /// which policies apply to whom. One that is not accepted leaves everything as
    /// it was.
    pub fn update(&mut self, name: &str, message: SandboxMessage) -> (r: Result<
        bool,
        SandboxError,
    >)
        ensures
            match r {
                Ok(changed) => {
                    &&& message.uid@ == name@
                    &&& message_fault(message) is None
                    &&& exists|sandbox: Sandbox| #[trigger]
                        sandbox_is(sandbox, message) && final(self)@ == inserted(
                            old(self)@,
                            sandbox,
                        ) && changed == changes_policies(old(self)@, sandbox)
                },
                Err(e) => {
                    &&& final(self)@ == old(self)@
                    &&& e@ == (if message.uid@ != name@ {
                        SandboxFault::NameDiffers
                    } else {
                        message_fault(message).unwrap()
                    })
                    &&& message.uid@ != name@ || message_fault(message) is Some
                },
            },
    {
        if !same_text(message.uid.as_str(), name) {
            return Err(SandboxError::NameDiffers);
        }
        match Sandbox::try_from(message) {
            Ok(sandbox) => {
                let ghost accepted = sandbox;
                let changed: bool = self.insert(sandbox);
                assert(sandbox_is(accepted, message));
                Ok(changed)
            },
            Err(e) => Err(e),
        }
    }

    /// Stores a sandbox, and says whether it changes which policies apply to whom.
    pub fn insert(&mut self, sandbox: Sandbox) -> (r: bool)
        ensures
            final(self)@ == inserted(old(self)@, sandbox),
            r == changes_policies(old(self)@, sandbox),
            consistent(final(self)@),
    {
        proof {
            use_type_invariant(&*self);
            law_insert_keeps_the_store_consistent(self@, sandbox);
        }
        let ghost start = self@;
        let mut inner: Inner = empty_inner();
        proof {
            lemma_empty_is_consistent(inner.model());
        }
        std::mem::swap(&mut inner, &mut self.inner);
        let mut changed: bool = true;
        let mut from: Option<String> = None;
        if let Some(known) = inner.resources.get(&sandbox.uid) {
            from = copy_opt(&known.workload_uid);
            changed = !same_opt(&known.workload_uid, &sandbox.workload_uid) || !same_policy(
                &known.traffic_policy,
                &sandbox.traffic_policy,
            ) || !same_list(
                known.traffic_policy_refs.as_slice(),
                sandbox.traffic_policy_refs.as_slice(),
            );
        }
        proof {
            assert(opt_view(from) == known_workload(start, sandbox.uid@));
            if let Some(w) = opt_view(from) {
                assert(ids_of(start.bound, w).contains(sandbox.uid@));
            }
        }
        inner.by_workload.rebind(&from, &sandbox.workload_uid, &sandbox.uid);
        let uid: String = sandbox.uid.clone();
        inner.resources.insert(uid, sandbox);
        assert(inner.model().resources =~= inserted(start, sandbox).resources);
        self.inner = inner;
        changed
    }

    /// Forgets a sandbox, and says whether there was one.
    pub fn remove(&mut self, name: &String) -> (r: bool)
        ensures
            final(self)@ == removed(old(self)@, name@),
            r == old(self)@.resources.dom().contains(name@),
            consistent(final(self)@),
    {
        proof {
            use_type_invariant(&*self);
            law_remove_keeps_the_store_consistent(self@, name@);
        }
        let ghost start = self@;
        let mut inner: Inner = empty_inner();
        proof {
            lemma_empty_is_consistent(inner.model());
        }
        std::mem::swap(&mut inner, &mut self.inner);
        let mut known: bool = false;
        let mut from: Option<String> = None;
        if let Some(sandbox) = inner.resources.remove(name) {
            known = true;
            from = sandbox.workload_uid;
        }
        proof {
            assert(opt_view(from) == known_workload(start, name@));
            if let Some(w) = opt_view(from) {
                assert(ids_of(start.bound, w).contains(name@));
            }
        }
        inner.by_workload.rebind(&from, &None, name);
        self.inner = inner;
        known
    }

    /// The sandbox of this identifier.
    pub fn get(&self, id: &String) -> (r: Option<&Sandbox>)
        ensures
            r == (if self@.resources.dom().contains(id@) {
                Some(&self@.resources[id@])
            } else {
                None
            }),
    {
        self.inner.resources.get(id)
    }

    /// The sandboxes that run in a workload, in the order in which they were bound.
    pub fn get_by_workload(&self, workload: &String) -> (r: Vec<&Sandbox>)
        ensures
            consistent(self@),
            r@.len() == ids_of(self@.bound, workload@).len(),
            forall|i: int|
                0 <= i < r@.len() ==> *(#[trigger] r@[i]) == self@.resources[ids_of(
                    self@.bound,
                    workload@,
                )[i]],
    {
        proof {
            use_type_invariant(self);
        }
        let ghost all = ids_of(self@.bound, workload@);
        let mut out: Vec<&Sandbox> = Vec::new();
        if let Some(ids) = self.inner.by_workload.get(workload) {
            assert(all == views(ids@));
            let mut i: usize = 0;
            while i < ids.len()
                invariant
                    i <= ids@.len(),
                    all == views(ids@),
                    all == ids_of(self@.bound, workload@),
                    consistent(self@),
                    self@ == self.inner.model(),
                    out@.len() == i,
                    forall|k: int|
                        0 <= k < i ==> *(#[trigger] out@[k]) == self@.resources[all[k]],
                decreases ids@.len() - i,
            {
                assert(all[i as int] == ids@[i as int]@);
                assert(all.contains(all[i as int]));
                match self.inner.resources.get(&ids[i]) {
                    Some(sandbox) => {
                        out.push(sandbox);
                    },
                    None => {
                        assert(false);
                    },
                }
                i = i + 1;
            }
        }
        out
    }

    /// The sandbox that stands for a workload: the one bound to it first.
    pub fn fetch_sandbox(&self, workload: &String) -> (r: Option<&Sandbox>)
        ensures
            is_fetched(self@, workload@, r),
    {
        let bound: Vec<&Sandbox> = self.get_by_workload(workload);
        if bound.len() > 0 {
            Some(bound[0])
        } else {
            None
        }
    }
}

fn empty_inner() -> (r: Inner)
    ensures
        r.model().resources == Map::<Seq<char>, Sandbox>::empty(),
        r.model().bound == Map::<Seq<char>, Seq<Seq<char>>>::empty(),
{
    let inner: Inner = Inner { resources: Table::new(), by_workload: Index::new() };
    assert(inner.model().bound =~= Map::empty());
    inner
}

proof fn lemma_empty_is_consistent(model: StoreModel)
    requires
        model.resources == Map::<Seq<char>, Sandbox>::empty(),
        model.bound == Map::<Seq<char>, Seq<Seq<char>>>::empty(),
    ensures
        consistent(model),
{
}

/// A sandbox takes the place of the one of its identifier and no other; one that goes
/// takes no other with it.
pub proof fn law_sandboxes_take_their_places(model: StoreModel, sandbox: Sandbox, id: Seq<char>)
    ensures
        inserted(model, sandbox).resources.dom() == model.resources.dom().insert(sandbox.uid@),
        inserted(model, sandbox).resources[sandbox.uid@] == sandbox,
        id != sandbox.uid@ ==> inserted(model, sandbox).resources[id] == model.resources[id],
        removed(model, sandbox.uid@).resources.dom() == model.resources.dom().remove(sandbox.uid@),
        id != sandbox.uid@ ==> removed(model, sandbox.uid@).resources[id] == model.resources[id],
{
}

/// A sandbox changes which policies apply to whom exactly where it is new, or differs
/// from the one before in its workload, its own policy or its references. Its routes and
/// its rules on server names have no say in that.
pub proof fn law_what_changes_policies(model: StoreModel, sandbox: Sandbox)
    ensures
        !model.resources.dom().contains(sandbox.uid@) ==> changes_policies(model, sandbox),
        model.resources.dom().contains(sandbox.uid@) ==> (changes_policies(model, sandbox) <==> {
            let known = model.resources[sandbox.uid@];
            ||| known.workload_uid is Some != sandbox.workload_uid is Some
            ||| known.workload_uid is Some && known.workload_uid.unwrap()@
                != sandbox.workload_uid.unwrap()@
            ||| known.traffic_policy is Some != sandbox.traffic_policy is Some
            ||| known.traffic_policy is Some && !(same_rules(
                known.traffic_policy.unwrap().ingress,
                sandbox.traffic_policy.unwrap().ingress,
            ) && same_rules(
                known.traffic_policy.unwrap().egress,
                sandbox.traffic_policy.unwrap().egress,
            ))
            ||| known.traffic_policy_refs@.len() != sandbox.traffic_policy_refs@.len()
            ||| exists|i: int|
                0 <= i < known.traffic_policy_refs@.len() && (
                #[trigger] known.traffic_policy_refs@[i])@ != sandbox.traffic_policy_refs@[i]@
        }),
{
    if model.resources.dom().contains(sandbox.uid@) {
        let known = model.resources[sandbox.uid@];
        if known.traffic_policy is Some && sandbox.traffic_policy is Some {
            law_policies_that_say_the_same(
                known.traffic_policy.unwrap(),
                sandbox.traffic_policy.unwrap(),
            );
        }
        let a = views(known.traffic_policy_refs@);
        let b = views(sandbox.traffic_policy_refs@);
        if a == b {
            assert(a.len() == known.traffic_policy_refs@.len());
            assert forall|i: int| 0 <= i < known.traffic_policy_refs@.len() implies (
            #[trigger] known.traffic_policy_refs@[i])@ == sandbox.traffic_policy_refs@[i]@ by {
                assert(a[i] == b[i]);
            }
        } else if known.traffic_policy_refs@.len() == sandbox.traffic_policy_refs@.len() {
            assert(!(a =~= b));
            let i = choose|i: int| 0 <= i < a.len() && a[i] != b[i];
            assert(known.traffic_policy_refs@[i]@ != sandbox.traffic_policy_refs@[i]@);
        }
    }
}

/// The sandbox that stands for a workload is one that names it; a workload has none
/// exactly where no sandbox names it.
pub proof fn law_sandbox_of_a_workload(
    model: StoreModel,
    workload: Seq<char>,
    fetched: Option<&Sandbox>,
    id: Seq<char>,
)
    requires
        consistent(model),
        is_fetched(model, workload, fetched),
    ensures
        fetched matches Some(sandbox) ==> {
            &&& opt_view(sandbox.workload_uid) == Some(workload)
            &&& model.resources.dom().contains(sandbox.uid@)
            &&& model.resources[sandbox.uid@] == *sandbox
        },
        fetched is None ==> known_workload(model, id) != Some(workload),
{
    let ids = ids_of(model.bound, workload);
    if ids.len() > 0 {
        assert(ids.contains(ids[0]));
        assert(ids_of(model.bound, workload).contains(ids[0]));
        assert(known_workload(model, ids[0]) == Some(workload));
    } else {
        assert(!ids_of(model.bound, workload).contains(id));
    }
}

} // verus!
