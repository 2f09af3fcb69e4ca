//! Everything that the proxy knows.

use vstd::prelude::*;

use super::service::{ServiceStore, ServicesModel};
use super::workload::{Identity, Workload, WorkloadInfo};
use crate::rbac::chain::TrafficPolicy;
use crate::rbac::store::TrafficPolicyStore;
use crate::sandbox::store::{SandboxStore, StoreModel};
use crate::table::{keyed, lists, without, Table};
use crate::text::same_text;

verus! {

/// Workloads by identifier.
pub struct WorkloadStore {
    workloads: Table<String, Workload>,
}

impl View for WorkloadStore {
    type V = Map<Seq<char>, Workload>;

    closed spec fn view(&self) -> Map<Seq<char>, Workload> {
        self.workloads@
    }
}

/// Whether a workload with this identity runs on the node.
pub open spec fn identity_on_node(
    workloads: Map<Seq<char>, Workload>,
    node: Seq<char>,
    identity: (Seq<char>, Seq<char>, Seq<char>),
) -> bool {
    exists|uid: Seq<char>| #[trigger]
        workloads.dom().contains(uid) && workloads[uid].node@ == node
            && workloads[uid].spec_identity() == identity
}

/// The first workload of the list that the description fits.
pub open spec fn first_described(
    list: Seq<(Seq<char>, Workload)>,
    info: WorkloadInfo,
    from: nat,
) -> Option<Workload>
    decreases list.len() - from,
{
    if from >= list.len() {
        None
    } else if list[from as int].1.is_described_by(info) {
        Some(list[from as int].1)
    } else {
        first_described(list, info, from + 1)
    }
}

impl WorkloadStore {
    /// The workloads with their identifiers, in the order in which they were last put.
    pub closed spec fn listed(self) -> Seq<(Seq<char>, Workload)> {
        self.workloads.listed()
    }

    /// The workload that is taken for the description: of those that it fits, the first
    /// in order.
    pub open spec fn taken_for(self, info: WorkloadInfo) -> Option<Workload> {
        first_described(self.listed(), info, 0)
    }

    /// No workloads yet.
    pub fn new() -> (r: WorkloadStore)
        ensures
            r@ == Map::<Seq<char>, Workload>::empty(),
            r.listed() == Seq::<(Seq<char>, Workload)>::empty(),
    {
        WorkloadStore { workloads: Table::new() }
    }

    /// All workloads, each with its identifier.
    pub fn entries(&self) -> (r: &Vec<(String, Workload)>)
        ensures
            lists(r@, self@),
    {
        self.workloads.entries()
    }

    /// The workload of this identifier.
    pub fn find_uid(&self, uid: &String) -> (r: Option<&Workload>)
        ensures
            r == (if self@.dom().contains(uid@) {
                Some(&self@[uid@])
            } else {
                None
            }),
    {
        self.workloads.get(uid)
    }

    /// The first workload, in order, that the description fits.
    pub fn find_by_info(&self, info: &WorkloadInfo) -> (r: Option<&Workload>)
        ensures
            match r {
                Some(workload) => {
                    &&& self.taken_for(*info) == Some(*workload)
                    &&& workload.is_described_by(*info)
                    &&& exists|uid: Seq<char>| #[trigger]
                        self@.dom().contains(uid) && self@[uid] == *workload
                },
                None => {
                    &&& self.taken_for(*info) is None
                    &&& forall|uid: Seq<char>| #[trigger]
                        self@.dom().contains(uid) ==> !self@[uid].is_described_by(*info)
                },
            },
    {
        let all: &Vec<(String, Workload)> = self.workloads.entries();
        let mut i: usize = 0;
        while i < all.len()
            invariant
                i <= all@.len(),
                lists(all@, self@),
                keyed(all@) == self.listed(),
                self.taken_for(*info) == first_described(self.listed(), *info, i as nat),
                forall|k: int| 0 <= k < i ==> !(#[trigger] all@[k]).1.is_described_by(*info),
            decreases all@.len() - i,
        {
            assert(self.listed()[i as int].1 == all@[i as int].1);
            if all[i].1.fits(info) {
                assert(self@.dom().contains(all@[i as int].0@));
                return Some(&all[i].1);
            }
            i = i + 1;
        }
        assert forall|uid: Seq<char>| #[trigger]
            self@.dom().contains(uid) implies !self@[uid].is_described_by(*info) by {
            let k = choose|k: int| 0 <= k < all@.len() && (#[trigger] all@[k]).0@ == uid;
            assert(!all@[k].1.is_described_by(*info));
        }
        None
    }

    /// Puts a workload in place of the one of the same identifier.
    pub fn insert(&mut self, workload: Workload)
        ensures
            final(self)@ == old(self)@.insert(workload.uid@, workload),
            final(self).listed() == without(old(self).listed(), workload.uid@).push(
                (workload.uid@, workload),
            ),
    {
        let uid: String = workload.uid.clone();
        self.workloads.insert(uid, workload);
    }

    /// Takes a workload out.
    pub fn remove(&mut self, uid: &String) -> (r: Option<Workload>)
        ensures
            final(self)@ == old(self)@.remove(uid@),
            final(self).listed() == without(old(self).listed(), uid@),
            r == (if old(self)@.dom().contains(uid@) {
                Some(old(self)@[uid@])
            } else {
                None
            }),
    {
        self.workloads.remove(uid)
    }

    /// Whether no workload with this identity is left on the node.
    pub fn was_last_identity_on_node(&self, node: &str, identity: &Identity) -> (r: bool)
        ensures
            r == !identity_on_node(self@, node@, identity@),
    {
        let all: &Vec<(String, Workload)> = self.workloads.entries();
        let mut i: usize = 0;
        while i < all.len()
            invariant
                i <= all@.len(),
                lists(all@, self@),
                forall|k: int|
                    0 <= k < i ==> !((#[trigger] all@[k]).1.node@ == node@
                        && all@[k].1.spec_identity() == identity@),
            decreases all@.len() - i,
        {
            if same_text(all[i].1.node.as_str(), node) && all[i].1.identity().same(identity) {
                assert(self@.dom().contains(all@[i as int].0@));
                return false;
            }
            i = i + 1;
        }
        proof {
            if identity_on_node(self@, node@, identity@) {
                let uid = choose|uid: Seq<char>| #[trigger]
                    self@.dom().contains(uid) && self@[uid].node@ == node@
                        && self@[uid].spec_identity() == identity@;
                let k = choose|k: int| 0 <= k < all@.len() && (#[trigger] all@[k]).0@ == uid;
                assert(all@[k].1.node@ == node@);
            }
        }
        true
    }
}

/// Everything that the proxy knows.
pub struct ProxyState {
    pub workloads: WorkloadStore,
    pub services: ServiceStore,
    pub sandboxes: SandboxStore,
    pub policies: TrafficPolicyStore,
}

impl ProxyState {
    /// Nothing yet.
    pub fn new() -> (r: ProxyState)
        ensures
            r.is_empty(),
    {
        ProxyState {
            workloads: WorkloadStore::new(),
            services: ServiceStore::new(),
            sandboxes: SandboxStore::new(),
            policies: TrafficPolicyStore::new(),
        }
    }

    /// Nothing is known.
    pub open spec fn is_empty(self) -> bool {
        &&& self.workloads@ == Map::<Seq<char>, Workload>::empty()
        &&& self.services@ == no_services()
        &&& self.sandboxes@ == no_sandboxes()
        &&& self.policies@ == Map::<Seq<char>, TrafficPolicy>::empty()
    }
}

/// No services and no endpoints.
pub open spec fn no_services() -> ServicesModel {
    ServicesModel { services: Map::empty(), endpoints: Seq::empty() }
}

/// No sandboxes.
pub open spec fn no_sandboxes() -> StoreModel {
    StoreModel { resources: Map::empty(), bound: Map::empty() }
}

/// Of the workloads that a description fits, the first in order is taken; where it fits
/// none, none is.
pub proof fn law_first_described(list: Seq<(Seq<char>, Workload)>, info: WorkloadInfo, from: nat, i: int)
    requires
        from <= i < list.len(),
    ensures
        list[i].1.is_described_by(info) && (forall|k: int|
            from <= k < i ==> !(#[trigger] list[k]).1.is_described_by(info)) ==> first_described(
            list,
            info,
            from,
        ) == Some(list[i].1),
        (forall|k: int| from <= k < list.len() ==> !(#[trigger] list[k]).1.is_described_by(info))
            ==> first_described(list, info, from) is None,
    decreases list.len() - from,
{
    if !list[from as int].1.is_described_by(info) {
        if i > from {
            law_first_described(list, info, from + 1, i);
        } else if from + 1 < list.len() {
            law_first_described(list, info, from + 1, from as int + 1);
        }
    }
}

/// A node has an identity exactly where a workload on it has its trust domain, its
/// namespace and its service account.
pub proof fn law_identities_on_a_node(
    workloads: Map<Seq<char>, Workload>,
    node: Seq<char>,
    identity: (Seq<char>, Seq<char>, Seq<char>),
)
    ensures
        identity_on_node(workloads, node, identity) <==> exists|uid: Seq<char>|
            {
                &&& #[trigger] workloads.dom().contains(uid)
                &&& workloads[uid].node@ == node
                &&& workloads[uid].trust_domain@ == identity.0
                &&& workloads[uid].namespace@ == identity.1
                &&& workloads[uid].service_account@ == identity.2
            },
{
    if identity_on_node(workloads, node, identity) {
        let uid = choose|uid: Seq<char>| #[trigger]
            workloads.dom().contains(uid) && workloads[uid].node@ == node
                && workloads[uid].spec_identity() == identity;
        assert(workloads.dom().contains(uid));
    }
}

} // verus!
