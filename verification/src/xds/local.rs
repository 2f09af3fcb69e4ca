//! A configuration file in place of the control plane: it is taken whole or not at
//! all.

use vstd::prelude::*;

use super::{
    bad_service, insert_service_endpoints, with_endpoints, ServicePorts, UpdateError,
};
use crate::rbac::chain::TrafficPolicy;
use crate::rbac::policy::RuleError;
use crate::rbac::store::{StoreError, TrafficPolicyStore};
use crate::sandbox::discovery::{sandbox_fault, Sandbox, SandboxFault};
use crate::sandbox::store::{inserted, SandboxStore, StoreModel};
use crate::state::service::{with_service, Service, ServiceStore, ServicesModel};
use crate::state::store::{no_sandboxes, no_services, ProxyState, WorkloadStore};
use crate::state::workload::{Identity, Workload};

verus! {

/// A workload and the services that it serves.
#[derive(Clone, Debug, PartialEq, Eq)]
pub struct LocalWorkload {
    pub workload: Workload,
    pub services: ServicePorts,
}

/// Everything that a configuration file says. No name stands in `policies` twice.
#[derive(Clone, Debug, PartialEq, Eq)]
pub struct LocalConfig {
    pub workloads: Vec<LocalWorkload>,
    pub services: Vec<Service>,
    pub sandboxes: Vec<Sandbox>,
    pub policies: Vec<(String, TrafficPolicy)>,
}

impl Default for LocalConfig {
    fn default() -> (r: Self)
        ensures
            r.workloads@.len() == 0,
            r.services@.len() == 0,
            r.sandboxes@.len() == 0,
            r.policies@.len() == 0,
    {
        LocalConfig {
            workloads: Vec::new(),
            services: Vec::new(),
            sandboxes: Vec::new(),
            policies: Vec::new(),
        }
    }
}

/// Why a configuration is not accepted, as mathematics has it.
pub enum LoadFault {
    InvalidPolicy(RuleError),
    EmptyName,
    Sandbox(SandboxFault),
    DuplicateSandbox(Seq<char>),
    ServiceName(Seq<char>),
}

/// The error is this fault.
pub open spec fn error_is(error: UpdateError, fault: LoadFault) -> bool {
    match (error, fault) {
        (UpdateError::InvalidPolicy(e), LoadFault::InvalidPolicy(f)) => e == f,
        (UpdateError::Policy(StoreError::EmptyName), LoadFault::EmptyName) => true,
        (UpdateError::Sandbox(e), LoadFault::Sandbox(f)) => e@ == f,
        (UpdateError::DuplicateSandbox(uid), LoadFault::DuplicateSandbox(f)) => uid@ == f,
        (UpdateError::ServiceName(name), LoadFault::ServiceName(f)) => name@ == f,
        _ => false,
    }
}

/// What is wrong with a policy under its name.
pub open spec fn entry_fault(name: Seq<char>, policy: TrafficPolicy) -> Option<LoadFault> {
    if policy.unfit() is Some {
        Some(LoadFault::InvalidPolicy(policy.unfit().unwrap()))
    } else if name.len() == 0 {
        Some(LoadFault::EmptyName)
    } else {
        None
    }
}

/// What is wrong with the first policy that is not accepted, from this one on.
pub open spec fn policies_fault(policies: Seq<(String, TrafficPolicy)>, from: nat) -> Option<
    LoadFault,
>
    decreases policies.len() - from,
{
    if from >= policies.len() {
        None
    } else if entry_fault(policies[from as int].0@, policies[from as int].1) is Some {
        entry_fault(policies[from as int].0@, policies[from as int].1)
    } else {
        policies_fault(policies, from + 1)
    }
}

/// The policies by name.
pub open spec fn policies_of(policies: Seq<(String, TrafficPolicy)>) -> Map<
    Seq<char>,
    TrafficPolicy,
>
    decreases policies.len(),
{
    if policies.len() == 0 {
        Map::empty()
    } else {
        policies_of(policies.drop_last()).insert(policies.last().0@, policies.last().1)
    }
}

/// Whether one of the sandboxes has this identifier.
pub open spec fn has_uid(sandboxes: Seq<Sandbox>, uid: Seq<char>) -> bool {
    exists|i: int| 0 <= i < sandboxes.len() && (#[trigger] sandboxes[i]).uid@ == uid
}

/// What is wrong with the first sandbox that is not accepted, from this one on.
pub open spec fn sandboxes_fault(sandboxes: Seq<Sandbox>, from: nat) -> Option<LoadFault>
    decreases sandboxes.len() - from,
{
    if from >= sandboxes.len() {
        None
    } else if sandbox_fault(sandboxes[from as int]) is Some {
        Some(LoadFault::Sandbox(sandbox_fault(sandboxes[from as int]).unwrap()))
    } else if has_uid(sandboxes.take(from as int), sandboxes[from as int].uid@) {
        Some(LoadFault::DuplicateSandbox(sandboxes[from as int].uid@))
    } else {
        sandboxes_fault(sandboxes, from + 1)
    }
}

/// The sandboxes, stored in their order.
pub open spec fn sandboxes_of(sandboxes: Seq<Sandbox>) -> StoreModel
    decreases sandboxes.len(),
{
    if sandboxes.len() == 0 {
        no_sandboxes()
    } else {
        inserted(sandboxes_of(sandboxes.drop_last()), sandboxes.last())
    }
}

/// Which workload is the first, from this one on, with the name of a service that is
/// none.
pub open spec fn bad_workload(workloads: Seq<LocalWorkload>, from: nat) -> Option<nat>
    decreases workloads.len() - from,
{
    if from >= workloads.len() {
        None
    } else if bad_service(workloads[from as int].services@) is Some {
        Some(from)
    } else {
        bad_workload(workloads, from + 1)
    }
}

/// The workloads by identifier.
pub open spec fn workloads_of(workloads: Seq<LocalWorkload>) -> Map<Seq<char>, Workload>
    decreases workloads.len(),
{
    if workloads.len() == 0 {
        Map::empty()
    } else {
        workloads_of(workloads.drop_last()).insert(
            workloads.last().workload.uid@,
            workloads.last().workload,
        )
    }
}

/// The endpoints of the workloads.
pub open spec fn endpoints_of(workloads: Seq<LocalWorkload>) -> ServicesModel
    decreases workloads.len(),
{
    if workloads.len() == 0 {
        no_services()
    } else {
        with_endpoints(
            endpoints_of(workloads.drop_last()),
            workloads.last().workload,
            workloads.last().services@,
        )
    }
}

/// The services with these behind them.
pub open spec fn services_of(model: ServicesModel, services: Seq<Service>) -> ServicesModel
    decreases services.len(),
{
    if services.len() == 0 {
        model
    } else {
        with_service(services_of(model, services.drop_last()), services.last())
    }
}

/// What is wrong with a configuration.
pub open spec fn config_fault(config: LocalConfig) -> Option<LoadFault> {
    if policies_fault(config.policies@, 0) is Some {
        policies_fault(config.policies@, 0)
    } else if sandboxes_fault(config.sandboxes@, 0) is Some {
        sandboxes_fault(config.sandboxes@, 0)
    } else {
        match bad_workload(config.workloads@, 0) {
            Some(i) => Some(
                LoadFault::ServiceName(
                    bad_service(config.workloads@[i as int].services@).unwrap(),
                ),
            ),
            None => None,
        }
    }
}

/// What the proxy knows is what the configuration says.
pub open spec fn holds(state: ProxyState, config: LocalConfig) -> bool {
    &&& state.policies@ == policies_of(config.policies@)
    &&& state.sandboxes@ == sandboxes_of(config.sandboxes@)
    &&& state.workloads@ == workloads_of(config.workloads@)
    &&& state.services@ == services_of(endpoints_of(config.workloads@), config.services@)
}

/// For how many workloads certificates are fetched: for those up to the first that
/// is not accepted.
pub open spec fn prefetched(config: LocalConfig) -> nat {
    if policies_fault(config.policies@, 0) is Some || sandboxes_fault(config.sandboxes@, 0)
        is Some {
        0
    } else {
        match bad_workload(config.workloads@, 0) {
            Some(i) => i + 1,
            None => config.workloads@.len(),
        }
    }
}

/// What comes of a configuration: the certificates to fetch ahead, why it was not
/// accepted, if it was not, and whether those who apply policies are told.
pub struct Loaded {
    pub prefetch: Vec<Identity>,
    pub result: Result<(), UpdateError>,
    pub notify: bool,
}

/// Keeps what the proxy knows as a configuration file says it.
pub struct LocalClient {
    pub state: ProxyState,
    pub fetches: bool,
}

fn load_policies(policies: Vec<(String, TrafficPolicy)>) -> (r: Result<
    TrafficPolicyStore,
    UpdateError,
>)
    ensures
        match r {
            Ok(store) => policies_fault(policies@, 0) is None && store@ == policies_of(policies@),
            Err(e) => policies_fault(policies@, 0) matches Some(f) && error_is(e, f),
        },
{
    let ghost all = policies@;
    let mut rest: Vec<(String, TrafficPolicy)> = policies;
    let count: usize = rest.len();
    let mut store: TrafficPolicyStore = TrafficPolicyStore::new();
    let mut i: usize = 0;
    assert(all.skip(0) =~= all);
    assert(all.take(0) =~= Seq::empty());
    while i < count
        invariant
            i <= count,
            count == all.len(),
            all == policies@,
            rest@ == all.skip(i as int),
            policies_fault(all, 0) == policies_fault(all, i as nat),
            store@ == policies_of(all.take(i as int)),
        decreases count - i,
    {
        let (name, policy): (String, TrafficPolicy) = rest.remove(0);
        assert((name, policy) == all[i as int]);
        assert(rest@ =~= all.skip(i + 1));
        assert(all.take(i + 1).drop_last() =~= all.take(i as int));
        match policy.validate() {
            Ok(_) => {},
            Err(e) => {
                return Err(UpdateError::InvalidPolicy(e));
            },
        }
        match store.insert(name, policy) {
            Ok(_) => {},
            Err(e) => {
                return Err(UpdateError::Policy(e));
            },
        }
        i = i + 1;
    }
    assert(all.take(i as int) =~= all);
    Ok(store)
}

proof fn lemma_stored_uids(sandboxes: Seq<Sandbox>, uid: Seq<char>)
    ensures
        sandboxes_of(sandboxes).resources.dom().contains(uid) == has_uid(sandboxes, uid),
    decreases sandboxes.len(),
{
    if sandboxes.len() > 0 {
        let short = sandboxes.drop_last();
        lemma_stored_uids(short, uid);
        if has_uid(short, uid) {
            let i = choose|i: int| 0 <= i < short.len() && (#[trigger] short[i]).uid@ == uid;
            assert(sandboxes[i].uid@ == uid);
        }
        if has_uid(sandboxes, uid) {
            let i = choose|i: int|
                0 <= i < sandboxes.len() && (#[trigger] sandboxes[i]).uid@ == uid;
            if i < short.len() {
                assert(short[i].uid@ == uid);
            }
        }
        if sandboxes.last().uid@ == uid {
            assert(sandboxes[sandboxes.len() - 1].uid@ == uid);
        }
    }
}

fn load_sandboxes(sandboxes: Vec<Sandbox>) -> (r: Result<SandboxStore, UpdateError>)
    ensures
        match r {
            Ok(store) => sandboxes_fault(sandboxes@, 0) is None && store@ == sandboxes_of(
                sandboxes@,
            ),
            Err(e) => sandboxes_fault(sandboxes@, 0) matches Some(f) && error_is(e, f),
        },
{
    let ghost all = sandboxes@;
    let mut rest: Vec<Sandbox> = sandboxes;
    let count: usize = rest.len();
    let mut store: SandboxStore = SandboxStore::new();
    let mut i: usize = 0;
    assert(all.skip(0) =~= all);
    assert(all.take(0) =~= Seq::empty());
    while i < count
        invariant
            i <= count,
            count == all.len(),
            all == sandboxes@,
            rest@ == all.skip(i as int),
            sandboxes_fault(all, 0) == sandboxes_fault(all, i as nat),
            store@ == sandboxes_of(all.take(i as int)),
        decreases count - i,
    {
        let sandbox: Sandbox = rest.remove(0);
        assert(sandbox == all[i as int]);
        assert(rest@ =~= all.skip(i + 1));
        assert(all.take(i + 1).drop_last() =~= all.take(i as int));
        match sandbox.validate() {
            Ok(_) => {},
            Err(e) => {
                return Err(UpdateError::Sandbox(e));
            },
        }
        proof {
            lemma_stored_uids(all.take(i as int), sandbox.uid@);
        }
        if store.get(&sandbox.uid).is_some() {
            return Err(UpdateError::DuplicateSandbox(sandbox.uid));
        }
        store.insert(sandbox);
        i = i + 1;
    }
    assert(all.take(i as int) =~= all);
    Ok(store)
}

/// The certificates of the workloads.
pub open spec fn identities_are(prefetch: Seq<Identity>, workloads: Seq<LocalWorkload>) -> bool {
    prefetch.len() == workloads.len() && forall|i: int|
        0 <= i < prefetch.len() ==> (#[trigger] prefetch[i])@
            == workloads[i].workload.spec_identity()
}

fn load_workloads(
    workloads: Vec<LocalWorkload>,
    fetches: bool,
    store: &mut WorkloadStore,
    services: &mut ServiceStore,
) -> (r: Loaded)
    requires
        old(store)@ == Map::<Seq<char>, Workload>::empty(),
        old(services)@ == no_services(),
    ensures
        match bad_workload(workloads@, 0) {
            None => r.result is Ok && r.notify && final(store)@ == workloads_of(workloads@)
                && final(services)@ == endpoints_of(workloads@),
            Some(i) => !r.notify && (r.result matches Err(UpdateError::ServiceName(name))
                && bad_service(workloads@[i as int].services@) == Some(name@)),
        },
        fetches ==> identities_are(
            r.prefetch@,
            workloads@.take(
                match bad_workload(workloads@, 0) {
                    Some(i) => i as int + 1,
                    None => workloads@.len() as int,
                },
            ),
        ),
        !fetches ==> r.prefetch@.len() == 0,
{
    let ghost all = workloads@;
    let mut rest: Vec<LocalWorkload> = workloads;
    let count: usize = rest.len();
    let mut prefetch: Vec<Identity> = Vec::new();
    let mut i: usize = 0;
    assert(all.skip(0) =~= all);
    assert(all.take(0) =~= Seq::empty());
    while i < count
        invariant
            i <= count,
            count == all.len(),
            all == workloads@,
            rest@ == all.skip(i as int),
            bad_workload(all, 0) == bad_workload(all, i as nat),
            store@ == workloads_of(all.take(i as int)),
            services@ == endpoints_of(all.take(i as int)),
            fetches ==> identities_are(prefetch@, all.take(i as int)),
            !fetches ==> prefetch@.len() == 0,
        decreases count - i,
    {
        let local: LocalWorkload = rest.remove(0);
        assert(local == all[i as int]);
        assert(rest@ =~= all.skip(i + 1));
        assert(all.take(i + 1).drop_last() =~= all.take(i as int));
        if fetches {
            let ghost before = prefetch@;
            prefetch.push(local.workload.identity());
            assert forall|k: int| 0 <= k < prefetch@.len() implies (#[trigger] prefetch@[k])@
                == all.take(i + 1)[k].workload.spec_identity() by {
                if k < before.len() {
                    assert(prefetch@[k] == before[k]);
                    assert(all.take(i + 1)[k] == all.take(i as int)[k]);
                }
            }
        }
        let placed: Result<(), UpdateError> = insert_service_endpoints(
            services,
            &local.workload,
            &local.services,
        );
        if let Err(e) = placed {
            return Loaded { prefetch, result: Err(e), notify: false };
        }
        store.insert(local.workload);
        i = i + 1;
    }
    assert(all.take(i as int) =~= all);
    Loaded { prefetch, result: Ok(()), notify: true }
}

fn load_services(list: Vec<Service>, services: &mut ServiceStore)
    ensures
        final(services)@ == services_of(old(services)@, list@),
{
    let ghost all = list@;
    let ghost start = services@;
    let mut rest: Vec<Service> = list;
    let count: usize = rest.len();
    let mut i: usize = 0;
    assert(all.skip(0) =~= all);
    assert(all.take(0) =~= Seq::empty());
    while i < count
        invariant
            i <= count,
            count == all.len(),
            rest@ == all.skip(i as int),
            services@ == services_of(start, all.take(i as int)),
        decreases count - i,
    {
        let service: Service = rest.remove(0);
        assert(service == all[i as int]);
        assert(rest@ =~= all.skip(i + 1));
        assert(all.take(i + 1).drop_last() =~= all.take(i as int));
        services.insert(service);
        i = i + 1;
    }
    assert(all.take(i as int) =~= all);
}

impl LocalClient {
    /// Takes a configuration. One that is accepted takes the place of everything
    /// that was known, and whoever applies policies is to be told; one that is not
    /// leaves everything as it was.
    pub fn load_config(&mut self, config: LocalConfig) -> (r: Loaded)
        ensures
            final(self).fetches == old(self).fetches,
            match config_fault(config) {
                None => r.result is Ok && r.notify && holds(final(self).state, config),
                Some(fault) => (r.result matches Err(e) && error_is(e, fault)) && !r.notify
                    && final(self).state == old(self).state,
            },
            old(self).fetches ==> identities_are(
                r.prefetch@,
                config.workloads@.take(prefetched(config) as int),
            ),
            !old(self).fetches ==> r.prefetch@.len() == 0,
    {
        assert(config.workloads@.take(0) =~= Seq::empty());
        let policies: TrafficPolicyStore = match load_policies(config.policies) {
            Ok(policies) => policies,
            Err(e) => {
                return Loaded { prefetch: Vec::new(), result: Err(e), notify: false };
            },
        };
        let sandboxes: SandboxStore = match load_sandboxes(config.sandboxes) {
            Ok(sandboxes) => sandboxes,
            Err(e) => {
                return Loaded { prefetch: Vec::new(), result: Err(e), notify: false };
            },
        };
        let mut workloads: WorkloadStore = WorkloadStore::new();
        let mut services: ServiceStore = ServiceStore::new();
        let loaded: Loaded = load_workloads(
            config.workloads,
            self.fetches,
            &mut workloads,
            &mut services,
        );
        if loaded.result.is_ok() {
            load_services(config.services, &mut services);
            self.state = ProxyState { workloads, services, sandboxes, policies };
        }
        loaded
    }
}

} // verus!
