//! How what the proxy knows changes: by updates from the control plane, and by a
//! configuration file.

pub mod local;
pub mod meaning;
pub mod status;

use vstd::prelude::*;

use crate::rbac::chain::{policy_fault, policy_is, TrafficPolicy, TrafficPolicyMessage};
use crate::rbac::policy::RuleError;
use crate::rbac::store::{changes, StoreError};
use crate::sandbox::discovery::{
    bad_reference, invalid_reference, message_fault, sandbox_is, Sandbox, SandboxError,
    SandboxFault, SandboxMessage,
};
use crate::sandbox::store::{changes_policies, inserted, removed, StoreModel};
use crate::state::service::{
    with_endpoint, with_service, without_service, without_workload, Endpoint, EndpointView, Service,
    ServiceStore, ServicesModel,
};
use crate::state::store::{identity_on_node, ProxyState};
use crate::state::workload::{first_at, HostnameView, Identity, NamespacedHostname, Workload};
use crate::text::{chars_of, same_list, views};

verus! {

/// The ports of a service that a workload serves, by the name of the service.
pub type ServicePorts = Vec<(String, Vec<(u16, u16)>)>;

/// Why an update is not accepted.
#[derive(Debug, PartialEq, Eq)]
pub enum UpdateError {
    /// The name of a service is not `namespace/hostname`.
    ServiceName(String),
    /// A reference to a policy is invalid or given twice.
    PolicyReference(String),
    /// Neither a workload nor a service.
    UnknownAddress,
    Sandbox(SandboxError),
    Policy(StoreError),
    /// A sandbox's identifier is given twice.
    DuplicateSandbox(String),
    /// A rule of a policy is not accepted.
    InvalidPolicy(RuleError),
}

/// Why an update is not accepted, as mathematics has it.
pub enum UpdateFault {
    ServiceName(Seq<char>),
    PolicyReference(Seq<char>),
    UnknownAddress,
    Sandbox(SandboxFault),
    Policy(StoreError),
    DuplicateSandbox(Seq<char>),
    InvalidPolicy(RuleError),
}

impl View for UpdateError {
    type V = UpdateFault;

    open spec fn view(&self) -> UpdateFault {
        match *self {
            UpdateError::ServiceName(name) => UpdateFault::ServiceName(name@),
            UpdateError::PolicyReference(name) => UpdateFault::PolicyReference(name@),
            UpdateError::UnknownAddress => UpdateFault::UnknownAddress,
            UpdateError::Sandbox(e) => UpdateFault::Sandbox(e@),
            UpdateError::Policy(e) => UpdateFault::Policy(e),
            UpdateError::DuplicateSandbox(uid) => UpdateFault::DuplicateSandbox(uid@),
            UpdateError::InvalidPolicy(e) => UpdateFault::InvalidPolicy(e),
        }
    }
}

/// Why an update was not accepted, where it was not.
pub open spec fn fault_of(result: Result<(), UpdateError>) -> Option<UpdateFault> {
    match result {
        Ok(_) => None,
        Err(e) => Some(e@),
    }
}

/// The host name that a text in the `namespace/hostname` form writes.
pub open spec fn hostname_of(text: Seq<char>) -> Option<HostnameView> {
    if text.contains('/') {
        let i = choose|i: int| first_at(text, '/', i);
        Some((text.take(i), text.skip(i + 1)))
    } else {
        None
    }
}

proof fn lemma_hostname(text: Seq<char>, name: HostnameView)
    requires
        first_at(text, '/', name.0.len() as int),
        text == name.0.push('/') + name.1,
    ensures
        hostname_of(text) == Some(name),
{
    let i = name.0.len() as int;
    assert(text[i] == '/');
    let k = choose|k: int| first_at(text, '/', k);
    assert(first_at(text, '/', k));
    assert(k == i);
    assert(text.take(i) =~= name.0);
    assert(text.skip(i + 1) =~= name.1);
}

fn read_hostname(text: &str) -> (r: Option<NamespacedHostname>)
    ensures
        match r {
            Some(name) => hostname_of(text@) == Some(name@),
            None => hostname_of(text@) is None,
        },
{
    match NamespacedHostname::parse(text) {
        Some(name) => {
            proof {
                lemma_hostname(text@, name@);
            }
            Some(name)
        },
        None => None,
    }
}

/// The endpoint of a workload behind a service.
pub open spec fn endpoint_of(
    workload: Workload,
    name: HostnameView,
    port: Seq<(u16, u16)>,
) -> EndpointView {
    EndpointView {
        service: name,
        workload_uid: workload.uid@,
        port,
        status: workload.status,
    }
}

/// The first name of a service that is none.
pub open spec fn bad_service(services: Seq<(String, Vec<(u16, u16)>)>) -> Option<Seq<char>>
    decreases services.len(),
{
    if services.len() == 0 {
        None
    } else if bad_service(services.drop_last()) is Some {
        bad_service(services.drop_last())
    } else if hostname_of(services.last().0@) is None {
        Some(services.last().0@)
    } else {
        None
    }
}

/// The services with the endpoints of a workload, up to the first name that is none.
pub open spec fn with_endpoints(
    model: ServicesModel,
    workload: Workload,
    services: Seq<(String, Vec<(u16, u16)>)>,
) -> ServicesModel
    decreases services.len(),
{
    if services.len() == 0 {
        model
    } else {
        let before = with_endpoints(model, workload, services.drop_last());
        if bad_service(services) is Some {
            before
        } else {
            with_endpoint(
                before,
                endpoint_of(
                    workload,
                    hostname_of(services.last().0@).unwrap(),
                    services.last().1@,
                ),
            )
        }
    }
}

proof fn lemma_bad_service_stays(
    services: Seq<(String, Vec<(u16, u16)>)>,
    i: int,
    model: ServicesModel,
    workload: Workload,
)
    requires
        0 <= i <= services.len(),
        bad_service(services.take(i)) is Some,
    ensures
        bad_service(services) == bad_service(services.take(i)),
        with_endpoints(model, workload, services) == with_endpoints(
            model,
            workload,
            services.take(i),
        ),
    decreases services.len() - i,
{
    if i < services.len() {
        assert(services.take(i + 1).drop_last() =~= services.take(i));
        lemma_bad_service_stays(services, i + 1, model, workload);
    } else {
        assert(services.take(i) =~= services);
    }
}

/// Puts a workload behind its services, up to the first name that is none.
pub(crate) fn insert_service_endpoints(
    state: &mut ServiceStore,
    workload: &Workload,
    services: &ServicePorts,
) -> (r: Result<(), UpdateError>)
    ensures
        final(state)@ == with_endpoints(old(state)@, *workload, services@),
        match r {
            Ok(_) => bad_service(services@) is None,
            Err(UpdateError::ServiceName(name)) => bad_service(services@) == Some(name@),
            Err(_) => false,
        },
{
    let ghost start = state@;
    let mut i: usize = 0;
    assert(services@.take(0) =~= Seq::empty());
    while i < services.len()
        invariant
            i <= services@.len(),
            start == old(state)@,
            bad_service(services@.take(i as int)) is None,
            state@ == with_endpoints(start, *workload, services@.take(i as int)),
        decreases services@.len() - i,
    {
        assert(services@.take(i + 1).drop_last() =~= services@.take(i as int));
        assert(services@.take(i + 1).last() == services@[i as int]);
        match read_hostname(services[i].0.as_str()) {
            Some(service) => {
                let port: Vec<(u16, u16)> = copy_ports(&services[i].1);
                state.insert_endpoint(
                    Endpoint {
                        service,
                        workload_uid: workload.uid.clone(),
                        port,
                        status: workload.status,
                    },
                );
            },
            None => {
                proof {
                    lemma_bad_service_stays(services@, i + 1, start, *workload);
                }
                return Err(UpdateError::ServiceName(services[i].0.clone()));
            },
        }
        i = i + 1;
    }
    assert(services@.take(i as int) =~= services@);
    Ok(())
}

fn copy_ports(ports: &Vec<(u16, u16)>) -> (r: Vec<(u16, u16)>)
    ensures
        r@ == ports@,
{
    let mut out: Vec<(u16, u16)> = Vec::new();
    let mut i: usize = 0;
    while i < ports.len()
        invariant
            i <= ports@.len(),
            out@ == ports@.take(i as int),
        decreases ports@.len() - i,
    {
        out.push(ports[i]);
        i = i + 1;
        assert(out@ =~= ports@.take(i as int));
    }
    assert(out@ =~= ports@);
    out
}

/// A workload as the control plane sends it, and the services that it serves.
pub struct WorkloadMessage {
    pub workload: Workload,
    pub services: ServicePorts,
}

/// An address as the control plane sends it.
pub enum AddressMessage {
    Workload(WorkloadMessage),
    Service(Service),
    Unknown,
}

/// What comes of an update: the certificate to fetch ahead, whether policies have
/// to be applied anew, and why the update was not accepted, if it was not.
pub struct Outcome {
    pub prefetch: Option<Identity>,
    pub recheck: bool,
    pub result: Result<(), UpdateError>,
}

/// What comes of a removal: the certificate that nothing uses any more, and whether
/// policies have to be applied anew.
pub struct Removal {
    pub clear: Option<Identity>,
    pub recheck: bool,
}

/// Changes what the proxy knows of workloads and services.
#[derive(Clone, Copy, Debug)]
pub struct ProxyStateUpdateMutator {
    fetches: bool,
}

/// The references of the known workload of this identifier; none where none is
/// known.
pub open spec fn known_refs(workloads: Map<Seq<char>, Workload>, uid: Seq<char>) -> Seq<Seq<char>> {
    if workloads.dom().contains(uid) {
        views(workloads[uid].traffic_policy_refs@)
    } else {
        Seq::empty()
    }
}

/// The services without the workload, where it is known.
pub open spec fn services_before(
    workloads: Map<Seq<char>, Workload>,
    services: ServicesModel,
    uid: Seq<char>,
) -> ServicesModel {
    if workloads.dom().contains(uid) {
        without_workload(services, uid)
    } else {
        services
    }
}

/// Nothing but workloads and services differs.
pub open spec fn same_policies(a: ProxyState, b: ProxyState) -> bool {
    a.sandboxes@ == b.sandboxes@ && a.policies@ == b.policies@
}

impl ProxyStateUpdateMutator {
    /// Whether certificates are fetched ahead of their use.
    pub closed spec fn spec_fetches(self) -> bool {
        self.fetches
    }

    /// Certificates are fetched ahead of their use.
    pub fn new() -> (r: Self)
        ensures
            r.spec_fetches(),
    {
        ProxyStateUpdateMutator { fetches: true }
    }

    /// Certificates are not fetched ahead of their use.
    pub fn new_no_fetch() -> (r: Self)
        ensures
            !r.spec_fetches(),
    {
        ProxyStateUpdateMutator { fetches: false }
    }

    /// Puts a workload in place of the one of the same identifier, and behind its
    /// services. One with an invalid reference leaves everything as it was. The
    /// name of a service that is none ends the update: the services before it have
    /// the workload.
    pub fn insert_workload(&self, state: &mut ProxyState, message: WorkloadMessage) -> (r: Outcome)
        ensures
            same_policies(*final(state), *old(state)),
            match bad_reference(views(message.workload.traffic_policy_refs@), 0) {
                Some(name) => {
                    &&& r.result matches Err(UpdateError::PolicyReference(n)) && n@ == name
                    &&& r.prefetch is None && !r.recheck
                    &&& final(state).workloads@ == old(state).workloads@
                    &&& final(state).services@ == old(state).services@
                },
                None => {
                    let uid = message.workload.uid@;
                    &&& final(state).workloads@ == old(state).workloads@.insert(
                        uid,
                        message.workload,
                    )
                    &&& final(state).services@ == with_endpoints(
                        services_before(old(state).workloads@, old(state).services@, uid),
                        message.workload,
                        message.services@,
                    )
                    &&& match r.result {
                        Ok(_) => bad_service(message.services@) is None,
                        Err(UpdateError::ServiceName(n)) => bad_service(message.services@) == Some(
                            n@,
                        ),
                        Err(_) => false,
                    }
                    &&& r.prefetch.is_some() == self.spec_fetches()
                    &&& r.prefetch matches Some(id) ==> id@ == message.workload.spec_identity()
                    &&& r.recheck == (known_refs(old(state).workloads@, uid) != views(
                        message.workload.traffic_policy_refs@,
                    ))
                },
            },
    {
        let workload: Workload = message.workload;
        if let Some(name) = invalid_reference(&workload.traffic_policy_refs) {
            return Outcome {
                prefetch: None,
                recheck: false,
                result: Err(UpdateError::PolicyReference(name)),
            };
        }
        let ghost before = state.workloads@;
        let recheck: bool = match state.workloads.remove(&workload.uid) {
            Some(known) => {
                state.services.remove_endpoint(workload.uid.as_str());
                !same_list(
                    known.traffic_policy_refs.as_slice(),
                    workload.traffic_policy_refs.as_slice(),
                )
            },
            None => {
                assert(views(workload.traffic_policy_refs@).len()
                    == workload.traffic_policy_refs@.len());
                assert(workload.traffic_policy_refs@.len() == 0
                    ==> views(workload.traffic_policy_refs@) =~= Seq::empty());
                workload.traffic_policy_refs.len() > 0
            },
        };
        let prefetch: Option<Identity> = if self.fetches {
            Some(workload.identity())
        } else {
            None
        };
        let result: Result<(), UpdateError> = insert_service_endpoints(
            &mut state.services,
            &workload,
            &message.services,
        );
        state.workloads.insert(workload);
        assert(before.remove(workload.uid@).insert(workload.uid@, workload) =~= before.insert(
            workload.uid@,
            workload,
        ));
        Outcome { prefetch, recheck, result }
    }

    /// Forgets the workload or, where there is none, the service of this name. A
    /// certificate is given up with the last workload of its identity on the node.
    pub fn remove(&self, state: &mut ProxyState, xds_name: &String) -> (r: Removal)
        ensures
            same_policies(*final(state), *old(state)),
            if old(state).workloads@.dom().contains(xds_name@) {
                let gone = old(state).workloads@[xds_name@];
                &&& final(state).workloads@ == old(state).workloads@.remove(xds_name@)
                &&& final(state).services@ == without_workload(old(state).services@, xds_name@)
                &&& r.clear.is_some() == (self.spec_fetches() && !identity_on_node(
                    final(state).workloads@,
                    gone.node@,
                    gone.spec_identity(),
                ))
                &&& r.clear matches Some(id) ==> id@ == gone.spec_identity()
                &&& r.recheck == (gone.traffic_policy_refs@.len() > 0)
            } else {
                &&& final(state).workloads@ == old(state).workloads@
                &&& final(state).services@ == (match hostname_of(xds_name@) {
                    Some(name) => if name.1.contains('/') {
                        old(state).services@
                    } else {
                        without_service(old(state).services@, name)
                    },
                    None => old(state).services@,
                })
                &&& r.clear is None
                &&& !r.recheck
            },
    {
        match state.workloads.remove(xds_name) {
            Some(gone) => {
                state.services.remove_endpoint(xds_name.as_str());
                let identity: Identity = gone.identity();
                let clear: Option<Identity> = if self.fetches
                    && state.workloads.was_last_identity_on_node(gone.node.as_str(), &identity) {
                    Some(identity)
                } else {
                    None
                };
                Removal { clear, recheck: gone.traffic_policy_refs.len() > 0 }
            },
            None => {
                assert(state.workloads@ =~= old(state).workloads@);
                if let Some(name) = read_hostname(xds_name.as_str()) {
                    if !has_slash(name.hostname.as_str()) {
                        state.services.remove(&name);
                    }
                }
                Removal { clear: None, recheck: false }
            },
        }
    }

    /// Puts a workload or a service in place of the one of the same name.
    pub fn insert_address(&self, state: &mut ProxyState, message: AddressMessage) -> (r: Outcome)
        ensures
            same_policies(*final(state), *old(state)),
            match message {
                AddressMessage::Workload(w) => {
                    &&& workload_step(
                        self.spec_fetches(),
                        addresses(*old(state)),
                        w,
                        addresses(*final(state)),
                        AddressEffect { recheck: r.recheck, cert: prefetch_view(r.prefetch) },
                    )
                    &&& fault_of(r.result) == workload_fault(w)
                },
                AddressMessage::Service(s) => {
                    &&& r.result is Ok && r.prefetch is None && !r.recheck
                    &&& final(state).workloads@ == old(state).workloads@
                    &&& final(state).services@ == with_service(old(state).services@, s)
                },
                AddressMessage::Unknown => {
                    &&& r.result matches Err(UpdateError::UnknownAddress)
                    &&& r.prefetch is None && !r.recheck
                    &&& addresses(*final(state)) == addresses(*old(state))
                },
            },
    {
        match message {
            AddressMessage::Workload(w) => self.insert_workload(state, w),
            AddressMessage::Service(s) => {
                self.insert_service(state, s);
                Outcome { prefetch: None, recheck: false, result: Ok(()) }
            },
            AddressMessage::Unknown => Outcome {
                prefetch: None,
                recheck: false,
                result: Err(UpdateError::UnknownAddress),
            },
        }
    }

    /// Puts a service in place of the one of the same name; it keeps the endpoints
    /// that it includes.
    pub fn insert_service(&self, state: &mut ProxyState, service: Service)
        ensures
            same_policies(*final(state), *old(state)),
            final(state).workloads@ == old(state).workloads@,
            final(state).services@ == with_service(old(state).services@, service),
    {
        state.services.insert(service);
    }
}

fn has_slash(text: &str) -> (r: bool)
    ensures
        r == text@.contains('/'),
{
    let chars: Vec<char> = chars_of(text);
    let mut i: usize = 0;
    while i < chars.len()
        invariant
            i <= chars@.len(),
            chars@ == text@,
            forall|k: int| 0 <= k < i ==> #[trigger] text@[k] != '/',
        decreases chars@.len() - i,
    {
        if chars[i] == '/' {
            assert(text@[i as int] == '/');
            return true;
        }
        assert(text@[i as int] != '/');
        i = i + 1;
    }
    false
}

/// An update of a resource, or its removal.
pub enum XdsUpdate<T> {
    Update { name: String, resource: T },
    Remove(String),
}

/// An update that was not accepted, by its name.
#[derive(Debug)]
pub struct RejectedConfig {
    pub name: String,
    pub reason: UpdateError,
}

/// What comes of a batch of updates: whether policies have to be applied anew, and
/// which updates were not accepted.
#[derive(Debug)]
pub struct Handled {
    pub notify: bool,
    pub rejected: Vec<RejectedConfig>,
}

/// The updates that were not accepted: their names, and why.
pub open spec fn rejections(rejected: Seq<RejectedConfig>) -> Seq<(Seq<char>, UpdateFault)> {
    rejected.map_values(|r: RejectedConfig| (r.name@, r.reason@))
}

/// Why the update of a sandbox is not accepted, where it is not.
pub open spec fn sandbox_update_fault(update: XdsUpdate<SandboxMessage>) -> Option<UpdateFault> {
    match update {
        XdsUpdate::Update { name, resource } => if resource.uid@ != name@ {
            Some(UpdateFault::Sandbox(SandboxFault::NameDiffers))
        } else {
            match message_fault(resource) {
                Some(fault) => Some(UpdateFault::Sandbox(fault)),
                None => None,
            }
        },
        XdsUpdate::Remove(_) => None,
    }
}

/// The name that an update goes by.
pub open spec fn update_name<T>(update: XdsUpdate<T>) -> Seq<char> {
    match update {
        XdsUpdate::Update { name, .. } => name@,
        XdsUpdate::Remove(name) => name@,
    }
}

/// The updates that are not accepted, in their order, and why.
pub open spec fn sandbox_refusals(updates: Seq<XdsUpdate<SandboxMessage>>) -> Seq<
    (Seq<char>, UpdateFault),
>
    decreases updates.len(),
{
    if updates.len() == 0 {
        Seq::empty()
    } else {
        let before = sandbox_refusals(updates.drop_last());
        match sandbox_update_fault(updates.last()) {
            Some(fault) => before.push((update_name(updates.last()), fault)),
            None => before,
        }
    }
}

/// The update takes the sandboxes from one state to the next, and changes which
/// policies apply to whom or does not. One that is not accepted changes nothing.
pub open spec fn sandbox_step(
    from: StoreModel,
    update: XdsUpdate<SandboxMessage>,
    to: StoreModel,
    changed: bool,
) -> bool {
    if sandbox_update_fault(update) is Some {
        to == from && !changed
    } else {
        match update {
            XdsUpdate::Remove(name) => to == removed(from, name@) && changed
                == from.resources.dom().contains(name@),
            XdsUpdate::Update { resource, .. } => exists|sandbox: Sandbox| #[trigger]
                sandbox_is(sandbox, resource) && to == inserted(from, sandbox) && changed
                    == changes_policies(from, sandbox),
        }
    }
}

/// The updates take the sandboxes step by step through these states.
pub open spec fn sandbox_steps(
    states: Seq<StoreModel>,
    updates: Seq<XdsUpdate<SandboxMessage>>,
    changes: Seq<bool>,
) -> bool {
    &&& states.len() == updates.len() + 1
    &&& changes.len() == updates.len()
    &&& forall|i: int|
        #![trigger updates[i]]
        0 <= i < updates.len() ==> sandbox_step(states[i], updates[i], states[i + 1], changes[i])
}

/// Applies updates of sandboxes, one after the other. Those that are not accepted
/// do not stop the others, and whoever applies policies is to be told once if any
/// that is accepted changes something.
pub fn handle_sandboxes(state: &mut ProxyState, updates: Vec<XdsUpdate<SandboxMessage>>) -> (r:
    Handled)
    ensures
        rejections(r.rejected@) == sandbox_refusals(updates@),
        exists|states: Seq<StoreModel>, flags: Seq<bool>| #[trigger]
            sandbox_steps(states, updates@, flags) && states[0] == old(state).sandboxes@
                && states.last() == final(state).sandboxes@ && r.notify == flags.contains(true),
        final(state).workloads@ == old(state).workloads@,
        final(state).services@ == old(state).services@,
        final(state).policies@ == old(state).policies@,
{
    let ghost all = updates@;
    let mut rest: Vec<XdsUpdate<SandboxMessage>> = updates;
    let count: usize = rest.len();
    let mut notify: bool = false;
    let mut rejected: Vec<RejectedConfig> = Vec::new();
    let ghost mut states: Seq<StoreModel> = seq![state.sandboxes@];
    let ghost mut flags: Seq<bool> = Seq::empty();
    let mut i: usize = 0;
    assert(all.skip(0) =~= all);
    assert(rejections(rejected@) =~= sandbox_refusals(all.take(0)));
    while i < count
        invariant
            i <= count,
            count == all.len(),
            all == updates@,
            rest@ == all.skip(i as int),
            sandbox_steps(states, all.take(i as int), flags),
            states[0] == old(state).sandboxes@,
            states.last() == state.sandboxes@,
            notify == flags.contains(true),
            rejections(rejected@) == sandbox_refusals(all.take(i as int)),
            state.workloads@ == old(state).workloads@,
            state.services@ == old(state).services@,
            state.policies@ == old(state).policies@,
        decreases count - i,
    {
        let update: XdsUpdate<SandboxMessage> = rest.remove(0);
        assert(update == all[i as int]);
        assert(rest@ =~= all.skip(i + 1));
        let ghost from = state.sandboxes@;
        let ghost before = rejections(rejected@);
        assert(all.take(i + 1).drop_last() =~= all.take(i as int));
        let mut changed: bool = false;
        match update {
            XdsUpdate::Remove(name) => {
                changed = state.sandboxes.remove(&name);
            },
            XdsUpdate::Update { name, resource } => {
                match state.sandboxes.update(name.as_str(), resource) {
                    Ok(c) => {
                        changed = c;
                    },
                    Err(e) => {
                        let reason: UpdateError = UpdateError::Sandbox(e);
                        rejected.push(RejectedConfig { name, reason });
                        assert(rejections(rejected@) =~= before.push((name@, reason@)));
                    },
                }
            },
        }
        assert(sandbox_step(from, update, state.sandboxes@, changed));
        notify = notify || changed;
        proof {
            let old_states = states;
            let old_flags = flags;
            states = states.push(state.sandboxes@);
            flags = flags.push(changed);
            let done = all.take(i + 1);
            assert forall|k: int|
                #![trigger done[k]]
                0 <= k < done.len() implies sandbox_step(
                states[k],
                done[k],
                states[k + 1],
                flags[k],
            ) by {
                if k < i {
                    assert(done[k] == all.take(i as int)[k]);
                    assert(states[k] == old_states[k] && states[k + 1] == old_states[k + 1]);
                    assert(flags[k] == old_flags[k]);
                } else {
                    assert(states[k] == old_states.last());
                }
            }
            lemma_flag_pushed(old_flags, changed);
        }
        i = i + 1;
    }
    assert(all.take(i as int) =~= all);
    Handled { notify, rejected }
}

proof fn lemma_flag_pushed(flags: Seq<bool>, flag: bool)
    ensures
        flags.push(flag).contains(true) == (flags.contains(true) || flag),
{
    let all = flags.push(flag);
    if flags.contains(true) {
        let k = choose|k: int| 0 <= k < flags.len() && flags[k] == true;
        assert(all[k] == true);
    }
    if flag {
        assert(all[flags.len() as int] == true);
    }
    if all.contains(true) {
        let k = choose|k: int| 0 <= k < all.len() && all[k] == true;
        if k < flags.len() {
            assert(flags[k] == true);
        }
    }
}

/// Why the update of a policy is not accepted, where it is not.
pub open spec fn policy_update_fault(update: XdsUpdate<TrafficPolicyMessage>) -> Option<
    UpdateFault,
> {
    match update {
        XdsUpdate::Update { name, resource } => match policy_fault(resource) {
            Some(fault) => Some(UpdateFault::Policy(StoreError::Rule(fault))),
            None => if name@.len() == 0 {
                Some(UpdateFault::Policy(StoreError::EmptyName))
            } else {
                None
            },
        },
        XdsUpdate::Remove(_) => None,
    }
}

/// The updates that are not accepted, in their order, and why.
pub open spec fn policy_refusals(updates: Seq<XdsUpdate<TrafficPolicyMessage>>) -> Seq<
    (Seq<char>, UpdateFault),
>
    decreases updates.len(),
{
    if updates.len() == 0 {
        Seq::empty()
    } else {
        let before = policy_refusals(updates.drop_last());
        match policy_update_fault(updates.last()) {
            Some(fault) => before.push((update_name(updates.last()), fault)),
            None => before,
        }
    }
}

/// The update takes the policies from one state to the next, and changes what is
/// said or does not. One that is not accepted changes nothing.
pub open spec fn policy_step(
    from: Map<Seq<char>, TrafficPolicy>,
    update: XdsUpdate<TrafficPolicyMessage>,
    to: Map<Seq<char>, TrafficPolicy>,
    changed: bool,
) -> bool {
    if policy_update_fault(update) is Some {
        to == from && !changed
    } else {
        match update {
            XdsUpdate::Remove(name) => to == from.remove(name@) && changed == from.dom().contains(
                name@,
            ),
            XdsUpdate::Update { name, resource } => exists|policy: TrafficPolicy| #[trigger]
                policy_is(policy, resource) && to == from.insert(name@, policy) && changed
                    == changes(from, name@, policy),
        }
    }
}

/// The updates take the policies step by step through these states.
pub open spec fn policy_steps(
    states: Seq<Map<Seq<char>, TrafficPolicy>>,
    updates: Seq<XdsUpdate<TrafficPolicyMessage>>,
    flags: Seq<bool>,
) -> bool {
    &&& states.len() == updates.len() + 1
    &&& flags.len() == updates.len()
    &&& forall|i: int|
        #![trigger updates[i]]
        0 <= i < updates.len() ==> policy_step(states[i], updates[i], states[i + 1], flags[i])
}

/// Applies updates of policies, one after the other. Those that are not accepted do
/// not stop the others, and whoever applies policies is to be told once if any that
/// is accepted changes something.
pub fn handle_policies(state: &mut ProxyState, updates: Vec<XdsUpdate<TrafficPolicyMessage>>) -> (r:
    Handled)
    ensures
        rejections(r.rejected@) == policy_refusals(updates@),
        exists|states: Seq<Map<Seq<char>, TrafficPolicy>>, flags: Seq<bool>| #[trigger]
            policy_steps(states, updates@, flags) && states[0] == old(state).policies@
                && states.last() == final(state).policies@ && r.notify == flags.contains(true),
        final(state).workloads@ == old(state).workloads@,
        final(state).services@ == old(state).services@,
        final(state).sandboxes@ == old(state).sandboxes@,
{
    let ghost all = updates@;
    let mut rest: Vec<XdsUpdate<TrafficPolicyMessage>> = updates;
    let count: usize = rest.len();
    let mut notify: bool = false;
    let mut rejected: Vec<RejectedConfig> = Vec::new();
    let ghost mut states: Seq<Map<Seq<char>, TrafficPolicy>> = seq![state.policies@];
    let ghost mut flags: Seq<bool> = Seq::empty();
    let mut i: usize = 0;
    assert(all.skip(0) =~= all);
    assert(rejections(rejected@) =~= policy_refusals(all.take(0)));
    while i < count
        invariant
            i <= count,
            count == all.len(),
            all == updates@,
            rest@ == all.skip(i as int),
            policy_steps(states, all.take(i as int), flags),
            states[0] == old(state).policies@,
            states.last() == state.policies@,
            notify == flags.contains(true),
            rejections(rejected@) == policy_refusals(all.take(i as int)),
            state.workloads@ == old(state).workloads@,
            state.services@ == old(state).services@,
            state.sandboxes@ == old(state).sandboxes@,
        decreases count - i,
    {
        let update: XdsUpdate<TrafficPolicyMessage> = rest.remove(0);
        assert(update == all[i as int]);
        assert(rest@ =~= all.skip(i + 1));
        let ghost from = state.policies@;
        let ghost before = rejections(rejected@);
        assert(all.take(i + 1).drop_last() =~= all.take(i as int));
        let mut changed: bool = false;
        match update {
            XdsUpdate::Remove(name) => {
                changed = state.policies.remove(&name);
            },
            XdsUpdate::Update { name, resource } => {
                let key: String = name.clone();
                match state.policies.update(key, &resource) {
                    Ok(c) => {
                        changed = c;
                        proof {
                            let policy = state.policies@[name@];
                            assert(policy_is(policy, resource));
                            assert(state.policies@ =~= from.insert(name@, policy));
                        }
                    },
                    Err(e) => {
                        let reason: UpdateError = UpdateError::Policy(e);
                        rejected.push(RejectedConfig { name, reason });
                        assert(rejections(rejected@) =~= before.push((name@, reason@)));
                    },
                }
            },
        }
        assert(policy_step(from, update, state.policies@, changed));
        notify = notify || changed;
        proof {
            let old_states = states;
            let old_flags = flags;
            states = states.push(state.policies@);
            flags = flags.push(changed);
            let done = all.take(i + 1);
            assert forall|k: int|
                #![trigger done[k]]
                0 <= k < done.len() implies policy_step(
                states[k],
                done[k],
                states[k + 1],
                flags[k],
            ) by {
                if k < i {
                    assert(done[k] == all.take(i as int)[k]);
                    assert(states[k] == old_states[k] && states[k + 1] == old_states[k + 1]);
                    assert(flags[k] == old_flags[k]);
                } else {
                    assert(states[k] == old_states.last());
                }
            }
            lemma_flag_pushed(old_flags, changed);
        }
        i = i + 1;
    }
    assert(all.take(i as int) =~= all);
    Handled { notify, rejected }
}

/// What to do with a certificate.
#[derive(Debug)]
pub enum CertAction {
    /// Fetch the certificate of this identity ahead of its use.
    Prefetch(Identity),
    /// Give up the certificate of this identity.
    Clear(Identity),
}

/// What to do with a certificate, as mathematics has it.
pub enum CertView {
    Prefetch((Seq<char>, Seq<char>, Seq<char>)),
    Clear((Seq<char>, Seq<char>, Seq<char>)),
}

impl View for CertAction {
    type V = CertView;

    open spec fn view(&self) -> CertView {
        match *self {
            CertAction::Prefetch(id) => CertView::Prefetch(id@),
            CertAction::Clear(id) => CertView::Clear(id@),
        }
    }
}

/// What to do with a certificate, where there is anything to do.
pub open spec fn cert_view(cert: Option<CertAction>) -> Option<CertView> {
    match cert {
        Some(c) => Some(c@),
        None => None,
    }
}

/// Each action, as mathematics has it.
pub open spec fn cert_views(certs: Seq<CertAction>) -> Seq<CertView> {
    certs.map_values(|c: CertAction| c@)
}

/// The actions of the steps that have one.
pub open spec fn cert_actions(steps: Seq<Option<CertView>>) -> Seq<CertView>
    decreases steps.len(),
{
    if steps.len() == 0 {
        Seq::empty()
    } else {
        match steps.last() {
            Some(cert) => cert_actions(steps.drop_last()).push(cert),
            None => cert_actions(steps.drop_last()),
        }
    }
}

/// Workloads and services.
pub struct AddressState {
    pub workloads: Map<Seq<char>, Workload>,
    pub services: ServicesModel,
}

/// What a step does besides changing workloads and services.
pub struct AddressEffect {
    pub recheck: bool,
    pub cert: Option<CertView>,
}

/// What comes of a workload.
pub open spec fn workload_step(
    fetches: bool,
    from: AddressState,
    message: WorkloadMessage,
    to: AddressState,
    effect: AddressEffect,
) -> bool {
    let uid = message.workload.uid@;
    if bad_reference(views(message.workload.traffic_policy_refs@), 0) is Some {
        to == from && !effect.recheck && effect.cert is None
    } else {
        &&& to.workloads == from.workloads.insert(uid, message.workload)
        &&& to.services == with_endpoints(
            services_before(from.workloads, from.services, uid),
            message.workload,
            message.services@,
        )
        &&& effect.recheck == (known_refs(from.workloads, uid) != views(
            message.workload.traffic_policy_refs@,
        ))
        &&& effect.cert == (if fetches {
            Some(CertView::Prefetch(message.workload.spec_identity()))
        } else {
            None
        })
    }
}

/// What comes of a removal.
pub open spec fn removal_step(
    fetches: bool,
    from: AddressState,
    name: Seq<char>,
    to: AddressState,
    effect: AddressEffect,
) -> bool {
    if from.workloads.dom().contains(name) {
        let gone = from.workloads[name];
        &&& to.workloads == from.workloads.remove(name)
        &&& to.services == without_workload(from.services, name)
        &&& effect.recheck == (gone.traffic_policy_refs@.len() > 0)
        &&& effect.cert == (if fetches && !identity_on_node(
            to.workloads,
            gone.node@,
            gone.spec_identity(),
        ) {
            Some(CertView::Clear(gone.spec_identity()))
        } else {
            None
        })
    } else {
        &&& to.workloads == from.workloads
        &&& to.services == (match hostname_of(name) {
            Some(host) => if host.1.contains('/') {
                from.services
            } else {
                without_service(from.services, host)
            },
            None => from.services,
        })
        &&& !effect.recheck && effect.cert is None
    }
}

/// What comes of an update of an address.
pub open spec fn address_step(
    fetches: bool,
    from: AddressState,
    update: XdsUpdate<AddressMessage>,
    to: AddressState,
    effect: AddressEffect,
) -> bool {
    match update {
        XdsUpdate::Remove(name) => removal_step(fetches, from, name@, to, effect),
        XdsUpdate::Update { resource: AddressMessage::Workload(w), .. } => workload_step(
            fetches,
            from,
            w,
            to,
            effect,
        ),
        XdsUpdate::Update { resource: AddressMessage::Service(service), .. } => to.workloads
            == from.workloads && to.services == with_service(from.services, service)
            && !effect.recheck && effect.cert is None,
        XdsUpdate::Update { resource: AddressMessage::Unknown, .. } => to == from
            && !effect.recheck && effect.cert is None,
    }
}

/// Why a workload is not accepted, where it is not.
pub open spec fn workload_fault(message: WorkloadMessage) -> Option<UpdateFault> {
    match bad_reference(views(message.workload.traffic_policy_refs@), 0) {
        Some(name) => Some(UpdateFault::PolicyReference(name)),
        None => match bad_service(message.services@) {
            Some(name) => Some(UpdateFault::ServiceName(name)),
            None => None,
        },
    }
}

/// Why the update of an address is not accepted, where it is not.
pub open spec fn address_update_fault(update: XdsUpdate<AddressMessage>) -> Option<UpdateFault> {
    match update {
        XdsUpdate::Remove(_) => None,
        XdsUpdate::Update { resource: AddressMessage::Workload(w), .. } => workload_fault(w),
        XdsUpdate::Update { resource: AddressMessage::Service(_), .. } => None,
        XdsUpdate::Update { resource: AddressMessage::Unknown, .. } => Some(
            UpdateFault::UnknownAddress,
        ),
    }
}

/// The updates that are not accepted, in their order, and why.
pub open spec fn address_refusals(updates: Seq<XdsUpdate<AddressMessage>>) -> Seq<
    (Seq<char>, UpdateFault),
>
    decreases updates.len(),
{
    if updates.len() == 0 {
        Seq::empty()
    } else {
        let before = address_refusals(updates.drop_last());
        match address_update_fault(updates.last()) {
            Some(fault) => before.push((update_name(updates.last()), fault)),
            None => before,
        }
    }
}

/// The updates take workloads and services step by step through these states.
pub open spec fn address_steps(
    fetches: bool,
    states: Seq<AddressState>,
    updates: Seq<XdsUpdate<AddressMessage>>,
    effects: Seq<AddressEffect>,
) -> bool {
    &&& states.len() == updates.len() + 1
    &&& effects.len() == updates.len()
    &&& forall|i: int|
        #![trigger updates[i]]
        0 <= i < updates.len() ==> address_step(
            fetches,
            states[i],
            updates[i],
            states[i + 1],
            effects[i],
        )
}

/// The certificate to fetch ahead, where there is one.
pub open spec fn prefetch_view(prefetch: Option<Identity>) -> Option<CertView> {
    match prefetch {
        Some(id) => Some(CertView::Prefetch(id@)),
        None => None,
    }
}

/// Which steps call for policies to be applied anew.
pub open spec fn rechecks(effects: Seq<AddressEffect>) -> Seq<bool> {
    effects.map_values(|e: AddressEffect| e.recheck)
}

/// What the steps do with certificates.
pub open spec fn certs_of(effects: Seq<AddressEffect>) -> Seq<Option<CertView>> {
    effects.map_values(|e: AddressEffect| e.cert)
}

/// The workloads and services that the proxy knows.
pub open spec fn addresses(state: ProxyState) -> AddressState {
    AddressState { workloads: state.workloads@, services: state.services@ }
}

/// What comes of a batch of addresses: besides what comes of every batch, what to
/// do with certificates.
#[derive(Debug)]
pub struct HandledAddresses {
    pub handled: Handled,
    pub certs: Vec<CertAction>,
}

/// Applies updates of workloads and services, one after the other. Those that are
/// not accepted do not stop the others.
pub fn handle_addresses(
    mutator: &ProxyStateUpdateMutator,
    state: &mut ProxyState,
    updates: Vec<XdsUpdate<AddressMessage>>,
) -> (r: HandledAddresses)
    ensures
        rejections(r.handled.rejected@) == address_refusals(updates@),
        exists|states: Seq<AddressState>, effects: Seq<AddressEffect>| #[trigger]
            address_steps(mutator.spec_fetches(), states, updates@, effects) && states[0]
                == addresses(*old(state)) && states.last() == addresses(*final(state))
                && r.handled.notify == rechecks(effects).contains(true) && cert_views(r.certs@)
                == cert_actions(certs_of(effects)),
        same_policies(*final(state), *old(state)),
{
    let ghost all = updates@;
    let mut rest: Vec<XdsUpdate<AddressMessage>> = updates;
    let count: usize = rest.len();
    let mut notify: bool = false;
    let mut rejected: Vec<RejectedConfig> = Vec::new();
    let mut certs: Vec<CertAction> = Vec::new();
    let ghost mut states: Seq<AddressState> = seq![addresses(*state)];
    let ghost mut effects: Seq<AddressEffect> = Seq::empty();
    let mut i: usize = 0;
    assert(all.skip(0) =~= all);
    assert(rejections(rejected@) =~= address_refusals(all.take(0)));
    assert(cert_views(certs@) =~= cert_actions(certs_of(effects)));
    assert(rechecks(effects) =~= Seq::empty());
    while i < count
        invariant
            i <= count,
            count == all.len(),
            all == updates@,
            rest@ == all.skip(i as int),
            address_steps(mutator.spec_fetches(), states, all.take(i as int), effects),
            states[0] == addresses(*old(state)),
            states.last() == addresses(*state),
            notify == rechecks(effects).contains(true),
            cert_views(certs@) == cert_actions(certs_of(effects)),
            rejections(rejected@) == address_refusals(all.take(i as int)),
            same_policies(*state, *old(state)),
        decreases count - i,
    {
        let update: XdsUpdate<AddressMessage> = rest.remove(0);
        assert(update == all[i as int]);
        assert(rest@ =~= all.skip(i + 1));
        let ghost from = addresses(*state);
        let ghost before = rejections(rejected@);
        let ghost certs_before = cert_views(certs@);
        assert(all.take(i + 1).drop_last() =~= all.take(i as int));
        let mut recheck: bool = false;
        let mut cert: Option<CertAction> = None;
        match update {
            XdsUpdate::Remove(name) => {
                let removal: Removal = mutator.remove(state, &name);
                recheck = removal.recheck;
                if let Some(id) = removal.clear {
                    cert = Some(CertAction::Clear(id));
                }
            },
            XdsUpdate::Update { name, resource } => {
                let outcome: Outcome = mutator.insert_address(state, resource);
                recheck = outcome.recheck;
                if let Some(id) = outcome.prefetch {
                    cert = Some(CertAction::Prefetch(id));
                }
                if let Err(reason) = outcome.result {
                    rejected.push(RejectedConfig { name, reason });
                    assert(rejections(rejected@) =~= before.push((name@, reason@)));
                }
            },
        }
        let ghost effect = AddressEffect { recheck, cert: cert_view(cert) };
        assert(address_step(mutator.spec_fetches(), from, update, addresses(*state), effect));
        notify = notify || recheck;
        proof {
            let old_states = states;
            let old_effects = effects;
            states = states.push(addresses(*state));
            effects = effects.push(effect);
            let done = all.take(i + 1);
            assert forall|k: int|
                #![trigger done[k]]
                0 <= k < done.len() implies address_step(
                mutator.spec_fetches(),
                states[k],
                done[k],
                states[k + 1],
                effects[k],
            ) by {
                if k < i {
                    assert(done[k] == all.take(i as int)[k]);
                    assert(states[k] == old_states[k] && states[k + 1] == old_states[k + 1]);
                    assert(effects[k] == old_effects[k]);
                } else {
                    assert(states[k] == old_states.last());
                }
            }
            assert(rechecks(effects) =~= rechecks(old_effects).push(recheck));
            lemma_flag_pushed(rechecks(old_effects), recheck);
            assert(certs_of(effects).drop_last() =~= certs_of(old_effects));
        }
        if let Some(c) = cert {
            certs.push(c);
            assert(cert_views(certs@) =~= certs_before.push(c@));
        }
        i = i + 1;
    }
    assert(all.take(i as int) =~= all);
    HandledAddresses { handled: Handled { notify, rejected }, certs }
}

/// What the proxy knows, and how it changes.
pub struct ProxyStateUpdater {
    pub state: ProxyState,
    pub updater: ProxyStateUpdateMutator,
}

impl ProxyStateUpdater {
    /// Certificates are fetched ahead of their use.
    pub fn new(state: ProxyState) -> (r: Self)
        ensures
            r.state == state,
            r.updater.spec_fetches(),
    {
        ProxyStateUpdater { state, updater: ProxyStateUpdateMutator::new() }
    }

    /// Certificates are not fetched ahead of their use.
    pub fn new_no_fetch(state: ProxyState) -> (r: Self)
        ensures
            r.state == state,
            !r.updater.spec_fetches(),
    {
        ProxyStateUpdater { state, updater: ProxyStateUpdateMutator::new_no_fetch() }
    }
}

} // verus!
