//! What updates and configuration files do, in terms of what was sent and what is known
//! before and after.

use vstd::prelude::*;

use super::local::{
    bad_workload, config_fault, has_uid, policies_fault, policies_of, prefetched, sandboxes_fault,
    sandboxes_of, services_of, workloads_of, LocalConfig, LocalWorkload,
};
use super::{
    address_refusals, bad_service, cert_actions, endpoint_of, hostname_of, policy_refusals,
    policy_step, removal_step, sandbox_refusals, sandbox_step, services_before, update_name,
    with_endpoints, workload_fault, workload_step, AddressEffect, AddressMessage, AddressState,
    CertView, WorkloadMessage, XdsUpdate,
};
use crate::rbac::chain::{policy_is, TrafficPolicy, TrafficPolicyMessage};
use crate::rbac::meaning::{law_accepted_policies, law_valid_policies, readable_direction, sound_rules};
use crate::sandbox::discovery::{
    message_fault, sandbox_fault, sandbox_is, Sandbox, SandboxMessage,
};
use crate::sandbox::meaning::{law_references, sound_references};
use crate::sandbox::store::StoreModel;
use crate::state::service::{
    law_endpoint_takes_its_place, law_service_goes_with_its_endpoints,
    law_workload_leaves_its_services, EndpointView, Service, ServicesModel,
};
use crate::state::store::law_identities_on_a_node;
use crate::state::workload::{first_at, HostnameView, Workload};
use crate::text::views;

verus! {

/// A namespace, a slash and a host name are taken for what they are; a text without a
/// slash is no name of a service.
pub proof fn law_names_of_services(namespace: Seq<char>, hostname: Seq<char>)
    requires
        !namespace.contains('/'),
    ensures
        hostname_of(namespace + seq!['/'] + hostname) == Some((namespace, hostname)),
        hostname_of(namespace) is None,
{
    let text = namespace + seq!['/'] + hostname;
    let n = namespace.len() as int;
    assert(text[n] == '/');
    assert(text.contains(text[n]));
    assert forall|k: int| 0 <= k < n implies #[trigger] text[k] != '/' by {
        assert(namespace.contains(namespace[k]));
    }
    assert(first_at(text, '/', n));
    let i = choose|i: int| first_at(text, '/', i);
    assert(i == n);
    assert(text.take(n) =~= namespace);
    assert(text.skip(n + 1) =~= hostname);
}

/// The first name of a service without a slash is the one that is told; where all have
/// one, none is.
pub proof fn law_first_bad_name_is_told(services: Seq<(String, Vec<(u16, u16)>)>)
    ensures
        match bad_service(services) {
            None => forall|i: int|
                0 <= i < services.len() ==> (#[trigger] services[i]).0@.contains('/'),
            Some(name) => exists|i: int|
                0 <= i < services.len() && (#[trigger] services[i]).0@ == name && !name.contains(
                    '/',
                ) && forall|k: int| 0 <= k < i ==> (#[trigger] services[k]).0@.contains('/'),
        },
    decreases services.len(),
{
    if services.len() > 0 {
        let short = services.drop_last();
        let n = services.len() - 1;
        law_first_bad_name_is_told(short);
        assert(forall|k: int| 0 <= k < n ==> short[k] == services[k]);
        if let Some(name) = bad_service(short) {
            let i = choose|i: int|
                0 <= i < short.len() && (#[trigger] short[i]).0@ == name && !name.contains('/')
                    && forall|k: int| 0 <= k < i ==> (#[trigger] short[k]).0@.contains('/');
            assert(services[i].0@ == name);
            assert forall|k: int| 0 <= k < i implies (#[trigger] services[k]).0@.contains('/') by {
                assert(short[k].0@.contains('/'));
            }
        } else {
            assert forall|k: int| 0 <= k < n implies (#[trigger] services[k]).0@.contains('/') by {
                assert(short[k].0@.contains('/'));
            }
            assert(services[n] == services.last());
        }
    }
}

/// Whether the service takes no endpoint of this status.
pub open spec fn refuses(model: ServicesModel, endpoint: EndpointView) -> bool {
    model.services.dom().contains(endpoint.service) && endpoint.status is Unhealthy
        && !model.services[endpoint.service].includes_unhealthy
}

/// A workload stands behind each service that it names, with the ports that it names
/// for it last and with its own status, unless the service does not take it. No service
/// changes, and no other workload moves.
pub proof fn law_workload_is_behind_its_services(
    model: ServicesModel,
    workload: Workload,
    services: Seq<(String, Vec<(u16, u16)>)>,
    i: int,
    other: EndpointView,
)
    requires
        bad_service(services) is None,
        0 <= i < services.len(),
        forall|k: int|
            i < k < services.len() ==> hostname_of((#[trigger] services[k]).0@) != hostname_of(
                services[i].0@,
            ),
        other.workload_uid != workload.uid@,
    ensures
        ({
            let after = with_endpoints(model, workload, services);
            let own = endpoint_of(
                workload,
                hostname_of(services[i].0@).unwrap(),
                services[i].1@,
            );
            &&& hostname_of(services[i].0@) is Some
            &&& own.workload_uid == workload.uid@ && own.status == workload.status && own.port
                == services[i].1@ && Some(own.service) == hostname_of(services[i].0@)
            &&& after.services == model.services
            &&& !refuses(model, own) ==> after.endpoints.contains(own)
            &&& after.endpoints.contains(other) <==> model.endpoints.contains(other)
        }),
    decreases services.len(),
{
    let short = services.drop_last();
    let last = services.last();
    let n = services.len() - 1;
    let before = with_endpoints(model, workload, short);
    let own = endpoint_of(workload, hostname_of(services[i].0@).unwrap(), services[i].1@);
    let newest = endpoint_of(workload, hostname_of(last.0@).unwrap(), last.1@);
    lemma_all_named(services, i);
    lemma_services_stay(model, workload, short, other);
    law_endpoint_takes_its_place(before, newest, other);
    law_endpoint_takes_its_place(before, newest, own);
    if i < n {
        assert(forall|k: int| 0 <= k < n ==> short[k] == services[k]);
        law_workload_is_behind_its_services(model, workload, short, i, other);
        lemma_all_named(services, n);
        assert(hostname_of(services[n].0@) != hostname_of(services[i].0@));
        assert(newest.service != own.service);
    } else {
        assert(own == newest);
    }
}

proof fn lemma_all_named(services: Seq<(String, Vec<(u16, u16)>)>, i: int)
    requires
        bad_service(services) is None,
        0 <= i < services.len(),
    ensures
        hostname_of(services[i].0@) is Some,
    decreases services.len(),
{
    if i < services.len() - 1 {
        assert(services.drop_last()[i] == services[i]);
        lemma_all_named(services.drop_last(), i);
    }
}

proof fn lemma_services_stay(
    model: ServicesModel,
    workload: Workload,
    services: Seq<(String, Vec<(u16, u16)>)>,
    other: EndpointView,
)
    requires
        other.workload_uid != workload.uid@,
    ensures
        with_endpoints(model, workload, services).services == model.services,
        with_endpoints(model, workload, services).endpoints.contains(other)
            <==> model.endpoints.contains(other),
    decreases services.len(),
{
    if services.len() > 0 {
        let short = services.drop_last();
        lemma_services_stay(model, workload, short, other);
        if bad_service(services) is None {
            let before = with_endpoints(model, workload, short);
            law_endpoint_takes_its_place(
                before,
                endpoint_of(
                    workload,
                    hostname_of(services.last().0@).unwrap(),
                    services.last().1@,
                ),
                other,
            );
        }
    }
}

/// A workload is accepted exactly where its references are sound and the name of each
/// service that it names has a slash.
pub proof fn law_accepted_workloads(message: WorkloadMessage)
    ensures
        workload_fault(message) is None <==> sound_references(
            views(message.workload.traffic_policy_refs@),
        ) && forall|i: int|
            0 <= i < message.services@.len() ==> (#[trigger] message.services@[i]).0@.contains('/'),
{
    law_references(views(message.workload.traffic_policy_refs@));
    law_first_bad_name_is_told(message.services@);
    if let Some(name) = bad_service(message.services@) {
        let i = choose|i: int|
            0 <= i < message.services@.len() && (#[trigger] message.services@[i]).0@ == name
                && !name.contains('/');
        assert(!message.services@[i].0@.contains('/'));
    }
}

/// A workload with sound references takes the place of the one of its identifier and of
/// no other, and those who apply policies are told exactly where its references are not
/// those that were known. Its certificate is fetched where certificates are. One with
/// unsound references changes nothing.
pub proof fn law_workload_takes_its_place(
    fetches: bool,
    from: AddressState,
    message: WorkloadMessage,
    to: AddressState,
    effect: AddressEffect,
    other: Seq<char>,
)
    requires
        workload_step(fetches, from, message, to, effect),
    ensures
        ({
            let uid = message.workload.uid@;
            let refs = message.workload.traffic_policy_refs@;
            &&& !sound_references(views(refs)) ==> to == from && !effect.recheck && effect.cert
                is None
            &&& sound_references(views(refs)) ==> {
                &&& to.workloads.dom() == from.workloads.dom().insert(uid)
                &&& to.workloads[uid] == message.workload
                &&& other != uid ==> to.workloads[other] == from.workloads[other]
                &&& from.workloads.dom().contains(uid) ==> (effect.recheck <==> views(
                    from.workloads[uid].traffic_policy_refs@,
                ) != views(refs))
                &&& !from.workloads.dom().contains(uid) ==> (effect.recheck <==> refs.len() > 0)
                &&& fetches <==> effect.cert is Some
                &&& effect.cert matches Some(cert) ==> cert matches CertView::Prefetch(id) && id.0
                    == message.workload.trust_domain@ && id.1 == message.workload.namespace@
                    && id.2 == message.workload.service_account@
            }
        }),
{
    let refs = message.workload.traffic_policy_refs@;
    law_references(views(refs));
    assert(views(refs).len() == refs.len());
    assert(refs.len() == 0 ==> views(refs) =~= Seq::empty());
}

/// Before a workload is put behind its services anew it leaves them all, where it was
/// known.
pub proof fn law_workload_leaves_before_it_comes_back(
    from: AddressState,
    uid: Seq<char>,
    endpoint: EndpointView,
)
    ensures
        ({
            let between = services_before(from.workloads, from.services, uid);
            &&& between.services == from.services.services
            &&& from.workloads.dom().contains(uid) ==> (between.endpoints.contains(endpoint)
                <==> from.services.endpoints.contains(endpoint) && endpoint.workload_uid != uid)
            &&& !from.workloads.dom().contains(uid) ==> between == from.services
        }),
{
    law_workload_leaves_its_services(from.services, uid, endpoint);
}

/// The name of a known workload takes that workload away, from all services too, and
/// nothing else. Those who apply policies are told where it had references; its
/// certificate is given up where certificates are fetched and no workload that is left
/// on its node has the same identity.
pub proof fn law_known_workload_is_removed(
    fetches: bool,
    from: AddressState,
    name: Seq<char>,
    to: AddressState,
    effect: AddressEffect,
    other: Seq<char>,
    endpoint: EndpointView,
)
    requires
        from.workloads.dom().contains(name),
        removal_step(fetches, from, name, to, effect),
    ensures
        ({
            let gone = from.workloads[name];
            let still = exists|uid: Seq<char>|
                {
                    &&& #[trigger] to.workloads.dom().contains(uid)
                    &&& to.workloads[uid].node@ == gone.node@
                    &&& to.workloads[uid].trust_domain@ == gone.trust_domain@
                    &&& to.workloads[uid].namespace@ == gone.namespace@
                    &&& to.workloads[uid].service_account@ == gone.service_account@
                };
            &&& to.workloads.dom() == from.workloads.dom().remove(name)
            &&& other != name ==> to.workloads[other] == from.workloads[other]
            &&& to.services.services == from.services.services
            &&& to.services.endpoints.contains(endpoint) <==> from.services.endpoints.contains(
                endpoint,
            ) && endpoint.workload_uid != name
            &&& effect.recheck <==> gone.traffic_policy_refs@.len() > 0
            &&& effect.cert is Some <==> fetches && !still
            &&& effect.cert matches Some(cert) ==> cert matches CertView::Clear(id) && id.0
                == gone.trust_domain@ && id.1 == gone.namespace@ && id.2 == gone.service_account@
        }),
{
    law_workload_leaves_its_services(from.services, name, endpoint);
    let gone = from.workloads[name];
    law_identities_on_a_node(to.workloads, gone.node@, gone.spec_identity());
}

/// A name that is no workload's takes the service of that name away, with its endpoints,
/// and changes nothing else; a name with two slashes, or none, changes nothing.
pub proof fn law_service_is_removed(
    fetches: bool,
    from: AddressState,
    namespace: Seq<char>,
    hostname: Seq<char>,
    to: AddressState,
    effect: AddressEffect,
    other: HostnameView,
    endpoint: EndpointView,
)
    requires
        !namespace.contains('/'),
        !from.workloads.dom().contains(namespace + seq!['/'] + hostname),
        removal_step(fetches, from, namespace + seq!['/'] + hostname, to, effect),
    ensures
        to.workloads == from.workloads,
        !effect.recheck && effect.cert is None,
        hostname.contains('/') ==> to.services == from.services,
        !hostname.contains('/') ==> {
            let name = (namespace, hostname);
            &&& !to.services.services.dom().contains(name)
            &&& other != name ==> (to.services.services.dom().contains(other)
                <==> from.services.services.dom().contains(other)) && to.services.services[other]
                == from.services.services[other]
            &&& from.services.services.dom().contains(name) ==> (to.services.endpoints.contains(
                endpoint,
            ) <==> from.services.endpoints.contains(endpoint) && endpoint.service != name)
            &&& !from.services.services.dom().contains(name) ==> to.services == from.services
        },
{
    law_names_of_services(namespace, hostname);
    law_service_goes_with_its_endpoints(from.services, (namespace, hostname), other, endpoint);
}

/// A removal of a name without a slash that is no workload's changes nothing.
pub proof fn law_unknown_name_is_passed_over(
    fetches: bool,
    from: AddressState,
    name: Seq<char>,
    to: AddressState,
    effect: AddressEffect,
)
    requires
        !name.contains('/'),
        !from.workloads.dom().contains(name),
        removal_step(fetches, from, name, to, effect),
    ensures
        to.workloads == from.workloads,
        to.services == from.services,
        !effect.recheck && effect.cert is None,
{
}

/// The updates of addresses that are refused are told by their names, in their order,
/// and no others: a batch is refused piece by piece.
pub proof fn law_refused_addresses_are_told(
    a: Seq<XdsUpdate<AddressMessage>>,
    b: Seq<XdsUpdate<AddressMessage>>,
    one: XdsUpdate<AddressMessage>,
)
    ensures
        address_refusals(a + b) == address_refusals(a) + address_refusals(b),
        match one {
            XdsUpdate::Remove(_) => address_refusals(seq![one]).len() == 0,
            XdsUpdate::Update { name, resource } => match resource {
                AddressMessage::Workload(w) => {
                    &&& address_refusals(seq![one]).len() == (if workload_fault(w) is Some {
                        1nat
                    } else {
                        0
                    })
                    &&& workload_fault(w) is Some ==> address_refusals(seq![one])[0].0 == name@
                        && address_refusals(seq![one])[0].1 == workload_fault(w).unwrap()
                },
                AddressMessage::Service(_) => address_refusals(seq![one]).len() == 0,
                AddressMessage::Unknown => address_refusals(seq![one]).len() == 1
                    && address_refusals(seq![one])[0].0 == name@,
            },
        },
    decreases b.len(),
{
    assert(seq![one].drop_last() =~= Seq::empty());
    reveal_with_fuel(address_refusals, 2);
    if b.len() == 0 {
        assert(a + b =~= a);
        assert(address_refusals(a + b) =~= address_refusals(a) + address_refusals(b));
    } else {
        law_refused_addresses_are_told(a, b.drop_last(), one);
        assert((a + b).drop_last() =~= a + b.drop_last());
        assert(address_refusals(a + b) =~= address_refusals(a) + address_refusals(b));
    }
}

/// The updates of sandboxes that are refused are told by their names, in their order,
/// and no others: those whose name is not the sandbox's identifier, and those that are
/// not accepted. A removal is never refused.
pub proof fn law_refused_sandboxes_are_told(
    a: Seq<XdsUpdate<SandboxMessage>>,
    b: Seq<XdsUpdate<SandboxMessage>>,
    one: XdsUpdate<SandboxMessage>,
)
    ensures
        sandbox_refusals(a + b) == sandbox_refusals(a) + sandbox_refusals(b),
        match one {
            XdsUpdate::Remove(_) => sandbox_refusals(seq![one]).len() == 0,
            XdsUpdate::Update { name, resource } => {
                &&& sandbox_refusals(seq![one]).len() == (if name@ == resource.uid@
                    && message_fault(resource) is None {
                    0nat
                } else {
                    1
                })
                &&& sandbox_refusals(seq![one]).len() == 1 ==> sandbox_refusals(seq![one])[0].0
                    == name@
            },
        },
    decreases b.len(),
{
    assert(seq![one].drop_last() =~= Seq::empty());
    reveal_with_fuel(sandbox_refusals, 2);
    if b.len() == 0 {
        assert(a + b =~= a);
        assert(sandbox_refusals(a + b) =~= sandbox_refusals(a) + sandbox_refusals(b));
    } else {
        law_refused_sandboxes_are_told(a, b.drop_last(), one);
        assert((a + b).drop_last() =~= a + b.drop_last());
        assert(sandbox_refusals(a + b) =~= sandbox_refusals(a) + sandbox_refusals(b));
    }
}

/// The updates of policies that are refused are told by their names, in their order, and
/// no others: those without a name, and those with a rule that cannot be read. A removal
/// is never refused.
pub proof fn law_refused_policies_are_told(
    a: Seq<XdsUpdate<TrafficPolicyMessage>>,
    b: Seq<XdsUpdate<TrafficPolicyMessage>>,
    one: XdsUpdate<TrafficPolicyMessage>,
)
    ensures
        policy_refusals(a + b) == policy_refusals(a) + policy_refusals(b),
        match one {
            XdsUpdate::Remove(_) => policy_refusals(seq![one]).len() == 0,
            XdsUpdate::Update { name, resource } => {
                &&& policy_refusals(seq![one]).len() == (if name@.len() > 0 && readable_direction(
                    resource.ingress,
                ) && readable_direction(resource.egress) {
                    0nat
                } else {
                    1
                })
                &&& policy_refusals(seq![one]).len() == 1 ==> policy_refusals(seq![one])[0].0
                    == name@
            },
        },
    decreases b.len(),
{
    assert(seq![one].drop_last() =~= Seq::empty());
    reveal_with_fuel(policy_refusals, 2);
    if let XdsUpdate::Update { resource, .. } = one {
        law_accepted_policies(resource);
    }
    if b.len() == 0 {
        assert(a + b =~= a);
        assert(policy_refusals(a + b) =~= policy_refusals(a) + policy_refusals(b));
    } else {
        law_refused_policies_are_told(a, b.drop_last(), one);
        assert((a + b).drop_last() =~= a + b.drop_last());
        assert(policy_refusals(a + b) =~= policy_refusals(a) + policy_refusals(b));
    }
}

/// An accepted update of a policy leaves the policy that was sent under its name, and a
/// removal leaves none; no other policy is touched, and a refused update touches none.
pub proof fn law_policy_takes_its_place(
    from: Map<Seq<char>, TrafficPolicy>,
    update: XdsUpdate<TrafficPolicyMessage>,
    to: Map<Seq<char>, TrafficPolicy>,
    changed: bool,
    other: Seq<char>,
)
    requires
        policy_step(from, update, to, changed),
    ensures
        other != update_name(update) ==> (to.dom().contains(other) <==> from.dom().contains(other))
            && to[other] == from[other],
        match update {
            XdsUpdate::Remove(name) => !to.dom().contains(name@) && (changed
                <==> from.dom().contains(name@)),
            XdsUpdate::Update { name, resource } => if name@.len() > 0 && readable_direction(
                resource.ingress,
            ) && readable_direction(resource.egress) {
                to.dom().contains(name@) && policy_is(to[name@], resource) && (
                !from.dom().contains(name@) ==> changed)
            } else {
                to == from && !changed
            },
        },
{
    if let XdsUpdate::Update { resource, .. } = update {
        law_accepted_policies(resource);
    }
}

/// An accepted update of a sandbox leaves the sandbox that was sent under its
/// identifier, and a removal leaves none; no other sandbox is touched, and a refused
/// update touches none.
pub proof fn law_sandbox_takes_its_place(
    from: StoreModel,
    update: XdsUpdate<SandboxMessage>,
    to: StoreModel,
    changed: bool,
    other: Seq<char>,
)
    requires
        sandbox_step(from, update, to, changed),
    ensures
        other != update_name(update) ==> (to.resources.dom().contains(other)
            <==> from.resources.dom().contains(other)) && to.resources[other]
            == from.resources[other],
        match update {
            XdsUpdate::Remove(name) => !to.resources.dom().contains(name@) && (changed
                <==> from.resources.dom().contains(name@)),
            XdsUpdate::Update { name, resource } => if name@ == resource.uid@ && message_fault(
                resource,
            ) is None {
                to.resources.dom().contains(name@) && sandbox_is(to.resources[name@], resource) && (
                !from.resources.dom().contains(name@) ==> changed)
            } else {
                to == from && !changed
            },
        },
{
}

/// The actions on certificates are those of the steps that have one, in their order.
pub proof fn law_certificates_in_turn(steps: Seq<Option<CertView>>, one: CertView)
    ensures
        cert_actions(steps.push(Some(one))) == cert_actions(steps).push(one),
        cert_actions(steps.push(None)) == cert_actions(steps),
        cert_actions(Seq::<Option<CertView>>::empty()).len() == 0,
{
    assert(steps.push(Some(one)).drop_last() =~= steps);
    assert(steps.push(None).drop_last() =~= steps);
}

/// Whether no two sandboxes have the same identifier.
pub open spec fn distinct_uids(sandboxes: Seq<Sandbox>) -> bool {
    forall|i: int, j: int|
        #![trigger sandboxes[i], sandboxes[j]]
        0 <= i < j < sandboxes.len() ==> sandboxes[i].uid@ != sandboxes[j].uid@
}

proof fn lemma_policies(policies: Seq<(String, TrafficPolicy)>, from: nat)
    requires
        from <= policies.len(),
    ensures
        policies_fault(policies, from) is None <==> forall|i: int|
            from <= i < policies.len() ==> (#[trigger] policies[i]).0@.len() > 0 && sound_rules(
                policies[i].1.ingress,
            ) && sound_rules(policies[i].1.egress),
    decreases policies.len() - from,
{
    if from < policies.len() {
        lemma_policies(policies, from + 1);
        law_valid_policies(policies[from as int].1);
    }
}

proof fn lemma_sandboxes(sandboxes: Seq<Sandbox>, from: nat)
    requires
        from <= sandboxes.len(),
    ensures
        sandboxes_fault(sandboxes, from) is None <==> {
            &&& forall|i: int|
                from <= i < sandboxes.len() ==> sandbox_fault(#[trigger] sandboxes[i]) is None
            &&& forall|i: int, j: int|
                #![trigger sandboxes[i], sandboxes[j]]
                0 <= i < j < sandboxes.len() && from <= j ==> sandboxes[i].uid@
                    != sandboxes[j].uid@
        },
    decreases sandboxes.len() - from,
{
    if from < sandboxes.len() {
        lemma_sandboxes(sandboxes, from + 1);
        let before = sandboxes.take(from as int);
        let uid = sandboxes[from as int].uid@;
        if has_uid(before, uid) {
            let i = choose|i: int| 0 <= i < before.len() && (#[trigger] before[i]).uid@ == uid;
            assert(sandboxes[i].uid@ == uid);
        } else {
            assert forall|i: int| 0 <= i < from implies (#[trigger] sandboxes[i]).uid@ != uid by {
                assert(before[i] == sandboxes[i]);
            }
        }
    }
}

proof fn lemma_workloads(workloads: Seq<LocalWorkload>, from: nat)
    requires
        from <= workloads.len(),
    ensures
        match bad_workload(workloads, from) {
            None => forall|i: int|
                from <= i < workloads.len() ==> bad_service((#[trigger] workloads[i]).services@)
                    is None,
            Some(i) => from <= i < workloads.len() && bad_service(workloads[i as int].services@)
                is Some && forall|k: int|
                from <= k < i ==> bad_service((#[trigger] workloads[k]).services@) is None,
        },
    decreases workloads.len() - from,
{
    if from < workloads.len() {
        lemma_workloads(workloads, from + 1);
    }
}

/// A configuration is accepted exactly where each policy has a name and sound ports, each
/// sandbox is valid and no identifier is given twice, and the name of each service that a
/// workload names has a slash.
pub proof fn law_accepted_configurations(config: LocalConfig)
    ensures
        config_fault(config) is None <==> {
            &&& forall|i: int|
                0 <= i < config.policies@.len() ==> (#[trigger] config.policies@[i]).0@.len() > 0
                    && sound_rules(config.policies@[i].1.ingress) && sound_rules(
                    config.policies@[i].1.egress,
                )
            &&& forall|i: int|
                0 <= i < config.sandboxes@.len() ==> sandbox_fault(#[trigger] config.sandboxes@[i])
                    is None
            &&& distinct_uids(config.sandboxes@)
            &&& forall|i: int|
                0 <= i < config.workloads@.len() ==> bad_service(
                    (#[trigger] config.workloads@[i]).services@,
                ) is None
        },
{
    lemma_policies(config.policies@, 0);
    lemma_sandboxes(config.sandboxes@, 0);
    lemma_workloads(config.workloads@, 0);
}

/// Under each name of a configuration stands the policy that is given for it last, and
/// there are no others.
pub proof fn law_configured_policies(policies: Seq<(String, TrafficPolicy)>, i: int, name: Seq<char>)
    requires
        0 <= i < policies.len(),
    ensures
        policies_of(policies).dom().contains(policies[i].0@),
        (forall|k: int| i < k < policies.len() ==> (#[trigger] policies[k]).0@ != policies[i].0@)
            ==> policies_of(policies)[policies[i].0@] == policies[i].1,
        (forall|k: int| 0 <= k < policies.len() ==> (#[trigger] policies[k]).0@ != name)
            ==> !policies_of(policies).dom().contains(name),
    decreases policies.len(),
{
    let short = policies.drop_last();
    let n = policies.len() - 1;
    assert(policies.last() == policies[n]);
    assert(forall|k: int| 0 <= k < n ==> short[k] == policies[k]);
    if i < n {
        law_configured_policies(short, i, name);
    } else if n > 0 {
        law_configured_policies(short, 0, name);
    } else {
        assert(short =~= Seq::empty());
    }
}

/// Under each identifier of a configuration stands the workload that is given for it
/// last, and there are no others.
pub proof fn law_configured_workloads(workloads: Seq<LocalWorkload>, i: int, uid: Seq<char>)
    requires
        0 <= i < workloads.len(),
    ensures
        workloads_of(workloads).dom().contains(workloads[i].workload.uid@),
        (forall|k: int|
            i < k < workloads.len() ==> (#[trigger] workloads[k]).workload.uid@
                != workloads[i].workload.uid@) ==> workloads_of(
            workloads,
        )[workloads[i].workload.uid@] == workloads[i].workload,
        (forall|k: int| 0 <= k < workloads.len() ==> (#[trigger] workloads[k]).workload.uid@ != uid)
            ==> !workloads_of(workloads).dom().contains(uid),
    decreases workloads.len(),
{
    let short = workloads.drop_last();
    let n = workloads.len() - 1;
    assert(workloads.last() == workloads[n]);
    assert(forall|k: int| 0 <= k < n ==> short[k] == workloads[k]);
    if i < n {
        law_configured_workloads(short, i, uid);
    } else if n > 0 {
        law_configured_workloads(short, 0, uid);
    } else {
        assert(short =~= Seq::empty());
    }
}

/// Under each identifier of a configuration stands its sandbox.
pub proof fn law_configured_sandboxes(sandboxes: Seq<Sandbox>, i: int)
    requires
        0 <= i < sandboxes.len(),
        distinct_uids(sandboxes),
    ensures
        sandboxes_of(sandboxes).resources.dom().contains(sandboxes[i].uid@),
        sandboxes_of(sandboxes).resources[sandboxes[i].uid@] == sandboxes[i],
    decreases sandboxes.len(),
{
    let short = sandboxes.drop_last();
    let n = sandboxes.len() - 1;
    if i < n {
        assert(short[i] == sandboxes[i]);
        assert(distinct_uids(short)) by {
            assert forall|a: int, b: int|
                #![trigger short[a], short[b]]
                0 <= a < b < short.len() implies short[a].uid@ != short[b].uid@ by {
                assert(sandboxes[a].uid@ != sandboxes[b].uid@);
            }
        }
        law_configured_sandboxes(short, i);
        assert(sandboxes[i].uid@ != sandboxes[n].uid@);
    }
}

/// Each service of a configuration stands under its name, unless a later one has the
/// same.
pub proof fn law_configured_services(model: ServicesModel, services: Seq<Service>, i: int)
    requires
        0 <= i < services.len(),
        forall|k: int|
            i < k < services.len() ==> ((#[trigger] services[k]).namespace@, services[k].hostname@)
                != (services[i].namespace@, services[i].hostname@),
    ensures
        ({
            let name = (services[i].namespace@, services[i].hostname@);
            &&& services_of(model, services).services.dom().contains(name)
            &&& services_of(model, services).services[name] == services[i]
        }),
    decreases services.len(),
{
    let short = services.drop_last();
    let n = services.len() - 1;
    assert(services.last() == services[n]);
    assert(forall|k: int| 0 <= k < n ==> short[k] == services[k]);
    if i < n {
        law_configured_services(model, short, i);
        assert((services[n].namespace@, services[n].hostname@) != (
            services[i].namespace@,
            services[i].hostname@,
        ));
    }
}

/// Certificates are fetched for all workloads of a configuration that is accepted, for
/// none where its policies or sandboxes are not, and otherwise up to the workload that is
/// not.
pub proof fn law_prefetched_certificates(config: LocalConfig)
    ensures
        config_fault(config) is None ==> prefetched(config) == config.workloads@.len(),
        policies_fault(config.policies@, 0) is Some || sandboxes_fault(config.sandboxes@, 0) is Some
            ==> prefetched(config) == 0,
        policies_fault(config.policies@, 0) is None && sandboxes_fault(config.sandboxes@, 0) is None
            && config_fault(config) is Some ==> {
            &&& 0 < prefetched(config) <= config.workloads@.len()
            &&& bad_service(config.workloads@[prefetched(config) - 1].services@) is Some
            &&& forall|k: int|
                0 <= k < prefetched(config) - 1 ==> bad_service(
                    (#[trigger] config.workloads@[k]).services@,
                ) is None
        },
{
    lemma_workloads(config.workloads@, 0);
}

} // verus!
