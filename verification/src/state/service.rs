//! Services and the workloads behind them.

use vstd::prelude::*;

use super::workload::{HealthStatus, HostnameView, NamespacedHostname};
use crate::table::{Table, TableKey};
use crate::text::same_text;

verus! {

/// A service. One that does not include unhealthy endpoints has healthy ones only.
#[derive(Clone, Debug, PartialEq, Eq)]
pub struct Service {
    pub namespace: String,
    pub hostname: String,
    pub includes_unhealthy: bool,
}

/// A workload behind a service.
#[derive(Clone, Debug, PartialEq, Eq)]
pub struct Endpoint {
    pub service: NamespacedHostname,
    pub workload_uid: String,
    pub port: Vec<(u16, u16)>,
    pub status: HealthStatus,
}

/// A workload behind a service, as mathematics has it.
pub struct EndpointView {
    pub service: HostnameView,
    pub workload_uid: Seq<char>,
    pub port: Seq<(u16, u16)>,
    pub status: HealthStatus,
}

impl View for Endpoint {
    type V = EndpointView;

    open spec fn view(&self) -> EndpointView {
        EndpointView {
            service: self.service@,
            workload_uid: self.workload_uid@,
            port: self.port@,
            status: self.status,
        }
    }
}

/// Each endpoint, as mathematics has it.
pub open spec fn endpoint_views(endpoints: Seq<Endpoint>) -> Seq<EndpointView> {
    endpoints.map_values(|e: Endpoint| e@)
}

impl TableKey for NamespacedHostname {
    type Key = HostnameView;

    open spec fn key(&self) -> HostnameView {
        self@
    }

    fn same(&self, other: &Self) -> (r: bool) {
        self.namespace == other.namespace && self.hostname == other.hostname
    }
}

impl Service {
    /// The service's name.
    pub open spec fn spec_name(self) -> HostnameView {
        (self.namespace@, self.hostname@)
    }

    /// The service's name.
    pub fn namespaced_hostname(&self) -> (r: NamespacedHostname)
        ensures
            r@ == self.spec_name(),
    {
        NamespacedHostname { namespace: self.namespace.clone(), hostname: self.hostname.clone() }
    }

    /// Whether the service has endpoints of this status.
    pub open spec fn includes(self, status: HealthStatus) -> bool {
        status == HealthStatus::Healthy || self.includes_unhealthy
    }

    /// Whether the service has endpoints of this status.
    pub fn should_include_endpoint(&self, status: HealthStatus) -> (r: bool)
        ensures
            r == self.includes(status),
    {
        status == HealthStatus::Healthy || self.includes_unhealthy
    }
}

/// Which endpoints to keep.
pub enum Keep {
    /// All but those of this workload.
    OtherWorkloads(Seq<char>),
    /// All but those of this service.
    OtherServices(HostnameView),
    /// All but those of this service that it does not include.
    Included(Service),
    /// All but that of this workload behind this service.
    OtherThan(HostnameView, Seq<char>),
}

/// Whether to keep the endpoint.
pub open spec fn kept(endpoint: EndpointView, keep: Keep) -> bool {
    match keep {
        Keep::OtherWorkloads(uid) => endpoint.workload_uid != uid,
        Keep::OtherServices(name) => endpoint.service != name,
        Keep::Included(service) => endpoint.service != service.spec_name() || service.includes(
            endpoint.status,
        ),
        Keep::OtherThan(name, uid) => endpoint.service != name || endpoint.workload_uid != uid,
    }
}

/// The endpoints that are kept, in their order.
pub open spec fn keep_only(endpoints: Seq<EndpointView>, keep: Keep) -> Seq<EndpointView>
    decreases endpoints.len(),
{
    if endpoints.len() == 0 {
        Seq::empty()
    } else {
        let before = keep_only(endpoints.drop_last(), keep);
        if kept(endpoints.last(), keep) {
            before.push(endpoints.last())
        } else {
            before
        }
    }
}

/// Exactly the endpoints that are to be kept are kept.
pub proof fn law_keep_only(endpoints: Seq<EndpointView>, keep: Keep, endpoint: EndpointView)
    ensures
        keep_only(endpoints, keep).contains(endpoint) == (endpoints.contains(endpoint) && kept(
            endpoint,
            keep,
        )),
    decreases endpoints.len(),
{
    if endpoints.len() > 0 {
        let short = endpoints.drop_last();
        let last = endpoints.last();
        law_keep_only(short, keep, endpoint);
        assert(endpoints =~= short.push(last));
        lemma_pushed(short, last, endpoint);
        if kept(last, keep) {
            lemma_pushed(keep_only(short, keep), last, endpoint);
        }
    }
}

proof fn lemma_pushed(s: Seq<EndpointView>, y: EndpointView, x: EndpointView)
    ensures
        s.push(y).contains(x) == (s.contains(x) || x == y),
{
    if s.contains(x) {
        let k = choose|k: int| 0 <= k < s.len() && s[k] == x;
        assert(s.push(y)[k] == x);
    }
    assert(s.push(y)[s.len() as int] == y);
}

/// The services by name, and their endpoints. Endpoints may wait for a service that
/// is not there yet.
pub struct ServicesModel {
    pub services: Map<HostnameView, Service>,
    pub endpoints: Seq<EndpointView>,
}

/// The services with this endpoint, in place of the same workload's behind the same
/// service. A service that does not include it is left as it is.
pub open spec fn with_endpoint(model: ServicesModel, endpoint: EndpointView) -> ServicesModel {
    if model.services.dom().contains(endpoint.service)
        && !model.services[endpoint.service].includes(endpoint.status) {
        model
    } else {
        ServicesModel {
            endpoints: keep_only(
                model.endpoints,
                Keep::OtherThan(endpoint.service, endpoint.workload_uid),
            ).push(endpoint),
            ..model
        }
    }
}

/// The services with this one in place of the one of the same name. It keeps the
/// endpoints that it includes.
pub open spec fn with_service(model: ServicesModel, service: Service) -> ServicesModel {
    ServicesModel {
        services: model.services.insert(service.spec_name(), service),
        endpoints: keep_only(model.endpoints, Keep::Included(service)),
    }
}

/// The services without the endpoints of a workload.
pub open spec fn without_workload(model: ServicesModel, uid: Seq<char>) -> ServicesModel {
    ServicesModel { endpoints: keep_only(model.endpoints, Keep::OtherWorkloads(uid)), ..model }
}

/// The services without this one; its endpoints go with it.
pub open spec fn without_service(model: ServicesModel, name: HostnameView) -> ServicesModel {
    if model.services.dom().contains(name) {
        ServicesModel {
            services: model.services.remove(name),
            endpoints: keep_only(model.endpoints, Keep::OtherServices(name)),
        }
    } else {
        model
    }
}

/// Services and their endpoints.
pub struct ServiceStore {
    services: Table<NamespacedHostname, Service>,
    endpoints: Vec<Endpoint>,
}

impl View for ServiceStore {
    type V = ServicesModel;

    closed spec fn view(&self) -> ServicesModel {
        ServicesModel { services: self.services@, endpoints: endpoint_views(self.endpoints@) }
    }
}

enum KeepExec<'a> {
    OtherWorkloads(&'a str),
    OtherServices(&'a NamespacedHostname),
    Included(&'a Service),
    OtherThan(&'a NamespacedHostname, &'a str),
}

impl<'a> KeepExec<'a> {
    spec fn model(self) -> Keep {
        match self {
            KeepExec::OtherWorkloads(uid) => Keep::OtherWorkloads(uid@),
            KeepExec::OtherServices(name) => Keep::OtherServices(name@),
            KeepExec::Included(service) => Keep::Included(*service),
            KeepExec::OtherThan(name, uid) => Keep::OtherThan(name@, uid@),
        }
    }

    fn keeps(&self, endpoint: &Endpoint) -> (r: bool)
        ensures
            r == kept(endpoint@, self.model()),
    {
        match self {
            KeepExec::OtherWorkloads(uid) => !same_text(endpoint.workload_uid.as_str(), uid),
            KeepExec::OtherServices(name) => !endpoint.service.same(name),
            KeepExec::Included(service) => !endpoint.service.same(&service.namespaced_hostname())
                || service.should_include_endpoint(endpoint.status),
            KeepExec::OtherThan(name, uid) => !endpoint.service.same(name) || !same_text(
                endpoint.workload_uid.as_str(),
                uid,
            ),
        }
    }
}

fn retain<'a>(endpoints: &mut Vec<Endpoint>, keep: KeepExec<'a>)
    ensures
        endpoint_views(final(endpoints)@) == keep_only(
            endpoint_views(old(endpoints)@),
            keep.model(),
        ),
{
    let ghost all = endpoint_views(endpoints@);
    let mut rest: Vec<Endpoint> = Vec::new();
    std::mem::swap(&mut rest, endpoints);
    let ghost from = rest@;
    let count: usize = rest.len();
    let mut out: Vec<Endpoint> = Vec::new();
    let mut i: usize = 0;
    assert(endpoint_views(out@) =~= keep_only(all.take(0), keep.model()));
    assert(from.skip(0) =~= from);
    while i < count
        invariant
            i <= count,
            count == from.len(),
            all == endpoint_views(from),
            rest@ == from.skip(i as int),
            endpoint_views(out@) == keep_only(all.take(i as int), keep.model()),
        decreases count - i,
    {
        let endpoint: Endpoint = rest.remove(0);
        assert(endpoint == from[i as int]);
        assert(rest@ =~= from.skip(i + 1));
        let ghost before = endpoint_views(out@);
        assert(all.take(i + 1).drop_last() =~= all.take(i as int));
        assert(all.take(i + 1).last() == endpoint@);
        if keep.keeps(&endpoint) {
            out.push(endpoint);
            assert(endpoint_views(out@) =~= before.push(endpoint@));
        }
        i = i + 1;
    }
    assert(all.take(i as int) =~= all);
    *endpoints = out;
}

impl ServiceStore {
    /// No services yet.
    pub fn new() -> (r: ServiceStore)
        ensures
            r@.services == Map::<HostnameView, Service>::empty(),
            r@.endpoints == Seq::<EndpointView>::empty(),
    {
        let store: ServiceStore = ServiceStore { services: Table::new(), endpoints: Vec::new() };
        assert(store@.endpoints =~= Seq::empty());
        store
    }

    /// The service of this name.
    pub fn get_by_namespaced_host(&self, name: &NamespacedHostname) -> (r: Option<&Service>)
        ensures
            r == (if self@.services.dom().contains(name@) {
                Some(&self@.services[name@])
            } else {
                None
            }),
    {
        self.services.get(name)
    }

    /// The endpoints of all services.
    pub fn endpoints(&self) -> (r: &Vec<Endpoint>)
        ensures
            endpoint_views(r@) == self@.endpoints,
    {
        &self.endpoints
    }

    /// Puts a service in place of the one of the same name.
    pub fn insert(&mut self, service: Service)
        ensures
            final(self)@ == with_service(old(self)@, service),
    {
        retain(&mut self.endpoints, KeepExec::Included(&service));
        let name: NamespacedHostname = service.namespaced_hostname();
        self.services.insert(name, service);
    }

    /// Puts an endpoint in place of the same workload's behind the same service.
    pub fn insert_endpoint(&mut self, endpoint: Endpoint)
        ensures
            final(self)@ == with_endpoint(old(self)@, endpoint@),
    {
        if let Some(service) = self.services.get(&endpoint.service) {
            if !service.should_include_endpoint(endpoint.status) {
                return;
            }
        }
        retain(
            &mut self.endpoints,
            KeepExec::OtherThan(&endpoint.service, endpoint.workload_uid.as_str()),
        );
        let ghost before = endpoint_views(self.endpoints@);
        self.endpoints.push(endpoint);
        assert(endpoint_views(self.endpoints@) =~= before.push(endpoint@));
    }

    /// Forgets the endpoints of a workload.
    pub fn remove_endpoint(&mut self, workload_uid: &str)
        ensures
            final(self)@ == without_workload(old(self)@, workload_uid@),
    {
        retain(&mut self.endpoints, KeepExec::OtherWorkloads(workload_uid));
    }

    /// Forgets a service, and says whether there was one.
    pub fn remove(&mut self, name: &NamespacedHostname) -> (r: bool)
        ensures
            final(self)@ == without_service(old(self)@, name@),
            r == old(self)@.services.dom().contains(name@),
    {
        if self.services.remove(name).is_some() {
            retain(&mut self.endpoints, KeepExec::OtherServices(name));
            true
        } else {
            assert(self@.services =~= old(self)@.services);
            false
        }
    }
}

/// An endpoint takes the place of the same workload's behind the same service, and no
/// other endpoint is touched. A service that has healthy endpoints only does not take an
/// unhealthy one, which leaves everything as it was.
pub proof fn law_endpoint_takes_its_place(
    model: ServicesModel,
    endpoint: EndpointView,
    other: EndpointView,
)
    ensures
        ({
            let after = with_endpoint(model, endpoint);
            let refused = model.services.dom().contains(endpoint.service) && endpoint.status
                is Unhealthy && !model.services[endpoint.service].includes_unhealthy;
            &&& after.services == model.services
            &&& refused ==> after == model
            &&& !refused ==> after.endpoints.contains(endpoint)
            &&& !refused && other != endpoint ==> (after.endpoints.contains(other)
                <==> model.endpoints.contains(other) && !(other.service == endpoint.service
                && other.workload_uid == endpoint.workload_uid))
        }),
{
    let keep = Keep::OtherThan(endpoint.service, endpoint.workload_uid);
    law_keep_only(model.endpoints, keep, other);
    lemma_pushed(keep_only(model.endpoints, keep), endpoint, other);
    lemma_pushed(keep_only(model.endpoints, keep), endpoint, endpoint);
}

/// A service takes the place of the one of the same name. Of the endpoints behind it the
/// healthy ones stay, and the others where it includes them; no other service and no
/// endpoint of another is touched.
pub proof fn law_service_takes_its_place(
    model: ServicesModel,
    service: Service,
    name: HostnameView,
    endpoint: EndpointView,
)
    ensures
        ({
            let after = with_service(model, service);
            let own = (service.namespace@, service.hostname@);
            &&& after.services.dom().contains(own) && after.services[own] == service
            &&& name != own ==> (after.services.dom().contains(name)
                <==> model.services.dom().contains(name)) && after.services[name]
                == model.services[name]
            &&& after.endpoints.contains(endpoint) <==> model.endpoints.contains(endpoint) && (
            endpoint.service != own || endpoint.status is Healthy || service.includes_unhealthy)
        }),
{
    law_keep_only(model.endpoints, Keep::Included(service), endpoint);
}

/// A workload that goes leaves all services, and no other does.
pub proof fn law_workload_leaves_its_services(
    model: ServicesModel,
    uid: Seq<char>,
    endpoint: EndpointView,
)
    ensures
        ({
            let after = without_workload(model, uid);
            &&& after.services == model.services
            &&& after.endpoints.contains(endpoint) <==> model.endpoints.contains(endpoint)
                && endpoint.workload_uid != uid
        }),
{
    law_keep_only(model.endpoints, Keep::OtherWorkloads(uid), endpoint);
}

/// A service that goes takes its endpoints with it, and no others; one that is not there
/// leaves everything as it was, endpoints that wait for it too.
pub proof fn law_service_goes_with_its_endpoints(
    model: ServicesModel,
    name: HostnameView,
    other: HostnameView,
    endpoint: EndpointView,
)
    ensures
        ({
            let after = without_service(model, name);
            &&& !after.services.dom().contains(name)
            &&& other != name ==> (after.services.dom().contains(other)
                <==> model.services.dom().contains(other)) && after.services[other]
                == model.services[other]
            &&& model.services.dom().contains(name) ==> (after.endpoints.contains(endpoint)
                <==> model.endpoints.contains(endpoint) && endpoint.service != name)
            &&& !model.services.dom().contains(name) ==> after == model
        }),
{
    law_keep_only(model.endpoints, Keep::OtherServices(name), endpoint);
}

/// The endpoints that stay keep their order.
pub proof fn law_kept_endpoints_keep_their_order(
    a: Seq<EndpointView>,
    b: Seq<EndpointView>,
    keep: Keep,
)
    ensures
        keep_only(a + b, keep) == keep_only(a, keep) + keep_only(b, keep),
    decreases b.len(),
{
    if b.len() == 0 {
        assert(a + b =~= a);
        assert(keep_only(a, keep) + keep_only(b, keep) =~= keep_only(a, keep));
    } else {
        law_kept_endpoints_keep_their_order(a, b.drop_last(), keep);
        assert((a + b).drop_last() =~= a + b.drop_last());
        assert(keep_only(a + b, keep) =~= keep_only(a, keep) + keep_only(b, keep));
    }
}

} // verus!
