//! Workloads and the names and addresses that belong to them.

use vstd::prelude::*;

use crate::extensions::extensions::EgressPolicies;
use crate::extensions::sni::SniTrafficPolicy;
use crate::net::IpAddr;
use crate::rbac::chain::{links, Attached};
use crate::rbac::store::TrafficPolicyStore;
use crate::sandbox::discovery::{attach, referred_policies};
use crate::text::{chars_of, law_split_of_one, law_split_of_two, split, text_of, views};

verus! {

/// How traffic leaves for its next hop.
#[derive(Clone, Copy, Debug, PartialEq, Eq, Hash, Structural)]
pub enum OutboundProtocol {
    TCP,
    HBONE,
}

/// Whether a workload is fit to serve.
#[derive(Clone, Copy, Debug, PartialEq, Eq, Hash, Structural)]
pub enum HealthStatus {
    Healthy,
    Unhealthy,
}

/// A host name and the namespace that it belongs to.
#[derive(Clone, Debug, PartialEq, Eq, Hash)]
pub struct NamespacedHostname {
    pub namespace: String,
    pub hostname: String,
}

/// An address and the network that it belongs to.
#[derive(Clone, Debug, PartialEq, Eq, Hash)]
pub struct NetworkAddress {
    pub network: String,
    pub address: IpAddr,
}

/// Where a gateway is found.
#[derive(Clone, Debug, PartialEq, Eq, Hash)]
pub enum Destination {
    Address(NetworkAddress),
    Hostname(NamespacedHostname),
}

/// A gateway and the port on which it takes tunnels.
#[derive(Clone, Debug, PartialEq, Eq, Hash)]
pub struct GatewayAddress {
    pub destination: Destination,
    pub hbone_mtls_port: u16,
}

/// What a workload proves to its peers that it is.
#[derive(Clone, Debug, PartialEq, Eq, Hash)]
pub struct Identity {
    pub trust_domain: String,
    pub namespace: String,
    pub service_account: String,
}

/// A workload, as far as its traffic depends on it.
#[derive(Clone, Debug, PartialEq, Eq, Hash)]
pub struct Workload {
    pub uid: String,
    pub name: String,
    pub namespace: String,
    pub network: String,
    pub node: String,
    pub trust_domain: String,
    pub service_account: String,
    pub workload_ips: Vec<IpAddr>,
    pub status: HealthStatus,
    pub egress_policies: Option<EgressPolicies>,
    pub sni_policy: Option<SniTrafficPolicy>,
    pub encoded_labels: Option<String>,
    pub traffic_policy_refs: Vec<String>,
}

/// How a proxy knows its own workload.
#[derive(Clone, Debug, PartialEq, Eq, Hash)]
pub struct WorkloadInfo {
    pub name: String,
    pub namespace: String,
    pub service_account: String,
}

/// The description of a workload, as characters.
pub struct InfoView {
    pub name: Seq<char>,
    pub namespace: Seq<char>,
    pub service_account: Seq<char>,
}

impl View for WorkloadInfo {
    type V = InfoView;

    open spec fn view(&self) -> InfoView {
        InfoView {
            name: self.name@,
            namespace: self.namespace@,
            service_account: self.service_account@,
        }
    }
}

impl WorkloadInfo {
    /// A copy of the description.
    pub fn copy(&self) -> (r: WorkloadInfo)
        ensures
            r@ == self@,
    {
        WorkloadInfo {
            name: self.name.clone(),
            namespace: self.namespace.clone(),
            service_account: self.service_account.clone(),
        }
    }
}

/// A host name with its namespace, as characters.
pub type HostnameView = (Seq<char>, Seq<char>);

/// Where the first character of its kind stands.
pub open spec fn first_at(s: Seq<char>, c: char, i: int) -> bool {
    &&& 0 <= i < s.len()
    &&& s[i] == c
    &&& forall|k: int| 0 <= k < i ==> #[trigger] s[k] != c
}

/// The name is the one that the text writes, if it writes one.
pub open spec fn is_written(name: Option<NamespacedHostname>, text: Seq<char>) -> bool {
    &&& name.is_some() == text.contains('/')
    &&& name matches Some(name) ==> first_at(text, '/', name.namespace@.len() as int) && text
        == name.namespace@.push('/') + name.hostname@
}

impl View for NamespacedHostname {
    type V = HostnameView;

    open spec fn view(&self) -> HostnameView {
        (self.namespace@, self.hostname@)
    }
}

impl NamespacedHostname {
    /// The name that a text in the `namespace/hostname` form writes; what stands
    /// behind the first slash is the host name.
    pub fn parse(text: &str) -> (r: Option<NamespacedHostname>)
        ensures
            is_written(r, text@),
    {
        let chars: Vec<char> = chars_of(text);
        let mut i: usize = 0;
        while i < chars.len()
            invariant
                i <= chars@.len(),
                chars@ == text@,
                forall|k: int| 0 <= k < i ==> #[trigger] text@[k] != '/',
            decreases chars@.len() - i,
        {
            if chars[i] == '/' {
                let namespace: String = text_of(
                    vstd::slice::slice_subrange(chars.as_slice(), 0, i),
                );
                let hostname: String = text_of(
                    vstd::slice::slice_subrange(chars.as_slice(), i + 1, chars.len()),
                );
                assert(text@[i as int] == '/');
                assert(text@ =~= namespace@.push('/') + hostname@);
                return Some(NamespacedHostname { namespace, hostname });
            }
            assert(text@[i as int] != '/');
            i = i + 1;
        }
        None
    }
}

/// Where a gateway is found that is written as this pair: in a network, where the
/// second part is an address, and else under a host name.
pub open spec fn destination_of(name: NamespacedHostname, address: Option<IpAddr>) -> Destination {
    match address {
        Some(address) => Destination::Address(
            NetworkAddress { network: name.namespace, address },
        ),
        None => Destination::Hostname(name),
    }
}

impl Destination {
    /// Where a gateway is found, by the two parts of what is written and the address
    /// that the second part is, if it is one.
    pub fn new(name: NamespacedHostname, address: Option<IpAddr>) -> (r: Destination)
        ensures
            r == destination_of(name, address),
    {
        match address {
            Some(address) => Destination::Address(
                NetworkAddress { network: name.namespace, address },
            ),
            None => Destination::Hostname(name),
        }
    }
}

impl View for Identity {
    type V = (Seq<char>, Seq<char>, Seq<char>);

    open spec fn view(&self) -> (Seq<char>, Seq<char>, Seq<char>) {
        (self.trust_domain@, self.namespace@, self.service_account@)
    }
}

impl Identity {
    /// The identity as a SPIFFE name.
    pub open spec fn shown(self) -> Seq<char> {
        "spiffe://"@ + self.trust_domain@ + "/ns/"@ + self.namespace@ + "/sa/"@
            + self.service_account@
    }

    /// The identity as a SPIFFE name.
    pub fn text(&self) -> (r: String)
        ensures
            r@ == self.shown(),
    {
        let mut out: String = "spiffe://".to_owned();
        out.append(self.trust_domain.as_str());
        out.append("/ns/");
        out.append(self.namespace.as_str());
        out.append("/sa/");
        out.append(self.service_account.as_str());
        out
    }

    /// Whether both are the same identity.
    pub fn same(&self, other: &Identity) -> (r: bool)
        ensures
            r == (self@ == other@),
    {
        self.trust_domain == other.trust_domain && self.namespace == other.namespace
            && self.service_account == other.service_account
    }
}

impl Workload {
    /// What the workload proves to its peers that it is.
    pub open spec fn spec_identity(self) -> (Seq<char>, Seq<char>, Seq<char>) {
        (self.trust_domain@, self.namespace@, self.service_account@)
    }

    /// The policies that the workload refers to, in order, with their names.
    pub fn traffic_policies<'a>(&'a self, store: &'a TrafficPolicyStore) -> (r: Vec<Attached<'a>>)
        ensures
            links(r@) == referred_policies(views(self.traffic_policy_refs@), store@),
    {
        let mut out: Vec<Attached<'a>> = Vec::new();
        assert(links(out@) =~= Seq::empty());
        attach(&mut out, &self.traffic_policy_refs, store);
        assert(links(out@) =~= referred_policies(views(self.traffic_policy_refs@), store@));
        out
    }

    /// What the workload proves to its peers that it is.
    pub fn identity(&self) -> (r: Identity)
        ensures
            r@ == self.spec_identity(),
    {
        Identity {
            trust_domain: self.trust_domain.clone(),
            namespace: self.namespace.clone(),
            service_account: self.service_account.clone(),
        }
    }

    /// Whether the address is one of the workload's own.
    pub fn has_ip(&self, ip: &IpAddr) -> (r: bool)
        ensures
            r == self.workload_ips@.contains(*ip),
    {
        let mut i: usize = 0;
        while i < self.workload_ips.len()
            invariant
                i <= self.workload_ips@.len(),
                forall|k: int| 0 <= k < i ==> #[trigger] self.workload_ips@[k] != *ip,
            decreases self.workload_ips@.len() - i,
        {
            if self.workload_ips[i] == *ip {
                assert(self.workload_ips@[i as int] == *ip);
                return true;
            }
            i = i + 1;
        }
        false
    }

    /// Whether this is the workload that the proxy knows as its own.
    pub open spec fn is_described_by(self, info: WorkloadInfo) -> bool {
        self.name@ == info.name@ && self.namespace@ == info.namespace@ && self.service_account@
            == info.service_account@
    }

    /// Whether this is the workload that the proxy knows as its own.
    pub fn fits(&self, info: &WorkloadInfo) -> (r: bool)
        ensures
            r == self.is_described_by(*info),
    {
        self.name == info.name && self.namespace == info.namespace && self.service_account
            == info.service_account
    }
}

/// A namespace, a slash and a host name are read as what they are, whatever slashes the
/// host name has; without a slash nothing is read.
pub proof fn law_written_names_are_read(
    name: Option<NamespacedHostname>,
    namespace: Seq<char>,
    hostname: Seq<char>,
)
    requires
        !namespace.contains('/'),
    ensures
        is_written(name, namespace + seq!['/'] + hostname) ==> name is Some
            && name.unwrap().namespace@ == namespace && name.unwrap().hostname@ == hostname,
        is_written(name, namespace) ==> name is None,
{
    let text = namespace + seq!['/'] + hostname;
    let n = namespace.len() as int;
    assert(text[n] == '/');
    if is_written(name, text) {
        assert(text.contains(text[n]));
        let k = name.unwrap().namespace@.len() as int;
        if k < n {
            assert(namespace.contains(namespace[k]));
            assert(text[k] == namespace[k]);
        }
        if n < k {
            assert(text[n] != '/');
        }
        assert(name.unwrap().namespace@ =~= text.take(n));
        assert(namespace =~= text.take(n));
        assert(name.unwrap().hostname@ =~= text.skip(n + 1));
        assert(hostname =~= text.skip(n + 1));
    }
}

/// What is written as an address is a gateway's address in the network before it, and
/// anything else its host name in the namespace before it.
pub proof fn law_gateways_are_found(name: NamespacedHostname, address: Option<IpAddr>)
    ensures
        match (destination_of(name, address), address) {
            (Destination::Address(place), Some(ip)) => place.address == ip && place.network
                == name.namespace,
            (Destination::Hostname(host), None) => host.namespace == name.namespace
                && host.hostname == name.hostname,
            _ => false,
        },
{
}

/// The parts of the name that an identity is shown under: the trust domain, the
/// namespace and the service account, each behind the word for it.
pub proof fn law_identity_is_shown(identity: Identity)
    requires
        !identity.trust_domain@.contains('/'),
        !identity.namespace@.contains('/'),
        !identity.service_account@.contains('/'),
    ensures
        split(identity.shown(), '/') == seq![
            "spiffe:"@,
            ""@,
            identity.trust_domain@,
            "ns"@,
            identity.namespace@,
            "sa"@,
            identity.service_account@,
        ],
{
    reveal_strlit("spiffe://");
    reveal_strlit("spiffe:");
    reveal_strlit("");
    reveal_strlit("/ns/");
    reveal_strlit("ns");
    reveal_strlit("/sa/");
    reveal_strlit("sa");
    let slash = seq!['/'];
    let a = "spiffe:"@;
    let b = a + slash + ""@;
    let c = b + slash + identity.trust_domain@;
    let d = c + slash + "ns"@;
    let e = d + slash + identity.namespace@;
    let f = e + slash + "sa"@;
    let g = f + slash + identity.service_account@;
    assert(g =~= identity.shown());
    law_split_of_one(a, '/');
    law_split_of_one(""@, '/');
    law_split_of_one(identity.trust_domain@, '/');
    law_split_of_one("ns"@, '/');
    law_split_of_one(identity.namespace@, '/');
    law_split_of_one("sa"@, '/');
    law_split_of_one(identity.service_account@, '/');
    law_split_of_two(a, ""@, '/');
    law_split_of_two(b, identity.trust_domain@, '/');
    law_split_of_two(c, "ns"@, '/');
    law_split_of_two(d, identity.namespace@, '/');
    law_split_of_two(e, "sa"@, '/');
    law_split_of_two(f, identity.service_account@, '/');
    assert(split(g, '/') =~= seq![
        "spiffe:"@,
        ""@,
        identity.trust_domain@,
        "ns"@,
        identity.namespace@,
        "sa"@,
        identity.service_account@,
    ]);
}

/// A workload is the proxy's own exactly where its name, its namespace and its service
/// account are all those that the proxy was given.
pub proof fn law_own_workload(workload: Workload, info: WorkloadInfo)
    ensures
        workload.is_described_by(info) <==> info@.name == workload.name@ && info@.namespace
            == workload.namespace@ && info@.service_account == workload.service_account@,
{
}

/// A workload proves its trust domain, its namespace and its service account, in this
/// order, and nothing else of it counts.
pub proof fn law_identity_of_a_workload(a: Workload, b: Workload)
    ensures
        a.spec_identity() == b.spec_identity() <==> a.trust_domain@ == b.trust_domain@
            && a.namespace@ == b.namespace@ && a.service_account@ == b.service_account@,
        a.spec_identity().0 == a.trust_domain@,
        a.spec_identity().1 == a.namespace@,
        a.spec_identity().2 == a.service_account@,
{
}

} // verus!
