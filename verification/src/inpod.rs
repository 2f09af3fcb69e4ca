//! Pods that the proxy serves from outside.

use vstd::prelude::*;

use crate::firewall::detect::FirewallBackend;
use crate::table::TableKey;

verus! {

/// The mark of the proxy's own packets, unless it is configured.
pub const DEFAULT_PROXY_MARK: u32 = 1337;

/// The identifier of a pod.
#[derive(Clone, Debug, PartialEq, Eq, Hash)]
pub struct WorkloadUid(String);

impl View for WorkloadUid {
    type V = Seq<char>;

    closed spec fn view(&self) -> Seq<char> {
        self.0@
    }
}

impl TableKey for WorkloadUid {
    type Key = Seq<char>;

    open spec fn key(&self) -> Seq<char> {
        self@
    }

    fn same(&self, other: &Self) -> (r: bool) {
        self.0 == other.0
    }
}

impl WorkloadUid {
    /// The identifier of this text.
    pub fn new(uid: String) -> (r: WorkloadUid)
        ensures
            r@ == uid@,
    {
        WorkloadUid(uid)
    }

    /// The identifier as text.
    pub fn into_string(self) -> (r: String)
        ensures
            r@ == self@,
    {
        self.0
    }

    /// A copy of the identifier.
    pub fn copy(&self) -> (r: WorkloadUid)
        ensures
            r@ == self@,
    {
        WorkloadUid(self.0.clone())
    }
}

/// Why pods cannot be served.
#[derive(Clone, Debug, PartialEq, Eq)]
pub enum Error {
    /// The proxy of a pod could not be made, for this reason.
    ProxyError(String, String),
    ReceiveMessageError(String),
    SendAckError(String),
    SendNackError(String),
    ProtocolError(String),
    AnnounceError(String),
}

/// The failure in words.
pub open spec fn error_text(error: Error) -> Seq<char> {
    match error {
        Error::ProxyError(uid, reason) => "error creating proxy "@ + uid@ + ": "@ + reason@,
        Error::ReceiveMessageError(text) => "error receiving message: "@ + text@,
        Error::SendAckError(text) => "error sending ack: "@ + text@,
        Error::SendNackError(text) => "error sending nack: "@ + text@,
        Error::ProtocolError(text) => "protocol error: "@ + text@,
        Error::AnnounceError(text) => "announce error: "@ + text@,
    }
}

impl Error {
    /// The failure in words.
    pub fn message(&self) -> (r: String)
        ensures
            r@ == error_text(*self),
    {
        let (start, text): (&str, &String) = match self {
            Error::ProxyError(uid, reason) => {
                let mut out: String = "error creating proxy ".to_owned();
                out.append(uid.as_str());
                out.append(": ");
                out.append(reason.as_str());
                return out;
            },
            Error::ReceiveMessageError(text) => ("error receiving message: ", text),
            Error::SendAckError(text) => ("error sending ack: ", text),
            Error::SendNackError(text) => ("error sending nack: ", text),
            Error::ProtocolError(text) => ("protocol error: ", text),
            Error::AnnounceError(text) => ("announce error: ", text),
        };
        let mut out: String = start.to_owned();
        out.append(text.as_str());
        out
    }
}

/// How the firewalls of pods are written.
#[derive(Clone, Debug, PartialEq, Eq)]
pub struct PodFirewalls {
    pub backend: FirewallBackend,
    pub proxy_mark: u32,
    pub dns_proxy: bool,
}

/// How the firewalls of pods are written, if at all.
pub open spec fn are_written(
    enabled: bool,
    nsenter_usable: bool,
    detected: Result<FirewallBackend, String>,
    packet_mark: Option<u32>,
    dns_proxy: bool,
    firewalls: Option<PodFirewalls>,
) -> bool {
    &&& firewalls is Some <==> enabled && nsenter_usable && detected is Ok
    &&& firewalls matches Some(f) ==> {
        &&& Ok::<FirewallBackend, String>(f.backend) == detected
        &&& f.proxy_mark == (match packet_mark {
            Some(mark) => mark,
            None => DEFAULT_PROXY_MARK,
        })
        &&& f.dns_proxy == dns_proxy
    }
}

/// How the firewalls of pods are written, if at all: they are enabled, the tool that
/// enters a pod is there, and so is one that writes rules.
pub fn pod_firewalls(
    enabled: bool,
    nsenter_usable: bool,
    detected: Result<FirewallBackend, String>,
    packet_mark: Option<u32>,
    dns_proxy: bool,
) -> (r: Option<PodFirewalls>)
    ensures
        are_written(enabled, nsenter_usable, detected, packet_mark, dns_proxy, r),
{
    if !enabled || !nsenter_usable {
        return None;
    }
    match detected {
        Ok(backend) => {
            let proxy_mark: u32 = match packet_mark {
                Some(mark) => mark,
                None => DEFAULT_PROXY_MARK,
            };
            Some(PodFirewalls { backend, proxy_mark, dns_proxy })
        },
        Err(_) => None,
    }
}

/// Pods have firewalls exactly where they are asked for and both tools are there. They
/// are written by the tool that was found, and let pass what bears the proxy's mark: the
/// one that is set, or the customary one.
pub proof fn law_pods_have_firewalls(
    enabled: bool,
    nsenter_usable: bool,
    detected: Result<FirewallBackend, String>,
    packet_mark: Option<u32>,
    dns_proxy: bool,
    firewalls: Option<PodFirewalls>,
)
    requires
        are_written(enabled, nsenter_usable, detected, packet_mark, dns_proxy, firewalls),
    ensures
        firewalls is Some ==> enabled && nsenter_usable && detected is Ok,
        enabled && nsenter_usable && detected is Ok ==> firewalls is Some,
        firewalls matches Some(f) ==> {
            &&& detected matches Ok(found) && f.backend == found
            &&& packet_mark matches Some(mark) ==> f.proxy_mark == mark
            &&& packet_mark is None ==> f.proxy_mark == 1337
            &&& f.dns_proxy <==> dns_proxy
        },
{
}

/// A failure in words says where it came up and ends with what was told of it; one of a
/// pod's proxy names the pod.
pub proof fn law_failures_in_words(uid: String, text: String)
    ensures
        error_text(Error::ProxyError(uid, text)) == "error creating proxy "@ + uid@ + ": "@ + text@,
        error_text(Error::ReceiveMessageError(text)) == "error receiving message: "@ + text@,
        error_text(Error::SendAckError(text)) == "error sending ack: "@ + text@,
        error_text(Error::SendNackError(text)) == "error sending nack: "@ + text@,
        error_text(Error::ProtocolError(text)) == "protocol error: "@ + text@,
        error_text(Error::AnnounceError(text)) == "announce error: "@ + text@,
{
}

} // verus!
