//! Rules on addresses, protocols and ports: how they are read and which
//! connections they speak of.

use vstd::prelude::*;

use super::{Connection, RbacAction, RbacDecision};
use crate::firewall::types::{address_passes, PortRange};
use crate::net::{address_of, byte_to_ip, first_address, host_bits, IpAddr, IpNet};

verus! {

/// The protocols that a rule can name.
#[derive(Clone, Copy, Debug, PartialEq, Eq, Hash, Structural)]
pub enum Protocol {
    All,
    Tcp,
    Udp,
    Icmp,
    Sctp,
}

/// Destination ports of one protocol; without a range, all of them.
#[derive(Clone, Copy, Debug, PartialEq, Eq, Hash, Structural)]
pub struct PortMatch {
    pub protocol: Protocol,
    pub range: Option<PortRange>,
}

/// A rule; a list that is empty matches anything.
#[derive(Clone, Debug, PartialEq, Eq, Hash)]
pub struct Rule {
    pub action: RbacAction,
    pub source_ips: Vec<IpNet>,
    pub destination_ips: Vec<IpNet>,
    pub ports: Vec<PortMatch>,
}

/// Rules of one direction, in the order in which they are tried.
#[derive(Clone, Debug, PartialEq, Eq, Hash)]
pub struct PolicyRule {
    pub rules: Vec<Rule>,
}

/// A network as the control plane sends it.
#[derive(Clone, Debug, PartialEq, Eq)]
pub struct AddressMessage {
    pub address: Vec<u8>,
    pub length: u32,
}

/// Ports as the control plane sends them.
#[derive(Clone, Copy, Debug, PartialEq, Eq, Structural)]
pub struct PortMatchMessage {
    pub protocol: i32,
    pub port: Option<u32>,
    pub end_port: Option<u32>,
}

/// What a rule speaks of, as the control plane sends it.
#[derive(Clone, Debug, PartialEq, Eq)]
pub struct MatchMessage {
    pub source_ips: Vec<AddressMessage>,
    pub destination_ips: Vec<AddressMessage>,
    pub ports: Vec<PortMatchMessage>,
}

/// A rule as the control plane sends it.
#[derive(Clone, Debug, PartialEq, Eq)]
pub struct RuleMessage {
    pub action: i32,
    pub matches: Option<MatchMessage>,
}

/// The rules of one direction as the control plane sends them.
#[derive(Clone, Debug, PartialEq, Eq)]
pub struct PolicyRuleMessage {
    pub rules: Vec<RuleMessage>,
}

/// Why a rule is not accepted.
#[derive(Clone, Copy, Debug, PartialEq, Eq, Structural)]
pub enum RuleError {
    /// The action's number stands for none.
    UnknownAction(i32),
    /// The rule has no match, not even an empty one.
    MissingMatch,
    /// An address has neither four nor sixteen bytes.
    AddressBytes,
    /// A network fixes more bits than its address has.
    PrefixLength(u32),
    /// The protocol's number stands for none.
    UnknownProtocol(i32),
    /// A port is not in 1..65535.
    Port(u32),
    /// ICMP cannot have a port constraint.
    PortOfIcmp,
    /// A range ends before it starts.
    ReversedRange,
}

/// The action that a number stands for.
pub open spec fn action_of(number: i32) -> Option<RbacAction> {
    if number == 0 {
        Some(RbacAction::Allow)
    } else if number == 1 {
        Some(RbacAction::Deny)
    } else {
        None
    }
}

/// The protocol that a number stands for.
pub open spec fn protocol_of(number: i32) -> Option<Protocol> {
    if number == 0 {
        Some(Protocol::All)
    } else if number == 1 {
        Some(Protocol::Tcp)
    } else if number == 2 {
        Some(Protocol::Udp)
    } else if number == 3 {
        Some(Protocol::Icmp)
    } else if number == 4 {
        Some(Protocol::Sctp)
    } else {
        None
    }
}

/// What is wrong with a network.
pub open spec fn address_fault(message: AddressMessage) -> Option<RuleError> {
    match address_of(message.address@) {
        None => Some(RuleError::AddressBytes),
        Some(ip) => if message.length > ip.width() {
            Some(RuleError::PrefixLength(message.length))
        } else {
            None
        },
    }
}

/// The network is the one that the message names, given as its first address.
pub open spec fn address_is(net: IpNet, message: AddressMessage) -> bool {
    address_of(message.address@) matches Some(ip) && {
        &&& net.spec_prefix_len() == message.length
        &&& net.spec_addr().width() == ip.width()
        &&& net.spec_addr().number() == first_address(
            ip.number(),
            host_bits(ip.width(), net.spec_prefix_len()),
        )
    }
}

/// What is wrong with the first network that is not accepted.
pub open spec fn addresses_fault(messages: Seq<AddressMessage>) -> Option<RuleError>
    decreases messages.len(),
{
    if messages.len() == 0 {
        None
    } else if address_fault(messages[0]) is Some {
        address_fault(messages[0])
    } else {
        addresses_fault(messages.drop_first())
    }
}

/// The networks are those that the messages name.
pub open spec fn addresses_are(nets: Seq<IpNet>, messages: Seq<AddressMessage>) -> bool {
    nets.len() == messages.len() && forall|i: int|
        #![trigger nets[i]]
        0 <= i < nets.len() ==> address_is(nets[i], messages[i])
}

/// What is wrong with a port, where there is one.
pub open spec fn number_fault(port: Option<u32>) -> Option<RuleError> {
    match port {
        Some(n) => if n == 0 || n > u16::MAX {
            Some(RuleError::Port(n))
        } else {
            None
        },
        None => None,
    }
}

/// What is wrong with ports.
pub open spec fn port_fault(message: PortMatchMessage) -> Option<RuleError> {
    if protocol_of(message.protocol) is None {
        Some(RuleError::UnknownProtocol(message.protocol))
    } else if number_fault(message.port) is Some {
        number_fault(message.port)
    } else if number_fault(message.end_port) is Some {
        number_fault(message.end_port)
    } else if protocol_of(message.protocol) == Some(Protocol::Icmp) && (message.port is Some
        || message.end_port is Some) {
        Some(RuleError::PortOfIcmp)
    } else if message.port is Some && message.end_port is Some && message.port.unwrap()
        > message.end_port.unwrap() {
        Some(RuleError::ReversedRange)
    } else {
        None
    }
}

/// The range is the one that the message names: one port, or up to the end from
/// the start or from the first.
pub open spec fn range_is(range: Option<PortRange>, message: PortMatchMessage) -> bool {
    match (message.port, message.end_port) {
        (None, None) => range is None,
        (Some(port), None) => range matches Some(r) && r.start == port && r.end == port,
        (None, Some(end)) => range matches Some(r) && r.start == 1 && r.end == end,
        (Some(start), Some(end)) => range matches Some(r) && r.start == start && r.end == end,
    }
}

/// The ports are those that the message names.
pub open spec fn port_is(port: PortMatch, message: PortMatchMessage) -> bool {
    protocol_of(message.protocol) == Some(port.protocol) && range_is(port.range, message)
}

/// What is wrong with the first ports that are not accepted.
pub open spec fn ports_fault(messages: Seq<PortMatchMessage>) -> Option<RuleError>
    decreases messages.len(),
{
    if messages.len() == 0 {
        None
    } else if port_fault(messages[0]) is Some {
        port_fault(messages[0])
    } else {
        ports_fault(messages.drop_first())
    }
}

/// The ports are those that the messages name.
pub open spec fn ports_are(ports: Seq<PortMatch>, messages: Seq<PortMatchMessage>) -> bool {
    ports.len() == messages.len() && forall|i: int|
        #![trigger ports[i]]
        0 <= i < ports.len() ==> port_is(ports[i], messages[i])
}

/// What is wrong with a rule.
pub open spec fn rule_fault(message: RuleMessage) -> Option<RuleError> {
    if action_of(message.action) is None {
        Some(RuleError::UnknownAction(message.action))
    } else {
        match message.matches {
            None => Some(RuleError::MissingMatch),
            Some(m) => if addresses_fault(m.source_ips@) is Some {
                addresses_fault(m.source_ips@)
            } else if addresses_fault(m.destination_ips@) is Some {
                addresses_fault(m.destination_ips@)
            } else {
                ports_fault(m.ports@)
            },
        }
    }
}

/// The rule says what the message does.
pub open spec fn rule_is(rule: Rule, message: RuleMessage) -> bool {
    &&& action_of(message.action) == Some(rule.action)
    &&& message.matches matches Some(m) && {
        &&& addresses_are(rule.source_ips@, m.source_ips@)
        &&& addresses_are(rule.destination_ips@, m.destination_ips@)
        &&& ports_are(rule.ports@, m.ports@)
    }
}

/// Which rule is the first that is not accepted, from this one on, and what is
/// wrong with it.
pub open spec fn rules_fault(messages: Seq<RuleMessage>, from: nat) -> Option<(nat, RuleError)>
    decreases messages.len() - from,
{
    if from >= messages.len() {
        None
    } else if rule_fault(messages[from as int]) is Some {
        Some((from, rule_fault(messages[from as int]).unwrap()))
    } else {
        rules_fault(messages, from + 1)
    }
}

/// The rules say what the messages do, in the same order.
pub open spec fn rules_are(rules: Seq<Rule>, messages: Seq<RuleMessage>) -> bool {
    rules.len() == messages.len() && forall|i: int|
        #![trigger rules[i]]
        0 <= i < rules.len() ==> rule_is(rules[i], messages[i])
}

fn read_action(number: i32) -> (r: Option<RbacAction>)
    ensures
        r == action_of(number),
{
    match number {
        0 => Some(RbacAction::Allow),
        1 => Some(RbacAction::Deny),
        _ => None,
    }
}

fn read_protocol(number: i32) -> (r: Option<Protocol>)
    ensures
        r == protocol_of(number),
{
    match number {
        0 => Some(Protocol::All),
        1 => Some(Protocol::Tcp),
        2 => Some(Protocol::Udp),
        3 => Some(Protocol::Icmp),
        4 => Some(Protocol::Sctp),
        _ => None,
    }
}

/// The network that a message names, given as its first address.
pub fn parse_address(message: &AddressMessage) -> (r: Result<IpNet, RuleError>)
    ensures
        match r {
            Ok(net) => address_fault(*message) is None && address_is(net, *message),
            Err(e) => address_fault(*message) == Some(e),
        },
{
    let ip: IpAddr = match byte_to_ip(message.address.as_slice()) {
        Some(ip) => ip,
        None => {
            return Err(RuleError::AddressBytes);
        },
    };
    if message.length > 255 {
        return Err(RuleError::PrefixLength(message.length));
    }
    match IpNet::new(ip, message.length as u8) {
        Some(net) => Ok(net.trunc()),
        None => Err(RuleError::PrefixLength(message.length)),
    }
}

fn parse_addresses(messages: &Vec<AddressMessage>) -> (r: Result<Vec<IpNet>, RuleError>)
    ensures
        match r {
            Ok(nets) => addresses_fault(messages@) is None && addresses_are(nets@, messages@),
            Err(e) => addresses_fault(messages@) == Some(e),
        },
{
    let mut out: Vec<IpNet> = Vec::new();
    let mut i: usize = 0;
    assert(messages@.skip(0) =~= messages@);
    while i < messages.len()
        invariant
            i <= messages@.len(),
            out@.len() == i,
            addresses_fault(messages@) == addresses_fault(messages@.skip(i as int)),
            forall|k: int|
                #![trigger out@[k]]
                0 <= k < i ==> address_is(out@[k], messages@[k]),
        decreases messages@.len() - i,
    {
        assert(messages@.skip(i as int).drop_first() =~= messages@.skip(i + 1));
        assert(messages@.skip(i as int)[0] == messages@[i as int]);
        match parse_address(&messages[i]) {
            Ok(net) => {
                out.push(net);
            },
            Err(e) => {
                return Err(e);
            },
        }
        i = i + 1;
    }
    Ok(out)
}

/// The port that a number names.
pub fn parse_port(port: u32) -> (r: Result<u16, RuleError>)
    ensures
        match r {
            Ok(p) => number_fault(Some(port)) is None && p == port,
            Err(e) => number_fault(Some(port)) == Some(e),
        },
{
    if port == 0 || port > 65535 {
        Err(RuleError::Port(port))
    } else {
        Ok(port as u16)
    }
}

fn parse_optional_port(port: Option<u32>) -> (r: Result<Option<u16>, RuleError>)
    ensures
        match r {
            Ok(p) => number_fault(port) is None && match (p, port) {
                (Some(p), Some(n)) => p == n,
                (None, None) => true,
                _ => false,
            },
            Err(e) => number_fault(port) == Some(e),
        },
{
    match port {
        None => Ok(None),
        Some(n) => match parse_port(n) {
            Ok(p) => Ok(Some(p)),
            Err(e) => Err(e),
        },
    }
}

impl PortMatch {
    /// The ports that the control plane sent.
    pub fn try_from(message: &PortMatchMessage) -> (r: Result<PortMatch, RuleError>)
        ensures
            match r {
                Ok(port) => port_fault(*message) is None && port_is(port, *message),
                Err(e) => port_fault(*message) == Some(e),
            },
    {
        let protocol: Protocol = match read_protocol(message.protocol) {
            Some(protocol) => protocol,
            None => {
                return Err(RuleError::UnknownProtocol(message.protocol));
            },
        };
        let port: Option<u16> = match parse_optional_port(message.port) {
            Ok(port) => port,
            Err(e) => {
                return Err(e);
            },
        };
        let end_port: Option<u16> = match parse_optional_port(message.end_port) {
            Ok(port) => port,
            Err(e) => {
                return Err(e);
            },
        };
        if protocol == Protocol::Icmp && (port.is_some() || end_port.is_some()) {
            return Err(RuleError::PortOfIcmp);
        }
        let range: Option<PortRange> = match (port, end_port) {
            (None, None) => None,
            (Some(port), None) => Some(PortRange { start: port, end: port }),
            (None, Some(end)) => Some(PortRange { start: 1, end }),
            (Some(start), Some(end)) => {
                if start > end {
                    return Err(RuleError::ReversedRange);
                }
                Some(PortRange { start, end })
            },
        };
        Ok(PortMatch { protocol, range })
    }

    /// Whether TCP traffic to this port is among the ports.
    pub open spec fn has_tcp(self, port: u16) -> bool {
        &&& self.protocol == Protocol::All || self.protocol == Protocol::Tcp
        &&& self.range is None || self.range.unwrap().has(port)
    }

    fn matches_tcp(&self, port: u16) -> (r: bool)
        ensures
            r == self.has_tcp(port),
    {
        (self.protocol == Protocol::All || self.protocol == Protocol::Tcp) && match &self.range {
            None => true,
            Some(range) => range.contains(port),
        }
    }
}

fn parse_ports(messages: &Vec<PortMatchMessage>) -> (r: Result<Vec<PortMatch>, RuleError>)
    ensures
        match r {
            Ok(ports) => ports_fault(messages@) is None && ports_are(ports@, messages@),
            Err(e) => ports_fault(messages@) == Some(e),
        },
{
    let mut out: Vec<PortMatch> = Vec::new();
    let mut i: usize = 0;
    assert(messages@.skip(0) =~= messages@);
    while i < messages.len()
        invariant
            i <= messages@.len(),
            out@.len() == i,
            ports_fault(messages@) == ports_fault(messages@.skip(i as int)),
            forall|k: int| #![trigger out@[k]] 0 <= k < i ==> port_is(out@[k], messages@[k]),
        decreases messages@.len() - i,
    {
        assert(messages@.skip(i as int).drop_first() =~= messages@.skip(i + 1));
        assert(messages@.skip(i as int)[0] == messages@[i as int]);
        match PortMatch::try_from(&messages[i]) {
            Ok(port) => {
                out.push(port);
            },
            Err(e) => {
                return Err(e);
            },
        }
        i = i + 1;
    }
    Ok(out)
}

/// Whether one of the networks has the address, or there is none.
pub fn any_contains(nets: &Vec<IpNet>, ip: &IpAddr) -> (r: bool)
    ensures
        r == address_passes(nets@, *ip),
{
    if nets.len() == 0 {
        return true;
    }
    let mut i: usize = 0;
    while i < nets.len()
        invariant
            i <= nets@.len(),
            nets@.len() > 0,
            forall|k: int| 0 <= k < i ==> !(#[trigger] nets@[k].has(*ip)),
        decreases nets@.len() - i,
    {
        if nets[i].contains(ip) {
            return true;
        }
        i = i + 1;
    }
    false
}

/// Whether one of the ports has TCP traffic to this port, or there is none.
pub open spec fn tcp_passes(ports: Seq<PortMatch>, port: u16) -> bool {
    ports.len() == 0 || exists|i: int| 0 <= i < ports.len() && #[trigger] ports[i].has_tcp(port)
}

fn any_has_tcp(ports: &Vec<PortMatch>, port: u16) -> (r: bool)
    ensures
        r == tcp_passes(ports@, port),
{
    if ports.len() == 0 {
        return true;
    }
    let mut i: usize = 0;
    while i < ports.len()
        invariant
            i <= ports@.len(),
            ports@.len() > 0,
            forall|k: int| 0 <= k < i ==> !(#[trigger] ports@[k].has_tcp(port)),
        decreases ports@.len() - i,
    {
        if ports[i].matches_tcp(port) {
            return true;
        }
        i = i + 1;
    }
    false
}

impl Rule {
    /// The rule that the control plane sent.
    pub fn try_from(message: &RuleMessage) -> (r: Result<Rule, RuleError>)
        ensures
            match r {
                Ok(rule) => rule_fault(*message) is None && rule_is(rule, *message),
                Err(e) => rule_fault(*message) == Some(e),
            },
    {
        let action: RbacAction = match read_action(message.action) {
            Some(action) => action,
            None => {
                return Err(RuleError::UnknownAction(message.action));
            },
        };
        let matches: &MatchMessage = match &message.matches {
            Some(matches) => matches,
            None => {
                return Err(RuleError::MissingMatch);
            },
        };
        let source_ips: Vec<IpNet> = match parse_addresses(&matches.source_ips) {
            Ok(nets) => nets,
            Err(e) => {
                return Err(e);
            },
        };
        let destination_ips: Vec<IpNet> = match parse_addresses(&matches.destination_ips) {
            Ok(nets) => nets,
            Err(e) => {
                return Err(e);
            },
        };
        let ports: Vec<PortMatch> = match parse_ports(&matches.ports) {
            Ok(ports) => ports,
            Err(e) => {
                return Err(e);
            },
        };
        Ok(Rule { action, source_ips, destination_ips, ports })
    }

    /// Whether the rule speaks of the TCP connection.
    pub open spec fn speaks_of(self, conn: Connection) -> bool {
        &&& address_passes(self.source_ips@, conn.src.spec_ip())
        &&& address_passes(self.destination_ips@, conn.dst.spec_ip())
        &&& tcp_passes(self.ports@, conn.dst.spec_port())
    }

    /// Whether the rule speaks of the TCP connection.
    pub fn matches_tcp(&self, conn: &Connection) -> (r: bool)
        ensures
            r == self.speaks_of(*conn),
    {
        any_contains(&self.source_ips, &conn.src.ip()) && any_contains(
            &self.destination_ips,
            &conn.dst.ip(),
        ) && any_has_tcp(&self.ports, conn.dst.port())
    }
}

/// Which rule is the first to speak of the connection, from this one on.
pub open spec fn first_rule(rules: Seq<Rule>, conn: Connection, from: nat) -> Option<nat>
    decreases rules.len() - from,
{
    if from >= rules.len() {
        None
    } else if rules[from as int].speaks_of(conn) {
        Some(from)
    } else {
        first_rule(rules, conn, from + 1)
    }
}

/// The rule found is one, it speaks of the connection, and none before it does;
/// without one, none does.
pub proof fn law_first_rule(rules: Seq<Rule>, conn: Connection, from: nat)
    ensures
        match first_rule(rules, conn, from) {
            Some(i) => from <= i < rules.len() && rules[i as int].speaks_of(conn) && forall|k: int|
                from <= k < i ==> !(#[trigger] rules[k]).speaks_of(conn),
            None => forall|k: int|
                from <= k < rules.len() ==> !(#[trigger] rules[k]).speaks_of(conn),
        },
    decreases rules.len() - from,
{
    if from < rules.len() && !rules[from as int].speaks_of(conn) {
        law_first_rule(rules, conn, from + 1);
    }
}

impl PolicyRule {
    /// The rules that the control plane sent; the error says which rule is not
    /// accepted.
    pub fn try_from(message: &PolicyRuleMessage) -> (r: Result<PolicyRule, (usize, RuleError)>)
        ensures
            match r {
                Ok(policy) => rules_fault(message.rules@, 0) is None && rules_are(
                    policy.rules@,
                    message.rules@,
                ),
                Err((i, e)) => rules_fault(message.rules@, 0) == Some((i as nat, e)),
            },
    {
        let mut rules: Vec<Rule> = Vec::new();
        let mut i: usize = 0;
        while i < message.rules.len()
            invariant
                i <= message.rules@.len(),
                rules@.len() == i,
                rules_fault(message.rules@, 0) == rules_fault(message.rules@, i as nat),
                forall|k: int|
                    #![trigger rules@[k]]
                    0 <= k < i ==> rule_is(rules@[k], message.rules@[k]),
            decreases message.rules@.len() - i,
        {
            match Rule::try_from(&message.rules[i]) {
                Ok(rule) => {
                    rules.push(rule);
                },
                Err(e) => {
                    return Err((i, e));
                },
            }
            i = i + 1;
        }
        Ok(PolicyRule { rules })
    }

    /// Which rule is the first to speak of the connection.
    pub fn first_match(&self, conn: &Connection) -> (r: Option<usize>)
        ensures
            match r {
                Some(i) => first_rule(self.rules@, *conn, 0) == Some(i as nat) && i
                    < self.rules@.len(),
                None => first_rule(self.rules@, *conn, 0) is None,
            },
    {
        let mut i: usize = 0;
        while i < self.rules.len()
            invariant
                i <= self.rules@.len(),
                first_rule(self.rules@, *conn, 0) == first_rule(self.rules@, *conn, i as nat),
            decreases self.rules@.len() - i,
        {
            if self.rules[i].matches_tcp(conn) {
                return Some(i);
            }
            i = i + 1;
        }
        None
    }

    /// What the rules say of the connection: what the first that speaks of it does.
    pub open spec fn decision(self, conn: Connection) -> RbacDecision {
        match first_rule(self.rules@, conn, 0) {
            Some(i) => match self.rules@[i as int].action {
                RbacAction::Allow => RbacDecision::Allow,
                RbacAction::Deny => RbacDecision::Deny,
            },
            None => RbacDecision::NoMatch,
        }
    }

    /// What the rules say of the connection.
    pub fn evaluate_tcp(&self, conn: &Connection) -> (r: RbacDecision)
        ensures
            r == self.decision(*conn),
    {
        match self.first_match(conn) {
            Some(i) => match self.rules[i].action {
                RbacAction::Allow => RbacDecision::Allow,
                RbacAction::Deny => RbacDecision::Deny,
            },
            None => RbacDecision::NoMatch,
        }
    }
}

} // verus!
