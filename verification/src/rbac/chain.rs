//! Policies in a chain: the rules of one after the other, and a refusal at the end
//! where any of them speaks of the direction. A policy that is not there refuses
//! everything, wherever in the chain it stands.

use vstd::prelude::*;

use super::firewall::{catch_all, catch_all_rule, firewall_model, firewall_rule};
use super::policy::{
    first_rule, rules_are, rules_fault, PolicyRule, PolicyRuleMessage, PortMatch, Protocol, Rule,
    RuleError,
};
use super::{outcome, AuthorizationRejectionError, Connection, Direction, RbacAction};
use crate::firewall::types::{
    rule_models, Direction as FirewallDirection, FirewallRule, RuleAction, RuleModel, RuleSet,
};
use crate::net::IpNet;
use crate::text::{decimal, push_decimal};

verus! {

/// The name of the refusal at the end of a chain.
pub const DEFAULT_DENY: &'static str = "DEFAULT-DENY";

/// What refuses where a policy is not there.
pub const POLICY_UNAVAILABLE: &'static str = "policy-unavailable";

/// A policy; a direction without rules of its own is left to others.
#[derive(Clone, Debug, PartialEq, Eq, Hash)]
pub struct TrafficPolicy {
    pub ingress: Option<PolicyRule>,
    pub egress: Option<PolicyRule>,
}

/// A policy as the control plane sends it.
#[derive(Clone, Debug, PartialEq, Eq)]
pub struct TrafficPolicyMessage {
    pub ingress: Option<PolicyRuleMessage>,
    pub egress: Option<PolicyRuleMessage>,
}

/// Which rule of which direction is not accepted, and why.
#[derive(Clone, Copy, Debug, PartialEq, Eq, Structural)]
pub struct RuleFault {
    pub direction: Direction,
    pub index: usize,
    pub error: RuleError,
}

/// A policy in a chain, under its name; one that is not there has a name only.
pub struct Attached<'a> {
    pub name: &'a str,
    pub policy: Option<&'a TrafficPolicy>,
}

/// A policy in a chain, as mathematics has it.
pub struct Link {
    pub name: Seq<char>,
    pub policy: Option<TrafficPolicy>,
}

impl<'a> View for Attached<'a> {
    type V = Link;

    open spec fn view(&self) -> Link {
        Link {
            name: self.name@,
            policy: match self.policy {
                Some(policy) => Some(*policy),
                None => None,
            },
        }
    }
}

/// The chain, as mathematics has it.
pub open spec fn links<'a>(chain: Seq<Attached<'a>>) -> Seq<Link> {
    chain.map_values(|a: Attached<'a>| a@)
}

/// A rule, as mathematics has it.
pub struct RuleContent {
    pub action: RbacAction,
    pub source_ips: Seq<IpNet>,
    pub destination_ips: Seq<IpNet>,
    pub ports: Seq<PortMatch>,
}

/// What the rule says.
pub open spec fn rule_content(rule: Rule) -> RuleContent {
    RuleContent {
        action: rule.action,
        source_ips: rule.source_ips@,
        destination_ips: rule.destination_ips@,
        ports: rule.ports@,
    }
}

/// What each rule says.
pub open spec fn rule_contents(rules: Seq<Rule>) -> Seq<RuleContent> {
    rules.map_values(|r: Rule| rule_content(r))
}

/// What the rules of a direction say.
pub open spec fn direction_content(rules: Option<PolicyRule>) -> Option<Seq<RuleContent>> {
    match rules {
        Some(rules) => Some(rule_contents(rules.rules@)),
        None => None,
    }
}

impl View for TrafficPolicy {
    type V = (Option<Seq<RuleContent>>, Option<Seq<RuleContent>>);

    open spec fn view(&self) -> (Option<Seq<RuleContent>>, Option<Seq<RuleContent>>) {
        (direction_content(self.ingress), direction_content(self.egress))
    }
}

/// What is wrong with the rules of a direction.
pub open spec fn direction_fault(
    message: Option<PolicyRuleMessage>,
    direction: Direction,
) -> Option<RuleFault> {
    match message {
        None => None,
        Some(m) => match rules_fault(m.rules@, 0) {
            None => None,
            Some((i, error)) => Some(RuleFault { direction, index: i as usize, error }),
        },
    }
}

/// What is wrong with a policy.
pub open spec fn policy_fault(message: TrafficPolicyMessage) -> Option<RuleFault> {
    if direction_fault(message.ingress, Direction::Inbound) is Some {
        direction_fault(message.ingress, Direction::Inbound)
    } else {
        direction_fault(message.egress, Direction::Outbound)
    }
}

/// The rules of a direction say what the message does.
pub open spec fn direction_is(
    rules: Option<PolicyRule>,
    message: Option<PolicyRuleMessage>,
) -> bool {
    match (rules, message) {
        (Some(rules), Some(m)) => rules_are(rules.rules@, m.rules@),
        (None, None) => true,
        _ => false,
    }
}

/// The policy says what the message does.
pub open spec fn policy_is(policy: TrafficPolicy, message: TrafficPolicyMessage) -> bool {
    direction_is(policy.ingress, message.ingress) && direction_is(policy.egress, message.egress)
}

/// What is wrong with ports that did not come from the control plane.
pub open spec fn port_unfit(port: PortMatch) -> Option<RuleError> {
    match port.range {
        None => None,
        Some(range) => if range.start == 0 {
            Some(RuleError::Port(0))
        } else if port.protocol == Protocol::Icmp {
            Some(RuleError::PortOfIcmp)
        } else if range.start > range.end {
            Some(RuleError::ReversedRange)
        } else {
            None
        },
    }
}

/// What is wrong with the first ports that are not accepted.
pub open spec fn ports_unfit(ports: Seq<PortMatch>) -> Option<RuleError>
    decreases ports.len(),
{
    if ports.len() == 0 {
        None
    } else if port_unfit(ports[0]) is Some {
        port_unfit(ports[0])
    } else {
        ports_unfit(ports.drop_first())
    }
}

/// What is wrong with the first rule that is not accepted.
pub open spec fn rules_unfit(rules: Seq<Rule>) -> Option<RuleError>
    decreases rules.len(),
{
    if rules.len() == 0 {
        None
    } else if ports_unfit(rules[0].ports@) is Some {
        ports_unfit(rules[0].ports@)
    } else {
        rules_unfit(rules.drop_first())
    }
}

/// What is wrong with the rules of a direction.
pub open spec fn direction_unfit(rules: Option<PolicyRule>) -> Option<RuleError> {
    match rules {
        Some(rules) => rules_unfit(rules.rules@),
        None => None,
    }
}

fn read_direction(message: &Option<PolicyRuleMessage>, direction: Direction) -> (r: Result<
    Option<PolicyRule>,
    RuleFault,
>)
    ensures
        match r {
            Ok(rules) => direction_fault(*message, direction) is None && direction_is(
                rules,
                *message,
            ),
            Err(e) => direction_fault(*message, direction) == Some(e),
        },
{
    match message {
        None => Ok(None),
        Some(m) => match PolicyRule::try_from(m) {
            Ok(rules) => Ok(Some(rules)),
            Err((index, error)) => Err(RuleFault { direction, index, error }),
        },
    }
}

fn check_port(port: &PortMatch) -> (r: Result<(), RuleError>)
    ensures
        match r {
            Ok(_) => port_unfit(*port) is None,
            Err(e) => port_unfit(*port) == Some(e),
        },
{
    match port.range {
        None => Ok(()),
        Some(range) => {
            if range.start == 0 {
                Err(RuleError::Port(0))
            } else if port.protocol == Protocol::Icmp {
                Err(RuleError::PortOfIcmp)
            } else if range.start > range.end {
                Err(RuleError::ReversedRange)
            } else {
                Ok(())
            }
        },
    }
}

fn check_ports(ports: &Vec<PortMatch>) -> (r: Result<(), RuleError>)
    ensures
        match r {
            Ok(_) => ports_unfit(ports@) is None,
            Err(e) => ports_unfit(ports@) == Some(e),
        },
{
    let mut i: usize = 0;
    assert(ports@.skip(0) =~= ports@);
    while i < ports.len()
        invariant
            i <= ports@.len(),
            ports_unfit(ports@) == ports_unfit(ports@.skip(i as int)),
        decreases ports@.len() - i,
    {
        assert(ports@.skip(i as int).drop_first() =~= ports@.skip(i + 1));
        assert(ports@.skip(i as int)[0] == ports@[i as int]);
        match check_port(&ports[i]) {
            Ok(_) => {},
            Err(e) => {
                return Err(e);
            },
        }
        i = i + 1;
    }
    Ok(())
}

fn check_rules(rules: &Vec<Rule>) -> (r: Result<(), RuleError>)
    ensures
        match r {
            Ok(_) => rules_unfit(rules@) is None,
            Err(e) => rules_unfit(rules@) == Some(e),
        },
{
    let mut i: usize = 0;
    assert(rules@.skip(0) =~= rules@);
    while i < rules.len()
        invariant
            i <= rules@.len(),
            rules_unfit(rules@) == rules_unfit(rules@.skip(i as int)),
        decreases rules@.len() - i,
    {
        assert(rules@.skip(i as int).drop_first() =~= rules@.skip(i + 1));
        assert(rules@.skip(i as int)[0] == rules@[i as int]);
        match check_ports(&rules[i].ports) {
            Ok(_) => {},
            Err(e) => {
                return Err(e);
            },
        }
        i = i + 1;
    }
    Ok(())
}

fn check_direction(rules: &Option<PolicyRule>) -> (r: Result<(), RuleError>)
    ensures
        match r {
            Ok(_) => direction_unfit(*rules) is None,
            Err(e) => direction_unfit(*rules) == Some(e),
        },
{
    match rules {
        Some(rules) => check_rules(&rules.rules),
        None => Ok(()),
    }
}

fn same_nets(a: &Vec<IpNet>, b: &Vec<IpNet>) -> (r: bool)
    ensures
        r == (a@ == b@),
{
    if a.len() != b.len() {
        return false;
    }
    let mut i: usize = 0;
    while i < a.len()
        invariant
            i <= a@.len(),
            a@.len() == b@.len(),
            forall|k: int| 0 <= k < i ==> #[trigger] a@[k] == b@[k],
        decreases a@.len() - i,
    {
        if a[i] != b[i] {
            return false;
        }
        i = i + 1;
    }
    assert(a@ =~= b@);
    true
}

fn same_ports(a: &Vec<PortMatch>, b: &Vec<PortMatch>) -> (r: bool)
    ensures
        r == (a@ == b@),
{
    if a.len() != b.len() {
        return false;
    }
    let mut i: usize = 0;
    while i < a.len()
        invariant
            i <= a@.len(),
            a@.len() == b@.len(),
            forall|k: int| 0 <= k < i ==> #[trigger] a@[k] == b@[k],
        decreases a@.len() - i,
    {
        if a[i] != b[i] {
            return false;
        }
        i = i + 1;
    }
    assert(a@ =~= b@);
    true
}

fn same_rules(a: &Vec<Rule>, b: &Vec<Rule>) -> (r: bool)
    ensures
        r == (rule_contents(a@) == rule_contents(b@)),
{
    let ghost x = rule_contents(a@);
    let ghost y = rule_contents(b@);
    if a.len() != b.len() {
        assert(x.len() != y.len());
        return false;
    }
    let mut i: usize = 0;
    while i < a.len()
        invariant
            i <= a@.len(),
            a@.len() == b@.len(),
            x == rule_contents(a@),
            y == rule_contents(b@),
            forall|k: int| 0 <= k < i ==> #[trigger] x[k] == y[k],
        decreases a@.len() - i,
    {
        let p: &Rule = &a[i];
        let q: &Rule = &b[i];
        let same: bool = p.action == q.action && same_nets(&p.source_ips, &q.source_ips)
            && same_nets(&p.destination_ips, &q.destination_ips) && same_ports(&p.ports, &q.ports);
        assert(x[i as int] == rule_content(*p) && y[i as int] == rule_content(*q));
        if !same {
            return false;
        }
        i = i + 1;
    }
    assert(x =~= y);
    true
}

fn same_direction(a: &Option<PolicyRule>, b: &Option<PolicyRule>) -> (r: bool)
    ensures
        r == (direction_content(*a) == direction_content(*b)),
{
    match (a, b) {
        (None, None) => true,
        (Some(a), Some(b)) => same_rules(&a.rules, &b.rules),
        _ => false,
    }
}

impl Default for TrafficPolicy {
    fn default() -> (r: Self)
        ensures
            r.ingress is None,
            r.egress is None,
    {
        TrafficPolicy { ingress: None, egress: None }
    }
}

impl TrafficPolicy {
    /// The policy that the control plane sent.
    pub fn try_from(message: &TrafficPolicyMessage) -> (r: Result<TrafficPolicy, RuleFault>)
        ensures
            match r {
                Ok(policy) => policy_fault(*message) is None && policy_is(policy, *message),
                Err(e) => policy_fault(*message) == Some(e),
            },
    {
        let ingress: Option<PolicyRule> = match read_direction(
            &message.ingress,
            Direction::Inbound,
        ) {
            Ok(rules) => rules,
            Err(e) => {
                return Err(e);
            },
        };
        let egress: Option<PolicyRule> = match read_direction(
            &message.egress,
            Direction::Outbound,
        ) {
            Ok(rules) => rules,
            Err(e) => {
                return Err(e);
            },
        };
        Ok(TrafficPolicy { ingress, egress })
    }

    /// What is wrong with a policy that did not come from the control plane.
    pub open spec fn unfit(self) -> Option<RuleError> {
        if direction_unfit(self.ingress) is Some {
            direction_unfit(self.ingress)
        } else {
            direction_unfit(self.egress)
        }
    }

    /// Whether the policy is one that the control plane could have sent.
    pub fn validate(&self) -> (r: Result<(), RuleError>)
        ensures
            match r {
                Ok(_) => self.unfit() is None,
                Err(e) => self.unfit() == Some(e),
            },
    {
        match check_direction(&self.ingress) {
            Ok(_) => check_direction(&self.egress),
            Err(e) => Err(e),
        }
    }

    /// Whether both policies say the same.
    pub fn same(&self, other: &TrafficPolicy) -> (r: bool)
        ensures
            r == (self@ == other@),
    {
        same_direction(&self.ingress, &other.ingress) && same_direction(
            &self.egress,
            &other.egress,
        )
    }

    /// The policy's rules for a direction.
    pub open spec fn rules_for(self, direction: Direction) -> Option<PolicyRule> {
        match direction {
            Direction::Inbound => self.ingress,
            Direction::Outbound => self.egress,
        }
    }
}

/// Which policy is the first, from this one on, that is not there.
pub open spec fn first_missing(chain: Seq<Link>, from: nat) -> Option<nat>
    decreases chain.len() - from,
{
    if from >= chain.len() {
        None
    } else if chain[from as int].policy is None {
        Some(from)
    } else {
        first_missing(chain, from + 1)
    }
}

/// The name of the rule at this position.
pub open spec fn rule_name(i: nat) -> Seq<char> {
    "rule-"@ + decimal(i)
}

/// What the policies from this one on say of a connection: the first rule that
/// speaks of it decides; where none does, it is refused if some policy has rules
/// for the direction.
pub open spec fn verdict(chain: Seq<Link>, conn: Connection, from: nat, configured: bool) -> Result<
    (),
    (Seq<char>, Seq<char>),
>
    decreases chain.len() - from,
{
    if from >= chain.len() {
        if configured {
            Err((Seq::empty(), DEFAULT_DENY@))
        } else {
            Ok(())
        }
    } else {
        let link = chain[from as int];
        match link.policy {
            None => Err((link.name, POLICY_UNAVAILABLE@)),
            Some(policy) => match policy.rules_for(conn.direction) {
                None => verdict(chain, conn, from + 1, configured),
                Some(rules) => match first_rule(rules.rules@, conn, 0) {
                    None => verdict(chain, conn, from + 1, true),
                    Some(i) => match rules.rules@[i as int].action {
                        RbacAction::Allow => Ok(()),
                        RbacAction::Deny => Err((link.name, rule_name(i))),
                    },
                },
            },
        }
    }
}

/// What a chain says of a connection. A policy that is not there refuses it.
pub open spec fn chain_verdict(chain: Seq<Link>, conn: Connection) -> Result<
    (),
    (Seq<char>, Seq<char>),
> {
    match first_missing(chain, 0) {
        Some(i) => Err((chain[i as int].name, POLICY_UNAVAILABLE@)),
        None => verdict(chain, conn, 0, false),
    }
}

/// Rules look only at the addresses and the direction of a connection.
pub open spec fn same_to_rules(a: Connection, b: Connection) -> bool {
    a.src == b.src && a.dst == b.dst && a.direction == b.direction
}

proof fn lemma_same_first_rule(rules: Seq<Rule>, a: Connection, b: Connection, from: nat)
    requires
        same_to_rules(a, b),
    ensures
        first_rule(rules, a, from) == first_rule(rules, b, from),
    decreases rules.len() - from,
{
    if from < rules.len() {
        lemma_same_first_rule(rules, a, b, from + 1);
    }
}

proof fn lemma_same_verdict(
    chain: Seq<Link>,
    a: Connection,
    b: Connection,
    from: nat,
    configured: bool,
)
    requires
        same_to_rules(a, b),
    ensures
        verdict(chain, a, from, configured) == verdict(chain, b, from, configured),
    decreases chain.len() - from,
{
    if from < chain.len() {
        lemma_same_verdict(chain, a, b, from + 1, configured);
        lemma_same_verdict(chain, a, b, from + 1, true);
        if let Some(policy) = chain[from as int].policy {
            if let Some(rules) = policy.rules_for(a.direction) {
                lemma_same_first_rule(rules.rules@, a, b, 0);
            }
        }
    }
}

/// The identity of the source and the network of the destination have no say: two
/// connections between the same addresses, in the same direction, are told the same.
pub proof fn law_only_addresses_matter(chain: Seq<Link>, a: Connection, b: Connection)
    requires
        same_to_rules(a, b),
    ensures
        chain_verdict(chain, a) == chain_verdict(chain, b),
        verdict(chain, a, 0, false) == verdict(chain, b, 0, false),
{
    lemma_same_verdict(chain, a, b, 0, false);
}

fn missing<'a>(chain: &Vec<Attached<'a>>) -> (r: Option<usize>)
    ensures
        match r {
            Some(i) => first_missing(links(chain@), 0) == Some(i as nat) && i < chain@.len(),
            None => first_missing(links(chain@), 0) is None && forall|k: int|
                0 <= k < chain@.len() ==> (#[trigger] chain@[k]).policy is Some,
        },
{
    let mut i: usize = 0;
    while i < chain.len()
        invariant
            i <= chain@.len(),
            first_missing(links(chain@), 0) == first_missing(links(chain@), i as nat),
            forall|k: int| 0 <= k < i ==> (#[trigger] chain@[k]).policy is Some,
        decreases chain@.len() - i,
    {
        assert(links(chain@)[i as int] == chain@[i as int]@);
        if chain[i].policy.is_none() {
            return Some(i);
        }
        i = i + 1;
    }
    None
}

fn rule_name_text(i: usize) -> (r: String)
    ensures
        r@ == rule_name(i as nat),
{
    let mut out: String = "rule-".to_owned();
    push_decimal(&mut out, i as u64);
    out
}

/// What a chain says of a TCP connection.
pub fn check_chain<'a>(chain: &Vec<Attached<'a>>, conn: &Connection) -> (r: Result<
    (),
    AuthorizationRejectionError,
>)
    ensures
        outcome(r) == chain_verdict(links(chain@), *conn),
{
    if let Some(i) = missing(chain) {
        assert(links(chain@)[i as int] == chain@[i as int]@);
        return Err(
            AuthorizationRejectionError::ExplicitlyDenied(
                chain[i].name.to_owned(),
                POLICY_UNAVAILABLE.to_owned(),
            ),
        );
    }
    check_in_order(chain, conn)
}

/// What a chain says of a TCP connection where a policy that is not there refuses it
/// only once it is reached: a rule before it decides.
pub fn check_in_order<'a>(chain: &Vec<Attached<'a>>, conn: &Connection) -> (r: Result<
    (),
    AuthorizationRejectionError,
>)
    ensures
        outcome(r) == verdict(links(chain@), *conn, 0, false),
{
    let ghost all = links(chain@);
    let mut configured: bool = false;
    let mut i: usize = 0;
    while i < chain.len()
        invariant
            i <= chain@.len(),
            all == links(chain@),
            verdict(all, *conn, 0, false) == verdict(all, *conn, i as nat, configured),
        decreases chain@.len() - i,
    {
        assert(all[i as int] == chain@[i as int]@);
        let policy: &TrafficPolicy = match chain[i].policy {
            Some(policy) => policy,
            None => {
                return Err(
                    AuthorizationRejectionError::ExplicitlyDenied(
                        chain[i].name.to_owned(),
                        POLICY_UNAVAILABLE.to_owned(),
                    ),
                );
            },
        };
        let rules: &Option<PolicyRule> = match conn.direction {
            Direction::Inbound => &policy.ingress,
            Direction::Outbound => &policy.egress,
        };
        if let Some(rules) = rules {
            match rules.first_match(conn) {
                None => {
                    configured = true;
                },
                Some(k) => {
                    return match rules.rules[k].action {
                        RbacAction::Allow => Ok(()),
                        RbacAction::Deny => Err(
                            AuthorizationRejectionError::ExplicitlyDenied(
                                chain[i].name.to_owned(),
                                rule_name_text(k),
                            ),
                        ),
                    };
                },
            }
        }
        i = i + 1;
    }
    if configured {
        let none: String = String::new();
        assert(none@ =~= Seq::empty());
        Err(AuthorizationRejectionError::ExplicitlyDenied(none, DEFAULT_DENY.to_owned()))
    } else {
        Ok(())
    }
}

/// A rule's priority: its position, so that ordering keeps the order of the chain.
pub open spec fn priority_at(position: nat) -> i32 {
    if position <= i32::MAX {
        position as i32
    } else {
        i32::MAX
    }
}

/// The firewall's direction.
pub open spec fn firewall_direction(direction: Direction) -> FirewallDirection {
    match direction {
        Direction::Inbound => FirewallDirection::Inbound,
        Direction::Outbound => FirewallDirection::Outbound,
    }
}

/// The firewall rules with those of a policy behind them.
pub open spec fn with_rules(
    start: Seq<RuleModel>,
    rules: Seq<Rule>,
    name: Seq<char>,
    direction: Direction,
) -> Seq<RuleModel>
    decreases rules.len(),
{
    if rules.len() == 0 {
        start
    } else {
        let before = with_rules(start, rules.drop_last(), name, direction);
        match firewall_model(
            rules.last(),
            name + "/"@ + rule_name((rules.len() - 1) as nat),
            firewall_direction(direction),
            priority_at(before.len()),
        ) {
            Some(rule) => before.push(rule),
            None => before,
        }
    }
}

/// The rules of a link for a direction; none where it has none.
pub open spec fn link_rules(link: Link, direction: Direction) -> Option<Seq<Rule>> {
    match link.policy {
        Some(policy) => match policy.rules_for(direction) {
            Some(rules) => Some(rules.rules@),
            None => None,
        },
        None => None,
    }
}

/// The firewall rules with those of a chain behind them, for one direction.
pub open spec fn with_chain(start: Seq<RuleModel>, chain: Seq<Link>, direction: Direction) -> Seq<
    RuleModel,
>
    decreases chain.len(),
{
    if chain.len() == 0 {
        start
    } else {
        let before = with_chain(start, chain.drop_last(), direction);
        match link_rules(chain.last(), direction) {
            Some(rules) => with_rules(before, rules, chain.last().name, direction),
            None => before,
        }
    }
}

/// Whether some policy of the chain has rules for the direction.
pub open spec fn configures(chain: Seq<Link>, direction: Direction) -> bool {
    exists|i: int| 0 <= i < chain.len() && link_rules(#[trigger] chain[i], direction) is Some
}

/// The firewall rules with those of a chain behind them, and the refusal at the
/// end.
pub open spec fn with_default(start: Seq<RuleModel>, chain: Seq<Link>, direction: Direction) -> Seq<
    RuleModel,
> {
    let rules = with_chain(start, chain, direction);
    if configures(chain, direction) {
        rules.push(
            catch_all(
                DEFAULT_DENY@,
                RuleAction::Deny,
                firewall_direction(direction),
                priority_at(rules.len()),
            ),
        )
    } else {
        rules
    }
}

/// The rules that refuse everything, for a policy that is not there.
pub open spec fn unavailable(name: Seq<char>) -> Seq<RuleModel> {
    let full = name + "/"@ + POLICY_UNAVAILABLE@;
    seq![
        catch_all(full, RuleAction::Deny, FirewallDirection::Inbound, 0),
        catch_all(full, RuleAction::Deny, FirewallDirection::Outbound, 1),
    ]
}

/// The firewall rules of a chain.
pub open spec fn chain_model(chain: Seq<Link>) -> Seq<RuleModel> {
    match first_missing(chain, 0) {
        Some(i) => unavailable(chain[i as int].name),
        None => with_default(
            with_default(Seq::empty(), chain, Direction::Inbound),
            chain,
            Direction::Outbound,
        ),
    }
}

fn priority_of(position: usize) -> (r: i32)
    ensures
        r == priority_at(position as nat),
{
    if position <= 2147483647 {
        position as i32
    } else {
        2147483647
    }
}

fn to_firewall_direction(direction: Direction) -> (r: FirewallDirection)
    ensures
        r == firewall_direction(direction),
{
    match direction {
        Direction::Inbound => FirewallDirection::Inbound,
        Direction::Outbound => FirewallDirection::Outbound,
    }
}

fn push_rules(out: &mut Vec<FirewallRule>, rules: &Vec<Rule>, name: &str, direction: Direction)
    ensures
        rule_models(final(out)@) == with_rules(rule_models(old(out)@), rules@, name@, direction),
{
    let ghost start = rule_models(out@);
    let mut i: usize = 0;
    assert(rules@.take(0) =~= Seq::empty());
    while i < rules.len()
        invariant
            i <= rules@.len(),
            rule_models(out@) == with_rules(start, rules@.take(i as int), name@, direction),
        decreases rules@.len() - i,
    {
        let ghost before = rule_models(out@);
        assert(rules@.take(i + 1).drop_last() =~= rules@.take(i as int));
        assert(rules@.take(i + 1).last() == rules@[i as int]);
        assert(before.len() == out@.len());
        let mut full: String = name.to_owned();
        full.append("/");
        full.append(rule_name_text(i).as_str());
        match firewall_rule(
            &rules[i],
            full,
            to_firewall_direction(direction),
            priority_of(out.len()),
        ) {
            Some(rule) => {
                out.push(rule);
                assert(rule_models(out@) =~= before.push(rule@));
            },
            None => {},
        }
        i = i + 1;
    }
    assert(rules@.take(i as int) =~= rules@);
}

fn push_chain<'a>(out: &mut Vec<FirewallRule>, chain: &Vec<Attached<'a>>, direction: Direction)
    ensures
        rule_models(final(out)@) == with_default(
            rule_models(old(out)@),
            links(chain@),
            direction,
        ),
{
    let ghost start = rule_models(out@);
    let ghost all = links(chain@);
    let mut configured: bool = false;
    let mut i: usize = 0;
    assert(all.take(0) =~= Seq::empty());
    while i < chain.len()
        invariant
            i <= chain@.len(),
            all == links(chain@),
            rule_models(out@) == with_chain(start, all.take(i as int), direction),
            configured == exists|k: int|
                0 <= k < i && link_rules(#[trigger] all[k], direction) is Some,
        decreases chain@.len() - i,
    {
        assert(all[i as int] == chain@[i as int]@);
        assert(all.take(i + 1).drop_last() =~= all.take(i as int));
        assert(all.take(i + 1).last() == all[i as int]);
        if let Some(policy) = chain[i].policy {
            let rules: &Option<PolicyRule> = match direction {
                Direction::Inbound => &policy.ingress,
                Direction::Outbound => &policy.egress,
            };
            if let Some(rules) = rules {
                push_rules(out, &rules.rules, chain[i].name, direction);
                configured = true;
                assert(link_rules(all[i as int], direction) is Some);
            }
        }
        i = i + 1;
    }
    assert(all.take(i as int) =~= all);
    if configured {
        let ghost before = rule_models(out@);
        assert(before.len() == out@.len());
        let rule: FirewallRule = catch_all_rule(
            DEFAULT_DENY.to_owned(),
            RuleAction::Deny,
            to_firewall_direction(direction),
            priority_of(out.len()),
        );
        out.push(rule);
        assert(rule_models(out@) =~= before.push(rule@));
    }
}

/// The firewall rules of a chain of policies.
pub fn firewall_rulesets<'a>(chain: &Vec<Attached<'a>>) -> (r: RuleSet)
    ensures
        rule_models(r.rules@) == chain_model(links(chain@)),
        r.inline_rules@.len() == 0,
        !r.policy_attached,
{
    let mut rules: Vec<FirewallRule> = Vec::new();
    if let Some(i) = missing(chain) {
        assert(links(chain@)[i as int] == chain@[i as int]@);
        let mut full: String = chain[i].name.to_owned();
        full.append("/");
        full.append(POLICY_UNAVAILABLE);
        rules.push(
            catch_all_rule(full.clone(), RuleAction::Deny, FirewallDirection::Inbound, 0),
        );
        rules.push(catch_all_rule(full, RuleAction::Deny, FirewallDirection::Outbound, 1));
        assert(rule_models(rules@) =~= chain_model(links(chain@)));
    } else {
        assert(rule_models(rules@) =~= Seq::empty());
        push_chain(&mut rules, chain, Direction::Inbound);
        push_chain(&mut rules, chain, Direction::Outbound);
    }
    RuleSet { rules, inline_rules: Vec::new(), policy_attached: false }
}

/// The firewall rules of one policy, under the name of an inline one.
pub fn firewall_ruleset(policy: &TrafficPolicy) -> (r: RuleSet)
    ensures
        rule_models(r.rules@) == chain_model(
            seq![Link { name: "inline"@, policy: Some(*policy) }],
        ),
        r.inline_rules@.len() == 0,
        !r.policy_attached,
{
    let mut chain: Vec<Attached> = Vec::new();
    chain.push(Attached { name: "inline", policy: Some(policy) });
    assert(links(chain@) =~= seq![Link { name: "inline"@, policy: Some(*policy) }]);
    firewall_rulesets(&chain)
}

} // verus!
