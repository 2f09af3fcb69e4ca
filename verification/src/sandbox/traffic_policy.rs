//! Named traffic policies with priorities: on TCP connections, and as firewall
//! rules for the rest.

use vstd::prelude::*;

use crate::firewall::types::{
    rule_models, Direction as FirewallDirection, FirewallRule, RuleModel, RuleSet,
};
use crate::rbac::firewall::{firewall_model, firewall_rule};
use crate::rbac::policy::{rules_are, rules_fault, PolicyRule, PolicyRuleMessage, Rule, RuleError};
use crate::rbac::{outcome, AuthorizationRejectionError, Connection, Direction, RbacDecision};

verus! {

/// A policy; a direction without rules of its own is left to others.
#[derive(Clone, Debug, PartialEq, Eq, Hash)]
pub struct TrafficPolicy {
    pub name: String,
    pub namespace: String,
    pub priority: i32,
    pub ingress: Option<PolicyRule>,
    pub egress: Option<PolicyRule>,
}

/// Where a policy applies.
#[derive(Clone, Copy, Debug, PartialEq, Eq, Structural)]
pub enum Scope {
    Global,
    Namespace,
}

/// A policy as the control plane sends it.
#[derive(Clone, Debug, PartialEq, Eq)]
pub struct TrafficPolicyMessage {
    pub name: String,
    pub namespace: String,
    pub priority: i32,
    pub scope: i32,
    pub ingress: Option<PolicyRuleMessage>,
    pub egress: Option<PolicyRuleMessage>,
}

/// Why a policy is not accepted.
#[derive(Clone, Copy, Debug, PartialEq, Eq, Structural)]
pub enum PolicyError {
    EmptyName,
    NegativePriority,
    UnknownScope(i32),
    /// A policy of a namespace requires one.
    MissingNamespace,
    /// A global policy must not specify a namespace.
    UnexpectedNamespace,
    /// A policy requires at least one direction.
    NoDirection,
    /// A rule of this direction, by its position, is not accepted.
    Rule(Direction, usize, RuleError),
}

/// The name under which a connection is refused that no rule speaks of.
pub const SANDBOX_DEFAULT_DENY: &'static str = "SANDBOX-DEFAULT-DENY";

/// The scope that a number stands for.
pub open spec fn scope_of(number: i32) -> Option<Scope> {
    if number == 0 {
        Some(Scope::Global)
    } else if number == 1 {
        Some(Scope::Namespace)
    } else {
        None
    }
}

/// What is wrong with the rules of a direction.
pub open spec fn direction_fault(
    message: Option<PolicyRuleMessage>,
    direction: Direction,
) -> Option<PolicyError> {
    match message {
        None => None,
        Some(m) => match rules_fault(m.rules@, 0) {
            None => None,
            Some((i, e)) => Some(PolicyError::Rule(direction, i as usize, e)),
        },
    }
}

/// What is wrong with a policy.
pub open spec fn policy_fault(message: TrafficPolicyMessage) -> Option<PolicyError> {
    if message.name@.len() == 0 {
        Some(PolicyError::EmptyName)
    } else if message.priority < 0 {
        Some(PolicyError::NegativePriority)
    } else if scope_of(message.scope) is None {
        Some(PolicyError::UnknownScope(message.scope))
    } else if scope_of(message.scope) == Some(Scope::Namespace) && message.namespace@.len() == 0 {
        Some(PolicyError::MissingNamespace)
    } else if scope_of(message.scope) == Some(Scope::Global) && message.namespace@.len() > 0 {
        Some(PolicyError::UnexpectedNamespace)
    } else if message.ingress is None && message.egress is None {
        Some(PolicyError::NoDirection)
    } else if direction_fault(message.ingress, Direction::Inbound) is Some {
        direction_fault(message.ingress, Direction::Inbound)
    } else {
        direction_fault(message.egress, Direction::Outbound)
    }
}

/// The rules of a direction say what the message does.
pub open spec fn direction_is(
    rules: Option<PolicyRule>,
    message: Option<PolicyRuleMessage>,
) -> bool {
    match (rules, message) {
        (Some(rules), Some(m)) => rules_are(rules.rules@, m.rules@),
        (None, None) => true,
        _ => false,
    }
}

/// The policy says what the message does.
pub open spec fn policy_is(policy: TrafficPolicy, message: TrafficPolicyMessage) -> bool {
    &&& policy.name@ == message.name@
    &&& policy.namespace@ == message.namespace@
    &&& policy.priority == message.priority
    &&& direction_is(policy.ingress, message.ingress)
    &&& direction_is(policy.egress, message.egress)
}

fn read_direction(message: &Option<PolicyRuleMessage>, direction: Direction) -> (r: Result<
    Option<PolicyRule>,
    PolicyError,
>)
    ensures
        match r {
            Ok(rules) => direction_fault(*message, direction) is None && direction_is(
                rules,
                *message,
            ),
            Err(e) => direction_fault(*message, direction) == Some(e),
        },
{
    match message {
        None => Ok(None),
        Some(m) => match PolicyRule::try_from(m) {
            Ok(rules) => Ok(Some(rules)),
            Err((i, e)) => Err(PolicyError::Rule(direction, i, e)),
        },
    }
}

fn read_scope(number: i32) -> (r: Option<Scope>)
    ensures
        r == scope_of(number),
{
    match number {
        0 => Some(Scope::Global),
        1 => Some(Scope::Namespace),
        _ => None,
    }
}

impl TrafficPolicy {
    /// The policy that the control plane sent.
    pub fn try_from(message: TrafficPolicyMessage) -> (r: Result<TrafficPolicy, PolicyError>)
        ensures
            match r {
                Ok(policy) => policy_fault(message) is None && policy_is(policy, message),
                Err(e) => policy_fault(message) == Some(e),
            },
    {
        if message.name.is_empty() {
            return Err(PolicyError::EmptyName);
        }
        if message.priority < 0 {
            return Err(PolicyError::NegativePriority);
        }
        let scope: Scope = match read_scope(message.scope) {
            Some(scope) => scope,
            None => {
                return Err(PolicyError::UnknownScope(message.scope));
            },
        };
        if scope == Scope::Namespace && message.namespace.is_empty() {
            return Err(PolicyError::MissingNamespace);
        }
        if scope == Scope::Global && !message.namespace.is_empty() {
            return Err(PolicyError::UnexpectedNamespace);
        }
        if message.ingress.is_none() && message.egress.is_none() {
            return Err(PolicyError::NoDirection);
        }
        let ingress: Option<PolicyRule> = match read_direction(
            &message.ingress,
            Direction::Inbound,
        ) {
            Ok(rules) => rules,
            Err(e) => {
                return Err(e);
            },
        };
        let egress: Option<PolicyRule> = match read_direction(
            &message.egress,
            Direction::Outbound,
        ) {
            Ok(rules) => rules,
            Err(e) => {
                return Err(e);
            },
        };
        Ok(
            TrafficPolicy {
                name: message.name,
                namespace: message.namespace,
                priority: message.priority,
                ingress,
                egress,
            },
        )
    }

    /// The policy's rules for a direction.
    pub open spec fn rules_for(self, direction: Direction) -> Option<PolicyRule> {
        match direction {
            Direction::Inbound => self.ingress,
            Direction::Outbound => self.egress,
        }
    }
}

/// What the policies from this one on say of a connection: the first rule that
/// speaks of it decides; where none does, it is refused if some policy has rules
/// for the direction, and otherwise nothing is said.
pub open spec fn verdict(
    policies: Seq<TrafficPolicy>,
    conn: Connection,
    from: nat,
    configured: bool,
) -> Result<RbacDecision, (Seq<char>, Seq<char>)>
    decreases policies.len() - from,
{
    if from >= policies.len() {
        if configured {
            Err((Seq::empty(), SANDBOX_DEFAULT_DENY@))
        } else {
            Ok(RbacDecision::NoMatch)
        }
    } else {
        let policy = policies[from as int];
        match policy.rules_for(conn.direction) {
            None => verdict(policies, conn, from + 1, configured),
            Some(rules) => match rules.decision(conn) {
                RbacDecision::Allow => Ok(RbacDecision::Allow),
                RbacDecision::Deny => Err((policy.namespace@, policy.name@)),
                RbacDecision::NoMatch => verdict(policies, conn, from + 1, true),
            },
        }
    }
}

/// What the policies, in the order of their evaluation, say of a connection.
pub fn assert_tcp(policies: &[TrafficPolicy], conn: &Connection) -> (r: Result<
    RbacDecision,
    AuthorizationRejectionError,
>)
    ensures
        outcome(r) == verdict(policies@, *conn, 0, false),
{
    let mut configured: bool = false;
    let mut i: usize = 0;
    while i < policies.len()
        invariant
            i <= policies@.len(),
            verdict(policies@, *conn, 0, false) == verdict(
                policies@,
                *conn,
                i as nat,
                configured,
            ),
        decreases policies@.len() - i,
    {
        let policy: &TrafficPolicy = &policies[i];
        let rules: &Option<PolicyRule> = match conn.direction {
            Direction::Inbound => &policy.ingress,
            Direction::Outbound => &policy.egress,
        };
        if let Some(rules) = rules {
            match rules.evaluate_tcp(conn) {
                RbacDecision::Allow => {
                    return Ok(RbacDecision::Allow);
                },
                RbacDecision::Deny => {
                    return Err(
                        AuthorizationRejectionError::ExplicitlyDenied(
                            policy.namespace.clone(),
                            policy.name.clone(),
                        ),
                    );
                },
                RbacDecision::NoMatch => {},
            }
            configured = true;
        }
        i = i + 1;
    }
    if configured {
        let none: String = String::new();
        assert(none@ =~= Seq::empty());
        Err(
            AuthorizationRejectionError::ExplicitlyDenied(none, SANDBOX_DEFAULT_DENY.to_owned()),
        )
    } else {
        Ok(RbacDecision::NoMatch)
    }
}

/// The firewall rules with those of one direction of a policy behind them.
pub open spec fn with_rules(
    start: Seq<RuleModel>,
    rules: Seq<Rule>,
    name: Seq<char>,
    direction: FirewallDirection,
    priority: i32,
) -> Seq<RuleModel>
    decreases rules.len(),
{
    if rules.len() == 0 {
        start
    } else {
        let before = with_rules(start, rules.drop_last(), name, direction, priority);
        match firewall_model(rules.last(), name, direction, priority) {
            Some(rule) => before.push(rule),
            None => before,
        }
    }
}

/// The firewall rules with those of one direction of a policy behind them, where
/// it has any.
pub open spec fn with_direction(
    start: Seq<RuleModel>,
    policy: TrafficPolicy,
    direction: FirewallDirection,
) -> Seq<RuleModel> {
    let body = match direction {
        FirewallDirection::Inbound => policy.ingress,
        FirewallDirection::Outbound => policy.egress,
    };
    match body {
        None => start,
        Some(body) => with_rules(
            start,
            body.rules@,
            policy.name@,
            direction,
            policy.priority,
        ),
    }
}

/// The firewall rules of the policies, one policy after the other, first those for
/// what comes in.
pub open spec fn policies_model(policies: Seq<TrafficPolicy>) -> Seq<RuleModel>
    decreases policies.len(),
{
    if policies.len() == 0 {
        Seq::empty()
    } else {
        with_direction(
            with_direction(
                policies_model(policies.drop_last()),
                policies.last(),
                FirewallDirection::Inbound,
            ),
            policies.last(),
            FirewallDirection::Outbound,
        )
    }
}

fn push_direction(
    out: &mut Vec<FirewallRule>,
    policy: &TrafficPolicy,
    direction: FirewallDirection,
)
    ensures
        rule_models(final(out)@) == with_direction(rule_models(old(out)@), *policy, direction),
{
    let body: &Option<PolicyRule> = match direction {
        FirewallDirection::Inbound => &policy.ingress,
        FirewallDirection::Outbound => &policy.egress,
    };
    let body: &PolicyRule = match body {
        Some(body) => body,
        None => {
            return;
        },
    };
    let ghost start = rule_models(out@);
    let ghost rules = body.rules@;
    let mut i: usize = 0;
    assert(rules.take(0) =~= Seq::empty());
    while i < body.rules.len()
        invariant
            i <= body.rules@.len(),
            rules == body.rules@,
            rule_models(out@) == with_rules(
                start,
                rules.take(i as int),
                policy.name@,
                direction,
                policy.priority,
            ),
        decreases body.rules@.len() - i,
    {
        let ghost before = rule_models(out@);
        assert(rules.take(i + 1).drop_last() =~= rules.take(i as int));
        assert(rules.take(i + 1).last() == rules[i as int]);
        match firewall_rule(&body.rules[i], policy.name.clone(), direction, policy.priority) {
            Some(rule) => {
                out.push(rule);
                assert(rule_models(out@) =~= before.push(rule@));
            },
            None => {},
        }
        i = i + 1;
    }
    assert(rules.take(i as int) =~= rules);
}

/// The firewall rules of the policies. What no rule speaks of is refused where
/// there is any policy.
pub fn firewall_ruleset(policies: &[TrafficPolicy]) -> (r: RuleSet)
    ensures
        rule_models(r.rules@) == policies_model(policies@),
        r.inline_rules@.len() == 0,
        r.policy_attached == (policies@.len() > 0),
{
    let mut rules: Vec<FirewallRule> = Vec::new();
    let mut i: usize = 0;
    assert(rule_models(rules@) =~= policies_model(policies@.take(0)));
    while i < policies.len()
        invariant
            i <= policies@.len(),
            rule_models(rules@) == policies_model(policies@.take(i as int)),
        decreases policies@.len() - i,
    {
        assert(policies@.take(i + 1).drop_last() =~= policies@.take(i as int));
        assert(policies@.take(i + 1).last() == policies@[i as int]);
        push_direction(&mut rules, &policies[i], FirewallDirection::Inbound);
        push_direction(&mut rules, &policies[i], FirewallDirection::Outbound);
        i = i + 1;
    }
    assert(policies@.take(i as int) =~= policies@);
    RuleSet { rules, inline_rules: Vec::new(), policy_attached: policies.len() > 0 }
}

/// Policies that have no rules for a direction say nothing of its connections.
pub proof fn law_absent_direction_says_nothing(
    policies: Seq<TrafficPolicy>,
    conn: Connection,
    from: nat,
)
    requires
        forall|i: int|
            from <= i < policies.len() ==> (#[trigger] policies[i]).rules_for(conn.direction)
                is None,
    ensures
        verdict(policies, conn, from, false) == Ok::<RbacDecision, (Seq<char>, Seq<char>)>(
            RbacDecision::NoMatch,
        ),
    decreases policies.len() - from,
{
    if from < policies.len() {
        assert(policies[from as int].rules_for(conn.direction) is None);
        law_absent_direction_says_nothing(policies, conn, from + 1);
    }
}

/// A connection that passes was allowed by a rule, or no policy has rules for its
/// direction: a direction that is configured refuses what no rule speaks of.
pub proof fn law_configured_direction_refuses_by_default(
    policies: Seq<TrafficPolicy>,
    conn: Connection,
    from: nat,
    configured: bool,
)
    requires
        configured || exists|i: int|
            from <= i < policies.len() && (#[trigger] policies[i]).rules_for(conn.direction)
                is Some,
    ensures
        verdict(policies, conn, from, configured) matches Ok(d) ==> d == RbacDecision::Allow,
    decreases policies.len() - from,
{
    if from < policies.len() {
        let policy = policies[from as int];
        match policy.rules_for(conn.direction) {
            None => {
                if !configured {
                    let i = choose|i: int|
                        from <= i < policies.len() && (#[trigger] policies[i]).rules_for(
                            conn.direction,
                        ) is Some;
                    assert(i != from);
                    assert(from + 1 <= i < policies.len());
                }
                law_configured_direction_refuses_by_default(policies, conn, from + 1, configured);
            },
            Some(rules) => {
                law_configured_direction_refuses_by_default(policies, conn, from + 1, true);
            },
        }
    }
}

} // verus!
