//! The two stages that a connection passes: the policies of the sandbox that it
//! belongs to, its own before those that it refers to, then the policies of the
//! workload.

use vstd::prelude::*;

use super::chain::{
    chain_verdict, check_chain, check_in_order, law_only_addresses_matter, link_rules, rule_name,
    same_to_rules, verdict, Attached, Link, TrafficPolicy, POLICY_UNAVAILABLE,
};
use super::policy::{first_rule, Rule};
use super::store::TrafficPolicyStore;
use super::{outcome, AuthorizationRejectionError, Connection, RbacAction};
use crate::sandbox::discovery::{referred_policies, Sandbox};
use crate::index::ids_of;
use crate::sandbox::store::StoreModel;
use crate::state::store::ProxyState;
use crate::state::workload::Workload;
use crate::text::views;

verus! {

/// What refuses a connection whose sandbox is gone.
pub const SANDBOX_UNAVAILABLE: &'static str = "sandbox-unavailable";

/// A connection, the workload that it belongs to, and the sandbox that it was bound
/// to when it was opened, where there was one.
pub struct ProxyRbacContext {
    pub conn: Connection,
    pub workload: Workload,
    pub sandbox: Option<String>,
}

/// A sandbox's own policy as a chain.
pub open spec fn inline_chain(policy: TrafficPolicy) -> Seq<Link> {
    seq![Link { name: "inline"@, policy: Some(policy) }]
}

/// What the policies of a sandbox say of a connection: its own first, then those that
/// it refers to. One that is not there refuses the connection once it is reached.
/// Without a sandbox, the connection passes.
pub open spec fn sandbox_verdict(
    sandbox: Option<Sandbox>,
    policies: Map<Seq<char>, TrafficPolicy>,
    conn: Connection,
) -> Result<(), (Seq<char>, Seq<char>)> {
    match sandbox {
        Some(sandbox) => verdict(sandbox.spec_traffic_policies(policies), conn, 0, false),
        None => Ok(()),
    }
}

/// The workload's policies, as far as they are there. What is known of the workload
/// now counts, not what was known when the connection was opened.
pub open spec fn workload_chain(
    workloads: Map<Seq<char>, Workload>,
    policies: Map<Seq<char>, TrafficPolicy>,
    workload: Workload,
) -> Seq<Link> {
    let current = if workloads.dom().contains(workload.uid@) {
        workloads[workload.uid@]
    } else {
        workload
    };
    referred_policies(views(current.traffic_policy_refs@), policies)
}

/// The sandbox that a connection belongs to now: the one that it was bound to, or
/// the one that stands for its workload. `Err` where the one that it was bound to
/// is gone.
pub open spec fn current_sandbox(
    sandboxes: StoreModel,
    workload: Seq<char>,
    bound: Option<Seq<char>>,
) -> Result<Option<Sandbox>, Seq<char>> {
    match bound {
        Some(uid) => if sandboxes.resources.dom().contains(uid) {
            Ok(Some(sandboxes.resources[uid]))
        } else {
            Err(uid)
        },
        None => {
            let ids = ids_of(sandboxes.bound, workload);
            if ids.len() > 0 {
                Ok(Some(sandboxes.resources[ids[0]]))
            } else {
                Ok(None)
            }
        },
    }
}

/// What the two stages say of a connection.
pub open spec fn authorization(state: ProxyState, ctx: ProxyRbacContext) -> Result<
    (),
    (Seq<char>, Seq<char>),
> {
    match current_sandbox(
        state.sandboxes@,
        ctx.workload.uid@,
        crate::text::opt_view(ctx.sandbox),
    ) {
        Err(uid) => Err((uid, SANDBOX_UNAVAILABLE@)),
        Ok(sandbox) => match sandbox_verdict(sandbox, state.policies@, ctx.conn) {
            Err(e) => Err(e),
            Ok(_) => chain_verdict(
                workload_chain(state.workloads@, state.policies@, ctx.workload),
                ctx.conn,
            ),
        },
    }
}

fn check_sandbox(
    sandbox: Option<&Sandbox>,
    policies: &TrafficPolicyStore,
    conn: &Connection,
) -> (r: Result<(), AuthorizationRejectionError>)
    ensures
        outcome(r) == sandbox_verdict(
            match sandbox {
                Some(s) => Some(*s),
                None => None,
            },
            policies@,
            *conn,
        ),
{
    match sandbox {
        Some(sandbox) => check_in_order(&sandbox.traffic_policies(policies), conn),
        None => Ok(()),
    }
}

/// Whether the connection passes both stages.
pub fn assert_rbac(state: &ProxyState, ctx: &ProxyRbacContext) -> (r: Result<
    (),
    AuthorizationRejectionError,
>)
    ensures
        outcome(r) == authorization(*state, *ctx),
{
    let sandbox: Option<&Sandbox> = match &ctx.sandbox {
        Some(uid) => match state.sandboxes.get(uid) {
            Some(sandbox) => Some(sandbox),
            None => {
                return Err(
                    AuthorizationRejectionError::ExplicitlyDenied(
                        uid.clone(),
                        SANDBOX_UNAVAILABLE.to_owned(),
                    ),
                );
            },
        },
        None => state.sandboxes.fetch_sandbox(&ctx.workload.uid),
    };
    match check_sandbox(sandbox, &state.policies, &ctx.conn) {
        Ok(_) => {},
        Err(e) => {
            return Err(e);
        },
    }
    let workload: &Workload = match state.workloads.find_uid(&ctx.workload.uid) {
        Some(workload) => workload,
        None => &ctx.workload,
    };
    let chain: Vec<Attached> = workload.traffic_policies(&state.policies);
    check_chain(&chain, &ctx.conn)
}

/// A connection passes only where both stages let it pass: what the sandbox's
/// policies allow, the workload's policies may still refuse, and the other way round.
pub proof fn law_both_stages_must_allow(state: ProxyState, ctx: ProxyRbacContext, sandbox: Option<
    Sandbox,
>)
    requires
        current_sandbox(
            state.sandboxes@,
            ctx.workload.uid@,
            crate::text::opt_view(ctx.sandbox),
        ) == Ok::<Option<Sandbox>, Seq<char>>(sandbox),
    ensures
        authorization(state, ctx) is Ok <==> sandbox_verdict(
            sandbox,
            state.policies@,
            ctx.conn,
        ) is Ok
            && chain_verdict(
            workload_chain(state.workloads@, state.policies@, ctx.workload),
            ctx.conn,
        ) is Ok,
{
}

/// A connection bound to a sandbox that is gone is refused, whatever the workload's
/// policies say.
pub proof fn law_removed_sandbox_is_refused(state: ProxyState, ctx: ProxyRbacContext, uid: Seq<char>)
    requires
        crate::text::opt_view(ctx.sandbox) == Some(uid),
        !state.sandboxes@.resources.dom().contains(uid),
    ensures
        authorization(state, ctx) is Err,
{
}

/// A rule of the sandbox's own policy that speaks of a connection decides this stage,
/// whatever the policies say that the sandbox refers to, and whether or not they are
/// there.
pub proof fn law_own_policy_comes_first(
    sandbox: Sandbox,
    policies: Map<Seq<char>, TrafficPolicy>,
    conn: Connection,
    rules: Seq<Rule>,
    i: nat,
)
    requires
        sandbox.traffic_policy matches Some(policy) && policy.rules_for(conn.direction) matches Some(
            direction,
        ) && direction.rules@ == rules,
        first_rule(rules, conn, 0) == Some(i),
    ensures
        sandbox_verdict(Some(sandbox), policies, conn) is Ok <==> rules[i as int].action
            == RbacAction::Allow,
{
    let chain = sandbox.spec_traffic_policies(policies);
    assert(chain[0] == (Link { name: "inline"@, policy: sandbox.traffic_policy }));
}

/// Whether a policy is there and has no rule that speaks of the connection.
pub open spec fn leaves_open(link: Link, conn: Connection) -> bool {
    link.policy is Some && (link_rules(link, conn.direction) matches Some(rules) ==> first_rule(
        rules,
        conn,
        0,
    ) is None)
}

proof fn lemma_passes_on(
    chain: Seq<Link>,
    conn: Connection,
    from: nat,
    k: nat,
    configured: bool,
)
    requires
        from <= k < chain.len(),
        forall|j: int| from <= j < k ==> leaves_open(#[trigger] chain[j], conn),
        !leaves_open(chain[k as int], conn),
    ensures
        verdict(chain, conn, from, configured) == verdict(chain, conn, k, false),
    decreases k - from,
{
    if from < k {
        assert(leaves_open(chain[from as int], conn));
        lemma_passes_on(
            chain,
            conn,
            from + 1,
            k,
            configured || link_rules(chain[from as int], conn.direction) is Some,
        );
    }
}

/// Of the sandbox's policies, its own before those that it refers to, the first that
/// does not leave a connection open decides: one that is not there refuses it, and
/// else the first of its rules that speaks of the connection says what becomes of it.
/// What stands behind it changes nothing.
pub proof fn law_first_to_speak_decides(
    sandbox: Sandbox,
    policies: Map<Seq<char>, TrafficPolicy>,
    conn: Connection,
    k: nat,
)
    requires
        k < sandbox.spec_traffic_policies(policies).len(),
        forall|j: int|
            0 <= j < k ==> leaves_open(
                #[trigger] sandbox.spec_traffic_policies(policies)[j],
                conn,
            ),
        !leaves_open(sandbox.spec_traffic_policies(policies)[k as int], conn),
    ensures
        ({
            let link = sandbox.spec_traffic_policies(policies)[k as int];
            let said = sandbox_verdict(Some(sandbox), policies, conn);
            match link_rules(link, conn.direction) {
                None => said == Err::<(), (Seq<char>, Seq<char>)>(
                    (link.name, POLICY_UNAVAILABLE@),
                ),
                Some(rules) => {
                    let i = first_rule(rules, conn, 0).unwrap();
                    said == (match rules[i as int].action {
                        RbacAction::Allow => Ok::<(), (Seq<char>, Seq<char>)>(()),
                        RbacAction::Deny => Err((link.name, rule_name(i))),
                    })
                },
            }
        }),
{
    lemma_passes_on(sandbox.spec_traffic_policies(policies), conn, 0, k, false);
}

/// Of a connection only its addresses and its direction count: the identity that its
/// source proves and the network of its destination change nothing.
pub proof fn law_addresses_decide(state: ProxyState, a: ProxyRbacContext, b: ProxyRbacContext)
    requires
        same_to_rules(a.conn, b.conn),
        a.workload == b.workload,
        crate::text::opt_view(a.sandbox) == crate::text::opt_view(b.sandbox),
    ensures
        authorization(state, a) == authorization(state, b),
{
    if let Ok(sandbox) = current_sandbox(
        state.sandboxes@,
        a.workload.uid@,
        crate::text::opt_view(a.sandbox),
    ) {
        if let Some(sandbox) = sandbox {
            law_only_addresses_matter(
                sandbox.spec_traffic_policies(state.policies@),
                a.conn,
                b.conn,
            );
        }
    }
    law_only_addresses_matter(
        workload_chain(state.workloads@, state.policies@, a.workload),
        a.conn,
        b.conn,
    );
}

/// A policy that the workload does not refer to has no say: only the policies
/// referred to matter.
pub proof fn law_unreferenced_policies_have_no_say(
    names: Seq<Seq<char>>,
    a: Map<Seq<char>, TrafficPolicy>,
    b: Map<Seq<char>, TrafficPolicy>,
)
    requires
        forall|name: Seq<char>| #[trigger]
            names.contains(name) ==> a.dom().contains(name) == b.dom().contains(name) && (
            a.dom().contains(name) ==> a[name] == b[name]),
    ensures
        referred_policies(names, a) == referred_policies(names, b),
{
    assert forall|i: int| 0 <= i < names.len() implies referred_policies(names, a)[i]
        == #[trigger] referred_policies(names, b)[i] by {
        assert(names.contains(names[i]));
    }
    assert(referred_policies(names, a) =~= referred_policies(names, b));
}

} // verus!
