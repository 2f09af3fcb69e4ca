use ztunnel::extensions::extensions::{EgressPolicies, EgressPolicy, EgressPolicyAction};
use ztunnel::state::workload_config::{
    ActorContext, ActorContextError, ActorContextMessage, WorkloadConfigData, WorkloadConfigScope,
    WorkloadConfigStore,
};

fn text(s: &str) -> String {
    s.to_string()
}

fn make_data(action: EgressPolicyAction) -> WorkloadConfigData {
    WorkloadConfigData {
        egress_policies: EgressPolicies {
            policies: vec![EgressPolicy {
                namespaces: vec![],
                match_cidrs: vec![],
                match_ports: vec![],
                policy: action,
                gateway: None,
            }],
        },
        actor_context: None,
    }
}

fn insert(store: &mut WorkloadConfigStore, key: &str, ns: &str, action: EgressPolicyAction) {
    store.insert(text(key), text(ns), WorkloadConfigScope::Namespace, make_data(action));
}

fn actor() -> ActorContextMessage {
    ActorContextMessage {
        actor_uid: text("uid-1"),
        actor_name: text("actor"),
        atespace: text("space"),
        generation: 3,
        labels: vec![(text("b"), text("2")), (text("a"), text("1"))],
    }
}

#[test]
fn insert_and_lookup_by_namespace() {
    let mut store = WorkloadConfigStore::default();
    insert(&mut store, "default/policy-a", "default", EgressPolicyAction::Passthrough);
    insert(&mut store, "default/policy-b", "default", EgressPolicyAction::Deny);
    insert(&mut store, "other/policy-c", "other", EgressPolicyAction::Passthrough);

    let default_policies = store.get_by_namespace(&text("default"));
    assert_eq!(default_policies.len(), 2);

    let other_policies = store.get_by_namespace(&text("other"));
    assert_eq!(other_policies.len(), 1);

    let missing = store.get_by_namespace(&text("no-such-ns"));
    assert!(missing.is_empty());
}

#[test]
fn remove_cleans_up_secondary_index() {
    let mut store = WorkloadConfigStore::default();
    insert(&mut store, "default/policy-a", "default", EgressPolicyAction::Passthrough);
    assert_eq!(store.get_by_namespace(&text("default")).len(), 1);

    store.remove(&text("default/policy-a"));
    assert!(store.get_by_namespace(&text("default")).is_empty());
    assert!(store.is_empty());
}

#[test]
fn insert_replaces_existing_key() {
    let mut store = WorkloadConfigStore::default();
    insert(&mut store, "default/policy-a", "default", EgressPolicyAction::Passthrough);
    insert(&mut store, "default/policy-a", "default", EgressPolicyAction::Deny);
    let policies = store.get_by_namespace(&text("default"));
    assert_eq!(policies.len(), 1);
    assert_eq!(policies[0].egress_policies.policies[0].policy, EgressPolicyAction::Deny);
}

#[test]
fn a_key_that_moves_leaves_its_namespace() {
    let mut store = WorkloadConfigStore::default();
    insert(&mut store, "policy-a", "default", EgressPolicyAction::Passthrough);
    insert(&mut store, "policy-a", "other", EgressPolicyAction::Deny);
    assert!(store.get_by_namespace(&text("default")).is_empty());
    assert_eq!(store.get_by_namespace(&text("other")).len(), 1);
    assert_eq!(store.all().len(), 1);
}

#[test]
fn global_and_namespace_scoped_lookup() {
    let mut store = WorkloadConfigStore::default();
    store.insert(
        text("istio-system/global-policy"),
        text("istio-system"),
        WorkloadConfigScope::Global,
        make_data(EgressPolicyAction::Passthrough),
    );
    insert(&mut store, "default/ns-policy", "default", EgressPolicyAction::Deny);

    let mut all = store.get_by_namespace(&text("default"));
    all.extend(store.get_by_namespace(&text("")));
    assert_eq!(all.len(), 2);
}

#[test]
fn actor_contexts_are_checked() {
    let context = ActorContext::try_from(actor()).unwrap();
    assert_eq!(context.actor_uid, "uid-1");
    assert_eq!(context.generation, 3);
    assert_eq!(context.encoded_labels, "YT0xLGI9Mg==");

    for (message, error) in [
        (
            ActorContextMessage { actor_uid: text(""), ..actor() },
            ActorContextError::MissingUid,
        ),
        (
            ActorContextMessage { actor_name: text(""), ..actor() },
            ActorContextError::MissingName,
        ),
        (
            ActorContextMessage { atespace: text(""), ..actor() },
            ActorContextError::MissingAtespace,
        ),
        (
            ActorContextMessage { generation: 0, ..actor() },
            ActorContextError::ZeroGeneration,
        ),
    ] {
        assert!(!error.message().is_empty());
        assert_eq!(ActorContext::try_from(message), Err(error));
    }
}

#[test]
fn the_actor_context_is_that_of_some_config() {
    let mut store = WorkloadConfigStore::default();
    assert_eq!(store.actor_context(), None);
    insert(&mut store, "a", "default", EgressPolicyAction::Deny);
    assert_eq!(store.actor_context(), None);
    let context = ActorContext::try_from(actor()).unwrap();
    store.insert(
        text("b"),
        text("default"),
        WorkloadConfigScope::Namespace,
        WorkloadConfigData {
            actor_context: Some(context.clone()),
            ..make_data(EgressPolicyAction::Deny)
        },
    );
    assert_eq!(store.actor_context(), Some(&context));
    store.remove(&text("b"));
    assert_eq!(store.actor_context(), None);
}
