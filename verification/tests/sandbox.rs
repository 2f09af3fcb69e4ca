use base64::Engine;
use ztunnel::rbac::chain::{TrafficPolicy, TrafficPolicyMessage};
use ztunnel::rbac::policy::{PolicyRuleMessage, RuleError, RuleMessage};
use ztunnel::sandbox::discovery::{
    validate_id, Sandbox, SandboxError, SandboxExtension, SandboxMessage, SniContent,
    TRAFFIC_POLICY_TYPE,
};
use ztunnel::sandbox::sandbox::{
    sandbox_token_key, sandbox_token_transform, SandboxManager, SANDBOX_GENERATION_HEADER,
    SANDBOX_ID_HEADER, SANDBOX_LABELS_HEADER, SANDBOX_TOKEN_HEADER,
};
use ztunnel::sandbox::store::SandboxStore;
use ztunnel::extensions::extensions::{EgressPolicyError, EgressPolicyMessage};

fn text(s: &str) -> String {
    s.to_string()
}

fn message(id: &str, workload_uid: Option<&str>) -> SandboxMessage {
    SandboxMessage {
        uid: text(id),
        attester: workload_uid.map(text),
        policy_refs: vec![],
        egress_routing: None,
        traffic_policy: None,
        extensions: vec![],
    }
}

fn publish(store: &mut SandboxStore, id: &str, workload_uid: &str) {
    store.update(id, message(id, Some(workload_uid))).unwrap();
}

fn uids(store: &SandboxStore, workload: &str) -> Vec<String> {
    store.get_by_workload(&text(workload)).iter().map(|sandbox| sandbox.uid.clone()).collect()
}

#[test]
fn token_transform_base64_encodes_bytes() {
    assert_eq!(sandbox_token_transform(text("hello")), "aGVsbG8=");
}

#[test]
fn token_transform_handles_empty_input() {
    assert_eq!(sandbox_token_transform(String::new()), "");
}

#[test]
fn token_transform_preserves_binary_content_via_base64() {
    let raw = "tok\nwith\rweird\x00bytes";
    let encoded = sandbox_token_transform(text(raw));
    let decoded =
        base64::engine::general_purpose::STANDARD.decode(&encoded).expect("decode");
    assert_eq!(decoded.as_slice(), raw.as_bytes());
}

#[test]
fn token_key_extracts_file_stem() {
    assert_eq!(sandbox_token_key("/var/opt/sandbox/sb-123.token"), Some(text("sb-123")));
}

#[test]
fn token_key_extracts_stem_for_file_without_extension() {
    assert_eq!(sandbox_token_key("/var/opt/sandbox/sb-456"), Some(text("sb-456")));
}

#[test]
fn token_key_handles_k8s_atomic_mount_dotfile() {
    assert_eq!(sandbox_token_key("/var/opt/sandbox/..data"), Some(text(".")));
}

#[test]
fn token_key_returns_none_for_root_path() {
    assert_eq!(sandbox_token_key("/"), None);
}

#[test]
fn token_key_strips_only_final_extension() {
    assert_eq!(sandbox_token_key("foo.tar.gz"), Some(text("foo.tar")));
}

#[test]
fn manager_new_returns_empty_state() {
    let mgr = SandboxManager::new();
    assert!(mgr.list_sandbox_tokens().is_empty());
    assert!(mgr.get_sandbox_token(&text("any-id")).is_none());
}

#[test]
fn manager_lookups_before_run_are_safe() {
    let mgr = SandboxManager::new();
    let tokens = mgr.list_sandbox_tokens();
    let token = mgr.get_sandbox_token(&text("anything"));
    assert!(tokens.is_empty());
    assert!(token.is_none());
}

#[test]
fn manager_follows_files() {
    let mut mgr = SandboxManager::new();
    mgr.file_changed("/var/opt/sandbox/sb-1.token", text("hello"));
    mgr.file_changed("/", text("hello"));
    assert_eq!(mgr.get_sandbox_token(&text("sb-1")), Some(&text("aGVsbG8=")));
    assert_eq!(mgr.list_sandbox_tokens().len(), 1);
    mgr.file_changed("/var/opt/sandbox/sb-1.token", text(""));
    assert_eq!(mgr.get_sandbox_token(&text("sb-1")), Some(&text("")));
    mgr.file_removed("/var/opt/sandbox/sb-1.token");
    assert!(mgr.list_sandbox_tokens().is_empty());
}

#[test]
fn header_constants_have_expected_values() {
    assert_eq!(SANDBOX_TOKEN_HEADER, "x-agentio-sandbox-token");
    assert_eq!(SANDBOX_ID_HEADER, "x-agentio-sandbox-id");
    assert_eq!(SANDBOX_GENERATION_HEADER, "x-agentio-sandbox-generation");
    assert_eq!(SANDBOX_LABELS_HEADER, "x-agentio-sandbox-labels");
}

#[test]
fn unsupported_extension_retains_last_accepted_sandbox() {
    let mut store = SandboxStore::new();
    publish(&mut store, "sandbox", "original");
    let mut update = message("sandbox", Some("replacement"));
    update.extensions.push(SandboxExtension {
        type_url: text("type.googleapis.com/unknown.Policy"),
        sni: SniContent::Rules(vec![]),
    });
    assert!(store.update("sandbox", update).is_err());
    assert_eq!(
        store.get(&text("sandbox")).unwrap().workload_uid.as_deref(),
        Some("original")
    );
}

#[test]
fn sandboxes_are_grouped_by_workload_uid() {
    let mut store = SandboxStore::new();
    publish(&mut store, "sandbox-b", "workload-2");
    assert!(store.fetch_sandbox(&text("workload-uid")).is_none());
    publish(&mut store, "sandbox-a", "workload-uid");
    let sandbox = store.fetch_sandbox(&text("workload-uid")).unwrap();
    assert_eq!(sandbox.uid, "sandbox-a");
    assert_eq!(sandbox.workload_uid.as_deref(), Some("workload-uid"));
    assert_eq!(
        store.fetch_sandbox(&text("workload-2")).map(|sandbox| sandbox.uid.clone()).as_deref(),
        Some("sandbox-b")
    );
}

#[test]
fn multiple_sandboxes_use_the_first_discovered_binding() {
    let mut store = SandboxStore::new();
    publish(&mut store, "sandbox-a", "workload-uid");
    publish(&mut store, "sandbox-b", "workload-uid");
    // Ordinary updates preserve selection order and do not duplicate bindings.
    publish(&mut store, "sandbox-a", "workload-uid");
    assert_eq!(
        store.fetch_sandbox(&text("workload-uid")).map(|sandbox| sandbox.uid.clone()).as_deref(),
        Some("sandbox-a")
    );
    assert_eq!(uids(&store, "workload-uid"), &[text("sandbox-a"), text("sandbox-b")]);
    store.remove(&text("sandbox-a"));
    assert_eq!(
        store.fetch_sandbox(&text("workload-uid")).map(|sandbox| sandbox.uid.clone()).as_deref(),
        Some("sandbox-b")
    );
}

#[test]
fn invalid_update_preserves_previous_resource_and_binding() {
    let mut store = SandboxStore::new();
    publish(&mut store, "sandbox-a", "workload-uid");
    let previous = store.get(&text("sandbox-a")).unwrap().clone();
    let mut invalid = message("sandbox-a", Some("different-workload"));
    invalid.uid = text("sandbox-b");
    assert!(store.update("sandbox-a", invalid).is_err());
    let mut invalid = message("sandbox-a", Some(""));
    assert!(store.update("sandbox-a", invalid.clone()).is_err());
    invalid.uid = text("bad id");
    assert!(store.update("bad id", invalid).is_err());
    assert_eq!(*store.get(&text("sandbox-a")).unwrap(), previous);
    assert_eq!(
        store.fetch_sandbox(&text("workload-uid")).map(|sandbox| sandbox.uid.clone()).as_deref(),
        Some("sandbox-a")
    );
}

#[test]
fn workload_index_tracks_rebinding_unbinding_and_removal() {
    let mut store = SandboxStore::new();
    let first = "workload-1";
    let second = "workload-2";
    publish(&mut store, "sandbox-a", first);
    publish(&mut store, "sandbox-b", first);
    publish(&mut store, "sandbox-c", second);

    let original = store.get_by_workload(&text(first))[0].clone();
    publish(&mut store, "sandbox-a", second);
    assert_eq!(original.workload_uid.as_deref(), Some(first));
    let rebound = store.get_by_workload(&text(second))[1].clone();
    assert_eq!(rebound.uid, "sandbox-a");
    assert_eq!(rebound.workload_uid.as_deref(), Some(second));
    assert_eq!(uids(&store, first), &[text("sandbox-b")]);
    assert_eq!(uids(&store, second), &[text("sandbox-c"), text("sandbox-a")]);

    store.update("sandbox-c", message("sandbox-c", None)).unwrap();
    assert!(store.get(&text("sandbox-c")).is_some());
    assert_eq!(uids(&store, second), &[text("sandbox-a")]);

    store.remove(&text("sandbox-a"));
    store.remove(&text("sandbox-a"));
    assert!(store.get_by_workload(&text(second)).is_empty());
    assert_eq!(uids(&store, first), &[text("sandbox-b")]);
}

#[test]
fn updates_say_whether_anything_changed() {
    let mut store = SandboxStore::new();
    assert_eq!(store.update("a", message("a", Some("w"))), Ok(true));
    assert_eq!(store.update("a", message("a", Some("w"))), Ok(false));
    assert_eq!(store.update("a", message("a", Some("v"))), Ok(true));
    assert!(store.remove(&text("a")));
    assert!(!store.remove(&text("a")));
    assert_eq!(store.entries().len(), 0);
}

#[test]
fn validates_id_before_using_as_identity_or_header() {
    for invalid in ["", "*", "id\n", "id\r", "id with space", "沙盒", &"a".repeat(513)] {
        assert!(!validate_id(invalid));
    }
    assert!(validate_id("namespace--sandbox-123"));
    assert!(validate_id(&"a".repeat(512)));
}

#[test]
fn sandbox_errors_say_why() {
    let mut store = SandboxStore::new();
    assert_eq!(
        store.update("other", message("a", None)),
        Err(SandboxError::NameDiffers)
    );
    assert_eq!(store.update("*", message("*", None)), Err(SandboxError::InvalidUid));
    assert_eq!(
        store.update("a", message("a", Some(""))),
        Err(SandboxError::EmptyWorkloadUid)
    );

    let mut m = message("a", None);
    m.policy_refs = vec![(text("type.googleapis.com/other"), vec![text("p")])];
    assert_eq!(
        store.update("a", m),
        Err(SandboxError::UnsupportedReference(text("type.googleapis.com/other")))
    );

    let mut m = message("a", None);
    m.policy_refs = vec![(text(TRAFFIC_POLICY_TYPE), vec![text("p"), text("p")])];
    assert_eq!(store.update("a", m), Err(SandboxError::InvalidReference(text("p"))));

    let mut m = message("a", None);
    m.egress_routing = Some(vec![EgressPolicyMessage {
        namespaces: vec![],
        match_cidrs: vec![],
        match_ports: vec![],
        policy: 9,
        gateway: None,
    }]);
    assert_eq!(
        store.update("a", m),
        Err(SandboxError::Routing(EgressPolicyError::UnknownAction(9)))
    );

    let mut m = message("a", None);
    m.traffic_policy = Some(TrafficPolicyMessage {
        ingress: None,
        egress: Some(PolicyRuleMessage {
            rules: vec![RuleMessage { action: 0, matches: None }],
        }),
    });
    match store.update("a", m) {
        Err(SandboxError::TrafficPolicy(fault)) => {
            assert_eq!(fault.index, 0);
            assert_eq!(fault.error, RuleError::MissingMatch);
        }
        other => panic!("unexpected {other:?}"),
    }

    let mut m = message("a", None);
    m.extensions = vec![SandboxExtension { type_url: text("x"), sni: SniContent::Rules(vec![]) }];
    assert_eq!(store.update("a", m), Err(SandboxError::UnsupportedExtension(text("x"))));
}

#[test]
fn a_sandbox_built_by_hand_is_validated() {
    let sandbox = Sandbox {
        uid: text("a"),
        workload_uid: Some(text("w")),
        egress_routing: None,
        traffic_policy: Some(TrafficPolicy { ingress: None, egress: None }),
        traffic_policy_refs: vec![text("p"), text("q")],
        sni_policy: None,
    };
    assert_eq!(sandbox.validate(), Ok(()));
    let invalid = Sandbox { traffic_policy_refs: vec![text("p"), text("p")], ..sandbox.clone() };
    assert_eq!(invalid.validate(), Err(SandboxError::InvalidReference(text("p"))));
    let invalid = Sandbox { uid: text("*"), ..sandbox };
    assert_eq!(invalid.validate(), Err(SandboxError::InvalidUid));
}
