use ztunnel::extensions::sni::{
    SniAction, SniPolicyError, SniRule, SniRuleMessage, SniTrafficPolicy, SNI_POLICY_TYPE_URL,
};
use ztunnel::sandbox::discovery::{
    Sandbox, SandboxError, SandboxExtension, SandboxMessage, SniContent,
};

const PASSTHROUGH: i32 = 2;
const TLS_TERMINATION: i32 = 1;
const DENY: i32 = 3;

fn rule(pattern: &str, action: SniAction) -> SniRule {
    SniRule { sni: vec![pattern.to_string()], action }
}

fn extension(pattern: &str, action: i32) -> SandboxExtension {
    SandboxExtension {
        type_url: SNI_POLICY_TYPE_URL.to_string(),
        sni: SniContent::Rules(vec![SniRuleMessage {
            sni: Some(vec![pattern.to_string()]),
            action,
        }]),
    }
}

fn sandbox(extensions: Vec<SandboxExtension>) -> SandboxMessage {
    SandboxMessage {
        uid: "sandbox-a".to_string(),
        attester: None,
        policy_refs: vec![],
        egress_routing: None,
        traffic_policy: None,
        extensions,
    }
}

#[test]
fn first_match_normalization_and_fallback() {
    let policy = SniTrafficPolicy {
        rules: vec![
            rule("skip.example.com", SniAction::Passthrough),
            rule("*.Example.COM.", SniAction::TlsTermination),
            rule("*", SniAction::Deny),
        ],
    };
    policy.validate().unwrap();
    for (name, action) in [
        ("SKIP.EXAMPLE.COM.", SniAction::Passthrough),
        ("www.example.com", SniAction::TlsTermination),
        ("a.b.example.com", SniAction::TlsTermination),
        ("example.com", SniAction::Deny),
        ("badexample.com", SniAction::Deny),
        ("example.com.evil", SniAction::Deny),
    ] {
        assert_eq!(policy.evaluate(name), Some(action), "{name}");
    }
    assert_eq!(policy.evaluate(""), None);
    assert_eq!(
        SniTrafficPolicy::default().evaluate("example.com"),
        Some(SniAction::Passthrough)
    );
}

#[test]
fn xds_extensions_preserve_order_and_reject_invalid_rules() {
    let extensions =
        vec![extension("skip.example.com", PASSTHROUGH), extension("*", TLS_TERMINATION)];
    let policy = Sandbox::try_from(sandbox(extensions)).unwrap().sni_policy.unwrap();
    assert_eq!(policy.rules.len(), 2);
    assert_eq!(policy.evaluate("skip.example.com"), Some(SniAction::Passthrough));
    assert_eq!(policy.evaluate("another.example"), Some(SniAction::TlsTermination));

    let unknown = SandboxExtension {
        type_url: "type.googleapis.com/kruise.networking.extensions.v1.Future".to_string(),
        sni: SniContent::Unreadable("invalid".to_string()),
    };
    assert!(Sandbox::try_from(sandbox(vec![unknown.clone(), extension("*", DENY)])).is_err());
    assert!(Sandbox::try_from(sandbox(vec![unknown])).is_err());

    for invalid in [
        extension("*", 0),
        extension("*", 123),
        extension("bad*pattern.com", PASSTHROUGH),
        SandboxExtension {
            type_url: SNI_POLICY_TYPE_URL.to_string(),
            sni: SniContent::Unreadable("invalid".to_string()),
        },
    ] {
        assert!(Sandbox::try_from(sandbox(vec![invalid])).is_err());
    }
}

#[test]
fn sni_errors_say_why() {
    assert_eq!(
        Sandbox::try_from(sandbox(vec![extension("*", 123)])),
        Err(SandboxError::Sni(SniPolicyError::InvalidAction(123)))
    );
    assert_eq!(
        Sandbox::try_from(sandbox(vec![extension("bad*pattern.com", PASSTHROUGH)])),
        Err(SandboxError::Sni(SniPolicyError::InvalidPattern("bad*pattern.com".to_string())))
    );
    let unreadable = SandboxExtension {
        type_url: SNI_POLICY_TYPE_URL.to_string(),
        sni: SniContent::Unreadable("short".to_string()),
    };
    assert_eq!(
        Sandbox::try_from(sandbox(vec![unreadable])),
        Err(SandboxError::Sni(SniPolicyError::Decode("short".to_string())))
    );
    assert!(SniPolicyError::InvalidAction(123).message().contains("123"));
    assert!(SniPolicyError::InvalidPattern("a*b".to_string()).message().contains("a*b"));
}

#[test]
fn actions_by_number_and_header() {
    assert_eq!(SniAction::from_number(TLS_TERMINATION), Some(SniAction::TlsTermination));
    assert_eq!(SniAction::from_number(PASSTHROUGH), Some(SniAction::Passthrough));
    assert_eq!(SniAction::from_number(DENY), Some(SniAction::Deny));
    assert_eq!(SniAction::from_number(0), None);
    assert_eq!(SniAction::Deny.header_value(), None);
    assert!(SniAction::Passthrough.header_value().is_some());
    assert!(SniAction::TlsTermination.header_value().is_some());
}
