use ztunnel::firewall::detect::{
    choose_iptables_variant, detect_backend, probe_iptables, save_command, tries_nft, CommandOutput,
    FirewallBackend, FirewallBackendMode, IptablesVariant,
};
use ztunnel::firewall::metrics::{apply_labels, pod_labels};

fn variant(binary: &str, existing_rules: bool) -> IptablesVariant {
    IptablesVariant {
        binary: binary.to_string(),
        restore_binary: format!("{binary}-restore"),
        existing_rules,
    }
}

fn output(success: bool, stdout: &str) -> Option<CommandOutput> {
    Some(CommandOutput { success, stdout: stdout.to_string() })
}

#[test]
fn choose_iptables_prefers_legacy_with_existing_rules() {
    let selected = choose_iptables_variant(
        Some(variant("iptables-legacy", true)),
        Some(variant("iptables-nft", false)),
        Some(variant("iptables", false)),
    )
    .unwrap();

    assert_eq!(selected.binary, "iptables-legacy");
}

#[test]
fn choose_iptables_prefers_nft_when_legacy_has_no_existing_rules() {
    let selected = choose_iptables_variant(
        Some(variant("iptables-legacy", false)),
        Some(variant("iptables-nft", false)),
        Some(variant("iptables", false)),
    )
    .unwrap();

    assert_eq!(selected.binary, "iptables-nft");
}

#[test]
fn choose_iptables_falls_back_to_plain_then_legacy() {
    let selected = choose_iptables_variant(
        Some(variant("iptables-legacy", false)),
        None,
        Some(variant("iptables", false)),
    )
    .unwrap();
    assert_eq!(selected.binary, "iptables");

    let selected =
        choose_iptables_variant(Some(variant("iptables-legacy", false)), None, None).unwrap();
    assert_eq!(selected.binary, "iptables-legacy");
}

#[test]
fn detect_backend_kind_returns_error_when_no_binaries() {
    let result = detect_backend(FirewallBackendMode::Auto, false, None, false);
    assert_eq!(
        result,
        Err("no usable firewall backend: neither iptables nor nft found with kernel support"
            .to_string())
    );
}

#[test]
fn detect_backend_prefers_nft_unless_rules_exist() {
    let iptables = FirewallBackend::Iptables {
        iptables_bin: "iptables".to_string(),
        restore_bin: "iptables-restore".to_string(),
    };
    let auto = FirewallBackendMode::Auto;
    assert_eq!(
        detect_backend(auto, true, Some(variant("iptables", false)), true),
        Ok(FirewallBackend::Nftables)
    );
    assert_eq!(
        detect_backend(auto, true, Some(variant("iptables", true)), true),
        Ok(iptables.clone())
    );
    assert_eq!(
        detect_backend(auto, false, Some(variant("iptables", true)), true),
        Ok(FirewallBackend::Nftables)
    );
    assert_eq!(
        detect_backend(FirewallBackendMode::Iptables, false, Some(variant("iptables", false)), true),
        Ok(iptables)
    );
    assert!(detect_backend(FirewallBackendMode::Iptables, false, None, true).is_err());
}

#[test]
fn a_variant_counts_where_both_commands_succeed() {
    for (listing, existing) in [
        ("", false),
        ("*filter\n:INPUT ACCEPT [0:0]\n", false),
        ("*filter\n:ISTIO_FW_FILTER_IN - [0:0]", false),
        ("*filter\n:INPUT ACCEPT [0:0]\nCOMMIT", true),
        ("*filter\n:INPUT ACCEPT [0:0]\nCOMMIT\n", true),
        ("\n\n\n", true),
    ] {
        let found = probe_iptables("iptables-nft", &output(true, listing), &output(true, ""));
        assert_eq!(found, Some(variant("iptables-nft", existing)));
    }
    assert_eq!(probe_iptables("iptables", &output(true, ""), &output(false, "")), None);
    assert_eq!(probe_iptables("iptables", &output(false, ""), &output(true, "")), None);
    assert_eq!(probe_iptables("iptables", &None, &output(true, "")), None);
    assert_eq!(save_command("iptables-legacy"), "iptables-legacy-save");
}

#[test]
fn labels_of_what_is_counted() {
    assert_eq!(apply_labels(true).result, "success");
    assert_eq!(apply_labels(false).result, "error");
    let (enrolled, pending, init_failed) = pod_labels();
    assert_eq!(enrolled.state, "enrolled");
    assert_eq!(pending.state, "pending");
    assert_eq!(init_failed.state, "init_failed");
}

#[test]
fn nft_is_tried_only_where_it_counts() {
    assert!(tries_nft(FirewallBackendMode::Auto));
    assert!(!tries_nft(FirewallBackendMode::Iptables));
    for usable in [false, true] {
        assert_eq!(
            detect_backend(FirewallBackendMode::Iptables, true, None, usable),
            Err("no usable firewall backend: neither iptables nor nft found with kernel support"
                .to_string())
        );
    }
}
