use ztunnel::firewall::backend::nft::{escape_comment, NftBackend, NAMED_SET_THRESHOLD};
use ztunnel::firewall::types::{
    Direction, FirewallMatch, FirewallProtocol, FirewallRule, PortGroup, PortRange, RuleAction,
    RuleSet,
};
use ztunnel::net::IpNet;

fn net(text: &str) -> IpNet {
    IpNet::parse(text).unwrap()
}

fn ports(start: u16, end: u16) -> PortRange {
    PortRange { start, end }
}

const DEDICATED: &[&str] = &["    meta skuid 1337 return", "    meta skgid 1337 return"];

const INPOD: &[&str] = &["    meta mark 1337 return"];

fn v6_text(i: u32) -> String {
    net(&format!("2001:db8:{i:x}::/48")).text()
}

fn set_text(name: &str, v4: bool, elements: Vec<String>) -> String {
    let family = if v4 { "ipv4_addr" } else { "ipv6_addr" };
    let elements = elements.join(", ");
    format!(
        "  set {name} {{\n    type {family}\n    flags interval\n    elements = {{ {elements} }}\n  }}\n"
    )
}

fn assert_golden(
    actual: &str,
    bypass: &[&str],
    sets: &[String],
    input: &[&str],
    output: &[&str],
    deny: bool,
) {
    let mut expected =
        "add table inet ztunnel\ndelete table inet ztunnel\ntable inet ztunnel {\n".to_string();
    for set in sets {
        expected.push_str(set);
    }
    expected.push_str("  chain zt_policy_input {\n");
    expected.push_str("    type filter hook input priority -150; policy accept;\n");
    expected.push_str("    ct state established,related accept\n    iif lo accept\n");
    for line in input {
        expected.push_str(&format!("    {line}\n"));
    }
    if deny {
        expected.push_str("    meta l4proto != tcp reject\n");
    }
    expected.push_str("  }\n  chain zt_policy_output {\n");
    expected.push_str("    type filter hook output priority -150; policy accept;\n");
    expected.push_str("    ct state established,related accept\n    oif lo accept\n");
    for line in bypass {
        expected.push_str(&format!("{line}\n"));
    }
    for line in output {
        expected.push_str(&format!("    {line}\n"));
    }
    if deny {
        expected.push_str("    meta l4proto != tcp reject\n");
    }
    expected.push_str("  }\n}\n");
    assert_eq!(actual, expected);
}

fn make_rule(
    name: &str,
    direction: Direction,
    match_source: Vec<&str>,
    match_dest: Vec<&str>,
    protocol: FirewallProtocol,
    match_dports: Vec<PortRange>,
    action: RuleAction,
) -> FirewallRule {
    FirewallRule {
        name: name.into(),
        action,
        direction,
        priority: 0,
        clauses: vec![vec![FirewallMatch {
            source_ips: match_source
                .iter()
                .map(|s| net(s))
                .collect(),
            dest_ips: match_dest
                .iter()
                .map(|s| net(s))
                .collect(),
            port_groups: vec![PortGroup {
                protocol,
                ports: match_dports,
            }],
        }]],
    }
}

#[test]
fn test_render_single_rule() {
    // Use UDP protocol (TCP rules are skipped)
    let rule = make_rule(
        "test-rule",
        Direction::Inbound,
        vec!["10.0.0.0/8"],
        vec![],
        FirewallProtocol::Udp,
        vec![ports(80, 80)],
        RuleAction::Deny,
    );

    let ruleset = RuleSet {
        rules: vec![rule],
        ..Default::default()
    };

    let script = NftBackend::new().render_ruleset(&ruleset);

    assert!(script.contains("table inet ztunnel"));
    assert!(script.contains("chain zt_policy_input"));
    assert!(script.contains("type filter hook input priority -150"));
    assert!(script.contains("ct state established,related accept"));
    assert!(script.contains("iif lo accept"));
    assert!(script.contains("ip saddr 10.0.0.0/8 udp dport 80 reject"));
    assert!(script.contains("comment \"test-rule\""));
}

#[test]
fn test_render_multi_cidr() {
    // Use UDP protocol (TCP rules are skipped)
    let rule = make_rule(
        "multi-cidr",
        Direction::Inbound,
        vec!["10.0.0.0/8", "172.16.0.0/12"],
        vec!["192.168.1.0/24"],
        FirewallProtocol::Udp,
        vec![ports(443, 443)],
        RuleAction::Deny,
    );

    let ruleset = RuleSet {
        rules: vec![rule],
        ..Default::default()
    };

    let script = NftBackend::new().render_ruleset(&ruleset);

    // nftables uses sets for multi-CIDR
    assert!(script.contains("ip saddr { 10.0.0.0/8, 172.16.0.0/12 }"));
    assert!(script.contains("ip daddr 192.168.1.0/24"));
    assert!(script.contains("udp dport 443 reject"));
}

#[test]
fn nft_test_render_port_range() {
    // Use UDP protocol (TCP rules are skipped)
    let rule = make_rule(
        "port-range",
        Direction::Outbound,
        vec![],
        vec![],
        FirewallProtocol::Udp,
        vec![ports(8000, 9000)],
        RuleAction::Allow,
    );

    let ruleset = RuleSet {
        rules: vec![rule],
        ..Default::default()
    };

    let script = NftBackend::new().render_ruleset(&ruleset);

    assert!(script.contains("chain zt_policy_output"));
    assert!(script.contains("type filter hook output priority -150"));
    assert!(script.contains("ct state established,related accept"));
    assert!(script.contains("oif lo accept"));
    assert!(script.contains("udp dport 8000-9000 accept"));
}

#[test]
fn test_render_multi_port_non_tcp() {
    // NonTcp with multiple ports uses `meta l4proto { udp, sctp }` + `th dport`
    let rule = make_rule(
        "multi-port",
        Direction::Inbound,
        vec![],
        vec![],
        FirewallProtocol::NonTcp,
        vec![ports(80, 80), ports(443, 443), ports(8080, 8080)],
        RuleAction::Deny,
    );

    let lines = NftBackend::render_rule(&rule, &mut vec![]);
    assert_eq!(lines.len(), 1);
    assert!(lines[0].contains("meta l4proto { udp, sctp }"));
    assert!(lines[0].contains("th dport { 80, 443, 8080 }"));
}

#[test]
fn test_render_multi_port_udp() {
    // UDP multi-port should still render
    let rule = make_rule(
        "multi-port-udp",
        Direction::Inbound,
        vec![],
        vec![],
        FirewallProtocol::Udp,
        vec![ports(80, 80), ports(443, 443), ports(8080, 8080)],
        RuleAction::Deny,
    );

    let ruleset = RuleSet {
        rules: vec![rule],
        ..Default::default()
    };

    let script = NftBackend::new().render_ruleset(&ruleset);

    assert!(script.contains("udp dport { 80, 443, 8080 } reject"));
}

// Golden file tests
#[test]
fn nft_test_golden_empty_ruleset() {
    let ruleset = RuleSet {
        rules: vec![],
        ..Default::default()
    };
    let script = NftBackend::new().render_ruleset(&ruleset);
    assert_golden(
        &script,
        DEDICATED,
        &[],
        &[],
        &[],
        false,
    );
}

#[test]
fn nft_test_golden_single_inbound_deny() {
    let rule = make_rule(
        "deny-inbound",
        Direction::Inbound,
        vec!["10.0.0.0/8"],
        vec![],
        FirewallProtocol::NonTcp,
        vec![ports(80, 80)],
        RuleAction::Deny,
    );

    let ruleset = RuleSet {
        rules: vec![rule],
        ..Default::default()
    };

    let script = NftBackend::new().render_ruleset(&ruleset);
    assert_golden(
        &script,
        DEDICATED,
        &[],
        &[
            "ip saddr 10.0.0.0/8 meta l4proto { udp, sctp } th dport 80 reject comment \"deny-inbound\"",
        ],
        &[],
        false,
    );
}

#[test]
fn nft_test_golden_multi_cidr_cartesian() {
    let rule = make_rule(
        "multi-cidr-test",
        Direction::Inbound,
        vec!["10.0.0.0/8", "172.16.0.0/12"],
        vec!["192.168.1.0/24", "192.168.2.0/24"],
        FirewallProtocol::NonTcp,
        vec![ports(443, 443)],
        RuleAction::Deny,
    );

    let ruleset = RuleSet {
        rules: vec![rule],
        ..Default::default()
    };

    let script = NftBackend::new().render_ruleset(&ruleset);
    assert_golden(
        &script,
        DEDICATED,
        &[],
        &[
            "ip saddr { 10.0.0.0/8, 172.16.0.0/12 } ip daddr { 192.168.1.0/24, 192.168.2.0/24 } meta l4proto { udp, sctp } th dport 443 reject comment \"multi-cidr-test\"",
        ],
        &[],
        false,
    );
}

#[test]
fn nft_test_golden_priority_ordering() {
    let mut rule1 = make_rule(
        "low-priority",
        Direction::Inbound,
        vec!["10.0.0.0/8"],
        vec![],
        FirewallProtocol::NonTcp,
        vec![ports(80, 80)],
        RuleAction::Deny,
    );
    rule1.priority = 10;

    let mut rule2 = make_rule(
        "high-priority",
        Direction::Inbound,
        vec!["192.168.0.0/16"],
        vec![],
        FirewallProtocol::NonTcp,
        vec![ports(443, 443)],
        RuleAction::Deny,
    );
    rule2.priority = 5;

    let mut rule3 = make_rule(
        "outbound-allow",
        Direction::Outbound,
        vec![],
        vec!["172.16.0.0/12"],
        FirewallProtocol::NonTcp,
        vec![ports(8080, 8080)],
        RuleAction::Allow,
    );
    rule3.priority = 20;

    let ruleset = RuleSet {
        rules: vec![rule1, rule2, rule3],
        ..Default::default()
    };

    let script = NftBackend::new().render_ruleset(&ruleset);
    assert_golden(
        &script,
        DEDICATED,
        &[],
        &[
            "ip saddr 192.168.0.0/16 meta l4proto { udp, sctp } th dport 443 reject comment \"high-priority\"",
            "ip saddr 10.0.0.0/8 meta l4proto { udp, sctp } th dport 80 reject comment \"low-priority\"",
        ],
        &[
            "ip daddr 172.16.0.0/12 meta l4proto { udp, sctp } th dport 8080 accept comment \"outbound-allow\"",
        ],
        false,
    );
}

#[test]
fn nft_test_golden_port_range_and_multiport() {
    let rule1 = make_rule(
        "port-range-rule",
        Direction::Inbound,
        vec![],
        vec![],
        FirewallProtocol::NonTcp,
        vec![ports(8000, 8080)],
        RuleAction::Deny,
    );

    let rule2 = make_rule(
        "multi-port-rule",
        Direction::Outbound,
        vec![],
        vec![],
        FirewallProtocol::NonTcp,
        vec![ports(80, 80), ports(443, 443), ports(9000, 9100)],
        RuleAction::Allow,
    );

    let ruleset = RuleSet {
        rules: vec![rule1, rule2],
        ..Default::default()
    };

    let script = NftBackend::new().render_ruleset(&ruleset);
    assert_golden(
        &script,
        DEDICATED,
        &[],
        &[
            "meta l4proto { udp, sctp } th dport 8000-8080 reject comment \"port-range-rule\"",
        ],
        &[
            "meta l4proto { udp, sctp } th dport { 80, 443, 9000-9100 } accept comment \"multi-port-rule\"",
        ],
        false,
    );
}

#[test]
fn nft_test_golden_multi_clause_cartesian() {
    let rule = FirewallRule {
        name: "multi-clause".into(),
        action: RuleAction::Deny,
        direction: Direction::Inbound,
        priority: 0,
        clauses: vec![
            vec![
                FirewallMatch {
                    source_ips: vec![net("10.0.0.0/8")],
                    dest_ips: vec![],
                    port_groups: vec![PortGroup {
                        protocol: FirewallProtocol::NonTcp,
                        ports: vec![],
                    }],
                },
                FirewallMatch {
                    source_ips: vec![net("172.16.0.0/12")],
                    dest_ips: vec![],
                    port_groups: vec![PortGroup {
                        protocol: FirewallProtocol::NonTcp,
                        ports: vec![],
                    }],
                },
            ],
            vec![
                FirewallMatch {
                    source_ips: vec![],
                    dest_ips: vec![],
                    port_groups: vec![PortGroup {
                        protocol: FirewallProtocol::NonTcp,
                        ports: vec![ports(53, 53)],
                    }],
                },
                FirewallMatch {
                    source_ips: vec![],
                    dest_ips: vec![],
                    port_groups: vec![PortGroup {
                        protocol: FirewallProtocol::NonTcp,
                        ports: vec![ports(80, 80)],
                    }],
                },
            ],
        ],
    };
    let script = NftBackend::new().render_ruleset(&RuleSet {
        rules: vec![rule],
        ..Default::default()
    });
    assert_golden(
        &script,
        DEDICATED,
        &[],
        &[
            "ip saddr 10.0.0.0/8 meta l4proto { udp, sctp } th dport 53 reject comment \"multi-clause\"",
            "ip saddr 10.0.0.0/8 meta l4proto { udp, sctp } th dport 80 reject comment \"multi-clause\"",
            "ip saddr 172.16.0.0/12 meta l4proto { udp, sctp } th dport 53 reject comment \"multi-clause\"",
            "ip saddr 172.16.0.0/12 meta l4proto { udp, sctp } th dport 80 reject comment \"multi-clause\"",
        ],
        &[],
        false,
    );
}

#[test]
fn nft_test_golden_multi_clause_source_and_port() {
    let rule = FirewallRule {
        name: "src-and-port".into(),
        action: RuleAction::Allow,
        direction: Direction::Inbound,
        priority: 0,
        clauses: vec![
            vec![FirewallMatch {
                source_ips: vec![],
                dest_ips: vec![],
                port_groups: vec![PortGroup {
                    protocol: FirewallProtocol::NonTcp,
                    ports: vec![ports(53, 53)],
                }],
            }],
            vec![
                FirewallMatch {
                    source_ips: vec![net("10.0.0.0/8")],
                    dest_ips: vec![],
                    port_groups: vec![PortGroup {
                        protocol: FirewallProtocol::NonTcp,
                        ports: vec![],
                    }],
                },
                FirewallMatch {
                    source_ips: vec![net("172.16.0.0/12")],
                    dest_ips: vec![],
                    port_groups: vec![PortGroup {
                        protocol: FirewallProtocol::NonTcp,
                        ports: vec![],
                    }],
                },
            ],
        ],
    };
    let script = NftBackend::new().render_ruleset(&RuleSet {
        rules: vec![rule],
        ..Default::default()
    });
    assert_golden(
        &script,
        DEDICATED,
        &[],
        &[
            "ip saddr 10.0.0.0/8 meta l4proto { udp, sctp } th dport 53 accept comment \"src-and-port\"",
            "ip saddr 172.16.0.0/12 meta l4proto { udp, sctp } th dport 53 accept comment \"src-and-port\"",
        ],
        &[],
        false,
    );
}

#[test]
fn nft_test_golden_dedicated_default_deny() {
    let rule = make_rule(
        "allow-dns-out",
        Direction::Outbound,
        vec![],
        vec!["8.8.8.0/24"],
        FirewallProtocol::NonTcp,
        vec![ports(53, 53)],
        RuleAction::Allow,
    );
    let script = NftBackend::new().render_ruleset(&RuleSet {
        rules: vec![rule],
        policy_attached: true,
        ..Default::default()
    });
    assert_golden(
        &script,
        DEDICATED,
        &[],
        &[],
        &[
            "ip daddr 8.8.8.0/24 meta l4proto { udp, sctp } th dport 53 accept comment \"allow-dns-out\"",
        ],
        true,
    );
}

#[test]
fn nft_test_golden_icmp() {
    let rule = make_rule(
        "icmp-in",
        Direction::Inbound,
        vec!["10.0.0.0/8"],
        vec![],
        FirewallProtocol::Icmp,
        vec![],
        RuleAction::Deny,
    );
    let script = NftBackend::new().render_ruleset(&RuleSet {
        rules: vec![rule],
        ..Default::default()
    });
    assert_golden(
        &script,
        DEDICATED,
        &[],
        &[
            "ip saddr 10.0.0.0/8 ip protocol icmp reject comment \"icmp-in\"",
        ],
        &[],
        false,
    );
}

#[test]
fn test_golden_mixed_ipv4_ipv6() {
    let rule = make_rule(
        "mixed-family",
        Direction::Inbound,
        vec!["10.0.0.0/8", "fd00::/8"],
        vec!["192.168.1.0/24", "2001:db8::/32"],
        FirewallProtocol::NonTcp,
        vec![ports(443, 443)],
        RuleAction::Deny,
    );
    let script = NftBackend::new().render_ruleset(&RuleSet {
        rules: vec![rule],
        ..Default::default()
    });
    assert_golden(
        &script,
        DEDICATED,
        &[],
        &[
            "ip saddr 10.0.0.0/8 ip daddr 192.168.1.0/24 meta l4proto { udp, sctp } th dport 443 reject comment \"mixed-family\"",
            "ip6 saddr fd00::/8 ip6 daddr 2001:db8::/32 meta l4proto { udp, sctp } th dport 443 reject comment \"mixed-family\"",
        ],
        &[],
        false,
    );
}

fn inpod_backend() -> NftBackend {
    NftBackend::new().skip_mark(1337)
}

#[test]
fn nft_test_golden_inpod_empty_ruleset() {
    let ruleset = RuleSet::default();
    let script = inpod_backend().render_ruleset(&ruleset);
    assert_golden(
        &script,
        INPOD,
        &[],
        &[],
        &[],
        false,
    );
}

#[test]
fn nft_test_golden_inpod_single_inbound_deny() {
    let rule = make_rule(
        "test",
        Direction::Inbound,
        vec!["10.0.0.0/8"],
        vec![],
        FirewallProtocol::NonTcp,
        vec![ports(80, 80)],
        RuleAction::Deny,
    );
    let ruleset = RuleSet {
        rules: vec![rule],
        policy_attached: true,
        ..Default::default()
    };
    let script = inpod_backend().render_ruleset(&ruleset);
    assert_golden(
        &script,
        INPOD,
        &[],
        &[
            "ip saddr 10.0.0.0/8 meta l4proto { udp, sctp } th dport 80 reject comment \"test\"",
        ],
        &[],
        true,
    );
}

#[test]
fn nft_test_golden_inpod_mixed_rules() {
    let ruleset = RuleSet {
        rules: vec![
            make_rule(
                "deny-dns-in",
                Direction::Inbound,
                vec!["10.0.0.0/8"],
                vec![],
                FirewallProtocol::NonTcp,
                vec![ports(53, 53)],
                RuleAction::Deny,
            ),
            make_rule(
                "allow-dns-out",
                Direction::Outbound,
                vec![],
                vec!["8.8.8.0/24"],
                FirewallProtocol::NonTcp,
                vec![ports(53, 53)],
                RuleAction::Allow,
            ),
        ],
        policy_attached: true,
        ..Default::default()
    };
    let script = inpod_backend().render_ruleset(&ruleset);
    assert_golden(
        &script,
        INPOD,
        &[],
        &[
            "ip saddr 10.0.0.0/8 meta l4proto { udp, sctp } th dport 53 reject comment \"deny-dns-in\"",
        ],
        &[
            "ip daddr 8.8.8.0/24 meta l4proto { udp, sctp } th dport 53 accept comment \"allow-dns-out\"",
        ],
        true,
    );
}

#[test]
fn test_render_ipv6_source() {
    // Use UDP (TCP rules are skipped)
    let rule = make_rule(
        "ipv6-rule",
        Direction::Inbound,
        vec!["fd00::/8"],
        vec![],
        FirewallProtocol::Udp,
        vec![ports(80, 80)],
        RuleAction::Deny,
    );

    let lines = NftBackend::render_rule(&rule, &mut vec![]);
    assert_eq!(lines.len(), 1);
    assert!(lines[0].contains("ip6 saddr fd00::/8"));
    assert!(lines[0].contains("udp dport 80 reject"));
}

#[test]
fn test_render_ipv6_multi_cidr() {
    // Use protocol=None to test meta l4proto filter
    let rule = make_rule(
        "ipv6-multi",
        Direction::Inbound,
        vec!["fd00::/8", "2001:db8::/32"],
        vec!["2001:db8:1::/48"],
        FirewallProtocol::NonTcp,
        vec![ports(443, 443)],
        RuleAction::Deny,
    );

    let lines = NftBackend::render_rule(&rule, &mut vec![]);
    assert_eq!(lines.len(), 1);
    assert!(lines[0].contains("ip6 saddr { fd00::/8, 2001:db8::/32 }"));
    assert!(lines[0].contains("ip6 daddr 2001:db8:1::/48"));
    assert!(lines[0].contains("meta l4proto { udp, sctp }"));
}

#[test]
fn test_render_mixed_v4_v6_source() {
    // Mixed v4+v6 sources, no dest: should emit 2 rules (one per family)
    // Use protocol=None to test meta l4proto filter
    let rule = make_rule(
        "mixed-src",
        Direction::Inbound,
        vec!["10.0.0.0/8", "fd00::/8"],
        vec![],
        FirewallProtocol::NonTcp,
        vec![ports(80, 80)],
        RuleAction::Deny,
    );

    let lines = NftBackend::render_rule(&rule, &mut vec![]);
    assert_eq!(lines.len(), 2);
    assert!(lines[0].contains("ip saddr 10.0.0.0/8"));
    assert!(lines[1].contains("ip6 saddr fd00::/8"));
    // Both should have meta l4proto { udp, sctp } (ports present)
    assert!(lines[0].contains("meta l4proto { udp, sctp }"));
    assert!(lines[1].contains("meta l4proto { udp, sctp }"));
}

#[test]
fn test_render_mixed_v4_v6_cartesian() {
    // Mixed v4+v6 in both source and dest: cross-family pairs skipped.
    // Valid pairs: (v4,v4), (v6,v6) -> 2 rules
    // Use protocol=None to test meta l4proto filter
    let rule = make_rule(
        "mixed-cartesian",
        Direction::Inbound,
        vec!["10.0.0.0/8", "fd00::/8"],
        vec!["192.168.1.0/24", "2001:db8::/32"],
        FirewallProtocol::NonTcp,
        vec![ports(443, 443)],
        RuleAction::Deny,
    );

    let lines = NftBackend::render_rule(&rule, &mut vec![]);
    assert_eq!(lines.len(), 2);
    assert!(lines[0].contains("ip saddr 10.0.0.0/8"));
    assert!(lines[0].contains("ip daddr 192.168.1.0/24"));
    assert!(lines[1].contains("ip6 saddr fd00::/8"));
    assert!(lines[1].contains("ip6 daddr 2001:db8::/32"));
}

#[test]
fn test_render_mixed_v4_source_v6_dest_dropped() {
    // v4-only source + v6-only dest: cross-family pair is skipped, 0 rules
    let rule = make_rule(
        "cross-family-empty",
        Direction::Inbound,
        vec!["10.0.0.0/8"],
        vec!["fd00::/8"],
        FirewallProtocol::Udp,
        vec![ports(80, 80)],
        RuleAction::Deny,
    );

    let lines = NftBackend::render_rule(&rule, &mut vec![]);
    assert!(
        lines.is_empty(),
        "cross-family pairs should produce no rules"
    );
}

#[test]
fn nft_test_render_sctp_with_ports() {
    let rule = make_rule(
        "sctp-rule",
        Direction::Inbound,
        vec!["10.0.0.0/8"],
        vec![],
        FirewallProtocol::Sctp,
        vec![ports(36412, 36412)],
        RuleAction::Deny,
    );

    let lines = NftBackend::render_rule(&rule, &mut vec![]);
    assert_eq!(lines.len(), 1);
    assert!(lines[0].contains("ip saddr 10.0.0.0/8"));
    assert!(lines[0].contains("sctp dport 36412"));
    assert!(lines[0].contains("reject"));
}

#[test]
fn nft_test_render_icmp_no_ports() {
    let rule = make_rule(
        "icmp-rule",
        Direction::Inbound,
        vec!["10.0.0.0/8"],
        vec![],
        FirewallProtocol::Icmp,
        vec![],
        RuleAction::Deny,
    );

    let lines = NftBackend::render_rule(&rule, &mut vec![]);
    assert_eq!(lines.len(), 1);
    assert!(lines[0].contains("ip saddr 10.0.0.0/8"));
    assert!(lines[0].contains("ip protocol icmp"));
    assert!(lines[0].contains("reject"));
}

#[test]
fn test_render_icmp_with_ports_ignored() {
    // ICMP doesn't have ports, so ports should be ignored with a warning
    let rule = make_rule(
        "icmp-with-ports",
        Direction::Inbound,
        vec!["10.0.0.0/8"],
        vec![],
        FirewallProtocol::Icmp,
        vec![ports(80, 80)],
        RuleAction::Deny,
    );

    let lines = NftBackend::render_rule(&rule, &mut vec![]);
    // Should still generate 1 rule, but without port matching
    assert_eq!(lines.len(), 1);
    assert!(lines[0].contains("ip saddr 10.0.0.0/8"));
    assert!(lines[0].contains("ip protocol icmp"));
    // Should NOT contain port matching
    assert!(!lines[0].contains("dport"));
    assert!(lines[0].contains("reject"));
}

#[test]
fn test_render_icmpv6_with_ipv6_source() {
    let rule = make_rule(
        "icmpv6-rule",
        Direction::Inbound,
        vec!["fd00::/8"],
        vec![],
        FirewallProtocol::Icmp,
        vec![],
        RuleAction::Deny,
    );

    let lines = NftBackend::render_rule(&rule, &mut vec![]);
    assert_eq!(lines.len(), 1);
    assert!(lines[0].contains("ip6 saddr fd00::/8"));
    assert!(lines[0].contains("meta l4proto ipv6-icmp"));
    assert!(!lines[0].contains("ip protocol icmp"));
    assert!(lines[0].contains("reject"));
}

#[test]
fn test_render_icmp_no_cidrs_matches_both_families() {
    let rule = make_rule(
        "icmp-both",
        Direction::Inbound,
        vec![],
        vec![],
        FirewallProtocol::Icmp,
        vec![],
        RuleAction::Deny,
    );

    let lines = NftBackend::render_rule(&rule, &mut vec![]);
    assert_eq!(lines.len(), 1);
    assert!(lines[0].contains("meta l4proto { icmp, ipv6-icmp }"));
    assert!(lines[0].contains("reject"));
}

#[test]
fn test_render_icmp_mixed_cidrs_per_family() {
    let rule = make_rule(
        "icmp-mixed",
        Direction::Inbound,
        vec!["10.0.0.0/8", "fd00::/8"],
        vec![],
        FirewallProtocol::Icmp,
        vec![],
        RuleAction::Deny,
    );

    let lines = NftBackend::render_rule(&rule, &mut vec![]);
    assert_eq!(lines.len(), 2);
    assert!(lines[0].contains("ip saddr 10.0.0.0/8"));
    assert!(lines[0].contains("ip protocol icmp"));
    assert!(lines[1].contains("ip6 saddr fd00::/8"));
    assert!(lines[1].contains("meta l4proto ipv6-icmp"));
}

#[test]
fn test_comment_escapes_quotes_and_backslash() {
    // Use UDP (TCP rules are skipped)
    let rule = make_rule(
        r#"rule "with" \quotes"#,
        Direction::Inbound,
        vec![],
        vec![],
        FirewallProtocol::Udp,
        vec![ports(80, 80)],
        RuleAction::Deny,
    );

    let lines = NftBackend::render_rule(&rule, &mut vec![]);
    assert_eq!(lines.len(), 1);
    assert!(
        lines[0].contains(r#"comment "rule \"with\" \\quotes""#),
        "actual: {}",
        lines[0]
    );
}

#[test]
fn test_escape_comment_helper() {
    assert_eq!(escape_comment("plain"), "plain");
    assert_eq!(escape_comment(r#"has "quote""#), r#"has \"quote\""#);
    assert_eq!(escape_comment(r"back\slash"), r"back\\slash");
    assert_eq!(escape_comment(r#"both \"x""#), r#"both \\\"x\""#);
}

#[test]
fn test_tcp_excluded_by_type_system() {
    // TCP cannot be expressed in FirewallProtocol — compile-time guarantee.
    // This test verifies that a UDP rule renders correctly.
    let udp_rule = make_rule(
        "udp-rule",
        Direction::Inbound,
        vec!["10.0.0.0/8"],
        vec![],
        FirewallProtocol::Udp,
        vec![ports(53, 53)],
        RuleAction::Deny,
    );

    let lines = NftBackend::render_rule(&udp_rule, &mut vec![]);
    assert_eq!(lines.len(), 1);
    assert!(lines[0].contains("ip saddr 10.0.0.0/8 udp dport 53 reject"));
}

#[test]
fn test_protocol_none_adds_l4proto_filter() {
    // Protocol=None should add `meta l4proto != tcp` to exclude TCP
    let rule = make_rule(
        "any-proto",
        Direction::Inbound,
        vec!["10.0.0.0/8"],
        vec![],
        FirewallProtocol::NonTcp,
        vec![ports(53, 53)],
        RuleAction::Deny,
    );

    let lines = NftBackend::render_rule(&rule, &mut vec![]);
    assert_eq!(lines.len(), 1);
    assert!(lines[0].contains("meta l4proto { udp, sctp }"));
    assert!(lines[0].contains("th dport 53 reject"));
}

#[test]
fn test_protocol_none_no_ports() {
    // Protocol=None with no port match should still add meta l4proto filter
    let rule = make_rule(
        "any-proto-no-port",
        Direction::Inbound,
        vec!["10.0.0.0/8"],
        vec![],
        FirewallProtocol::NonTcp,
        vec![],
        RuleAction::Deny,
    );

    let lines = NftBackend::render_rule(&rule, &mut vec![]);
    assert_eq!(lines.len(), 1);
    assert!(lines[0].contains("meta l4proto != tcp"));
    assert!(lines[0].contains("ip saddr 10.0.0.0/8"));
}

#[test]
fn test_golden_named_set_basic() {
    let cidrs: Vec<IpNet> = (0..NAMED_SET_THRESHOLD as u32 + 2)
        .map(|i| net(&format!("10.0.{}.0/24", i)))
        .collect();

    let rule = FirewallRule {
        name: "named-set-rule".into(),
        action: RuleAction::Deny,
        direction: Direction::Inbound,
        priority: 100,
        clauses: vec![vec![FirewallMatch {
            source_ips: cidrs,
            dest_ips: vec![net("192.168.1.0/24")],
            port_groups: vec![PortGroup {
                protocol: FirewallProtocol::Udp,
                ports: vec![ports(53, 53)],
            }],
        }]],
    };

    let script = NftBackend::new().render_ruleset(&RuleSet {
        rules: vec![rule],
        policy_attached: true,
        ..Default::default()
    });

    assert_golden(
        &script,
        DEDICATED,
        &[
            set_text("zt_0_v4", true, (0..130).map(|i| format!("10.0.{i}.0/24")).collect()),
        ],
        &[
            "ip saddr @zt_0_v4 ip daddr 192.168.1.0/24 udp dport 53 reject comment \"named-set-rule\"",
        ],
        &[],
        true,
    );
}

#[test]
fn test_golden_named_set_multi_rule() {
    let src_cidrs: Vec<IpNet> = (0..NAMED_SET_THRESHOLD as u32 + 2)
        .map(|i| net(&format!("10.0.{}.0/24", i)))
        .collect();
    let dst_cidrs: Vec<IpNet> = (0..NAMED_SET_THRESHOLD as u32 + 2)
        .map(|i| net(&format!("2001:db8:{:x}::/48", i)))
        .collect();

    let rule1 = FirewallRule {
        name: "inbound-large-src".into(),
        action: RuleAction::Deny,
        direction: Direction::Inbound,
        priority: 10,
        clauses: vec![vec![FirewallMatch {
            source_ips: src_cidrs,
            dest_ips: vec![],
            port_groups: vec![PortGroup {
                protocol: FirewallProtocol::NonTcp,
                ports: vec![],
            }],
        }]],
    };

    let rule2 = FirewallRule {
        name: "outbound-large-dst-v6".into(),
        action: RuleAction::Allow,
        direction: Direction::Outbound,
        priority: 20,
        clauses: vec![vec![FirewallMatch {
            source_ips: vec![],
            dest_ips: dst_cidrs,
            port_groups: vec![PortGroup {
                protocol: FirewallProtocol::Udp,
                ports: vec![ports(443, 443)],
            }],
        }]],
    };

    let script = NftBackend::new().render_ruleset(&RuleSet {
        rules: vec![rule1, rule2],
        policy_attached: true,
        ..Default::default()
    });

    assert_golden(
        &script,
        DEDICATED,
        &[
            set_text("zt_0_v4", true, (0..130).map(|i| format!("10.0.{i}.0/24")).collect()),
            set_text("zt_1_v6", false, (0..130).map(|i| v6_text(i)).collect()),
        ],
        &[
            "ip saddr @zt_0_v4 meta l4proto != tcp reject comment \"inbound-large-src\"",
        ],
        &[
            "ip6 daddr @zt_1_v6 udp dport 443 accept comment \"outbound-large-dst-v6\"",
        ],
        true,
    );
}

#[test]
fn test_golden_named_set_mixed() {
    // Rule 1: source exceeds threshold (named set), dest is small (anonymous set)
    let large_src: Vec<IpNet> = (0..NAMED_SET_THRESHOLD as u32 + 2)
        .map(|i| net(&format!("10.0.{}.0/24", i)))
        .collect();

    let rule1 = FirewallRule {
        name: "mixed-large-src".into(),
        action: RuleAction::Deny,
        direction: Direction::Inbound,
        priority: 10,
        clauses: vec![vec![FirewallMatch {
            source_ips: large_src,
            dest_ips: vec![
                net("192.168.1.0/24"),
                net("192.168.2.0/24"),
            ],
            port_groups: vec![PortGroup {
                protocol: FirewallProtocol::Udp,
                ports: vec![ports(53, 53)],
            }],
        }]],
    };

    // Rule 2: all small (anonymous sets only, no named set)
    let rule2 = FirewallRule {
        name: "small-anon-only".into(),
        action: RuleAction::Allow,
        direction: Direction::Outbound,
        priority: 100,
        clauses: vec![vec![FirewallMatch {
            source_ips: vec![],
            dest_ips: vec![
                net("8.8.8.0/24"),
                net("8.8.4.0/24"),
                net("1.1.1.0/24"),
            ],
            port_groups: vec![PortGroup {
                protocol: FirewallProtocol::Udp,
                ports: vec![ports(53, 53)],
            }],
        }]],
    };

    // Rule 3: dest exceeds threshold (named set), no source
    let large_dst: Vec<IpNet> = (0..NAMED_SET_THRESHOLD as u32 + 2)
        .map(|i| {
            net(&format!("172.{}.{}.0/24", 16 + i / 256, i % 256))
        })
        .collect();

    let rule3 = FirewallRule {
        name: "mixed-large-dst".into(),
        action: RuleAction::Deny,
        direction: Direction::Outbound,
        priority: 50,
        clauses: vec![vec![FirewallMatch {
            source_ips: vec![],
            dest_ips: large_dst,
            port_groups: vec![PortGroup {
                protocol: FirewallProtocol::NonTcp,
                ports: vec![],
            }],
        }]],
    };

    let script = NftBackend::new().render_ruleset(&RuleSet {
        rules: vec![rule1, rule2, rule3],
        policy_attached: true,
        ..Default::default()
    });

    assert_golden(
        &script,
        DEDICATED,
        &[
            set_text("zt_0_v4", true, (0..130).map(|i| format!("10.0.{i}.0/24")).collect()),
            set_text("zt_1_v4", true, (0..130).map(|i| format!("172.16.{i}.0/24")).collect()),
        ],
        &[
            "ip saddr @zt_0_v4 ip daddr { 192.168.1.0/24, 192.168.2.0/24 } udp dport 53 reject comment \"mixed-large-src\"",
        ],
        &[
            "ip daddr @zt_1_v4 meta l4proto != tcp reject comment \"mixed-large-dst\"",
            "ip daddr { 8.8.8.0/24, 8.8.4.0/24, 1.1.1.0/24 } udp dport 53 accept comment \"small-anon-only\"",
        ],
        true,
    );
}

#[test]
fn test_named_set_source_v4() {
    let cidrs: Vec<String> = (0..130u32)
        .map(|i| format!("10.{}.{}.0/24", i / 256, i % 256))
        .collect();
    let rule = FirewallRule {
        name: "large-src".into(),
        action: RuleAction::Deny,
        direction: Direction::Inbound,
        priority: 0,
        clauses: vec![vec![FirewallMatch {
            source_ips: cidrs.iter().map(|s| net(s)).collect(),
            dest_ips: vec![],
            port_groups: vec![PortGroup {
                protocol: FirewallProtocol::NonTcp,
                ports: vec![],
            }],
        }]],
    };

    let script = NftBackend::new().render_ruleset(&RuleSet {
        rules: vec![rule],
        ..Default::default()
    });

    assert!(script.contains("set zt_0_v4 {"));
    assert!(script.contains("type ipv4_addr"));
    assert!(script.contains("flags interval"));
    assert!(script.contains("ip saddr @zt_0_v4"));
    assert!(script.contains("10.0.0.0/24"));
    assert!(script.contains("10.0.129.0/24"));
}

#[test]
fn test_named_set_threshold_boundary() {
    // Exactly NAMED_SET_THRESHOLD → anonymous set (no named set)
    let cidrs: Vec<IpNet> = (0..NAMED_SET_THRESHOLD as u32)
        .map(|i| net(&format!("10.{}.{}.0/24", i / 256, i % 256)))
        .collect();
    let rule = FirewallRule {
        name: "boundary".into(),
        action: RuleAction::Deny,
        direction: Direction::Inbound,
        priority: 0,
        clauses: vec![vec![FirewallMatch {
            source_ips: cidrs,
            dest_ips: vec![],
            port_groups: vec![PortGroup {
                protocol: FirewallProtocol::NonTcp,
                ports: vec![],
            }],
        }]],
    };

    let script = NftBackend::new().render_ruleset(&RuleSet {
        rules: vec![rule],
        ..Default::default()
    });

    assert!(
        !script.contains("set zt_"),
        "at threshold should use anonymous set"
    );
    assert!(script.contains("ip saddr {"));
}

#[test]
fn test_named_set_multiple_rules_unique_names() {
    let make_large_rule = |name: &str, direction: Direction| -> FirewallRule {
        let cidrs: Vec<IpNet> = (0..130u32)
            .map(|i| net(&format!("10.{}.{}.0/24", i / 256, i % 256)))
            .collect();
        FirewallRule {
            name: name.into(),
            action: RuleAction::Deny,
            direction,
            priority: 0,
            clauses: vec![vec![FirewallMatch {
                source_ips: cidrs,
                dest_ips: vec![],
                port_groups: vec![PortGroup {
                    protocol: FirewallProtocol::NonTcp,
                    ports: vec![],
                }],
            }]],
        }
    };

    let script = NftBackend::new().render_ruleset(&RuleSet {
        rules: vec![
            make_large_rule("rule-a", Direction::Inbound),
            make_large_rule("rule-b", Direction::Outbound),
        ],
        ..Default::default()
    });

    assert!(script.contains("set zt_0_v4 {"));
    assert!(script.contains("set zt_1_v4 {"));
    assert!(script.contains("ip saddr @zt_0_v4"));
    assert!(script.contains("ip saddr @zt_1_v4"));
}

#[test]
fn test_named_set_dest_v6() {
    let cidrs: Vec<IpNet> = (0..130u32)
        .map(|i| net(&format!("2001:db8:{:x}::/48", i)))
        .collect();
    let rule = FirewallRule {
        name: "large-dst-v6".into(),
        action: RuleAction::Deny,
        direction: Direction::Inbound,
        priority: 0,
        clauses: vec![vec![FirewallMatch {
            source_ips: vec![],
            dest_ips: cidrs,
            port_groups: vec![PortGroup {
                protocol: FirewallProtocol::NonTcp,
                ports: vec![],
            }],
        }]],
    };

    let script = NftBackend::new().render_ruleset(&RuleSet {
        rules: vec![rule],
        ..Default::default()
    });

    assert!(script.contains("set zt_0_v6 {"));
    assert!(script.contains("type ipv6_addr"));
    assert!(script.contains("flags interval"));
    assert!(script.contains("ip6 daddr @zt_0_v6"));
}
