use ztunnel::firewall::backend::ipt::IptBackend;
use ztunnel::firewall::types::{
    Direction, FirewallMatch, FirewallProtocol, FirewallRule, PortGroup, PortRange, RuleAction,
    RuleSet,
};
use ztunnel::net::IpNet;

fn net(text: &str) -> IpNet {
    IpNet::parse(text).unwrap()
}

fn ports(start: u16, end: u16) -> PortRange {
    PortRange { start, end }
}

const DEDICATED: [&str; 2] = [
    "-A ISTIO_FW_FILTER_OUT -m owner --uid-owner 1337 -j RETURN",
    "-A ISTIO_FW_FILTER_OUT -m owner --gid-owner 1337 -j RETURN",
];

const INPOD: [&str; 2] = [
    "-A ISTIO_FW_FILTER_OUT -m mark --mark 1337 -j RETURN",
    "-A ISTIO_FW_FILTER_OUT -p udp -m conntrack --ctorigdstport 53 --ctdir ORIGINAL -j ACCEPT",
];

fn assert_golden(actual: &str, bypass: &[&str], rules: &[&str], deny: bool) {
    let mut lines = vec![
        "*filter",
        "-F ISTIO_FW_FILTER_IN",
        "-F ISTIO_FW_FILTER_OUT",
        "-A ISTIO_FW_FILTER_IN -m conntrack --ctstate ESTABLISHED,RELATED -j ACCEPT",
        "-A ISTIO_FW_FILTER_OUT -m conntrack --ctstate ESTABLISHED,RELATED -j ACCEPT",
        "-A ISTIO_FW_FILTER_IN -i lo -j ACCEPT",
        "-A ISTIO_FW_FILTER_OUT -o lo -j ACCEPT",
    ];
    lines.extend_from_slice(bypass);
    lines.extend_from_slice(rules);
    if deny {
        lines.push("-A ISTIO_FW_FILTER_IN ! -p tcp -j REJECT");
        lines.push("-A ISTIO_FW_FILTER_OUT ! -p tcp -j REJECT");
    }
    lines.push("COMMIT");
    assert_eq!(actual, lines.join("\n"));
}

fn make_rule(
    name: &str,
    direction: Direction,
    match_source: Vec<&str>,
    match_dest: Vec<&str>,
    protocol: FirewallProtocol,
    match_dports: Vec<PortRange>,
    action: RuleAction,
) -> FirewallRule {
    let source_ips: Vec<IpNet> = match_source.into_iter().map(net).collect();
    let dest_ips: Vec<IpNet> = match_dest.into_iter().map(net).collect();
    FirewallRule {
        name: name.into(),
        action,
        direction,
        priority: 0,
        clauses: vec![vec![FirewallMatch {
            source_ips,
            dest_ips,
            port_groups: vec![PortGroup {
                protocol,
                ports: match_dports,
            }],
        }]],
    }
}

#[test]
fn ipt_test_golden_empty_ruleset() {
    let ruleset = RuleSet {
        rules: vec![],
        ..Default::default()
    };
    let rendered = IptBackend::new().render_ruleset(&ruleset);
    assert_golden(
        &rendered,
        &DEDICATED,
        &[],
        false,
    );
}

#[test]
fn ipt_test_golden_single_inbound_deny() {
    let ruleset = RuleSet {
        rules: vec![make_rule(
            "deny-inbound",
            Direction::Inbound,
            vec!["10.0.0.0/8"],
            vec![],
            FirewallProtocol::NonTcp,
            vec![ports(80, 80)],
            RuleAction::Deny,
        )],
        ..Default::default()
    };
    let rendered = IptBackend::new().render_ruleset(&ruleset);
    assert_golden(
        &rendered,
        &DEDICATED,
        &[
            "-A ISTIO_FW_FILTER_IN -s 10.0.0.0/8 -p udp --dport 80 -j REJECT",
            "-A ISTIO_FW_FILTER_IN -s 10.0.0.0/8 -p sctp --dport 80 -j REJECT",
        ],
        false,
    );
}

#[test]
fn ipt_test_golden_multi_cidr_cartesian() {
    let ruleset = RuleSet {
        rules: vec![make_rule(
            "multi-cidr-test",
            Direction::Inbound,
            vec!["10.0.0.0/8", "172.16.0.0/12"],
            vec!["192.168.1.0/24", "192.168.2.0/24"],
            FirewallProtocol::NonTcp,
            vec![ports(443, 443)],
            RuleAction::Deny,
        )],
        ..Default::default()
    };
    let rendered = IptBackend::new().render_ruleset(&ruleset);
    assert_golden(
        &rendered,
        &DEDICATED,
        &[
            "-A ISTIO_FW_FILTER_IN -s 10.0.0.0/8 -d 192.168.1.0/24 -p udp --dport 443 -j REJECT",
            "-A ISTIO_FW_FILTER_IN -s 10.0.0.0/8 -d 192.168.1.0/24 -p sctp --dport 443 -j REJECT",
            "-A ISTIO_FW_FILTER_IN -s 10.0.0.0/8 -d 192.168.2.0/24 -p udp --dport 443 -j REJECT",
            "-A ISTIO_FW_FILTER_IN -s 10.0.0.0/8 -d 192.168.2.0/24 -p sctp --dport 443 -j REJECT",
            "-A ISTIO_FW_FILTER_IN -s 172.16.0.0/12 -d 192.168.1.0/24 -p udp --dport 443 -j REJECT",
            "-A ISTIO_FW_FILTER_IN -s 172.16.0.0/12 -d 192.168.1.0/24 -p sctp --dport 443 -j REJECT",
            "-A ISTIO_FW_FILTER_IN -s 172.16.0.0/12 -d 192.168.2.0/24 -p udp --dport 443 -j REJECT",
            "-A ISTIO_FW_FILTER_IN -s 172.16.0.0/12 -d 192.168.2.0/24 -p sctp --dport 443 -j REJECT",
        ],
        false,
    );
}

#[test]
fn ipt_test_golden_priority_ordering() {
    let mut rule1 = make_rule(
        "low-priority",
        Direction::Inbound,
        vec!["10.0.0.0/8"],
        vec![],
        FirewallProtocol::NonTcp,
        vec![ports(80, 80)],
        RuleAction::Deny,
    );
    rule1.priority = 10;

    let mut rule2 = make_rule(
        "high-priority",
        Direction::Inbound,
        vec!["192.168.0.0/16"],
        vec![],
        FirewallProtocol::NonTcp,
        vec![ports(443, 443)],
        RuleAction::Deny,
    );
    rule2.priority = 5;

    let mut rule3 = make_rule(
        "outbound-allow",
        Direction::Outbound,
        vec![],
        vec!["172.16.0.0/12"],
        FirewallProtocol::NonTcp,
        vec![ports(8080, 8080)],
        RuleAction::Allow,
    );
    rule3.priority = 20;

    let ruleset = RuleSet {
        rules: vec![rule1, rule2, rule3],
        ..Default::default()
    };
    let rendered = IptBackend::new().render_ruleset(&ruleset);
    assert_golden(
        &rendered,
        &DEDICATED,
        &[
            "-A ISTIO_FW_FILTER_IN -s 192.168.0.0/16 -p udp --dport 443 -j REJECT",
            "-A ISTIO_FW_FILTER_IN -s 192.168.0.0/16 -p sctp --dport 443 -j REJECT",
            "-A ISTIO_FW_FILTER_IN -s 10.0.0.0/8 -p udp --dport 80 -j REJECT",
            "-A ISTIO_FW_FILTER_IN -s 10.0.0.0/8 -p sctp --dport 80 -j REJECT",
            "-A ISTIO_FW_FILTER_OUT -d 172.16.0.0/12 -p udp --dport 8080 -j ACCEPT",
            "-A ISTIO_FW_FILTER_OUT -d 172.16.0.0/12 -p sctp --dport 8080 -j ACCEPT",
        ],
        false,
    );
}

#[test]
fn ipt_test_golden_port_range_and_multiport() {
    let ruleset = RuleSet {
        rules: vec![
            make_rule(
                "port-range-rule",
                Direction::Inbound,
                vec![],
                vec![],
                FirewallProtocol::NonTcp,
                vec![ports(8000, 8080)],
                RuleAction::Deny,
            ),
            make_rule(
                "multi-port-rule",
                Direction::Outbound,
                vec![],
                vec![],
                FirewallProtocol::NonTcp,
                vec![ports(80, 80), ports(443, 443), ports(9000, 9100)],
                RuleAction::Allow,
            ),
        ],
        ..Default::default()
    };
    let rendered = IptBackend::new().render_ruleset(&ruleset);
    assert_golden(
        &rendered,
        &DEDICATED,
        &[
            "-A ISTIO_FW_FILTER_OUT -p udp -m multiport --dports 80,443,9000:9100 -j ACCEPT",
            "-A ISTIO_FW_FILTER_OUT -p sctp -m multiport --dports 80,443,9000:9100 -j ACCEPT",
            "-A ISTIO_FW_FILTER_IN -p udp --dport 8000:8080 -j REJECT",
            "-A ISTIO_FW_FILTER_IN -p sctp --dport 8000:8080 -j REJECT",
        ],
        false,
    );
}

#[test]
fn ipt_test_golden_dedicated_default_deny() {
    let ruleset = RuleSet {
        rules: vec![make_rule(
            "allow-dns-out",
            Direction::Outbound,
            vec![],
            vec!["8.8.8.0/24"],
            FirewallProtocol::NonTcp,
            vec![ports(53, 53)],
            RuleAction::Allow,
        )],
        policy_attached: true,
        ..Default::default()
    };
    let rendered = IptBackend::new().render_ruleset(&ruleset);
    assert_golden(
        &rendered,
        &DEDICATED,
        &[
            "-A ISTIO_FW_FILTER_OUT -d 8.8.8.0/24 -p udp --dport 53 -j ACCEPT",
            "-A ISTIO_FW_FILTER_OUT -d 8.8.8.0/24 -p sctp --dport 53 -j ACCEPT",
        ],
        true,
    );
}

#[test]
fn ipt_test_golden_icmp() {
    let rule = FirewallRule {
        name: "icmp-in".into(),
        action: RuleAction::Deny,
        direction: Direction::Inbound,
        priority: 0,
        clauses: vec![vec![FirewallMatch {
            source_ips: vec![net("10.0.0.0/8")],
            dest_ips: vec![],
            port_groups: vec![PortGroup {
                protocol: FirewallProtocol::Icmp,
                ports: vec![],
            }],
        }]],
    };
    let rendered = IptBackend::new().render_ruleset(&RuleSet {
        rules: vec![rule],
        ..Default::default()
    });
    assert_golden(
        &rendered,
        &DEDICATED,
        &[
            "-A ISTIO_FW_FILTER_IN -s 10.0.0.0/8 -p icmp -j REJECT",
        ],
        false,
    );
}

#[test]
fn test_golden_ipv6_skipped() {
    let rule = FirewallRule {
        name: "ipv6-skipped".into(),
        action: RuleAction::Deny,
        direction: Direction::Inbound,
        priority: 0,
        clauses: vec![vec![FirewallMatch {
            source_ips: vec![net("fd00::/8")],
            dest_ips: vec![],
            port_groups: vec![PortGroup {
                protocol: FirewallProtocol::Udp,
                ports: vec![ports(53, 53)],
            }],
        }]],
    };
    let rendered = IptBackend::new().render_ruleset(&RuleSet {
        rules: vec![rule],
        ..Default::default()
    });
    assert_golden(
        &rendered,
        &DEDICATED,
        &[],
        false,
    );
}

#[test]
fn ipt_test_golden_multi_clause_cartesian() {
    // Two AND'd clauses: source clause (2 OR'd IPs) × port clause (2 OR'd ports)
    // Should expand to 2 sources × 2 ports × 2 protocols (udp+sctp) = 8 rules
    let rule = FirewallRule {
        name: "multi-clause".into(),
        action: RuleAction::Deny,
        direction: Direction::Inbound,
        priority: 0,
        clauses: vec![
            // Clause 0: 2 OR'd source matches
            vec![
                FirewallMatch {
                    source_ips: vec![net("10.0.0.0/8")],
                    dest_ips: vec![],
                    port_groups: vec![PortGroup {
                        protocol: FirewallProtocol::NonTcp,
                        ports: vec![],
                    }],
                },
                FirewallMatch {
                    source_ips: vec![net("172.16.0.0/12")],
                    dest_ips: vec![],
                    port_groups: vec![PortGroup {
                        protocol: FirewallProtocol::NonTcp,
                        ports: vec![],
                    }],
                },
            ],
            // Clause 1: 2 OR'd port matches
            vec![
                FirewallMatch {
                    source_ips: vec![],
                    dest_ips: vec![],
                    port_groups: vec![PortGroup {
                        protocol: FirewallProtocol::NonTcp,
                        ports: vec![ports(53, 53)],
                    }],
                },
                FirewallMatch {
                    source_ips: vec![],
                    dest_ips: vec![],
                    port_groups: vec![PortGroup {
                        protocol: FirewallProtocol::NonTcp,
                        ports: vec![ports(80, 80)],
                    }],
                },
            ],
        ],
    };

    let ruleset = RuleSet {
        rules: vec![rule],
        ..Default::default()
    };
    let rendered = IptBackend::new().render_ruleset(&ruleset);
    assert_golden(
        &rendered,
        &DEDICATED,
        &[
            "-A ISTIO_FW_FILTER_IN -s 10.0.0.0/8 -p udp --dport 53 -j REJECT",
            "-A ISTIO_FW_FILTER_IN -s 10.0.0.0/8 -p sctp --dport 53 -j REJECT",
            "-A ISTIO_FW_FILTER_IN -s 10.0.0.0/8 -p udp --dport 80 -j REJECT",
            "-A ISTIO_FW_FILTER_IN -s 10.0.0.0/8 -p sctp --dport 80 -j REJECT",
            "-A ISTIO_FW_FILTER_IN -s 172.16.0.0/12 -p udp --dport 53 -j REJECT",
            "-A ISTIO_FW_FILTER_IN -s 172.16.0.0/12 -p sctp --dport 53 -j REJECT",
            "-A ISTIO_FW_FILTER_IN -s 172.16.0.0/12 -p udp --dport 80 -j REJECT",
            "-A ISTIO_FW_FILTER_IN -s 172.16.0.0/12 -p sctp --dport 80 -j REJECT",
        ],
        false,
    );
}

#[test]
fn ipt_test_golden_multi_clause_source_and_port() {
    // Clause 0: source IPs (no port restriction)
    // Clause 1: port restriction (no source IPs)
    // Verifies that source-only clause does NOT overwrite port from previous clause.
    // This is the bug that caused DNS (UDP:53) to be blocked — the source clause
    // would overwrite the port clause's `--dport 53` with bare `! -p tcp`.
    let rule = FirewallRule {
        name: "src-and-port".into(),
        action: RuleAction::Allow,
        direction: Direction::Inbound,
        priority: 0,
        clauses: vec![
            // Clause 0: port 53 (NonTcp)
            vec![FirewallMatch {
                source_ips: vec![],
                dest_ips: vec![],
                port_groups: vec![PortGroup {
                    protocol: FirewallProtocol::NonTcp,
                    ports: vec![ports(53, 53)],
                }],
            }],
            // Clause 1: 2 OR'd sources, no port restriction
            vec![
                FirewallMatch {
                    source_ips: vec![net("10.0.0.0/8")],
                    dest_ips: vec![],
                    port_groups: vec![PortGroup {
                        protocol: FirewallProtocol::NonTcp,
                        ports: vec![],
                    }],
                },
                FirewallMatch {
                    source_ips: vec![net("172.16.0.0/12")],
                    dest_ips: vec![],
                    port_groups: vec![PortGroup {
                        protocol: FirewallProtocol::NonTcp,
                        ports: vec![],
                    }],
                },
            ],
        ],
    };

    let ruleset = RuleSet {
        rules: vec![rule],
        ..Default::default()
    };
    let rendered = IptBackend::new().render_ruleset(&ruleset);
    assert_golden(
        &rendered,
        &DEDICATED,
        &[
            "-A ISTIO_FW_FILTER_IN -s 10.0.0.0/8 -p udp --dport 53 -j ACCEPT",
            "-A ISTIO_FW_FILTER_IN -s 172.16.0.0/12 -p udp --dport 53 -j ACCEPT",
            "-A ISTIO_FW_FILTER_IN -s 10.0.0.0/8 -p sctp --dport 53 -j ACCEPT",
            "-A ISTIO_FW_FILTER_IN -s 172.16.0.0/12 -p sctp --dport 53 -j ACCEPT",
        ],
        false,
    );
}

fn inpod_backend() -> IptBackend {
    IptBackend::new().skip_mark(1337).dns_proxy(true)
}

#[test]
fn ipt_test_golden_inpod_empty_ruleset() {
    let ruleset = RuleSet::default();
    let rendered = inpod_backend().render_ruleset(&ruleset);
    assert_golden(
        &rendered,
        &INPOD,
        &[],
        false,
    );
}

#[test]
fn ipt_test_golden_inpod_single_inbound_deny() {
    let ruleset = RuleSet {
        rules: vec![make_rule(
            "test",
            Direction::Inbound,
            vec!["10.0.0.0/8"],
            vec![],
            FirewallProtocol::NonTcp,
            vec![ports(80, 80)],
            RuleAction::Deny,
        )],
        policy_attached: true,
        ..Default::default()
    };
    let rendered = inpod_backend().render_ruleset(&ruleset);
    assert_golden(
        &rendered,
        &INPOD,
        &[
            "-A ISTIO_FW_FILTER_IN -s 10.0.0.0/8 -p udp --dport 80 -j REJECT",
            "-A ISTIO_FW_FILTER_IN -s 10.0.0.0/8 -p sctp --dport 80 -j REJECT",
        ],
        true,
    );
}

#[test]
fn ipt_test_golden_inpod_mixed_rules() {
    let ruleset = RuleSet {
        rules: vec![
            make_rule(
                "deny-dns-in",
                Direction::Inbound,
                vec!["10.0.0.0/8"],
                vec![],
                FirewallProtocol::NonTcp,
                vec![ports(53, 53)],
                RuleAction::Deny,
            ),
            make_rule(
                "allow-dns-out",
                Direction::Outbound,
                vec![],
                vec!["8.8.8.0/24"],
                FirewallProtocol::NonTcp,
                vec![ports(53, 53)],
                RuleAction::Allow,
            ),
        ],
        policy_attached: true,
        ..Default::default()
    };
    let rendered = inpod_backend().render_ruleset(&ruleset);
    assert_golden(
        &rendered,
        &INPOD,
        &[
            "-A ISTIO_FW_FILTER_OUT -d 8.8.8.0/24 -p udp --dport 53 -j ACCEPT",
            "-A ISTIO_FW_FILTER_OUT -d 8.8.8.0/24 -p sctp --dport 53 -j ACCEPT",
            "-A ISTIO_FW_FILTER_IN -s 10.0.0.0/8 -p udp --dport 53 -j REJECT",
            "-A ISTIO_FW_FILTER_IN -s 10.0.0.0/8 -p sctp --dport 53 -j REJECT",
        ],
        true,
    );
}

#[test]
fn test_render_single_cidr() {
    let rule = make_rule(
        "test",
        Direction::Inbound,
        vec!["10.0.0.0/8"],
        vec![],
        FirewallProtocol::NonTcp,
        vec![ports(80, 80)],
        RuleAction::Deny,
    );

    let lines = IptBackend::render_rule(&rule);
    assert_eq!(lines.len(), 2);
    assert_eq!(
        lines[0],
        "-A ISTIO_FW_FILTER_IN -s 10.0.0.0/8 -p udp --dport 80 -j REJECT"
    );
    assert_eq!(
        lines[1],
        "-A ISTIO_FW_FILTER_IN -s 10.0.0.0/8 -p sctp --dport 80 -j REJECT"
    );
}

#[test]
fn test_render_multi_cidr_source() {
    let rule = make_rule(
        "test",
        Direction::Inbound,
        vec!["10.0.0.0/8", "172.16.0.0/12"],
        vec![],
        FirewallProtocol::NonTcp,
        vec![ports(80, 80)],
        RuleAction::Deny,
    );

    let lines = IptBackend::render_rule(&rule);
    assert_eq!(lines.len(), 4);
    assert_eq!(
        lines[0],
        "-A ISTIO_FW_FILTER_IN -s 10.0.0.0/8 -p udp --dport 80 -j REJECT"
    );
    assert_eq!(
        lines[1],
        "-A ISTIO_FW_FILTER_IN -s 10.0.0.0/8 -p sctp --dport 80 -j REJECT"
    );
    assert_eq!(
        lines[2],
        "-A ISTIO_FW_FILTER_IN -s 172.16.0.0/12 -p udp --dport 80 -j REJECT"
    );
    assert_eq!(
        lines[3],
        "-A ISTIO_FW_FILTER_IN -s 172.16.0.0/12 -p sctp --dport 80 -j REJECT"
    );
}

#[test]
fn test_render_multi_cidr_cartesian() {
    let rule = make_rule(
        "test",
        Direction::Outbound,
        vec!["10.0.0.0/8", "192.168.0.0/16"],
        vec!["8.8.8.0/24", "1.1.1.0/24"],
        FirewallProtocol::NonTcp,
        vec![ports(443, 443)],
        RuleAction::Deny,
    );

    let lines = IptBackend::render_rule(&rule);
    // 2 sources × 2 destinations × 2 protocols (udp, sctp) = 8 rules
    assert_eq!(lines.len(), 8);
    assert!(lines[0].contains("-s 10.0.0.0/8 -d 8.8.8.0/24 -p udp"));
    assert!(lines[1].contains("-s 10.0.0.0/8 -d 8.8.8.0/24 -p sctp"));
    assert!(lines[2].contains("-s 10.0.0.0/8 -d 1.1.1.0/24 -p udp"));
    assert!(lines[3].contains("-s 10.0.0.0/8 -d 1.1.1.0/24 -p sctp"));
    assert!(lines[4].contains("-s 192.168.0.0/16 -d 8.8.8.0/24 -p udp"));
    assert!(lines[5].contains("-s 192.168.0.0/16 -d 8.8.8.0/24 -p sctp"));
    assert!(lines[6].contains("-s 192.168.0.0/16 -d 1.1.1.0/24 -p udp"));
    assert!(lines[7].contains("-s 192.168.0.0/16 -d 1.1.1.0/24 -p sctp"));
    assert!(lines[0].contains("-j REJECT"));
}

#[test]
fn ipt_test_render_port_range() {
    let rule = make_rule(
        "test",
        Direction::Inbound,
        vec![],
        vec![],
        FirewallProtocol::NonTcp,
        vec![ports(8000, 8080)],
        RuleAction::Deny,
    );

    let lines = IptBackend::render_rule(&rule);
    assert_eq!(lines.len(), 2);
    assert_eq!(
        lines[0],
        "-A ISTIO_FW_FILTER_IN -p udp --dport 8000:8080 -j REJECT"
    );
    assert_eq!(
        lines[1],
        "-A ISTIO_FW_FILTER_IN -p sctp --dport 8000:8080 -j REJECT"
    );
}

#[test]
fn test_render_multiport() {
    let rule = make_rule(
        "test",
        Direction::Outbound,
        vec![],
        vec![],
        FirewallProtocol::NonTcp,
        vec![ports(80, 80), ports(443, 443), ports(8000, 8080)],
        RuleAction::Deny,
    );

    let lines = IptBackend::render_rule(&rule);
    assert_eq!(lines.len(), 2);
    assert_eq!(
        lines[0],
        "-A ISTIO_FW_FILTER_OUT -p udp -m multiport --dports 80,443,8000:8080 -j REJECT"
    );
    assert_eq!(
        lines[1],
        "-A ISTIO_FW_FILTER_OUT -p sctp -m multiport --dports 80,443,8000:8080 -j REJECT"
    );
}

#[test]
fn test_render_multiport_chunks_ranges_by_entry_weight() {
    let rule = make_rule(
        "test",
        Direction::Outbound,
        vec![],
        vec![],
        FirewallProtocol::NonTcp,
        vec![
            ports(1, 2),
            ports(3, 4),
            ports(5, 6),
            ports(7, 8),
            ports(9, 10),
            ports(11, 12),
            ports(13, 14),
            ports(15, 16),
        ],
        RuleAction::Deny,
    );

    let lines = IptBackend::render_rule(&rule);
    assert_eq!(lines.len(), 4);
    assert_eq!(
        lines[0],
        "-A ISTIO_FW_FILTER_OUT -p udp -m multiport --dports 1:2,3:4,5:6,7:8,9:10,11:12,13:14 -j REJECT"
    );
    assert_eq!(
        lines[1],
        "-A ISTIO_FW_FILTER_OUT -p udp --dport 15:16 -j REJECT"
    );
    assert_eq!(
        lines[2],
        "-A ISTIO_FW_FILTER_OUT -p sctp -m multiport --dports 1:2,3:4,5:6,7:8,9:10,11:12,13:14 -j REJECT"
    );
    assert_eq!(
        lines[3],
        "-A ISTIO_FW_FILTER_OUT -p sctp --dport 15:16 -j REJECT"
    );
}

#[test]
fn test_render_no_match() {
    let rule = make_rule(
        "test",
        Direction::Inbound,
        vec![],
        vec![],
        FirewallProtocol::NonTcp,
        vec![],
        RuleAction::Allow,
    );

    let lines = IptBackend::render_rule(&rule);
    assert_eq!(lines.len(), 1);
    assert_eq!(lines[0], "-A ISTIO_FW_FILTER_IN ! -p tcp -j ACCEPT");
}

#[test]
fn test_render_full_ruleset() {
    let ruleset = RuleSet {
        rules: vec![
            make_rule(
                "test",
                Direction::Inbound,
                vec!["10.0.0.0/8"],
                vec![],
                FirewallProtocol::NonTcp,
                vec![ports(80, 80), ports(443, 443)],
                RuleAction::Deny,
            ),
            make_rule(
                "test",
                Direction::Outbound,
                vec![],
                vec!["192.168.1.0/24"],
                FirewallProtocol::NonTcp,
                vec![ports(8080, 8080)],
                RuleAction::Deny,
            ),
        ],
        ..Default::default()
    };

    let script = IptBackend::new().render_ruleset(&ruleset);

    assert!(script.starts_with("*filter"));
    assert!(script.contains("-F ISTIO_FW_FILTER_IN"));
    assert!(script.contains("-F ISTIO_FW_FILTER_OUT"));

    // Verify infrastructure rules
    assert!(script.contains(
        "-A ISTIO_FW_FILTER_IN -m conntrack --ctstate ESTABLISHED,RELATED -j ACCEPT"
    ));
    assert!(script.contains("-A ISTIO_FW_FILTER_IN -i lo -j ACCEPT"));
    assert!(script.contains(
        "-A ISTIO_FW_FILTER_OUT -m conntrack --ctstate ESTABLISHED,RELATED -j ACCEPT"
    ));
    assert!(script.contains("-A ISTIO_FW_FILTER_OUT -o lo -j ACCEPT"));

    // Verify policy rules (protocol=None with ports → expanded to udp + sctp)
    assert!(script.contains(
        "-A ISTIO_FW_FILTER_IN -s 10.0.0.0/8 -p udp -m multiport --dports 80,443 -j REJECT"
    ));
    assert!(script.contains(
        "-A ISTIO_FW_FILTER_IN -s 10.0.0.0/8 -p sctp -m multiport --dports 80,443 -j REJECT"
    ));
    // REJECT is used in filter table
    assert!(
        script
            .contains("-A ISTIO_FW_FILTER_OUT -d 192.168.1.0/24 -p udp --dport 8080 -j REJECT")
    );
    assert!(
        script.contains(
            "-A ISTIO_FW_FILTER_OUT -d 192.168.1.0/24 -p sctp --dport 8080 -j REJECT"
        )
    );

    // Verify COMMIT
    assert!(script.ends_with("COMMIT"));
}

#[test]
fn test_render_ruleset_priority_ordering() {
    let mut rule1 = make_rule(
        "low-priority",
        Direction::Inbound,
        vec!["10.0.0.0/8"],
        vec![],
        FirewallProtocol::NonTcp,
        vec![ports(80, 80)],
        RuleAction::Deny,
    );
    rule1.priority = 10;

    let mut rule2 = make_rule(
        "high-priority",
        Direction::Inbound,
        vec!["192.168.0.0/16"],
        vec![],
        FirewallProtocol::NonTcp,
        vec![ports(443, 443)],
        RuleAction::Deny,
    );
    rule2.priority = 5;

    let ruleset = RuleSet {
        rules: vec![rule1, rule2],
        ..Default::default()
    };

    let script = IptBackend::new().render_ruleset(&ruleset);

    // high-priority (priority=5) should come before low-priority (priority=10)
    let high_pos = script.find("-s 192.168.0.0/16").unwrap();
    let low_pos = script.find("-s 10.0.0.0/8").unwrap();
    assert!(high_pos < low_pos, "Higher priority rule should come first");
}

#[test]
fn test_udp_explicit_protocol() {
    let rule = FirewallRule {
        name: "test".into(),
        action: RuleAction::Deny,
        direction: Direction::Inbound,
        priority: 0,
        clauses: vec![vec![FirewallMatch {
            source_ips: vec![net("10.0.0.0/8")],
            dest_ips: vec![],
            port_groups: vec![PortGroup {
                protocol: FirewallProtocol::Udp,
                ports: vec![ports(53, 53)],
            }],
        }]],
    };

    let lines = IptBackend::render_rule(&rule);
    assert_eq!(lines.len(), 1);
    assert_eq!(
        lines[0],
        "-A ISTIO_FW_FILTER_IN -s 10.0.0.0/8 -p udp --dport 53 -j REJECT"
    );
}

#[test]
fn test_outbound_dest_no_conntrack_in_dedicated_mode() {
    // Dedicated mode (no proxy_mark) should NOT generate conntrack rules
    let rule = FirewallRule {
        name: "dns-service".into(),
        action: RuleAction::Allow,
        direction: Direction::Outbound,
        priority: 0,
        clauses: vec![vec![FirewallMatch {
            source_ips: vec![],
            dest_ips: vec![net("192.168.0.10/32")],
            port_groups: vec![PortGroup {
                protocol: FirewallProtocol::Udp,
                ports: vec![ports(53, 53)],
            }],
        }]],
    };

    let lines = IptBackend::render_rule(&rule);
    assert_eq!(lines.len(), 1);
    assert_eq!(
        lines[0],
        "-A ISTIO_FW_FILTER_OUT -d 192.168.0.10/32 -p udp --dport 53 -j ACCEPT"
    );
    assert!(!lines[0].contains("conntrack"));
}

#[test]
fn test_inpod_dns_bypass_in_ruleset() {
    // Inpod mode (proxy_mark set) should include DNS conntrack bypass
    let ruleset = RuleSet::default();
    let rendered = inpod_backend().render_ruleset(&ruleset);
    assert!(
        rendered.contains("-p udp -m conntrack --ctorigdstport 53 --ctdir ORIGINAL -j ACCEPT"),
        "Inpod mode should include DNS conntrack bypass rule"
    );

    // Dedicated mode should NOT include it
    let rendered = IptBackend::new().render_ruleset(&ruleset);
    assert!(
        !rendered.contains("ctorigdstport"),
        "Dedicated mode should not include DNS conntrack bypass"
    );
}

#[test]
fn ipt_test_render_sctp_with_ports() {
    let rule = FirewallRule {
        name: "test".into(),
        action: RuleAction::Deny,
        direction: Direction::Inbound,
        priority: 0,
        clauses: vec![vec![FirewallMatch {
            source_ips: vec![net("10.0.0.0/8")],
            dest_ips: vec![],
            port_groups: vec![PortGroup {
                protocol: FirewallProtocol::Sctp,
                ports: vec![ports(36412, 36412)],
            }],
        }]],
    };

    let lines = IptBackend::render_rule(&rule);
    assert_eq!(lines.len(), 1);
    assert_eq!(
        lines[0],
        "-A ISTIO_FW_FILTER_IN -s 10.0.0.0/8 -p sctp --dport 36412 -j REJECT"
    );
}

#[test]
fn ipt_test_render_icmp_no_ports() {
    let rule = FirewallRule {
        name: "test".into(),
        action: RuleAction::Deny,
        direction: Direction::Inbound,
        priority: 0,
        clauses: vec![vec![FirewallMatch {
            source_ips: vec![net("10.0.0.0/8")],
            dest_ips: vec![],
            port_groups: vec![PortGroup {
                protocol: FirewallProtocol::Icmp,
                ports: vec![],
            }],
        }]],
    };

    let lines = IptBackend::render_rule(&rule);
    assert_eq!(lines.len(), 1);
    assert_eq!(
        lines[0],
        "-A ISTIO_FW_FILTER_IN -s 10.0.0.0/8 -p icmp -j REJECT"
    );
}

#[test]
fn test_mixed_protocols_in_port_groups() {
    let rule = FirewallRule {
        name: "test".into(),
        action: RuleAction::Deny,
        direction: Direction::Inbound,
        priority: 0,
        clauses: vec![vec![FirewallMatch {
            source_ips: vec![net("10.0.0.0/8")],
            dest_ips: vec![],
            port_groups: vec![
                PortGroup {
                    protocol: FirewallProtocol::Udp,
                    ports: vec![ports(53, 53)],
                },
                PortGroup {
                    protocol: FirewallProtocol::Sctp,
                    ports: vec![ports(443, 443)],
                },
            ],
        }]],
    };

    let lines = IptBackend::render_rule(&rule);
    assert_eq!(lines.len(), 2);
    assert_eq!(
        lines[0],
        "-A ISTIO_FW_FILTER_IN -s 10.0.0.0/8 -p udp --dport 53 -j REJECT"
    );
    assert_eq!(
        lines[1],
        "-A ISTIO_FW_FILTER_IN -s 10.0.0.0/8 -p sctp --dport 443 -j REJECT"
    );
}
