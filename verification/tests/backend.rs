use ztunnel::firewall::backend::commands::{Ended, InitStep, Loaded};
use ztunnel::firewall::backend::ipt::IptBackend;
use ztunnel::firewall::backend::nft::NftBackend;
use ztunnel::firewall::backend::{
    format_workload_label, make_nsenter_cmd, Backend, BackendBuilder, Stage,
};
use ztunnel::firewall::detect::FirewallBackend;
use ztunnel::firewall::types::{
    Direction, FirewallMatch, FirewallProtocol, FirewallRule, PortGroup, PortRange, RuleAction,
    RuleSet,
};
use ztunnel::net::IpNet;
use ztunnel::state::workload::WorkloadInfo;

fn text(s: &str) -> String {
    s.to_string()
}

fn ok() -> Option<Ended> {
    Some(Ended { success: true, stderr: text("") })
}

fn failed(stderr: &str) -> Option<Ended> {
    Some(Ended { success: false, stderr: text(stderr) })
}

fn udp_rule(name: &str, source: &str, port: u16, priority: i32, action: RuleAction) -> FirewallRule {
    FirewallRule {
        name: text(name),
        action,
        direction: Direction::Inbound,
        priority,
        clauses: vec![vec![FirewallMatch {
            source_ips: vec![IpNet::parse(source).unwrap()],
            dest_ips: vec![],
            port_groups: vec![PortGroup {
                protocol: FirewallProtocol::Udp,
                ports: vec![PortRange { start: port, end: port }],
            }],
        }]],
    }
}

#[test]
fn commands_enter_the_network_namespace() {
    assert_eq!(make_nsenter_cmd(&None, "nft"), vec!["nft"]);
    assert_eq!(
        make_nsenter_cmd(&Some(text("/proc/1/fd/9")), "nft"),
        vec!["/usr/bin/nsenter", "--net=/proc/1/fd/9", "--", "nft"]
    );
    assert_eq!(
        IptBackend::new().in_netns(text("/ns")).apply_command(),
        vec!["/usr/bin/nsenter", "--net=/ns", "--", "iptables-restore", "--noflush"]
    );
    assert_eq!(NftBackend::new().apply_command(), vec!["nft", "-f", "-"]);
}

#[test]
fn labels_need_both_names() {
    assert_eq!(format_workload_label(&Some(text("pod")), &Some(text("ns"))), "ns/pod");
    assert_eq!(format_workload_label(&Some(text("pod")), &None), "");
    assert_eq!(
        NftBackend::new().with_workload_info(text("pod"), text("ns")).workload_label(),
        "ns/pod"
    );
}

#[test]
fn setting_up_runs_each_command_once() {
    let backend = IptBackend::new();
    let mut step = InitStep::Create(Direction::Inbound);
    let mut commands = vec![];
    while step != InitStep::Done {
        commands.push(backend.init_command(step).join(" "));
        let ended = match step {
            InitStep::Check(_) => failed("No chain/target/match by that name"),
            _ => ok(),
        };
        step = IptBackend::do_init(step, &ended).unwrap();
    }
    assert_eq!(
        commands,
        vec![
            "iptables -t filter -N ISTIO_FW_FILTER_IN",
            "iptables -t filter -C INPUT -j ISTIO_FW_FILTER_IN",
            "iptables -t filter -I INPUT 1 -j ISTIO_FW_FILTER_IN",
            "iptables -t filter -N ISTIO_FW_FILTER_OUT",
            "iptables -t filter -C OUTPUT -j ISTIO_FW_FILTER_OUT",
            "iptables -t filter -I OUTPUT 1 -j ISTIO_FW_FILTER_OUT",
        ]
    );
}

#[test]
fn setting_up_again_changes_nothing() {
    let exists = failed("iptables: Chain already exists.");
    let step = IptBackend::do_init(InitStep::Create(Direction::Inbound), &exists).unwrap();
    assert_eq!(step, InitStep::Check(Direction::Inbound));
    let step = IptBackend::do_init(step, &ok()).unwrap();
    assert_eq!(step, InitStep::Create(Direction::Outbound));
    let step = IptBackend::do_init(step, &exists).unwrap();
    let step = IptBackend::do_init(step, &ok()).unwrap();
    assert_eq!(step, InitStep::Done);
}

#[test]
fn setting_up_says_what_failed() {
    let d = Direction::Outbound;
    assert_eq!(
        IptBackend::do_init(InitStep::Create(d), &failed("denied")),
        Err(text("Failed to create ISTIO_FW_FILTER_OUT chain: denied"))
    );
    assert_eq!(
        IptBackend::do_init(InitStep::Create(d), &None),
        Err(text("Failed to create ISTIO_FW_FILTER_OUT chain"))
    );
    assert_eq!(
        IptBackend::do_init(InitStep::Check(d), &None),
        Err(text("Failed to check ISTIO_FW_FILTER_OUT jump rule"))
    );
    assert_eq!(
        IptBackend::do_init(InitStep::Insert(d), &failed("denied")),
        Err(text("Failed to insert ISTIO_FW_FILTER_OUT jump rule: denied"))
    );
}

#[test]
fn loading_says_what_failed() {
    let ended = |success| Loaded::Ended(Ended { success, stderr: text("line 3") });
    assert_eq!(IptBackend::apply_outcome(&ended(true)), Ok(()));
    assert_eq!(
        IptBackend::apply_outcome(&ended(false)),
        Err(text("iptables-restore failed: line 3"))
    );
    assert_eq!(
        IptBackend::apply_outcome(&Loaded::NotStarted),
        Err(text("Failed to spawn iptables-restore"))
    );
    assert_eq!(
        IptBackend::apply_outcome(&Loaded::NotWritten),
        Err(text("Failed to write to iptables-restore stdin"))
    );
    assert_eq!(
        IptBackend::apply_outcome(&Loaded::TimedOut),
        Err(text("iptables-restore timed out"))
    );
    assert_eq!(
        IptBackend::apply_outcome(&Loaded::NotAwaited),
        Err(text("Failed to wait for iptables-restore"))
    );
    assert_eq!(NftBackend::apply_outcome(&ended(true)), Ok(()));
    assert_eq!(NftBackend::apply_outcome(&ended(false)), Err(text("nft apply failed: line 3")));
    assert_eq!(NftBackend::apply_outcome(&Loaded::TimedOut), Err(text("nft apply timed out")));
}

#[test]
fn cleaning_up_empties_both_chains() {
    let backend = IptBackend::new();
    assert_eq!(
        backend.cleanup_command(Direction::Inbound).join(" "),
        "iptables -t filter -F ISTIO_FW_FILTER_IN"
    );
    assert_eq!(
        IptBackend::cleanup_outcome(Direction::Inbound, &failed("gone")),
        Ok(Some(text("Failed to flush ISTIO_FW_FILTER_IN chain: gone")))
    );
    assert_eq!(IptBackend::cleanup_outcome(Direction::Inbound, &ok()), Ok(None));
    assert_eq!(
        IptBackend::cleanup_outcome(Direction::Inbound, &None),
        Err(text("Failed to flush ISTIO_FW_FILTER_IN chain"))
    );
    let backend = NftBackend::new();
    assert_eq!(
        backend.cleanup_command(Direction::Outbound).join(" "),
        "nft flush chain inet ztunnel zt_policy_output"
    );
    assert_eq!(
        NftBackend::cleanup_outcome(&failed("Error: No such file or directory")),
        Ok(None)
    );
    assert_eq!(
        NftBackend::cleanup_outcome(&failed("denied")),
        Ok(Some(text("nft cleanup warning: denied")))
    );
    assert_eq!(
        NftBackend::cleanup_outcome(&None),
        Err(text("Failed to execute nft flush"))
    );
}

#[test]
fn builder_sets_up_the_tool_that_was_found() {
    let info = WorkloadInfo {
        name: text("pod"),
        namespace: text("ns"),
        service_account: text("default"),
    };
    let found = FirewallBackend::Iptables {
        iptables_bin: text("iptables-nft"),
        restore_bin: text("iptables-nft-restore"),
    };
    let backend = BackendBuilder::new(found)
        .in_netns(text("/ns"))
        .skip_proxy_mark(77)
        .dns_proxy_enabled(true)
        .with_workload_info(&info)
        .build();
    match backend {
        Backend::Ipt(b) => {
            assert_eq!(b.workload_label(), "ns/pod");
            assert_eq!(b.apply_command()[3], "iptables-nft-restore");
            let script = b.render_ruleset(&RuleSet::default());
            assert!(script.contains("--mark 77 -j RETURN"));
            assert!(script.contains("--ctorigdstport 53"));
        }
        Backend::Nft(_) => panic!("expected iptables"),
    }
    match BackendBuilder::new(FirewallBackend::Nftables).skip_proxy_mark(77).build() {
        Backend::Nft(b) => {
            assert!(b.render_ruleset(&RuleSet::default()).contains("meta mark 77 return"));
        }
        Backend::Ipt(_) => panic!("expected nftables"),
    }
}

#[test]
fn an_inline_stage_returns_what_it_allows() {
    let rules = RuleSet {
        rules: vec![udp_rule("workload", "10.0.0.0/8", 53, 0, RuleAction::Allow)],
        inline_rules: vec![
            udp_rule("second", "10.1.0.0/16", 53, 2, RuleAction::Deny),
            udp_rule("first", "10.1.1.0/24", 53, 1, RuleAction::Allow),
        ],
        policy_attached: false,
    };
    let script = IptBackend::new().render_ruleset(&rules);
    let lines: Vec<&str> = script.lines().collect();
    assert_eq!(lines[1], ":ISTIO_FW_INLINE_IN - [0:0]");
    assert_eq!(lines[2], ":ISTIO_FW_INLINE_OUT - [0:0]");
    let at = |line: &str| lines.iter().position(|l| *l == line).expect(line);
    let jump = at("-A ISTIO_FW_FILTER_IN ! -p tcp -j ISTIO_FW_INLINE_IN");
    let first = at("-A ISTIO_FW_INLINE_IN -s 10.1.1.0/24 -p udp --dport 53 -j RETURN");
    let second = at("-A ISTIO_FW_INLINE_IN -s 10.1.0.0/16 -p udp --dport 53 -j REJECT");
    let workload = at("-A ISTIO_FW_FILTER_IN -s 10.0.0.0/8 -p udp --dport 53 -j ACCEPT");
    assert!(jump < workload);
    assert!(first < second);
    assert_eq!(
        IptBackend::render_stage_rule(&rules.rules[0], Stage::Workload),
        IptBackend::render_rule(&rules.rules[0])
    );

    let script = NftBackend::new().render_ruleset(&rules);
    let first = script.find("ip saddr 10.1.1.0/24 udp dport 53 return").unwrap();
    let second = script.find("ip saddr 10.1.0.0/16 udp dport 53 reject").unwrap();
    assert!(first < second);
    assert!(script.contains("ip saddr 10.0.0.0/8 udp dport 53 accept"));
}

#[test]
fn rendering_is_the_same_again() {
    let rules = RuleSet {
        rules: vec![udp_rule("deny-internal", "10.0.0.0/8", 80, 0, RuleAction::Deny)],
        ..Default::default()
    };
    let backend = IptBackend::new();
    assert_eq!(backend.render_ruleset(&rules), backend.render_ruleset(&rules));
    assert_eq!(backend.render_ruleset(&rules).matches("-j REJECT").count(), 1);
}
