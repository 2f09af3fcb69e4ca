//! What the firewall rules of a workload are made of, and the number that stands for
//! it: rules whose number is that of the rules in force need not be written again.

use std::collections::hash_map::DefaultHasher;
use std::hash::Hasher;

use vstd::bytes::{
    lemma_auto_spec_u64_to_from_le_bytes, spec_u64_from_le_bytes, spec_u64_to_le_bytes,
    u64_to_le_bytes,
};
use vstd::prelude::*;
use vstd::std_specs::hash::DefaultHasherAdditionalSpecFns;

use crate::net::{lemma_same_net, IpAddr, IpNet};
use crate::rbac::chain::{
    direction_content, links, rule_content, rule_contents, Attached, Link, RuleContent,
    TrafficPolicy,
};
use crate::rbac::policy::{PolicyRule, PortMatch, Protocol, Rule};
use crate::rbac::RbacAction;
use crate::text::chars_of;

verus! {

/// What a policy says of both directions.
pub type PolicyContent = (Option<Seq<RuleContent>>, Option<Seq<RuleContent>>);

/// A policy in a chain: its name, and what it says where it is there.
pub struct LinkContent {
    pub name: Seq<char>,
    pub policy: Option<PolicyContent>,
}

/// What the firewall rules of a workload are made of: its identifier, its policies,
/// and the identifier and the policy of its sandbox.
pub struct FirewallContent {
    pub uid: Seq<char>,
    pub chain: Seq<LinkContent>,
    pub sandbox: Option<(Seq<char>, Option<PolicyContent>)>,
}

/// What a policy says, where it is there.
pub open spec fn policy_content(policy: Option<TrafficPolicy>) -> Option<PolicyContent> {
    match policy {
        Some(policy) => Some(policy@),
        None => None,
    }
}

/// What a link of a chain says.
pub open spec fn link_content(link: Link) -> LinkContent {
    LinkContent { name: link.name, policy: policy_content(link.policy) }
}

/// What the links of a chain say.
pub open spec fn chain_content(chain: Seq<Link>) -> Seq<LinkContent> {
    chain.map_values(|link: Link| link_content(link))
}

/// A text in words: one more than each character, and zero at the end.
pub open spec fn text_words(s: Seq<char>) -> Seq<u64> {
    s.map_values(|c: char| (c as u64 + 1) as u64).push(0)
}

/// A list in words: a one before each of its items, and zero at the end.
pub open spec fn list_words<A>(items: Seq<A>, words: spec_fn(A) -> Seq<u64>) -> Seq<u64>
    decreases items.len(),
{
    if items.len() == 0 {
        seq![0]
    } else {
        seq![1u64] + words(items[0]) + list_words(items.drop_first(), words)
    }
}

/// An address in words: its family, and its number.
pub open spec fn address_words(addr: IpAddr) -> Seq<u64> {
    match addr {
        IpAddr::V4(ip) => seq![4, ip as u64],
        IpAddr::V6(ip) => seq![
            6,
            (ip / 0x1_0000_0000_0000_0000) as u64,
            (ip % 0x1_0000_0000_0000_0000) as u64,
        ],
    }
}

/// A network in words.
pub open spec fn net_words(net: IpNet) -> Seq<u64> {
    address_words(net.spec_addr()) + seq![net.spec_prefix_len() as u64]
}

/// Networks in words.
pub open spec fn nets_words(nets: Seq<IpNet>) -> Seq<u64> {
    list_words(nets, |net: IpNet| net_words(net))
}

/// A protocol as a word.
pub open spec fn protocol_word(protocol: Protocol) -> u64 {
    match protocol {
        Protocol::All => 0,
        Protocol::Tcp => 1,
        Protocol::Udp => 2,
        Protocol::Icmp => 3,
        Protocol::Sctp => 4,
    }
}

/// Ports of one protocol in words.
pub open spec fn port_words(port: PortMatch) -> Seq<u64> {
    match port.range {
        Some(range) => seq![
            protocol_word(port.protocol),
            1,
            range.start as u64,
            range.end as u64,
        ],
        None => seq![protocol_word(port.protocol), 0],
    }
}

/// Ports in words.
pub open spec fn ports_words(ports: Seq<PortMatch>) -> Seq<u64> {
    list_words(ports, |port: PortMatch| port_words(port))
}

/// An action as a word.
pub open spec fn action_word(action: RbacAction) -> u64 {
    match action {
        RbacAction::Allow => 0,
        RbacAction::Deny => 1,
    }
}

/// A rule in words.
pub open spec fn rule_words(rule: RuleContent) -> Seq<u64> {
    seq![action_word(rule.action)] + nets_words(rule.source_ips) + nets_words(rule.destination_ips)
        + ports_words(rule.ports)
}

/// Rules in words.
pub open spec fn rules_words(rules: Seq<RuleContent>) -> Seq<u64> {
    list_words(rules, |rule: RuleContent| rule_words(rule))
}

/// The rules of a direction in words: zero where it has none of its own.
pub open spec fn direction_words(rules: Option<Seq<RuleContent>>) -> Seq<u64> {
    match rules {
        Some(rules) => seq![1u64] + rules_words(rules),
        None => seq![0],
    }
}

/// A policy in words: zero where it is not there.
pub open spec fn policy_words(policy: Option<PolicyContent>) -> Seq<u64> {
    match policy {
        Some(policy) => seq![1u64] + direction_words(policy.0) + direction_words(policy.1),
        None => seq![0],
    }
}

/// A link of a chain in words.
pub open spec fn link_words(link: LinkContent) -> Seq<u64> {
    text_words(link.name) + policy_words(link.policy)
}

/// A chain in words.
pub open spec fn chain_words(chain: Seq<LinkContent>) -> Seq<u64> {
    list_words(chain, |link: LinkContent| link_words(link))
}

/// A sandbox in words: zero where there is none.
pub open spec fn sandbox_words(sandbox: Option<(Seq<char>, Option<PolicyContent>)>) -> Seq<u64> {
    match sandbox {
        Some(sandbox) => seq![1u64] + text_words(sandbox.0) + policy_words(sandbox.1),
        None => seq![0],
    }
}

/// What rules are made of, in words.
pub open spec fn content_words(content: FirewallContent) -> Seq<u64> {
    text_words(content.uid) + chain_words(content.chain) + sandbox_words(content.sandbox)
}

/// Words as they are handed to a hasher: each in eight bytes, the lowest first.
pub open spec fn pieces(words: Seq<u64>) -> Seq<Seq<u8>> {
    words.map_values(|word: u64| spec_u64_to_le_bytes(word))
}

/// The number that stands for what rules are made of.
pub open spec fn content_number(content: FirewallContent) -> u64 {
    DefaultHasher::spec_finish(pieces(content_words(content)))
}

fn char_number(c: char) -> (r: u64)
    ensures
        r == (c as u64 + 1) as u64,
{
    c as u64 + 1
}

fn push_text(out: &mut Vec<u64>, text: &str)
    ensures
        final(out)@ == old(out)@ + text_words(text@),
{
    let ghost start = out@;
    let chars: Vec<char> = chars_of(text);
    let mut i: usize = 0;
    while i < chars.len()
        invariant
            i <= chars@.len(),
            chars@ == text@,
            out@ == start + text_words(text@).take(i as int),
        decreases chars@.len() - i,
    {
        let ghost before = out@;
        let word: u64 = char_number(chars[i]);
        out.push(word);
        assert(text_words(text@).take(i + 1) =~= text_words(text@).take(i as int).push(word));
        assert(out@ =~= start + text_words(text@).take(i + 1));
        i = i + 1;
    }
    out.push(0);
    assert(out@ =~= start + text_words(text@));
}

fn push_address(out: &mut Vec<u64>, addr: IpAddr)
    ensures
        final(out)@ == old(out)@ + address_words(addr),
{
    let ghost start = out@;
    match addr {
        IpAddr::V4(ip) => {
            out.push(4);
            out.push(ip as u64);
        },
        IpAddr::V6(ip) => {
            out.push(6);
            out.push((ip / 0x1_0000_0000_0000_0000) as u64);
            out.push((ip % 0x1_0000_0000_0000_0000) as u64);
        },
    }
    assert(out@ =~= start + address_words(addr));
}

fn push_nets(out: &mut Vec<u64>, nets: &Vec<IpNet>)
    ensures
        final(out)@ == old(out)@ + nets_words(nets@),
{
    let ghost start = out@;
    assert(nets@.skip(0) =~= nets@);
    let mut i: usize = 0;
    while i < nets.len()
        invariant
            i <= nets@.len(),
            out@ + nets_words(nets@.skip(i as int)) == start + nets_words(nets@),
        decreases nets@.len() - i,
    {
        let ghost before = out@;
        let ghost rest = nets@.skip(i as int);
        assert(rest.drop_first() =~= nets@.skip(i + 1));
        out.push(1);
        push_address(out, nets[i].addr());
        out.push(nets[i].prefix_len() as u64);
        assert(out@ =~= before + (seq![1u64] + net_words(rest[0])));
        assert(out@ + nets_words(nets@.skip(i + 1)) =~= before + nets_words(rest));
        i = i + 1;
    }
    let ghost before = out@;
    out.push(0);
    assert(nets_words(nets@.skip(i as int)) =~= seq![0u64]);
    assert(out@ =~= before + seq![0u64]);
}

fn protocol_number(protocol: Protocol) -> (r: u64)
    ensures
        r == protocol_word(protocol),
{
    match protocol {
        Protocol::All => 0,
        Protocol::Tcp => 1,
        Protocol::Udp => 2,
        Protocol::Icmp => 3,
        Protocol::Sctp => 4,
    }
}

fn push_ports(out: &mut Vec<u64>, ports: &Vec<PortMatch>)
    ensures
        final(out)@ == old(out)@ + ports_words(ports@),
{
    let ghost start = out@;
    assert(ports@.skip(0) =~= ports@);
    let mut i: usize = 0;
    while i < ports.len()
        invariant
            i <= ports@.len(),
            out@ + ports_words(ports@.skip(i as int)) == start + ports_words(ports@),
        decreases ports@.len() - i,
    {
        let ghost before = out@;
        let ghost rest = ports@.skip(i as int);
        assert(rest.drop_first() =~= ports@.skip(i + 1));
        out.push(1);
        out.push(protocol_number(ports[i].protocol));
        match ports[i].range {
            Some(range) => {
                out.push(1);
                out.push(range.start as u64);
                out.push(range.end as u64);
            },
            None => {
                out.push(0);
            },
        }
        assert(out@ =~= before + (seq![1u64] + port_words(rest[0])));
        assert(out@ + ports_words(ports@.skip(i + 1)) =~= before + ports_words(rest));
        i = i + 1;
    }
    let ghost before = out@;
    out.push(0);
    assert(ports_words(ports@.skip(i as int)) =~= seq![0u64]);
    assert(out@ =~= before + seq![0u64]);
}

fn push_rule(out: &mut Vec<u64>, rule: &Rule)
    ensures
        final(out)@ == old(out)@ + rule_words(rule_content(*rule)),
{
    let ghost start = out@;
    out.push(
        match rule.action {
            RbacAction::Allow => 0,
            RbacAction::Deny => 1,
        },
    );
    push_nets(out, &rule.source_ips);
    push_nets(out, &rule.destination_ips);
    push_ports(out, &rule.ports);
    assert(out@ =~= start + rule_words(rule_content(*rule)));
}

fn push_direction(out: &mut Vec<u64>, rules: &Option<PolicyRule>)
    ensures
        final(out)@ == old(out)@ + direction_words(direction_content(*rules)),
{
    let ghost start = out@;
    match rules {
        None => {
            out.push(0);
            assert(out@ =~= start + seq![0u64]);
        },
        Some(direction) => {
            out.push(1);
            let rules: &Vec<Rule> = &direction.rules;
            let ghost all = rule_contents(rules@);
            let ghost head = out@;
            assert(all.skip(0) =~= all);
            let mut i: usize = 0;
            while i < rules.len()
                invariant
                    i <= rules@.len(),
                    all == rule_contents(rules@),
                    out@ + rules_words(all.skip(i as int)) == head + rules_words(all),
                decreases rules@.len() - i,
            {
                let ghost before = out@;
                let ghost rest = all.skip(i as int);
                assert(rest.drop_first() =~= all.skip(i + 1));
                out.push(1);
                push_rule(out, &rules[i]);
                assert(rest[0] == rule_content(rules@[i as int]));
                assert(out@ =~= before + (seq![1u64] + rule_words(rest[0])));
                assert(out@ + rules_words(all.skip(i + 1)) =~= before + rules_words(rest));
                i = i + 1;
            }
            let ghost before = out@;
            out.push(0);
            assert(rules_words(all.skip(i as int)) =~= seq![0u64]);
            assert(out@ =~= before + seq![0u64]);
            assert(out@ =~= start + (seq![1u64] + rules_words(all)));
        },
    }
}

fn push_policy(out: &mut Vec<u64>, policy: Option<&TrafficPolicy>)
    ensures
        final(out)@ == old(out)@ + policy_words(
            match policy {
                Some(policy) => Some(policy@),
                None => None,
            },
        ),
{
    let ghost start = out@;
    match policy {
        None => {
            out.push(0);
            assert(out@ =~= start + seq![0u64]);
        },
        Some(policy) => {
            out.push(1);
            push_direction(out, &policy.ingress);
            push_direction(out, &policy.egress);
            assert(out@ =~= start + policy_words(Some(policy@)));
        },
    }
}

fn push_chain<'a>(out: &mut Vec<u64>, chain: &Vec<Attached<'a>>)
    ensures
        final(out)@ == old(out)@ + chain_words(chain_content(links(chain@))),
{
    let ghost all = chain_content(links(chain@));
    let ghost start = out@;
    assert(all.skip(0) =~= all);
    let mut i: usize = 0;
    while i < chain.len()
        invariant
            i <= chain@.len(),
            all == chain_content(links(chain@)),
            out@ + chain_words(all.skip(i as int)) == start + chain_words(all),
        decreases chain@.len() - i,
    {
        let ghost before = out@;
        let ghost rest = all.skip(i as int);
        assert(rest.drop_first() =~= all.skip(i + 1));
        out.push(1);
        push_text(out, chain[i].name);
        push_policy(out, chain[i].policy);
        assert(rest[0] == link_content(chain@[i as int]@));
        assert(out@ =~= before + (seq![1u64] + link_words(rest[0])));
        assert(out@ + chain_words(all.skip(i + 1)) =~= before + chain_words(rest));
        i = i + 1;
    }
    let ghost before = out@;
    out.push(0);
    assert(chain_words(all.skip(i as int)) =~= seq![0u64]);
    assert(out@ =~= before + seq![0u64]);
}

/// The number of the words.
fn words_number(words: &Vec<u64>) -> (r: u64)
    ensures
        r == DefaultHasher::spec_finish(pieces(words@)),
{
    let mut hasher: DefaultHasher = DefaultHasher::new();
    assert(hasher@ =~= pieces(words@.take(0)));
    let mut i: usize = 0;
    while i < words.len()
        invariant
            i <= words@.len(),
            hasher@ == pieces(words@.take(i as int)),
        decreases words@.len() - i,
    {
        let bytes: Vec<u8> = u64_to_le_bytes(words[i]);
        hasher.write(bytes.as_slice());
        assert(hasher@ =~= pieces(words@.take(i + 1)));
        i = i + 1;
    }
    assert(words@.take(i as int) =~= words@);
    hasher.finish()
}

/// The number that stands for a workload, its policies, and the identifier and the
/// policy of its sandbox.
pub fn firewall_number<'a>(
    uid: &str,
    chain: &Vec<Attached<'a>>,
    sandbox: Option<(&str, Option<&TrafficPolicy>)>,
) -> (r: u64)
    ensures
        r == content_number(
            (FirewallContent {
                uid: uid@,
                chain: chain_content(links(chain@)),
                sandbox: match sandbox {
                    Some((id, policy)) => Some(
                        (
                            id@,
                            match policy {
                                Some(policy) => Some(policy@),
                                None => None,
                            },
                        ),
                    ),
                    None => None,
                },
            }),
        ),
{
    let mut words: Vec<u64> = Vec::new();
    push_text(&mut words, uid);
    push_chain(&mut words, chain);
    match sandbox {
        Some((id, policy)) => {
            let ghost before = words@;
            words.push(1);
            push_text(&mut words, id);
            push_policy(&mut words, policy);
            assert(words@ =~= before + sandbox_words(
                Some(
                    (
                        id@,
                        match policy {
                            Some(policy) => Some(policy@),
                            None => None,
                        },
                    ),
                ),
            ));
        },
        None => {
            let ghost before = words@;
            words.push(0);
            assert(words@ =~= before + sandbox_words(None));
        },
    }
    assert(words@ =~= text_words(uid@) + chain_words(chain_content(links(chain@))) + sandbox_words(
        match sandbox {
            Some((id, policy)) => Some(
                (
                    id@,
                    match policy {
                        Some(policy) => Some(policy@),
                        None => None,
                    },
                ),
            ),
            None => None,
        },
    ));
    words_number(&words)
}

/// No two values share the start of their words: what follows them is told from them.
pub open spec fn tells_apart<A>(words: spec_fn(A) -> Seq<u64>) -> bool {
    forall|a: A, b: A, s: Seq<u64>, t: Seq<u64>| #[trigger]
        (words(a) + s) == #[trigger] (words(b) + t) ==> a == b && s == t
}

proof fn lemma_char_number(a: char, b: char)
    ensures
        (a as u64 + 1) as u64 != 0,
        (a as u64 + 1) as u64 == (b as u64 + 1) as u64 ==> a == b,
{
}

proof fn lemma_text_words(a: Seq<char>, b: Seq<char>, s: Seq<u64>, t: Seq<u64>)
    requires
        text_words(a) + s == text_words(b) + t,
    ensures
        a == b,
        s == t,
{
    let x = text_words(a) + s;
    let y = text_words(b) + t;
    if a.len() < b.len() {
        assert(x[a.len() as int] == 0);
        assert(y[a.len() as int] == (b[a.len() as int] as u64 + 1) as u64);
        lemma_char_number(b[a.len() as int], 'a');
    } else if b.len() < a.len() {
        assert(y[b.len() as int] == 0);
        assert(x[b.len() as int] == (a[b.len() as int] as u64 + 1) as u64);
        lemma_char_number(a[b.len() as int], 'a');
    }
    assert forall|i: int| 0 <= i < a.len() implies a[i] == b[i] by {
        assert(x[i] == (a[i] as u64 + 1) as u64);
        assert(y[i] == (b[i] as u64 + 1) as u64);
        lemma_char_number(a[i], b[i]);
    }
    assert(a =~= b);
    assert(x.skip((a.len() + 1) as int) =~= s);
    assert(y.skip((a.len() + 1) as int) =~= t);
}

proof fn lemma_list_words<A>(
    a: Seq<A>,
    b: Seq<A>,
    words: spec_fn(A) -> Seq<u64>,
    s: Seq<u64>,
    t: Seq<u64>,
)
    requires
        tells_apart(words),
        list_words(a, words) + s == list_words(b, words) + t,
    ensures
        a == b,
        s == t,
    decreases a.len(),
{
    let x = list_words(a, words) + s;
    let y = list_words(b, words) + t;
    if a.len() == 0 || b.len() == 0 {
        assert(x[0] == if a.len() == 0 {
            0u64
        } else {
            1u64
        });
        assert(y[0] == if b.len() == 0 {
            0u64
        } else {
            1u64
        });
        assert(a =~= b);
        assert(x.skip(1) =~= s);
        assert(y.skip(1) =~= t);
    } else {
        let u = list_words(a.drop_first(), words) + s;
        let v = list_words(b.drop_first(), words) + t;
        assert(x.skip(1) =~= words(a[0]) + u);
        assert(y.skip(1) =~= words(b[0]) + v);
        assert(u == v);
        lemma_list_words(a.drop_first(), b.drop_first(), words, s, t);
        assert(a =~= seq![a[0]] + a.drop_first());
        assert(b =~= seq![b[0]] + b.drop_first());
    }
}

proof fn lemma_net_words(a: IpNet, b: IpNet, s: Seq<u64>, t: Seq<u64>)
    requires
        net_words(a) + s == net_words(b) + t,
    ensures
        a == b,
        s == t,
{
    let x = net_words(a) + s;
    let y = net_words(b) + t;
    let n: int = net_words(a).len() as int;
    assert(x[0] == address_words(a.spec_addr())[0]);
    assert(y[0] == address_words(b.spec_addr())[0]);
    assert(x[1] == address_words(a.spec_addr())[1]);
    assert(y[1] == address_words(b.spec_addr())[1]);
    assert(n == net_words(b).len());
    assert(x[n - 1] == a.spec_prefix_len() as u64);
    assert(y[n - 1] == b.spec_prefix_len() as u64);
    match (a.spec_addr(), b.spec_addr()) {
        (IpAddr::V6(p), IpAddr::V6(q)) => {
            assert(x[2] == (p % 0x1_0000_0000_0000_0000) as u64);
            assert(y[2] == (q % 0x1_0000_0000_0000_0000) as u64);
            assert(p / 0x1_0000_0000_0000_0000 == q / 0x1_0000_0000_0000_0000);
            assert(p == q);
        },
        _ => {},
    }
    lemma_same_net(a, b);
    assert(x.skip(n) =~= s);
    assert(y.skip(n) =~= t);
}

proof fn lemma_port_words(a: PortMatch, b: PortMatch, s: Seq<u64>, t: Seq<u64>)
    requires
        port_words(a) + s == port_words(b) + t,
    ensures
        a == b,
        s == t,
{
    let x = port_words(a) + s;
    let y = port_words(b) + t;
    let n: int = port_words(a).len() as int;
    assert(x[0] == protocol_word(a.protocol));
    assert(y[0] == protocol_word(b.protocol));
    assert(x[1] == port_words(a)[1]);
    assert(y[1] == port_words(b)[1]);
    assert(n == port_words(b).len());
    if a.range is Some {
        assert(x[2] == port_words(a)[2]);
        assert(y[2] == port_words(b)[2]);
        assert(x[3] == port_words(a)[3]);
        assert(y[3] == port_words(b)[3]);
    }
    assert(x.skip(n) =~= s);
    assert(y.skip(n) =~= t);
}

proof fn lemma_nets_words(a: Seq<IpNet>, b: Seq<IpNet>, s: Seq<u64>, t: Seq<u64>)
    requires
        nets_words(a) + s == nets_words(b) + t,
    ensures
        a == b,
        s == t,
{
    let words = |net: IpNet| net_words(net);
    assert forall|p: IpNet, q: IpNet, u: Seq<u64>, v: Seq<u64>| #[trigger]
        (words(p) + u) == #[trigger] (words(q) + v) implies p == q && u == v by {
        lemma_net_words(p, q, u, v);
    }
    assert(nets_words(a) == list_words(a, words));
    lemma_list_words(a, b, words, s, t);
}

proof fn lemma_ports_words(a: Seq<PortMatch>, b: Seq<PortMatch>, s: Seq<u64>, t: Seq<u64>)
    requires
        ports_words(a) + s == ports_words(b) + t,
    ensures
        a == b,
        s == t,
{
    let words = |port: PortMatch| port_words(port);
    assert forall|p: PortMatch, q: PortMatch, u: Seq<u64>, v: Seq<u64>| #[trigger]
        (words(p) + u) == #[trigger] (words(q) + v) implies p == q && u == v by {
        lemma_port_words(p, q, u, v);
    }
    assert(ports_words(a) == list_words(a, words));
    lemma_list_words(a, b, words, s, t);
}

proof fn lemma_behind(head: u64, a: Seq<u64>, b: Seq<u64>, s: Seq<u64>)
    ensures
        (seq![head] + a + b + s).skip(1) == a + (b + s),
        (seq![head] + a + b + s)[0] == head,
{
    assert((seq![head] + a + b + s).skip(1) =~= a + (b + s));
}

proof fn lemma_far_behind(head: u64, a: Seq<u64>, b: Seq<u64>, c: Seq<u64>, s: Seq<u64>)
    ensures
        (seq![head] + a + b + c + s).skip(1) == a + (b + (c + s)),
        (seq![head] + a + b + c + s)[0] == head,
{
    assert((seq![head] + a + b + c + s).skip(1) =~= a + (b + (c + s)));
}

proof fn lemma_rule_words(a: RuleContent, b: RuleContent, s: Seq<u64>, t: Seq<u64>)
    requires
        rule_words(a) + s == rule_words(b) + t,
    ensures
        a == b,
        s == t,
{
    let (a1, a2, a3) = (
        nets_words(a.source_ips),
        nets_words(a.destination_ips),
        ports_words(a.ports),
    );
    let (b1, b2, b3) = (
        nets_words(b.source_ips),
        nets_words(b.destination_ips),
        ports_words(b.ports),
    );
    lemma_far_behind(action_word(a.action), a1, a2, a3, s);
    lemma_far_behind(action_word(b.action), b1, b2, b3, t);
    lemma_nets_words(a.source_ips, b.source_ips, a2 + (a3 + s), b2 + (b3 + t));
    lemma_nets_words(a.destination_ips, b.destination_ips, a3 + s, b3 + t);
    lemma_ports_words(a.ports, b.ports, s, t);
}

proof fn lemma_direction_words(
    a: Option<Seq<RuleContent>>,
    b: Option<Seq<RuleContent>>,
    s: Seq<u64>,
    t: Seq<u64>,
)
    requires
        direction_words(a) + s == direction_words(b) + t,
    ensures
        a == b,
        s == t,
{
    let x = direction_words(a) + s;
    let y = direction_words(b) + t;
    assert(x[0] == direction_words(a)[0]);
    assert(y[0] == direction_words(b)[0]);
    match (a, b) {
        (Some(p), Some(q)) => {
            assert(x.skip(1) =~= rules_words(p) + s);
            assert(y.skip(1) =~= rules_words(q) + t);
            let words = |rule: RuleContent| rule_words(rule);
            assert forall|m: RuleContent, n: RuleContent, u: Seq<u64>, v: Seq<u64>| #[trigger]
                (words(m) + u) == #[trigger] (words(n) + v) implies m == n && u == v by {
                lemma_rule_words(m, n, u, v);
            }
            assert(rules_words(p) == list_words(p, words));
            lemma_list_words(p, q, words, s, t);
        },
        _ => {
            assert(x.skip(1) =~= s);
            assert(y.skip(1) =~= t);
        },
    }
}

proof fn lemma_policy_words(
    a: Option<PolicyContent>,
    b: Option<PolicyContent>,
    s: Seq<u64>,
    t: Seq<u64>,
)
    requires
        policy_words(a) + s == policy_words(b) + t,
    ensures
        a == b,
        s == t,
{
    if let Some(p) = a {
        lemma_behind(1, direction_words(p.0), direction_words(p.1), s);
    } else {
        assert((policy_words(a) + s).skip(1) =~= s);
    }
    if let Some(q) = b {
        lemma_behind(1, direction_words(q.0), direction_words(q.1), t);
    } else {
        assert((policy_words(b) + t).skip(1) =~= t);
    }
    assert((policy_words(a) + s)[0] == (policy_words(b) + t)[0]);
    match (a, b) {
        (Some(p), Some(q)) => {
            lemma_direction_words(
                p.0,
                q.0,
                direction_words(p.1) + s,
                direction_words(q.1) + t,
            );
            lemma_direction_words(p.1, q.1, s, t);
        },
        _ => {},
    }
}

proof fn lemma_chain_words(
    a: Seq<LinkContent>,
    b: Seq<LinkContent>,
    s: Seq<u64>,
    t: Seq<u64>,
)
    requires
        chain_words(a) + s == chain_words(b) + t,
    ensures
        a == b,
        s == t,
{
    let words = |link: LinkContent| link_words(link);
    assert forall|p: LinkContent, q: LinkContent, u: Seq<u64>, v: Seq<u64>| #[trigger]
        (words(p) + u) == #[trigger] (words(q) + v) implies p == q && u == v by {
        let m = policy_words(p.policy) + u;
        let n = policy_words(q.policy) + v;
        assert(words(p) + u =~= text_words(p.name) + m);
        assert(words(q) + v =~= text_words(q.name) + n);
        lemma_text_words(p.name, q.name, m, n);
        lemma_policy_words(p.policy, q.policy, u, v);
    }
    assert(chain_words(a) == list_words(a, words));
    lemma_list_words(a, b, words, s, t);
}

/// A hasher is handed different pieces for different contents: whatever changes in
/// the workload's identifier, its policies, their names or their order, or in its
/// sandbox, goes into the number.
pub proof fn law_every_change_is_hashed(a: FirewallContent, b: FirewallContent)
    requires
        pieces(content_words(a)) == pieces(content_words(b)),
    ensures
        a == b,
{
    let x = content_words(a);
    let y = content_words(b);
    lemma_auto_spec_u64_to_from_le_bytes();
    assert(x.len() == pieces(x).len() && y.len() == pieces(y).len());
    assert forall|i: int| 0 <= i < x.len() implies x[i] == y[i] by {
        assert(pieces(x)[i] == spec_u64_to_le_bytes(x[i]));
        assert(pieces(y)[i] == spec_u64_to_le_bytes(y[i]));
        assert(spec_u64_from_le_bytes(spec_u64_to_le_bytes(x[i])) == x[i]);
    }
    assert(x =~= y);
    let a2 = sandbox_words(a.sandbox);
    let b2 = sandbox_words(b.sandbox);
    let a1 = chain_words(a.chain) + a2;
    let b1 = chain_words(b.chain) + b2;
    assert(x =~= text_words(a.uid) + a1);
    assert(y =~= text_words(b.uid) + b1);
    lemma_text_words(a.uid, b.uid, a1, b1);
    lemma_chain_words(a.chain, b.chain, a2, b2);
    assert(a2[0] == b2[0]);
    match (a.sandbox, b.sandbox) {
        (Some(p), Some(q)) => {
            let none = Seq::<u64>::empty();
            let u = policy_words(p.1) + none;
            let v = policy_words(q.1) + none;
            assert(a2.skip(1) =~= text_words(p.0) + u);
            assert(b2.skip(1) =~= text_words(q.0) + v);
            lemma_text_words(p.0, q.0, u, v);
            lemma_policy_words(p.1, q.1, none, none);
        },
        _ => {},
    }
}

} // verus!
