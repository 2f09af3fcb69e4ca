//! What stands in a whole script for nftables: its chains and its sets, each found by the
//! line that opens it.

use vstd::prelude::*;

use super::nft::{
    bypass_lines, chains_of, declared_sets, default_deny, detour, indented, inline_chains,
    law_set_names_are_unique, ruleset_lines, script, set_lines, sets_lines, NftConfig, SetModel,
};
use super::super::types::RuleSet;
use crate::text::{decimal, joined, law_split_of_one, law_split_of_two, split};

verus! {

/// The lines up to the one that closes a chain or a set.
pub open spec fn up_to_end(lines: Seq<Seq<char>>) -> Seq<Seq<char>>
    decreases lines.len(),
{
    if lines.len() == 0 || lines[0] == "  }"@ {
        Seq::empty()
    } else {
        seq![lines[0]] + up_to_end(lines.drop_first())
    }
}

/// What stands in the first chain or set that the line opens.
pub open spec fn opened_by(lines: Seq<Seq<char>>, head: Seq<char>) -> Seq<Seq<char>>
    decreases lines.len(),
{
    if lines.len() == 0 {
        Seq::empty()
    } else if lines[0] == head {
        up_to_end(lines.drop_first())
    } else {
        opened_by(lines.drop_first(), head)
    }
}

/// The lines, each as a line of a chain.
pub open spec fn in_chain(lines: Seq<Seq<char>>) -> Seq<Seq<char>> {
    Seq::new(lines.len(), |i: int| "    "@ + lines[i])
}

/// Whether no line is this one.
spec fn none_is(lines: Seq<Seq<char>>, head: Seq<char>) -> bool {
    forall|i: int| 0 <= i < lines.len() ==> #[trigger] lines[i] != head
}

proof fn lemma_none_add(a: Seq<Seq<char>>, b: Seq<Seq<char>>, head: Seq<char>)
    requires
        none_is(a, head),
        none_is(b, head),
    ensures
        none_is(a + b, head),
{
    assert forall|i: int| 0 <= i < (a + b).len() implies #[trigger] (a + b)[i] != head by {
        if i < a.len() {
            assert((a + b)[i] == a[i]);
        } else {
            assert((a + b)[i] == b[i - a.len()]);
        }
    }
}

proof fn lemma_up_to_end(body: Seq<Seq<char>>, rest: Seq<Seq<char>>)
    requires
        none_is(body, "  }"@),
    ensures
        up_to_end(body + seq!["  }"@] + rest) == body,
    decreases body.len(),
{
    let all = body + seq!["  }"@] + rest;
    if body.len() == 0 {
        assert(all[0] == "  }"@);
        assert(up_to_end(all) =~= body);
    } else {
        let short = body.drop_first();
        assert forall|i: int| 0 <= i < short.len() implies #[trigger] short[i] != "  }"@ by {
            assert(short[i] == body[i + 1]);
        }
        lemma_up_to_end(short, rest);
        assert(all.drop_first() =~= short + seq!["  }"@] + rest);
        assert(all[0] == body[0]);
        assert(body =~= seq![body[0]] + short);
    }
}

proof fn lemma_opened(
    before: Seq<Seq<char>>,
    head: Seq<char>,
    body: Seq<Seq<char>>,
    rest: Seq<Seq<char>>,
)
    requires
        none_is(before, head),
        none_is(body, "  }"@),
    ensures
        opened_by(before + seq![head] + body + seq!["  }"@] + rest, head) == body,
    decreases before.len(),
{
    let all = before + seq![head] + body + seq!["  }"@] + rest;
    if before.len() == 0 {
        assert(all[0] == head);
        assert(all.drop_first() =~= body + seq!["  }"@] + rest);
        lemma_up_to_end(body, rest);
    } else {
        let short = before.drop_first();
        assert forall|i: int| 0 <= i < short.len() implies #[trigger] short[i] != head by {
            assert(short[i] == before[i + 1]);
        }
        lemma_opened(short, head, body, rest);
        assert(all[0] == before[0]);
        assert(all.drop_first() =~= short + seq![head] + body + seq!["  }"@] + rest);
    }
}

/// Lines of a chain are no line that opens or closes one.
proof fn lemma_in_chain(lines: Seq<Seq<char>>, head: Seq<char>)
    requires
        head.len() >= 3,
        head[2] != ' ',
    ensures
        indented(lines) == in_chain(lines),
        none_is(in_chain(lines), head),
{
    reveal_strlit("    ");
    assert(indented(lines) =~= in_chain(lines));
    assert forall|i: int| 0 <= i < in_chain(lines).len() implies #[trigger] in_chain(lines)[i]
        != head by {
        assert(in_chain(lines)[i] == "    "@ + lines[i]);
        assert(("    "@ + lines[i])[2] == ' ');
    }
}

proof fn lemma_ends()
    ensures
        "  }"@.len() == 3,
        "  }"@[2] == '}',
{
    reveal_strlit("  }");
}

/// Declarations of sets open no chain.
proof fn lemma_sets_open_no_chain(sets: Seq<SetModel>, head: Seq<char>)
    requires
        head.len() >= 3,
        head[2] == 'c',
    ensures
        none_is(sets_lines(sets), head),
    decreases sets.len(),
{
    if sets.len() > 0 {
        lemma_sets_open_no_chain(sets.drop_last(), head);
        lemma_set_lines(sets.last());
        lemma_none_add(sets_lines(sets.drop_last()), set_lines(sets.last()), head);
    }
}

proof fn lemma_set_lines(set: SetModel)
    ensures
        set_lines(set).len() == 5,
        set_lines(set)[0] == "  set "@ + set.name + " {"@,
        set_lines(set)[0].len() >= 3 && set_lines(set)[0][2] == 's',
        set_lines(set)[1].len() >= 3 && set_lines(set)[1][2] == ' ',
        set_lines(set)[2].len() >= 3 && set_lines(set)[2][2] == ' ',
        set_lines(set)[3].len() >= 3 && set_lines(set)[3][2] == ' ',
        set_lines(set)[4] == "  }"@,
        "  }"@.len() == 3 && "  }"@[2] == '}',
        set_lines(set) == seq![
            "  set "@ + set.name + " {"@,
            if set.is_v4 {
                "    type ipv4_addr"@
            } else {
                "    type ipv6_addr"@
            },
            "    flags interval"@,
            "    elements = { "@ + joined(set.elements, ", "@) + " }"@,
            "  }"@,
        ],
{
    lemma_ends();
    reveal_strlit("  set ");
    reveal_strlit("    type ipv4_addr");
    reveal_strlit("    type ipv6_addr");
    reveal_strlit("    flags interval");
    reveal_strlit("    elements = { ");
    let line = "    elements = { "@ + joined(set.elements, ", "@) + " }"@;
    assert(line[2] == "    elements = { "@[2]);
    let first = "  set "@ + set.name + " {"@;
    assert(first[2] == "  set "@[2]);
}

/// The lines before the chains.
spec fn opening(ruleset: RuleSet) -> Seq<Seq<char>> {
    seq!["add table inet ztunnel"@, "delete table inet ztunnel"@, "table inet ztunnel {"@]
        + sets_lines(declared_sets(ruleset))
}

proof fn lemma_opening(ruleset: RuleSet, head: Seq<char>)
    requires
        head.len() >= 3,
        head[2] == 'c',
    ensures
        none_is(opening(ruleset), head),
{
    reveal_strlit("add table inet ztunnel");
    reveal_strlit("delete table inet ztunnel");
    reveal_strlit("table inet ztunnel {");
    let three = seq![
        "add table inet ztunnel"@,
        "delete table inet ztunnel"@,
        "table inet ztunnel {"@,
    ];
    assert(three[0][2] == 'd' && three[1][2] == 'l' && three[2][2] == 'b');
    assert(none_is(three, head));
    lemma_sets_open_no_chain(declared_sets(ruleset), head);
    lemma_none_add(three, sets_lines(declared_sets(ruleset)), head);
}

/// What stands in a chain of the workload: what passes before any rule, the way to the
/// stage before, the rules, and the refusal of the rest.
spec fn body(
    guards: Seq<Seq<char>>,
    inline: bool,
    jump: Seq<char>,
    rules: Seq<Seq<char>>,
    attached: bool,
) -> Seq<Seq<char>> {
    guards + detour(inline, jump) + in_chain(rules) + default_deny(attached)
}

proof fn lemma_guards()
    ensures
        forall|i: int|
            0 <= i < 3 ==> (#[trigger] input_guards()[i]).len() >= 3 && input_guards()[i][2] == ' ',
        forall|mark: Option<u32>, i: int|
            0 <= i < output_guards(mark).len() ==> (#[trigger] output_guards(mark)[i]).len() >= 3
                && output_guards(mark)[i][2] == ' ',
        "    meta l4proto != tcp jump zt_inline_input"@.len() >= 3
            && "    meta l4proto != tcp jump zt_inline_input"@[2] == ' ',
        "    meta l4proto != tcp jump zt_inline_output"@.len() >= 3
            && "    meta l4proto != tcp jump zt_inline_output"@[2] == ' ',
        "    meta l4proto != tcp reject"@.len() >= 3 && "    meta l4proto != tcp reject"@[2] == ' ',
{
    reveal_strlit("    type filter hook input priority -150; policy accept;");
    reveal_strlit("    type filter hook output priority -150; policy accept;");
    reveal_strlit("    ct state established,related accept");
    reveal_strlit("    iif lo accept");
    reveal_strlit("    oif lo accept");
    reveal_strlit("    meta mark ");
    reveal_strlit("    meta skuid 1337 return");
    reveal_strlit("    meta skgid 1337 return");
    reveal_strlit("    meta l4proto != tcp jump zt_inline_input");
    reveal_strlit("    meta l4proto != tcp jump zt_inline_output");
    reveal_strlit("    meta l4proto != tcp reject");
    assert forall|mark: Option<u32>, i: int|
        0 <= i < output_guards(mark).len() implies (#[trigger] output_guards(mark)[i]).len() >= 3
        && output_guards(mark)[i][2] == ' ' by {
        if let Some(m) = mark {
            let line = "    meta mark "@ + decimal(m as nat) + " return"@;
            assert(line[2] == "    meta mark "@[2]);
        }
    }
}

spec fn input_guards() -> Seq<Seq<char>> {
    seq![
        "    type filter hook input priority -150; policy accept;"@,
        "    ct state established,related accept"@,
        "    iif lo accept"@,
    ]
}

spec fn output_guards(mark: Option<u32>) -> Seq<Seq<char>> {
    seq![
        "    type filter hook output priority -150; policy accept;"@,
        "    ct state established,related accept"@,
        "    oif lo accept"@,
    ] + bypass_lines(mark)
}

proof fn lemma_body(
    guards: Seq<Seq<char>>,
    inline: bool,
    jump: Seq<char>,
    rules: Seq<Seq<char>>,
    attached: bool,
    head: Seq<char>,
)
    requires
        head.len() >= 3,
        head[2] != ' ',
        jump.len() >= 3 && jump[2] == ' ',
        forall|i: int|
            0 <= i < guards.len() ==> (#[trigger] guards[i]).len() >= 3 && guards[i][2] == ' ',
    ensures
        none_is(body(guards, inline, jump, rules, attached), head),
{
    lemma_guards();
    lemma_in_chain(rules, head);
    assert(none_is(guards, head));
    assert(none_is(detour(inline, jump), head));
    assert(none_is(default_deny(attached), head));
    lemma_none_add(guards, detour(inline, jump), head);
    lemma_none_add(guards + detour(inline, jump), in_chain(rules), head);
    lemma_none_add(
        guards + detour(inline, jump) + in_chain(rules),
        default_deny(attached),
        head,
    );
}

proof fn lemma_heads()
    ensures
        ({
            let a = "  chain zt_inline_input {"@;
            let b = "  chain zt_inline_output {"@;
            let c = "  chain zt_policy_input {"@;
            let d = "  chain zt_policy_output {"@;
            &&& a.len() >= 3 && a[2] == 'c'
            &&& b.len() >= 3 && b[2] == 'c'
            &&& c.len() >= 3 && c[2] == 'c'
            &&& d.len() >= 3 && d[2] == 'c'
            &&& a != b && a != c && a != d && b != c && b != d && c != d
        }),
        "}"@.len() == 1,
{
    reveal_strlit("  chain zt_inline_input {");
    reveal_strlit("  chain zt_inline_output {");
    reveal_strlit("  chain zt_policy_input {");
    reveal_strlit("  chain zt_policy_output {");
    reveal_strlit("}");
    assert("  chain zt_inline_input {"@.len() == 25 && "  chain zt_inline_output {"@.len() == 26);
    assert("  chain zt_policy_input {"@.len() == 25 && "  chain zt_policy_output {"@.len() == 26);
    assert("  chain zt_inline_input {"@[11] == 'i' && "  chain zt_policy_input {"@[11] == 'p');
    assert("  chain zt_inline_output {"@[11] == 'i' && "  chain zt_policy_output {"@[11] == 'p');
}

/// The chains of the stage before hold none of the lines that open another chain.
proof fn lemma_inline_chains(
    inline: bool,
    input: Seq<Seq<char>>,
    output: Seq<Seq<char>>,
    head: Seq<char>,
)
    requires
        head.len() >= 3,
        head[2] == 'c',
        inline ==> head != "  chain zt_inline_input {"@ && head != "  chain zt_inline_output {"@,
    ensures
        none_is(inline_chains(inline, input, output), head),
{
    lemma_ends();
    if inline {
        lemma_in_chain(input, head);
        lemma_in_chain(output, head);
        let a = seq!["  chain zt_inline_input {"@];
        let b = seq!["  }"@, "  chain zt_inline_output {"@];
        let c = seq!["  }"@];
        assert(none_is(a, head) && none_is(b, head) && none_is(c, head));
        lemma_none_add(a, indented(input), head);
        lemma_none_add(a + indented(input), b, head);
        lemma_none_add(a + indented(input) + b, indented(output), head);
        lemma_none_add(a + indented(input) + b + indented(output), c, head);
    }
}

/// In the chain for what comes in, established connections and loopback pass before
/// anything else; all but TCP goes to the chain of the stage before, where there is one;
/// the rules for what comes in follow; and what none of them is for is refused where
/// policies are attached, TCP apart.
#[verifier::rlimit(60)]
#[verifier::spinoff_prover]
pub proof fn law_chain_for_what_comes_in(config: NftConfig, ruleset: RuleSet)
    ensures
        opened_by(ruleset_lines(config, ruleset), "  chain zt_policy_input {"@) == seq![
            "    type filter hook input priority -150; policy accept;"@,
            "    ct state established,related accept"@,
            "    iif lo accept"@,
        ] + (if ruleset.inline_rules@.len() > 0 {
            seq!["    meta l4proto != tcp jump zt_inline_input"@]
        } else {
            Seq::empty()
        }) + in_chain(chains_of(ruleset).input.lines) + (if ruleset.policy_attached {
            seq!["    meta l4proto != tcp reject"@]
        } else {
            Seq::empty()
        }),
{
    let inline = ruleset.inline_rules@.len() > 0;
    let chains = chains_of(ruleset);
    let head = "  chain zt_policy_input {"@;
    let before = opening(ruleset) + inline_chains(
        inline,
        chains.inline_input.lines,
        chains.inline_output.lines,
    );
    let jump = "    meta l4proto != tcp jump zt_inline_input"@;
    let content = body(input_guards(), inline, jump, chains.input.lines, ruleset.policy_attached);
    let lines = ruleset_lines(config, ruleset);
    let k = (before.len() + 1 + content.len() + 1) as int;
    lemma_heads();
    lemma_ends();
    lemma_guards();
    lemma_opening(ruleset, head);
    lemma_inline_chains(inline, chains.inline_input.lines, chains.inline_output.lines, head);
    lemma_none_add(
        opening(ruleset),
        inline_chains(inline, chains.inline_input.lines, chains.inline_output.lines),
        head,
    );
    lemma_body(
        input_guards(),
        inline,
        jump,
        chains.input.lines,
        ruleset.policy_attached,
        "  }"@,
    );
    lemma_in_chain(chains.input.lines, head);
    lemma_opened(before, head, content, lines.skip(k));
    assert(lines =~= before + seq![head] + content + seq!["  }"@] + lines.skip(k)) by {
        assert(lines.take(k) =~= before + seq![head] + content + seq!["  }"@]);
        assert(lines =~= lines.take(k) + lines.skip(k));
    }
}

/// In the chain for what goes out, established connections and loopback pass before
/// anything else, and the proxy's own traffic after them: by its mark or, without one,
/// by its user and its group. All but TCP goes to the chain of the stage before, where
/// there is one; the rules for what goes out follow; and what none of them is for is
/// refused where policies are attached, TCP apart.
#[verifier::rlimit(60)]
#[verifier::spinoff_prover]
pub proof fn law_chain_for_what_goes_out(config: NftConfig, ruleset: RuleSet)
    ensures
        opened_by(ruleset_lines(config, ruleset), "  chain zt_policy_output {"@) == seq![
            "    type filter hook output priority -150; policy accept;"@,
            "    ct state established,related accept"@,
            "    oif lo accept"@,
        ] + (match config.proxy_mark {
            Some(mark) => seq!["    meta mark "@ + decimal(mark as nat) + " return"@],
            None => seq!["    meta skuid 1337 return"@, "    meta skgid 1337 return"@],
        }) + (if ruleset.inline_rules@.len() > 0 {
            seq!["    meta l4proto != tcp jump zt_inline_output"@]
        } else {
            Seq::empty()
        }) + in_chain(chains_of(ruleset).output.lines) + (if ruleset.policy_attached {
            seq!["    meta l4proto != tcp reject"@]
        } else {
            Seq::empty()
        }),
{
    let inline = ruleset.inline_rules@.len() > 0;
    let chains = chains_of(ruleset);
    let head = "  chain zt_policy_output {"@;
    let first = opening(ruleset);
    let second = inline_chains(inline, chains.inline_input.lines, chains.inline_output.lines);
    let content = body(
        input_guards(),
        inline,
        "    meta l4proto != tcp jump zt_inline_input"@,
        chains.input.lines,
        ruleset.policy_attached,
    );
    let third = seq!["  chain zt_policy_input {"@];
    let end = seq!["  }"@];
    let before = first + second + third + content + end;
    let jump = "    meta l4proto != tcp jump zt_inline_output"@;
    let own = body(
        output_guards(config.proxy_mark),
        inline,
        jump,
        chains.output.lines,
        ruleset.policy_attached,
    );
    lemma_heads();
    lemma_ends();
    lemma_guards();
    lemma_opening(ruleset, head);
    lemma_inline_chains(inline, chains.inline_input.lines, chains.inline_output.lines, head);
    lemma_body(
        input_guards(),
        inline,
        "    meta l4proto != tcp jump zt_inline_input"@,
        chains.input.lines,
        ruleset.policy_attached,
        head,
    );
    assert(none_is(third, head) && none_is(end, head));
    lemma_none_add(first, second, head);
    lemma_none_add(first + second, third, head);
    lemma_none_add(first + second + third, content, head);
    lemma_none_add(first + second + third + content, end, head);
    lemma_body(
        output_guards(config.proxy_mark),
        inline,
        jump,
        chains.output.lines,
        ruleset.policy_attached,
        "  }"@,
    );
    lemma_in_chain(chains.input.lines, head);
    lemma_in_chain(chains.output.lines, head);
    lemma_opened(before, head, own, seq!["}"@]);
    let lines = ruleset_lines(config, ruleset);
    let k = before.len() as int;
    assert(lines =~= before + seq![head] + own + seq!["  }"@] + seq!["}"@]) by {
        assert(lines.take(k) =~= before);
        assert(lines.skip(k) =~= seq![head] + own + seq!["  }"@] + seq!["}"@]);
        assert(lines =~= lines.take(k) + lines.skip(k));
    }
    assert(own =~= seq![
        "    type filter hook output priority -150; policy accept;"@,
        "    ct state established,related accept"@,
        "    oif lo accept"@,
    ] + bypass_lines(config.proxy_mark) + detour(inline, jump) + in_chain(chains.output.lines)
        + default_deny(ruleset.policy_attached));
}

/// The stage before has a chain for each direction, with the rules of that stage for that
/// direction and nothing else.
#[verifier::rlimit(60)]
#[verifier::spinoff_prover]
pub proof fn law_chains_of_the_stage_before(config: NftConfig, ruleset: RuleSet)
    requires
        ruleset.inline_rules@.len() > 0,
    ensures
        opened_by(ruleset_lines(config, ruleset), "  chain zt_inline_input {"@) == in_chain(
            chains_of(ruleset).inline_input.lines,
        ),
        opened_by(ruleset_lines(config, ruleset), "  chain zt_inline_output {"@) == in_chain(
            chains_of(ruleset).inline_output.lines,
        ),
{
    let chains = chains_of(ruleset);
    let lines = ruleset_lines(config, ruleset);
    let input = "  chain zt_inline_input {"@;
    let output = "  chain zt_inline_output {"@;
    let first = opening(ruleset);
    let end = seq!["  }"@];
    lemma_heads();
    lemma_ends();
    lemma_opening(ruleset, input);
    lemma_opening(ruleset, output);
    lemma_in_chain(chains.inline_input.lines, "  }"@);
    lemma_in_chain(chains.inline_input.lines, output);
    lemma_in_chain(chains.inline_output.lines, "  }"@);
    let a = in_chain(chains.inline_input.lines);
    let b = in_chain(chains.inline_output.lines);
    let k = (first.len() + 1 + a.len() + 1) as int;
    lemma_opened(first, input, a, lines.skip(k));
    assert(lines =~= first + seq![input] + a + end + lines.skip(k));
    let one = seq![input];
    assert(none_is(one, output) && none_is(end, output));
    lemma_none_add(first, one, output);
    lemma_none_add(first + one, a, output);
    lemma_none_add(first + one + a, end, output);
    let before = first + one + a + end;
    let m = k + 1 + b.len() + 1;
    lemma_opened(before, output, b, lines.skip(m));
    assert(lines =~= before + seq![output] + b + end + lines.skip(m));
}

proof fn lemma_no_other_set(sets: Seq<SetModel>, name: Seq<char>)
    requires
        forall|i: int| 0 <= i < sets.len() ==> (#[trigger] sets[i]).name != name,
    ensures
        none_is(sets_lines(sets), "  set "@ + name + " {"@),
    decreases sets.len(),
{
    if sets.len() > 0 {
        let head = "  set "@ + name + " {"@;
        let short = sets.drop_last();
        let last = sets.last();
        assert forall|i: int| 0 <= i < short.len() implies (#[trigger] short[i]).name != name by {
            assert(short[i] == sets[i]);
        }
        lemma_no_other_set(short, name);
        lemma_set_lines(last);
        assert(sets[sets.len() - 1].name != name);
        reveal_strlit("  set ");
        reveal_strlit(" {");
        assert(head[2] == "  set "@[2]);
        let other = "  set "@ + last.name + " {"@;
        if other == head {
            assert(last.name =~= other.subrange(6, other.len() - 2));
            assert(name =~= head.subrange(6, head.len() - 2));
        }
        lemma_none_add(sets_lines(short), set_lines(last), head);
    }
}

proof fn lemma_sets_in_parts(sets: Seq<SetModel>, i: int)
    requires
        0 <= i < sets.len(),
    ensures
        exists|rest: Seq<Seq<char>>|
            sets_lines(sets) == #[trigger] (sets_lines(sets.take(i)) + set_lines(sets[i]) + rest),
    decreases sets.len(),
{
    let short = sets.drop_last();
    if i == short.len() {
        assert(sets.take(i) =~= short);
        assert(sets_lines(sets) =~= sets_lines(sets.take(i)) + set_lines(sets[i]) + Seq::empty());
    } else {
        lemma_sets_in_parts(short, i);
        assert(short.take(i) =~= sets.take(i));
        let rest = choose|rest: Seq<Seq<char>>|
            sets_lines(short) == #[trigger] (sets_lines(short.take(i)) + set_lines(short[i])
                + rest);
        let more = rest + set_lines(sets.last());
        assert(sets_lines(sets) =~= sets_lines(sets.take(i)) + set_lines(sets[i]) + more);
    }
}

/// Every set that rules use is declared before the chains, with its family and all its
/// networks, as one that holds whole networks.
#[verifier::rlimit(60)]
#[verifier::spinoff_prover]
pub proof fn law_sets_are_declared(config: NftConfig, ruleset: RuleSet, i: int)
    requires
        0 <= i < declared_sets(ruleset).len(),
    ensures
        ({
            let set = declared_sets(ruleset)[i];
            opened_by(ruleset_lines(config, ruleset), "  set "@ + set.name + " {"@) == seq![
                if set.is_v4 {
                    "    type ipv4_addr"@
                } else {
                    "    type ipv6_addr"@
                },
                "    flags interval"@,
                "    elements = { "@ + joined(set.elements, ", "@) + " }"@,
            ]
        }),
{
    let sets = declared_sets(ruleset);
    let set = sets[i];
    let lines = ruleset_lines(config, ruleset);
    let head = "  set "@ + set.name + " {"@;
    let three = seq![
        "add table inet ztunnel"@,
        "delete table inet ztunnel"@,
        "table inet ztunnel {"@,
    ];
    reveal_strlit("add table inet ztunnel");
    reveal_strlit("delete table inet ztunnel");
    reveal_strlit("table inet ztunnel {");
    reveal_strlit("  set ");
    assert(head[2] == "  set "@[2]);
    assert(three[0][2] == 'd' && three[1][2] == 'l' && three[2][2] == 'b');
    assert(none_is(three, head));
    assert forall|k: int| 0 <= k < sets.take(i).len() implies (#[trigger] sets.take(i)[k]).name
        != set.name by {
        law_set_names_are_unique(ruleset, k, i);
    }
    lemma_no_other_set(sets.take(i), set.name);
    lemma_none_add(three, sets_lines(sets.take(i)), head);
    lemma_set_lines(set);
    lemma_sets_in_parts(sets, i);
    let rest = choose|rest: Seq<Seq<char>>|
        sets_lines(sets) == #[trigger] (sets_lines(sets.take(i)) + set_lines(set) + rest);
    let content = set_lines(set).subrange(1, 4);
    let before = three + sets_lines(sets.take(i));
    let k = (before.len() + 5) as int;
    assert(content =~= seq![set_lines(set)[1], set_lines(set)[2], set_lines(set)[3]]);
    assert(none_is(content, "  }"@));
    lemma_opened(before, head, content, lines.skip(k));
    assert(set_lines(set) =~= seq![head] + content + seq!["  }"@]);
    lemma_begins_with_sets(config, ruleset);
    let n = (3 + sets_lines(sets).len()) as int;
    assert((three + sets_lines(sets)).take(k) =~= before + set_lines(set));
    assert(lines.take(n).take(k) =~= lines.take(k));
    assert(lines =~= lines.take(k) + lines.skip(k));
    assert(before + set_lines(set) =~= before + seq![head] + content + seq!["  }"@]);
}

proof fn lemma_begins_with_sets(config: NftConfig, ruleset: RuleSet)
    ensures
        ({
            let lines = ruleset_lines(config, ruleset);
            let n = 3 + sets_lines(declared_sets(ruleset)).len();
            &&& n <= lines.len()
            &&& lines.take(n as int) == opening(ruleset)
        }),
{
    let n = 3 + sets_lines(declared_sets(ruleset)).len();
    assert(ruleset_lines(config, ruleset).take(n as int) =~= opening(ruleset));
}

/// A script has the lines that it was made of, in their order, and each of them ends.
#[verifier::rlimit(60)]
#[verifier::spinoff_prover]
pub proof fn law_script_has_its_lines(lines: Seq<Seq<char>>)
    requires
        forall|i: int| 0 <= i < lines.len() ==> !(#[trigger] lines[i]).contains('\n'),
    ensures
        split(script(lines), '\n') == lines.push(Seq::empty()),
    decreases lines.len(),
{
    reveal_strlit("\n");
    assert("\n"@ =~= seq!['\n']);
    let none = Seq::<char>::empty();
    law_split_of_one(none, '\n');
    if lines.len() == 0 {
        assert(split(script(lines), '\n') =~= lines.push(none));
    } else {
        let short = lines.drop_last();
        let last = lines.last();
        assert forall|i: int| 0 <= i < short.len() implies !(#[trigger] short[i]).contains('\n') by {
            assert(short[i] == lines[i]);
        }
        law_script_has_its_lines(short);
        assert(!lines[lines.len() - 1].contains('\n'));
        law_split_of_one(last, '\n');
        let before = script(short);
        let text = before + last;
        if short.len() == 0 {
            assert(text =~= last);
            assert(split(text, '\n') =~= short.push(last));
        } else {
            let body = script(short.drop_last()) + short.last();
            assert(before =~= body + seq!['\n'] + none);
            law_split_of_two(body, none, '\n');
            assert(split(body, '\n') =~= short) by {
                let s = split(body, '\n');
                assert(s + seq![none] =~= short.push(none));
                assert((s + seq![none]).drop_last() =~= s);
                assert(short.push(none).drop_last() =~= short);
            }
            assert(text =~= body + seq!['\n'] + last);
            law_split_of_two(body, last, '\n');
            assert(split(text, '\n') =~= short.push(last));
        }
        assert(script(lines) =~= text + seq!['\n'] + none);
        law_split_of_two(text, none, '\n');
        assert(short.push(last) =~= lines);
        assert(split(script(lines), '\n') =~= lines.push(none));
    }
}

} // verus!
