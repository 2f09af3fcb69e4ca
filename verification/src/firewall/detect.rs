//! Which tool writes the firewall rules.

use vstd::prelude::*;

use crate::text::{count_lines, law_lines, line_breaks, line_count};

verus! {

/// A variant of iptables that can be used.
#[derive(Clone, Debug, PartialEq, Eq)]
pub struct IptablesVariant {
    pub binary: String,
    pub restore_binary: String,
    /// Whether it lists any rules: its listing has at least three lines.
    pub existing_rules: bool,
}

/// The tool that writes the firewall rules.
#[derive(Clone, Debug, PartialEq, Eq)]
pub enum FirewallBackend {
    Nftables,
    Iptables { iptables_bin: String, restore_bin: String },
}

impl FirewallBackend {
    /// A copy of the choice.
    pub fn copy(&self) -> (r: FirewallBackend)
        ensures
            match (*self, r) {
                (FirewallBackend::Nftables, FirewallBackend::Nftables) => true,
                (
                    FirewallBackend::Iptables { iptables_bin: a, restore_bin: b },
                    FirewallBackend::Iptables { iptables_bin: c, restore_bin: d },
                ) => a@ == c@ && b@ == d@,
                _ => false,
            },
    {
        match self {
            FirewallBackend::Nftables => FirewallBackend::Nftables,
            FirewallBackend::Iptables { iptables_bin, restore_bin } => FirewallBackend::Iptables {
                iptables_bin: iptables_bin.clone(),
                restore_bin: restore_bin.clone(),
            },
        }
    }
}

/// Which tools may be used.
#[derive(Clone, Copy, Debug, PartialEq, Eq, Structural)]
pub enum FirewallBackendMode {
    /// The best that can be.
    Auto,
    /// Only iptables.
    Iptables,
}

/// What came of a command that was run: whether it succeeded, and what it printed.
#[derive(Clone, Debug, PartialEq, Eq)]
pub struct CommandOutput {
    pub success: bool,
    pub stdout: String,
}

/// What is asked of an iptables variant to see whether it is there: to list all
/// rules.
pub fn save_command(bin: &str) -> (r: String)
    ensures
        r@ == bin@ + "-save"@,
{
    let mut out: String = bin.to_owned();
    out.append("-save");
    out
}

/// Whether a command ran and succeeded.
pub open spec fn succeeded(output: Option<CommandOutput>) -> bool {
    output matches Some(o) && o.success
}

/// How many lines a listing has at least that holds a rule.
pub const LINES_WITH_RULES: usize = 3;

/// The variant was found by what the commands that try it brought.
pub open spec fn found(
    variant: Option<IptablesVariant>,
    bin: Seq<char>,
    save: Option<CommandOutput>,
    list: Option<CommandOutput>,
) -> bool {
    &&& variant.is_some() == (succeeded(save) && succeeded(list))
    &&& variant matches Some(v) ==> {
        &&& v.binary@ == bin
        &&& v.restore_binary@ == bin + "-restore"@
        &&& v.existing_rules == (line_count(save.unwrap().stdout@) >= LINES_WITH_RULES)
    }
}

/// The variant, where both commands that try it succeeded: `save` lists all rules,
/// `list` shows that the kernel supports it. A listing of three lines or more holds at
/// least one rule.
pub fn probe_iptables(
    bin: &str,
    save: &Option<CommandOutput>,
    list: &Option<CommandOutput>,
) -> (r: Option<IptablesVariant>)
    ensures
        found(r, bin@, *save, *list),
{
    let save: &CommandOutput = match save {
        Some(output) => output,
        None => {
            return None;
        },
    };
    if !save.success {
        return None;
    }
    match list {
        Some(output) => {
            if !output.success {
                return None;
            }
        },
        None => {
            return None;
        },
    }
    let mut restore_binary: String = bin.to_owned();
    restore_binary.append("-restore");
    let existing_rules: bool = count_lines(save.stdout.as_str()) >= LINES_WITH_RULES;
    Some(IptablesVariant { binary: bin.to_owned(), restore_binary, existing_rules })
}

/// The best of the variants that can be used: the legacy one where it has rules
/// already, so that variants are not mixed; else the nft one, the plain one, and
/// the legacy one last.
pub open spec fn best_variant(
    legacy: Option<IptablesVariant>,
    nft: Option<IptablesVariant>,
    plain: Option<IptablesVariant>,
) -> Option<IptablesVariant> {
    if legacy matches Some(v) && v.existing_rules {
        legacy
    } else if nft is Some {
        nft
    } else if plain is Some {
        plain
    } else {
        legacy
    }
}

/// The best of the variants that can be used.
pub fn choose_iptables_variant(
    legacy: Option<IptablesVariant>,
    nft: Option<IptablesVariant>,
    plain: Option<IptablesVariant>,
) -> (r: Option<IptablesVariant>)
    ensures
        r == best_variant(legacy, nft, plain),
{
    let in_use: bool = match &legacy {
        Some(v) => v.existing_rules,
        None => false,
    };
    if in_use {
        return legacy;
    }
    if nft.is_some() {
        return nft;
    }
    if plain.is_some() {
        return plain;
    }
    legacy
}

/// The tool that a variant of iptables is.
pub open spec fn iptables_backend(variant: IptablesVariant) -> FirewallBackend {
    FirewallBackend::Iptables {
        iptables_bin: variant.binary,
        restore_bin: variant.restore_binary,
    }
}

/// The best tool that can be used. For the proxy of a single workload, rules that
/// iptables has already decide for it, so that tools are not mixed; rules of pods
/// are elsewhere.
pub open spec fn best_backend(
    mode: FirewallBackendMode,
    dedicated_mode: bool,
    ipt: Option<IptablesVariant>,
    nft_usable: bool,
) -> Option<FirewallBackend> {
    if dedicated_mode && (ipt matches Some(v) && v.existing_rules) {
        Some(iptables_backend(ipt.unwrap()))
    } else if mode == FirewallBackendMode::Auto && nft_usable {
        Some(FirewallBackend::Nftables)
    } else {
        match ipt {
            Some(v) => Some(iptables_backend(v)),
            None => None,
        }
    }
}

/// Whether it is tried if nftables can be used.
pub fn tries_nft(mode: FirewallBackendMode) -> (r: bool)
    ensures
        r == (mode == FirewallBackendMode::Auto),
{
    mode == FirewallBackendMode::Auto
}

/// Where nftables are not tried, it makes no difference if they could be used.
pub proof fn law_nft_is_tried_where_it_counts(
    mode: FirewallBackendMode,
    dedicated_mode: bool,
    ipt: Option<IptablesVariant>,
)
    requires
        mode != FirewallBackendMode::Auto,
    ensures
        best_backend(mode, dedicated_mode, ipt, true) == best_backend(
            mode,
            dedicated_mode,
            ipt,
            false,
        ),
{
}

/// The best tool that can be used, by what trying them brought.
pub fn detect_backend(
    mode: FirewallBackendMode,
    dedicated_mode: bool,
    ipt: Option<IptablesVariant>,
    nft_usable: bool,
) -> (r: Result<FirewallBackend, String>)
    ensures
        match r {
            Ok(backend) => best_backend(mode, dedicated_mode, ipt, nft_usable) == Some(backend),
            Err(e) => best_backend(mode, dedicated_mode, ipt, nft_usable) is None && e@
                == "no usable firewall backend: neither iptables nor nft found with kernel support"@,
        },
{
    let in_use: bool = dedicated_mode && match &ipt {
        Some(v) => v.existing_rules,
        None => false,
    };
    if !in_use && mode == FirewallBackendMode::Auto && nft_usable {
        return Ok(FirewallBackend::Nftables);
    }
    match ipt {
        Some(v) => Ok(
            FirewallBackend::Iptables { iptables_bin: v.binary, restore_bin: v.restore_binary },
        ),
        None => Err(
            "no usable firewall backend: neither iptables nor nft found with kernel support".to_owned(),
        ),
    }
}

/// Where iptables lists any rules already, whosever they are, no other tool is used
/// beside it.
pub proof fn law_tools_are_not_mixed(
    mode: FirewallBackendMode,
    legacy: IptablesVariant,
    nft: Option<IptablesVariant>,
    plain: Option<IptablesVariant>,
    nft_usable: bool,
)
    requires
        legacy.existing_rules,
    ensures
        best_backend(mode, true, best_variant(Some(legacy), nft, plain), nft_usable) == Some(
            iptables_backend(legacy),
        ),
{
}

/// A variant can be used exactly where both commands ran and succeeded; it is called by
/// the name that was tried.
pub proof fn law_variants_are_tried(
    variant: Option<IptablesVariant>,
    bin: Seq<char>,
    save: Option<CommandOutput>,
    list: Option<CommandOutput>,
)
    requires
        found(variant, bin, save, list),
    ensures
        variant is None <==> (save is None || list is None || !save.unwrap().success
            || !list.unwrap().success),
        variant matches Some(v) ==> v.binary@ == bin && v.restore_binary@ == bin + "-restore"@,
{
}

/// A listing of which the third line has anything on it, or an end, holds rules; one of
/// two lines, each with or without an end, does not.
pub proof fn law_third_line_is_a_rule(
    variant: Option<IptablesVariant>,
    bin: Seq<char>,
    save: Option<CommandOutput>,
    list: Option<CommandOutput>,
    first: Seq<char>,
    second: Seq<char>,
    rest: Seq<char>,
)
    requires
        found(variant, bin, save, list),
        variant is Some,
        !first.contains('\n'),
        !second.contains('\n'),
    ensures
        save.unwrap().stdout@ == first + seq!['\n'] + (second + seq!['\n'] + rest) ==> (
        variant.unwrap().existing_rules <==> rest.len() > 0),
        save.unwrap().stdout@ == first + seq!['\n'] + second ==> !variant.unwrap().existing_rules,
        save.unwrap().stdout@ == first ==> !variant.unwrap().existing_rules,
{
    law_lines(first, second + seq!['\n'] + rest);
    law_lines(first, second);
    law_lines(second, rest);
    if rest.len() > 0 {
        assert(rest.last() == '\n' ==> line_breaks(rest) >= 1);
    }
}

/// Of the variants that can be used one is chosen: the nft one before the plain one, and
/// the legacy one only where it has rules or no other can be used.
pub proof fn law_variants_in_order(
    legacy: Option<IptablesVariant>,
    nft: Option<IptablesVariant>,
    plain: Option<IptablesVariant>,
)
    ensures
        best_variant(legacy, nft, plain) is None <==> legacy is None && nft is None && plain
            is None,
        best_variant(legacy, nft, plain) is Some ==> {
            let v = best_variant(legacy, nft, plain);
            v == legacy || v == nft || v == plain
        },
        best_variant(legacy, None, None) == legacy,
        (legacy is None || !legacy.unwrap().existing_rules) ==> {
            &&& nft is Some ==> best_variant(legacy, nft, plain) == nft
            &&& plain is Some ==> best_variant(legacy, None, plain) == plain
        },
        legacy is Some && legacy.unwrap().existing_rules ==> best_variant(legacy, nft, plain)
            == legacy,
{
}

/// A tool is found exactly where there is one that may be used. Rules that iptables has
/// already keep the proxy of a single workload with it; otherwise nftables are taken
/// where they may be and can be used, and iptables where not.
pub proof fn law_tools_in_order(
    mode: FirewallBackendMode,
    dedicated_mode: bool,
    ipt: Option<IptablesVariant>,
    nft_usable: bool,
)
    ensures
        best_backend(mode, dedicated_mode, ipt, nft_usable) is None <==> ipt is None && !(nft_usable
            && mode is Auto),
        best_backend(mode, dedicated_mode, ipt, nft_usable) matches Some(FirewallBackend::Nftables)
            ==> nft_usable && mode is Auto && !(dedicated_mode && ipt is Some
            && ipt.unwrap().existing_rules),
        best_backend(mode, dedicated_mode, ipt, nft_usable) matches Some(
            FirewallBackend::Iptables { iptables_bin, restore_bin },
        ) ==> ipt is Some && iptables_bin == ipt.unwrap().binary && restore_bin
            == ipt.unwrap().restore_binary && (!nft_usable || mode is Iptables || (dedicated_mode
            && ipt.unwrap().existing_rules)),
{
}

} // verus!
