//! The commands that put rules in force and take them back, and what follows from
//! how they end.

use vstd::prelude::*;

use super::ipt::{chain_text, IptBackend};
use super::nft::NftBackend;
use super::{nsenter_words, Stage};
use crate::firewall::types::Direction;
use crate::text::{contains_text, has_part, views};

verus! {

/// How many seconds a tool may take to load rules.
pub const APPLY_TIMEOUT_SECONDS: u64 = 30;

/// How a command ended: whether it succeeded, and what it wrote as its error.
#[derive(Clone, Debug, PartialEq, Eq)]
pub struct Ended {
    pub success: bool,
    pub stderr: String,
}

/// How a command that loads a script ended.
#[derive(Clone, Debug, PartialEq, Eq)]
pub enum Loaded {
    NotStarted,
    NotWritten,
    TimedOut,
    NotAwaited,
    Ended(Ended),
}

/// The words of several string slices, as characters.
pub open spec fn str_views(words: Seq<&str>) -> Seq<Seq<char>> {
    words.map_values(|w: &str| w@)
}

fn with_words(words: Vec<String>, more: &[&str]) -> (r: Vec<String>)
    ensures
        views(r@) == views(words@) + str_views(more@),
{
    let mut out: Vec<String> = words;
    let ghost start = views(out@);
    let mut i: usize = 0;
    assert(start + str_views(more@.take(0)) =~= start);
    while i < more.len()
        invariant
            i <= more@.len(),
            views(out@) == start + str_views(more@.take(i as int)),
        decreases more@.len() - i,
    {
        let ghost before = views(out@);
        out.push(more[i].to_owned());
        proof {
            assert(views(out@) =~= before.push(more@[i as int]@));
            assert(str_views(more@.take(i + 1)) =~= str_views(more@.take(i as int)).push(
                more@[i as int]@,
            ));
            assert(start + str_views(more@.take(i + 1)) =~= (start + str_views(
                more@.take(i as int),
            )).push(more@[i as int]@));
        }
        i = i + 1;
    }
    assert(more@.take(i as int) =~= more@);
    out
}

fn text_with(start: &str, middle: &str, end: &str) -> (r: String)
    ensures
        r@ == start@ + middle@ + end@,
{
    let mut out: String = start.to_owned();
    out.append(middle);
    out.append(end);
    out
}

/// The chain that packets of a direction pass in the kernel.
pub open spec fn hook_text(direction: Direction) -> Seq<char> {
    match direction {
        Direction::Inbound => "INPUT"@,
        Direction::Outbound => "OUTPUT"@,
    }
}

fn hook_name(direction: Direction) -> (r: &'static str)
    ensures
        r@ == hook_text(direction),
{
    match direction {
        Direction::Inbound => "INPUT",
        Direction::Outbound => "OUTPUT",
    }
}

fn chain_of(direction: Direction) -> (r: &'static str)
    ensures
        r@ == chain_text(Stage::Workload, direction),
{
    match direction {
        Direction::Inbound => "ISTIO_FW_FILTER_IN",
        Direction::Outbound => "ISTIO_FW_FILTER_OUT",
    }
}

/// What comes next while the chains and the jumps to them are set up.
#[derive(Clone, Copy, Debug, PartialEq, Eq, Structural)]
pub enum InitStep {
    /// Make the chain.
    Create(Direction),
    /// See whether the jump to it is there.
    Check(Direction),
    /// Put the jump in the first place.
    Insert(Direction),
    /// Nothing.
    Done,
}

/// The arguments of the command for a step.
pub open spec fn init_words(step: InitStep) -> Seq<Seq<char>> {
    match step {
        InitStep::Create(d) => seq!["-t"@, "filter"@, "-N"@, chain_text(Stage::Workload, d)],
        InitStep::Check(d) => seq![
            "-t"@,
            "filter"@,
            "-C"@,
            hook_text(d),
            "-j"@,
            chain_text(Stage::Workload, d),
        ],
        InitStep::Insert(d) => seq![
            "-t"@,
            "filter"@,
            "-I"@,
            hook_text(d),
            "1"@,
            "-j"@,
            chain_text(Stage::Workload, d),
        ],
        InitStep::Done => Seq::empty(),
    }
}

/// The step that follows once a direction is set up.
pub open spec fn after_direction(direction: Direction) -> InitStep {
    match direction {
        Direction::Inbound => InitStep::Create(Direction::Outbound),
        Direction::Outbound => InitStep::Done,
    }
}

fn next_direction(direction: Direction) -> (r: InitStep)
    ensures
        r == after_direction(direction),
{
    match direction {
        Direction::Inbound => InitStep::Create(Direction::Outbound),
        Direction::Outbound => InitStep::Done,
    }
}

/// What follows once the command of a step has ended; none where it could not be
/// run. A chain that is there already is as good as a new one, and a jump is put in
/// where it is missing.
pub open spec fn init_next(step: InitStep, ended: Option<Ended>) -> Result<InitStep, Seq<char>> {
    match step {
        InitStep::Create(d) => {
            let fault = "Failed to create "@ + chain_text(Stage::Workload, d) + " chain"@;
            match ended {
                None => Err(fault),
                Some(e) => if e.success || has_part(e.stderr@, "Chain already exists"@) {
                    Ok(InitStep::Check(d))
                } else {
                    Err(fault + ": "@ + e.stderr@)
                },
            }
        },
        InitStep::Check(d) => match ended {
            None => Err("Failed to check "@ + chain_text(Stage::Workload, d) + " jump rule"@),
            Some(e) => if e.success {
                Ok(after_direction(d))
            } else {
                Ok(InitStep::Insert(d))
            },
        },
        InitStep::Insert(d) => {
            let fault = "Failed to insert "@ + chain_text(Stage::Workload, d) + " jump rule"@;
            match ended {
                None => Err(fault),
                Some(e) => if e.success {
                    Ok(after_direction(d))
                } else {
                    Err(fault + ": "@ + e.stderr@)
                },
            }
        },
        InitStep::Done => Ok(InitStep::Done),
    }
}

/// What comes of loading a script with a tool.
pub open spec fn load_result(
    spawn: Seq<char>,
    write: Seq<char>,
    timeout: Seq<char>,
    wait: Seq<char>,
    failed: Seq<char>,
    loaded: Loaded,
) -> Result<(), Seq<char>> {
    match loaded {
        Loaded::NotStarted => Err(spawn),
        Loaded::NotWritten => Err(write),
        Loaded::TimedOut => Err(timeout),
        Loaded::NotAwaited => Err(wait),
        Loaded::Ended(e) => if e.success {
            Ok(())
        } else {
            Err(failed + e.stderr@)
        },
    }
}

/// The result of a step, with the text of its error.
pub open spec fn shown<T>(r: Result<T, String>) -> Result<T, Seq<char>> {
    match r {
        Ok(value) => Ok(value),
        Err(e) => Err(e@),
    }
}

/// What comes of loading a script with iptables.
pub open spec fn ipt_load_result(loaded: Loaded) -> Result<(), Seq<char>> {
    load_result(
        "Failed to spawn iptables-restore"@,
        "Failed to write to iptables-restore stdin"@,
        "iptables-restore timed out"@,
        "Failed to wait for iptables-restore"@,
        "iptables-restore failed: "@,
        loaded,
    )
}

/// What comes of loading a script with nftables.
pub open spec fn nft_load_result(loaded: Loaded) -> Result<(), Seq<char>> {
    load_result(
        "Failed to spawn nft"@,
        "Failed to write to nft stdin"@,
        "nft apply timed out"@,
        "Failed to wait for nft"@,
        "nft apply failed: "@,
        loaded,
    )
}

/// What a command that cleans up leaves to say, if anything. One that could not be
/// run ends the cleanup.
pub open spec fn cleanup_result(
    unrun: Seq<char>,
    warning: Seq<char>,
    harmless: Option<Seq<char>>,
    ended: Option<Ended>,
) -> Result<Option<Seq<char>>, Seq<char>> {
    match ended {
        None => Err(unrun),
        Some(e) => if e.success || (harmless matches Some(h) && has_part(e.stderr@, h)) {
            Ok(None)
        } else {
            Ok(Some(warning + e.stderr@))
        },
    }
}

/// The result of cleaning up, with its texts.
pub open spec fn shown_warning(r: Result<Option<String>, String>) -> Result<
    Option<Seq<char>>,
    Seq<char>,
> {
    match r {
        Ok(warning) => Ok(crate::text::opt_view(warning)),
        Err(e) => Err(e@),
    }
}

/// The arguments of the command that empties a chain of iptables.
pub open spec fn ipt_flush_words(direction: Direction) -> Seq<Seq<char>> {
    seq!["-t"@, "filter"@, "-F"@, chain_text(Stage::Workload, direction)]
}

/// The chain of nftables that holds the rules of a direction.
pub open spec fn nft_chain_text(direction: Direction) -> Seq<char> {
    match direction {
        Direction::Inbound => "zt_policy_input"@,
        Direction::Outbound => "zt_policy_output"@,
    }
}

/// The arguments of the command that empties a chain of nftables.
pub open spec fn nft_flush_words(direction: Direction) -> Seq<Seq<char>> {
    seq!["flush"@, "chain"@, "inet"@, "ztunnel"@, nft_chain_text(direction)]
}


impl IptBackend {
    /// The command for a step of setting up, in the backend's network namespace.
    pub fn init_command(&self, step: InitStep) -> (r: Vec<String>)
        ensures
            views(r@) == nsenter_words(self@.netns_path, self@.iptables_bin) + init_words(step),
    {
        let words: Vec<String> = self.make_cmd(self.iptables_program());
        match step {
            InitStep::Create(d) => {
                let more: [&str; 4] = ["-t", "filter", "-N", chain_of(d)];
                assert(str_views(more@) =~= init_words(step));
                with_words(words, &more)
            },
            InitStep::Check(d) => {
                let more: [&str; 6] = ["-t", "filter", "-C", hook_name(d), "-j", chain_of(d)];
                assert(str_views(more@) =~= init_words(step));
                with_words(words, &more)
            },
            InitStep::Insert(d) => {
                let more: [&str; 7] = ["-t", "filter", "-I", hook_name(d), "1", "-j", chain_of(d)];
                assert(str_views(more@) =~= init_words(step));
                with_words(words, &more)
            },
            InitStep::Done => {
                assert(views(words@) + init_words(step) =~= views(words@));
                words
            },
        }
    }

    /// What follows once the command of a step of setting up has ended; none where it
    /// could not be run.
    pub fn do_init(step: InitStep, ended: &Option<Ended>) -> (r: Result<InitStep, String>)
        ensures
            shown(r) == init_next(step, *ended),
    {
        match step {
            InitStep::Create(d) => {
                let fault: String = text_with("Failed to create ", chain_of(d), " chain");
                match ended {
                    None => Err(fault),
                    Some(e) => if e.success || contains_text(
                        e.stderr.as_str(),
                        "Chain already exists",
                    ) {
                        Ok(InitStep::Check(d))
                    } else {
                        Err(text_with(fault.as_str(), ": ", e.stderr.as_str()))
                    },
                }
            },
            InitStep::Check(d) => match ended {
                None => Err(text_with("Failed to check ", chain_of(d), " jump rule")),
                Some(e) => if e.success {
                    Ok(next_direction(d))
                } else {
                    Ok(InitStep::Insert(d))
                },
            },
            InitStep::Insert(d) => {
                let fault: String = text_with("Failed to insert ", chain_of(d), " jump rule");
                match ended {
                    None => Err(fault),
                    Some(e) => if e.success {
                        Ok(next_direction(d))
                    } else {
                        Err(text_with(fault.as_str(), ": ", e.stderr.as_str()))
                    },
                }
            },
            InitStep::Done => Ok(InitStep::Done),
        }
    }

    /// The command that loads the rendered rules, and keeps what other chains hold.
    pub fn apply_command(&self) -> (r: Vec<String>)
        ensures
            views(r@) == nsenter_words(self@.netns_path, self@.restore_bin) + seq!["--noflush"@],
    {
        let words: Vec<String> = self.make_cmd(self.restore_program());
        let more: [&str; 1] = ["--noflush"];
        assert(str_views(more@) =~= seq!["--noflush"@]);
        with_words(words, &more)
    }

    /// What comes of loading the rendered rules.
    pub fn apply_outcome(loaded: &Loaded) -> (r: Result<(), String>)
        ensures
            shown(r) == ipt_load_result(*loaded),
    {
        match loaded {
            Loaded::NotStarted => Err("Failed to spawn iptables-restore".to_owned()),
            Loaded::NotWritten => Err("Failed to write to iptables-restore stdin".to_owned()),
            Loaded::TimedOut => Err("iptables-restore timed out".to_owned()),
            Loaded::NotAwaited => Err("Failed to wait for iptables-restore".to_owned()),
            Loaded::Ended(e) => if e.success {
                Ok(())
            } else {
                let mut fault: String = "iptables-restore failed: ".to_owned();
                fault.append(e.stderr.as_str());
                Err(fault)
            },
        }
    }

    /// The command that empties the chain of a direction.
    pub fn cleanup_command(&self, direction: Direction) -> (r: Vec<String>)
        ensures
            views(r@) == nsenter_words(self@.netns_path, self@.iptables_bin) + ipt_flush_words(
                direction,
            ),
    {
        let words: Vec<String> = self.make_cmd(self.iptables_program());
        let more: [&str; 4] = ["-t", "filter", "-F", chain_of(direction)];
        assert(str_views(more@) =~= ipt_flush_words(direction));
        with_words(words, &more)
    }

    /// What is left to say once the chain of a direction was emptied or not.
    pub fn cleanup_outcome(direction: Direction, ended: &Option<Ended>) -> (r: Result<
        Option<String>,
        String,
    >)
        ensures
            shown_warning(r) == cleanup_result(
                "Failed to flush "@ + chain_text(Stage::Workload, direction) + " chain"@,
                "Failed to flush "@ + chain_text(Stage::Workload, direction) + " chain"@ + ": "@,
                None,
                *ended,
            ),
    {
        let fault: String = text_with("Failed to flush ", chain_of(direction), " chain");
        match ended {
            None => Err(fault),
            Some(e) => if e.success {
                Ok(None)
            } else {
                Ok(Some(text_with(fault.as_str(), ": ", e.stderr.as_str())))
            },
        }
    }
}

impl NftBackend {
    /// The command that loads the rendered rules.
    pub fn apply_command(&self) -> (r: Vec<String>)
        ensures
            views(r@) == nsenter_words(self@.netns_path, "nft"@) + seq!["-f"@, "-"@],
    {
        let words: Vec<String> = self.make_cmd("nft");
        let more: [&str; 2] = ["-f", "-"];
        assert(str_views(more@) =~= seq!["-f"@, "-"@]);
        with_words(words, &more)
    }

    /// What comes of loading the rendered rules.
    pub fn apply_outcome(loaded: &Loaded) -> (r: Result<(), String>)
        ensures
            shown(r) == nft_load_result(*loaded),
    {
        match loaded {
            Loaded::NotStarted => Err("Failed to spawn nft".to_owned()),
            Loaded::NotWritten => Err("Failed to write to nft stdin".to_owned()),
            Loaded::TimedOut => Err("nft apply timed out".to_owned()),
            Loaded::NotAwaited => Err("Failed to wait for nft".to_owned()),
            Loaded::Ended(e) => if e.success {
                Ok(())
            } else {
                let mut fault: String = "nft apply failed: ".to_owned();
                fault.append(e.stderr.as_str());
                Err(fault)
            },
        }
    }

    /// The command that empties the chain of a direction.
    pub fn cleanup_command(&self, direction: Direction) -> (r: Vec<String>)
        ensures
            views(r@) == nsenter_words(self@.netns_path, "nft"@) + nft_flush_words(direction),
    {
        let words: Vec<String> = self.make_cmd("nft");
        let chain: &str = match direction {
            Direction::Inbound => "zt_policy_input",
            Direction::Outbound => "zt_policy_output",
        };
        let more: [&str; 5] = ["flush", "chain", "inet", "ztunnel", chain];
        assert(str_views(more@) =~= nft_flush_words(direction));
        with_words(words, &more)
    }

    /// What is left to say once a chain was emptied or not. A chain that is not there
    /// is as good as an empty one.
    pub fn cleanup_outcome(ended: &Option<Ended>) -> (r: Result<Option<String>, String>)
        ensures
            shown_warning(r) == cleanup_result(
                "Failed to execute nft flush"@,
                "nft cleanup warning: "@,
                Some("No such file or directory"@),
                *ended,
            ),
    {
        match ended {
            None => Err("Failed to execute nft flush".to_owned()),
            Some(e) => if e.success || contains_text(
                e.stderr.as_str(),
                "No such file or directory",
            ) {
                Ok(None)
            } else {
                let mut warning: String = "nft cleanup warning: ".to_owned();
                warning.append(e.stderr.as_str());
                Ok(Some(warning))
            },
        }
    }
}

/// How many steps setting up takes at most from a step on.
pub open spec fn steps_left(step: InitStep) -> nat {
    match step {
        InitStep::Create(Direction::Inbound) => 6,
        InitStep::Check(Direction::Inbound) => 5,
        InitStep::Insert(Direction::Inbound) => 4,
        InitStep::Create(Direction::Outbound) => 3,
        InitStep::Check(Direction::Outbound) => 2,
        InitStep::Insert(Direction::Outbound) => 1,
        InitStep::Done => 0,
    }
}

/// Setting up comes to an end: each command that ends leaves fewer to run.
pub proof fn law_setting_up_ends(step: InitStep, ended: Option<Ended>)
    requires
        step != InitStep::Done,
    ensures
        init_next(step, ended) matches Ok(next) ==> steps_left(next) < steps_left(step),
{
}

/// Setting up again changes nothing: where the chains and the jumps are there, it
/// makes no chain and puts in no jump.
pub proof fn law_setting_up_again_is_harmless(direction: Direction, exists: Ended, found: Ended)
    requires
        !exists.success,
        has_part(exists.stderr@, "Chain already exists"@),
        found.success,
    ensures
        init_next(InitStep::Create(direction), Some(exists)) == Ok::<InitStep, Seq<char>>(
            InitStep::Check(direction),
        ),
        init_next(InitStep::Check(direction), Some(found)) == Ok::<InitStep, Seq<char>>(
            after_direction(direction),
        ),
{
}

/// Setting up makes the chain of a direction, looks for the jump to it from the kernel's
/// chain for that direction, and puts the jump first where it is missing.
pub proof fn law_commands_of_setting_up()
    ensures
        init_words(InitStep::Create(Direction::Inbound)) == seq![
            "-t"@,
            "filter"@,
            "-N"@,
            "ISTIO_FW_FILTER_IN"@,
        ],
        init_words(InitStep::Create(Direction::Outbound)) == seq![
            "-t"@,
            "filter"@,
            "-N"@,
            "ISTIO_FW_FILTER_OUT"@,
        ],
        init_words(InitStep::Check(Direction::Inbound)) == seq![
            "-t"@,
            "filter"@,
            "-C"@,
            "INPUT"@,
            "-j"@,
            "ISTIO_FW_FILTER_IN"@,
        ],
        init_words(InitStep::Check(Direction::Outbound)) == seq![
            "-t"@,
            "filter"@,
            "-C"@,
            "OUTPUT"@,
            "-j"@,
            "ISTIO_FW_FILTER_OUT"@,
        ],
        init_words(InitStep::Insert(Direction::Inbound)) == seq![
            "-t"@,
            "filter"@,
            "-I"@,
            "INPUT"@,
            "1"@,
            "-j"@,
            "ISTIO_FW_FILTER_IN"@,
        ],
        init_words(InitStep::Insert(Direction::Outbound)) == seq![
            "-t"@,
            "filter"@,
            "-I"@,
            "OUTPUT"@,
            "1"@,
            "-j"@,
            "ISTIO_FW_FILTER_OUT"@,
        ],
{
}

/// Cleaning up empties the chain of the direction, of either tool.
pub proof fn law_commands_of_cleaning_up()
    ensures
        ipt_flush_words(Direction::Inbound).last() == "ISTIO_FW_FILTER_IN"@,
        ipt_flush_words(Direction::Outbound).last() == "ISTIO_FW_FILTER_OUT"@,
        forall|d: Direction| #[trigger]
            ipt_flush_words(d).take(3) == seq!["-t"@, "filter"@, "-F"@],
        nft_flush_words(Direction::Inbound).last() == "zt_policy_input"@,
        nft_flush_words(Direction::Outbound).last() == "zt_policy_output"@,
        forall|d: Direction| #[trigger]
            nft_flush_words(d).take(4) == seq!["flush"@, "chain"@, "inet"@, "ztunnel"@],
{
    assert forall|d: Direction| #[trigger] ipt_flush_words(d).take(3) == seq![
        "-t"@,
        "filter"@,
        "-F"@,
    ] by {
        assert(ipt_flush_words(d).take(3) =~= seq!["-t"@, "filter"@, "-F"@]);
    }
    assert forall|d: Direction| #[trigger] nft_flush_words(d).take(4) == seq![
        "flush"@,
        "chain"@,
        "inet"@,
        "ztunnel"@,
    ] by {
        assert(nft_flush_words(d).take(4) =~= seq!["flush"@, "chain"@, "inet"@, "ztunnel"@]);
    }
}

/// Each direction is set up in turn, what comes in first. A step goes on where its
/// command succeeded; a chain that is there already is no failure, a jump that is not
/// found is put in, and any other failure, or a command that cannot be run, ends it.
pub proof fn law_setting_up_step_by_step(d: Direction, ended: Option<Ended>)
    ensures
        ({
            let after = if d is Inbound {
                InitStep::Create(Direction::Outbound)
            } else {
                InitStep::Done
            };
            let fine = ended matches Some(e) && e.success;
            &&& init_next(InitStep::Create(d), ended) is Ok <==> fine || (ended matches Some(e)
                && has_part(e.stderr@, "Chain already exists"@))
            &&& init_next(InitStep::Create(d), ended) matches Ok(next) ==> next
                == InitStep::Check(d)
            &&& init_next(InitStep::Check(d), ended) is Ok <==> ended is Some
            &&& init_next(InitStep::Check(d), ended) matches Ok(next) ==> (if fine {
                next == after
            } else {
                next == InitStep::Insert(d)
            })
            &&& init_next(InitStep::Insert(d), ended) is Ok <==> fine
            &&& init_next(InitStep::Insert(d), ended) matches Ok(next) ==> next == after
        }),
{
}

/// Rules are in force exactly where the command that loads them was run to its end and
/// succeeded; an error that the tool wrote is told.
pub proof fn law_rules_are_loaded(loaded: Loaded)
    ensures
        ipt_load_result(loaded) is Ok <==> (loaded matches Loaded::Ended(e) && e.success),
        nft_load_result(loaded) is Ok <==> (loaded matches Loaded::Ended(e) && e.success),
        loaded matches Loaded::Ended(e) ==> (!e.success ==> ipt_load_result(loaded) == Err::<
            (),
            Seq<char>,
        >("iptables-restore failed: "@ + e.stderr@) && nft_load_result(loaded) == Err::<
            (),
            Seq<char>,
        >("nft apply failed: "@ + e.stderr@)),
{
}

/// Cleaning up fails only where its command cannot be run, and leaves nothing to say
/// where it succeeded or failed as expected.
pub proof fn law_cleaning_up_goes_on(
    unrun: Seq<char>,
    warning: Seq<char>,
    harmless: Option<Seq<char>>,
    ended: Option<Ended>,
)
    ensures
        cleanup_result(unrun, warning, harmless, ended) is Err <==> ended is None,
        ended matches Some(e) ==> {
            let expected = harmless matches Some(h) && has_part(e.stderr@, h);
            if e.success || expected {
                cleanup_result(unrun, warning, harmless, ended) == Ok::<
                    Option<Seq<char>>,
                    Seq<char>,
                >(None)
            } else {
                cleanup_result(unrun, warning, harmless, ended) == Ok::<
                    Option<Seq<char>>,
                    Seq<char>,
                >(Some(warning + e.stderr@))
            }
        },
{
}

} // verus!
