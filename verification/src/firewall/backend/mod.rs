//! Rendering of rule sets for the netfilter tools.

use vstd::prelude::*;

use super::detect::FirewallBackend;
use crate::state::workload::{InfoView, WorkloadInfo};
use crate::text::opt_view;
use self::ipt::{IptBackend, IptConfig};
use self::nft::{NftBackend, NftConfig};

pub mod commands;
pub mod ipt;
pub mod ipt_meaning;
pub mod ipt_script;
pub mod nft;
pub mod nft_meaning;
pub mod nft_script;
pub mod words;

verus! {

/// The two stages that a packet passes.
#[derive(Clone, Copy, Debug, PartialEq, Eq, Structural)]
pub enum Stage {
    /// The stage before the workload's own policies: what it allows goes on to
    /// them.
    Inline,
    /// The workload's own policies.
    Workload,
}

/// The program that enters a network namespace.
pub open spec fn nsenter() -> Seq<char> {
    "/usr/bin/nsenter"@
}

/// A program and its arguments, run in a network namespace where one is named.
pub open spec fn nsenter_words(netns_path: Option<Seq<char>>, program: Seq<char>) -> Seq<Seq<char>> {
    match netns_path {
        Some(path) => seq![nsenter(), "--net="@ + path, "--"@, program],
        None => seq![program],
    }
}

/// The words of the command that runs a program, in a network namespace where one
/// is named.
pub fn make_nsenter_cmd(netns_path: &Option<String>, program: &str) -> (r: Vec<String>)
    ensures
        crate::text::views(r@) == nsenter_words(opt_view(*netns_path), program@),
{
    let mut words: Vec<String> = Vec::new();
    match netns_path {
        Some(path) => {
            words.push("/usr/bin/nsenter".to_owned());
            let mut net: String = "--net=".to_owned();
            net.append(path.as_str());
            words.push(net);
            words.push("--".to_owned());
        },
        None => {},
    }
    words.push(program.to_owned());
    assert(crate::text::views(words@) =~= nsenter_words(opt_view(*netns_path), program@));
    words
}

/// A workload as `namespace/name`, where both are known.
pub open spec fn workload_text(name: Option<Seq<char>>, namespace: Option<Seq<char>>) -> Seq<char> {
    match (name, namespace) {
        (Some(name), Some(namespace)) => namespace + "/"@ + name,
        _ => Seq::empty(),
    }
}

/// A workload as `namespace/name`, where both are known.
pub fn format_workload_label(name: &Option<String>, namespace: &Option<String>) -> (r: String)
    ensures
        r@ == workload_text(opt_view(*name), opt_view(*namespace)),
{
    let mut out: String = String::new();
    match (name, namespace) {
        (Some(name), Some(namespace)) => {
            out.append(namespace.as_str());
            out.append("/");
            out.append(name.as_str());
        },
        _ => {},
    }
    assert(out@ =~= workload_text(opt_view(*name), opt_view(*namespace)));
    out
}

/// What writes the firewall rules.
pub enum Backend {
    Ipt(IptBackend),
    Nft(NftBackend),
}

/// What a backend is set up with.
pub enum BackendConfig {
    Ipt(IptConfig),
    Nft(NftConfig),
}

impl View for Backend {
    type V = BackendConfig;

    open spec fn view(&self) -> BackendConfig {
        match self {
            Backend::Ipt(b) => BackendConfig::Ipt(b@),
            Backend::Nft(b) => BackendConfig::Nft(b@),
        }
    }
}

/// Sets up what writes the firewall rules, for the tool that was found.
pub struct BackendBuilder {
    detected: FirewallBackend,
    netns_path: Option<String>,
    proxy_mark: Option<u32>,
    dns_proxy: bool,
    workload_info: Option<WorkloadInfo>,
}

/// What a backend is to be set up with.
pub struct BuilderModel {
    pub detected: FirewallBackend,
    pub netns_path: Option<Seq<char>>,
    pub proxy_mark: Option<u32>,
    pub dns_proxy: bool,
    pub workload: Option<InfoView>,
}

impl View for BackendBuilder {
    type V = BuilderModel;

    closed spec fn view(&self) -> BuilderModel {
        BuilderModel {
            detected: self.detected,
            netns_path: opt_view(self.netns_path),
            proxy_mark: self.proxy_mark,
            dns_proxy: self.dns_proxy,
            workload: match self.workload_info {
                Some(info) => Some(info@),
                None => None,
            },
        }
    }
}

/// The backend that is set up: that of the tool, with all that was named. Only
/// iptables asks for a DNS proxy.
pub open spec fn built(model: BuilderModel) -> BackendConfig {
    let name = match model.workload {
        Some(w) => Some(w.name),
        None => None,
    };
    let namespace = match model.workload {
        Some(w) => Some(w.namespace),
        None => None,
    };
    match model.detected {
        FirewallBackend::Nftables => BackendConfig::Nft(
            NftConfig {
                netns_path: model.netns_path,
                proxy_mark: model.proxy_mark,
                workload_name: name,
                workload_namespace: namespace,
            },
        ),
        FirewallBackend::Iptables { iptables_bin, restore_bin } => BackendConfig::Ipt(
            IptConfig {
                iptables_bin: iptables_bin@,
                restore_bin: restore_bin@,
                netns_path: model.netns_path,
                proxy_mark: model.proxy_mark,
                dns_proxy: model.dns_proxy,
                workload_name: name,
                workload_namespace: namespace,
            },
        ),
    }
}

impl BackendBuilder {
    /// For the tool, in this network namespace.
    pub fn new(detected: FirewallBackend) -> (r: Self)
        ensures
            r@ == (BuilderModel {
                detected,
                netns_path: None,
                proxy_mark: None,
                dns_proxy: false,
                workload: None,
            }),
    {
        BackendBuilder {
            detected,
            netns_path: None,
            proxy_mark: None,
            dns_proxy: false,
            workload_info: None,
        }
    }

    /// In a network namespace.
    pub fn in_netns(self, path: String) -> (r: Self)
        ensures
            r@ == (BuilderModel { netns_path: Some(path@), ..self@ }),
    {
        let mut out: Self = self;
        out.netns_path = Some(path);
        out
    }

    /// Letting packets with the proxy's mark pass.
    pub fn skip_proxy_mark(self, mark: u32) -> (r: Self)
        ensures
            r@ == (BuilderModel { proxy_mark: Some(mark), ..self@ }),
    {
        let mut out: Self = self;
        out.proxy_mark = Some(mark);
        out
    }

    /// With or without a DNS proxy behind it.
    pub fn dns_proxy_enabled(self, enabled: bool) -> (r: Self)
        ensures
            r@ == (BuilderModel { dns_proxy: enabled, ..self@ }),
    {
        let mut out: Self = self;
        out.dns_proxy = enabled;
        out
    }

    /// For a workload, whose whole description is kept.
    pub fn with_workload_info(self, info: &WorkloadInfo) -> (r: Self)
        ensures
            r@ == (BuilderModel { workload: Some(info@), ..self@ }),
    {
        let mut out: Self = self;
        out.workload_info = Some(info.copy());
        out
    }

    /// What writes the firewall rules.
    pub fn build(self) -> (r: Backend)
        ensures
            r@ == built(self@),
    {
        match self.detected {
            FirewallBackend::Nftables => {
                let mut b: NftBackend = NftBackend::new();
                if let Some(path) = self.netns_path {
                    b = b.in_netns(path);
                }
                if let Some(mark) = self.proxy_mark {
                    b = b.skip_mark(mark);
                }
                if let Some(info) = self.workload_info {
                    b = b.with_workload_info(info.name, info.namespace);
                }
                Backend::Nft(b)
            },
            FirewallBackend::Iptables { iptables_bin, restore_bin } => {
                let mut b: IptBackend = IptBackend::new().with_binaries(iptables_bin, restore_bin);
                if let Some(path) = self.netns_path {
                    b = b.in_netns(path);
                }
                if let Some(mark) = self.proxy_mark {
                    b = b.skip_mark(mark);
                }
                b = b.dns_proxy(self.dns_proxy);
                if let Some(info) = self.workload_info {
                    b = b.with_workload_info(info.name, info.namespace);
                }
                Backend::Ipt(b)
            },
        }
    }
}

/// A program is the last word of its command. In a network namespace the command is the
/// program that enters it, the path behind `--net=`, and a mark that ends its words.
pub proof fn law_command_enters_the_namespace(path: Seq<char>, program: Seq<char>)
    ensures
        nsenter_words(None, program) == seq![program],
        nsenter_words(Some(path), program).len() == 4,
        nsenter_words(Some(path), program)[0] == "/usr/bin/nsenter"@,
        nsenter_words(Some(path), program)[1].take(6) == "--net="@,
        nsenter_words(Some(path), program)[1].skip(6) == path,
        nsenter_words(Some(path), program)[2] == "--"@,
        nsenter_words(Some(path), program)[3] == program,
{
    reveal_strlit("--net=");
    let word = nsenter_words(Some(path), program)[1];
    assert(word.take(6) =~= "--net="@);
    assert(word.skip(6) =~= path);
}

/// A workload is shown by its namespace, a slash and its name; where either is not
/// known, nothing is shown.
pub proof fn law_workload_is_shown(name: Seq<char>, namespace: Seq<char>)
    ensures
        workload_text(Some(name), Some(namespace)) == namespace + seq!['/'] + name,
        workload_text(Some(name), None).len() == 0,
        workload_text(None, Some(namespace)).len() == 0,
        workload_text(None, None).len() == 0,
{
    reveal_strlit("/");
    assert("/"@ =~= seq!['/']);
}

/// What is set up is for the tool that was found, with the network namespace, the mark
/// and the workload that were named, and no others.
pub proof fn law_backend_is_set_up_as_named(model: BuilderModel)
    ensures
        match (built(model), model.detected) {
            (BackendConfig::Nft(c), FirewallBackend::Nftables) => {
                &&& c.netns_path == model.netns_path
                &&& c.proxy_mark == model.proxy_mark
                &&& c.workload_name is Some <==> model.workload is Some
                &&& c.workload_namespace is Some <==> model.workload is Some
                &&& model.workload matches Some(w) ==> c.workload_name == Some(w.name)
                    && c.workload_namespace == Some(w.namespace)
            },
            (BackendConfig::Ipt(c), FirewallBackend::Iptables { iptables_bin, restore_bin }) => {
                &&& c.iptables_bin == iptables_bin@
                &&& c.restore_bin == restore_bin@
                &&& c.netns_path == model.netns_path
                &&& c.proxy_mark == model.proxy_mark
                &&& c.dns_proxy == model.dns_proxy
                &&& c.workload_name is Some <==> model.workload is Some
                &&& c.workload_namespace is Some <==> model.workload is Some
                &&& model.workload matches Some(w) ==> c.workload_name == Some(w.name)
                    && c.workload_namespace == Some(w.namespace)
            },
            _ => false,
        },
{
}

} // verus!
