//! Health probes: which check a path stands for, and what its outcome means.

use vstd::prelude::*;

use crate::table::Table;
use crate::text::{
    chars_of, decimal, lemma_decimal_injective, lemma_decimal_is_digits, parse_u16, push_decimal,
    same_text, signed_decimal, signed_decimal_text, text_of, u16_value,
};

verus! {

/// How long a closing probe socket lingers, in seconds.
pub const LINGER_TIMEOUT_SECONDS: u64 = 1;

/// The form of the paths that probes come to.
pub const APP_PROBER_PATTERN: &'static str = "^/app-health/[^/]+/(livez|readyz|startupz)$";

/// How a gRPC health service says that it serves.
pub const GRPC_SERVING: i32 = 1;

/// How many redirects a probe follows.
pub const MAX_REDIRECTS: usize = 10;

/// A port by number or by name.
#[derive(Clone, Debug, PartialEq, Eq)]
pub enum IntOrString {
    Int(u16),
    String(String),
}

/// The scheme of an HTTP probe.
#[derive(Clone, Copy, Debug, PartialEq, Eq, Structural)]
pub enum URIScheme {
    Http,
    Https,
}

/// A header of an HTTP probe.
#[derive(Clone, Debug, PartialEq, Eq)]
pub struct HTTPHeader {
    pub name: String,
    pub value: String,
}

/// A check by an HTTP request.
#[derive(Clone, Debug, PartialEq, Eq)]
pub struct HTTPGetAction {
    pub path: String,
    pub port: IntOrString,
    pub host: Option<String>,
    pub scheme: Option<URIScheme>,
    pub http_headers: Option<Vec<HTTPHeader>>,
}

/// A check by a TCP connection.
#[derive(Clone, Debug, PartialEq, Eq)]
pub struct TCPSocketAction {
    pub port: IntOrString,
    pub host: Option<String>,
}

/// A check by the gRPC health service.
#[derive(Clone, Debug, PartialEq, Eq)]
pub struct GRPCAction {
    pub port: i32,
    pub service: Option<String>,
}

/// A check of one of three kinds, and for how many seconds to wait for it.
#[derive(Clone, Debug, PartialEq, Eq)]
pub struct Prober {
    pub http_get: Option<HTTPGetAction>,
    pub tcp_socket: Option<TCPSocketAction>,
    pub grpc: Option<GRPCAction>,
    pub timeout_seconds: i32,
}

/// For how many seconds to wait for a check that does not say.
pub fn default_timeout_seconds() -> (r: i32)
    ensures
        r == 1,
{
    1
}

impl IntOrString {
    /// The port's number; a name that is not one stands for zero.
    pub open spec fn number(self) -> u16 {
        match self {
            IntOrString::Int(i) => i,
            IntOrString::String(s) => match u16_value(s@) {
                Some(n) => n,
                None => 0,
            },
        }
    }

    /// The port's number; a name that is not one stands for zero.
    pub fn int_value(&self) -> (r: u16)
        ensures
            r == self.number(),
    {
        match self {
            IntOrString::Int(i) => *i,
            IntOrString::String(s) => match parse_u16(s.as_str()) {
                Some(n) => n,
                None => 0,
            },
        }
    }
}

/// What a probe can ask of an application.
pub open spec fn is_question(text: Seq<char>) -> bool {
    text == "livez"@ || text == "readyz"@ || text == "startupz"@
}

/// Whether the path has the form of the paths that probes come to: the name of an
/// application, without a slash, between a fixed prefix and a question.
pub open spec fn is_probe_path(path: Seq<char>) -> bool {
    exists|name: Seq<char>, question: Seq<char>|
        name.len() > 0 && !name.contains('/') && is_question(question) && path
            == #[trigger] probe_path(name, question)
}

/// The path that a probe comes to.
pub open spec fn probe_path(name: Seq<char>, question: Seq<char>) -> Seq<char> {
    "/app-health/"@ + name + "/"@ + question
}

/// `Regex::new` and `Regex::is_match`: whether the whole path has the form that the
/// pattern describes, which is that of the paths that probes come to. That one
/// pattern is a valid expression, and both its ends are anchored.
#[verifier::external_body]
fn pattern_matches(pattern: &str, path: &str) -> (r: bool)
    requires
        pattern@ == APP_PROBER_PATTERN@,
    ensures
        r == is_probe_path(path@),
{
    regex::Regex::new(pattern).unwrap().is_match(path)
}

/// `StatusCode::from_u16`: whether there is such a status, which has three digits.
#[verifier::external_body]
fn is_status(code: u16) -> (r: bool)
    ensures
        r == (100 <= code < 1000),
{
    http::StatusCode::from_u16(code).is_ok()
}

/// How many kinds of check the prober has.
pub open spec fn kinds(prober: Prober) -> nat {
    (if prober.http_get is Some {
        1nat
    } else {
        0
    }) + (if prober.tcp_socket is Some {
        1nat
    } else {
        0
    }) + (if prober.grpc is Some {
        1nat
    } else {
        0
    })
}

/// Whether the prober goes to a port by its name.
pub open spec fn named_port(prober: Prober) -> bool {
    ||| prober.http_get matches Some(http) && http.port is String
    ||| prober.tcp_socket matches Some(tcp) && tcp.port is String
}

/// What is wrong with a prober.
pub open spec fn prober_fault(path: Seq<char>, prober: Prober) -> Option<Seq<char>> {
    if !is_probe_path(path) {
        Some("invalid path, must be in form of regex pattern "@ + APP_PROBER_PATTERN@)
    } else if kinds(prober) != 1 {
        Some("invalid prober type, must be one of type httpGet, tcpSocket or gRPC"@)
    } else if named_port(prober) {
        Some("invalid prober config for "@ + path + ", port must be int"@)
    } else {
        None
    }
}

/// Whether the prober is well formed: its path, exactly one kind of check, and a
/// port by number.
pub fn validate_app_kube_prober(path: &str, prober: &Prober) -> (r: Result<(), String>)
    ensures
        match r {
            Ok(_) => prober_fault(path@, *prober) is None,
            Err(e) => prober_fault(path@, *prober) == Some(e@),
        },
{
    if !pattern_matches(APP_PROBER_PATTERN, path) {
        let mut out: String = "invalid path, must be in form of regex pattern ".to_owned();
        out.append(APP_PROBER_PATTERN);
        return Err(out);
    }
    let mut count: u8 = 0;
    if prober.http_get.is_some() {
        count = count + 1;
    }
    if prober.tcp_socket.is_some() {
        count = count + 1;
    }
    if prober.grpc.is_some() {
        count = count + 1;
    }
    if count != 1 {
        return Err(
            "invalid prober type, must be one of type httpGet, tcpSocket or gRPC".to_owned(),
        );
    }
    let http_named: bool = match &prober.http_get {
        Some(http) => match http.port {
            IntOrString::String(_) => true,
            IntOrString::Int(_) => false,
        },
        None => false,
    };
    let tcp_named: bool = match &prober.tcp_socket {
        Some(tcp) => match tcp.port {
            IntOrString::String(_) => true,
            IntOrString::Int(_) => false,
        },
        None => false,
    };
    if http_named || tcp_named {
        let mut out: String = "invalid prober config for ".to_owned();
        out.append(path);
        out.append(", port must be int");
        return Err(out);
    }
    Ok(())
}

/// A negative number of seconds wraps round to a very large one.
pub open spec fn wait_seconds(timeout_seconds: i32) -> u64 {
    if timeout_seconds >= 0 {
        timeout_seconds as u64
    } else {
        (0x1_0000_0000_0000_0000 + timeout_seconds) as u64
    }
}

fn wait(timeout_seconds: i32) -> (r: u64)
    ensures
        r == wait_seconds(timeout_seconds),
{
    if timeout_seconds >= 0 {
        timeout_seconds as u64
    } else {
        let short: u64 = (-(timeout_seconds as i64)) as u64;
        u64::MAX - (short - 1)
    }
}

/// What to do with a redirect.
#[derive(Clone, Copy, Debug, PartialEq, Eq, Structural)]
pub enum Redirect {
    /// Give up, after too many.
    Error,
    /// Take the redirect itself as the answer: it leads to another host.
    Stop,
    Follow,
}

/// What to do with a redirect after so many.
pub open spec fn redirect_outcome(previous: nat, same_host: bool) -> Redirect {
    if previous >= MAX_REDIRECTS {
        Redirect::Error
    } else if !same_host {
        Redirect::Stop
    } else {
        Redirect::Follow
    }
}

/// What to do with a redirect, by how many were followed and whether it leads to the
/// host that the probe went to.
pub fn redirect(previous: usize, same_host: bool) -> (r: Redirect)
    ensures
        r == redirect_outcome(previous as nat, same_host),
{
    if previous >= MAX_REDIRECTS {
        Redirect::Error
    } else if !same_host {
        Redirect::Stop
    } else {
        Redirect::Follow
    }
}

/// How many idle connections to an application are kept.
pub fn idle_connections(keepalive: bool) -> (r: usize)
    ensures
        r == (if keepalive {
            10usize
        } else {
            0
        }),
{
    if keepalive {
        10
    } else {
        0
    }
}

/// The text with a slash before it, unless it has one.
pub open spec fn with_slash(path: Seq<char>) -> Seq<char> {
    if path.len() > 0 && path[0] == '/' {
        path
    } else {
        "/"@ + path
    }
}

fn add_slash(path: &str) -> (r: String)
    ensures
        r@ == with_slash(path@),
{
    let chars: Vec<char> = chars_of(path);
    if chars.len() > 0 && chars[0] == '/' {
        path.to_owned()
    } else {
        let mut out: String = "/".to_owned();
        out.append(path);
        out
    }
}

/// Where the last colon stands.
pub open spec fn last_colon(text: Seq<char>) -> Option<int>
    decreases text.len(),
{
    if text.len() == 0 {
        None
    } else if text.last() == ':' {
        Some(text.len() - 1)
    } else {
        last_colon(text.drop_last())
    }
}

/// The host that a probe names to the application: the one that it was sent to, with
/// the application's port in place of the one that probes come to.
pub open spec fn renamed_host(incoming: Seq<char>, status_port: u16, port: u16) -> Seq<char> {
    match last_colon(incoming) {
        Some(i) => if incoming.skip(i + 1) == decimal(status_port as nat) {
            incoming.take(i) + ":"@ + decimal(port as nat)
        } else {
            incoming
        },
        None => incoming,
    }
}

/// The host that a probe names to the application. Where it was sent to none, that
/// is the application's address: an empty host is refused by many servers.
pub open spec fn final_host(
    incoming: Seq<char>,
    status_port: u16,
    destination: Seq<char>,
    port: u16,
) -> Seq<char> {
    let renamed = renamed_host(incoming, status_port, port);
    if renamed.len() == 0 || renamed == "<none>"@ {
        destination + ":"@ + decimal(port as nat)
    } else {
        renamed
    }
}

fn rename_host(incoming: &str, status_port: u16, port: u16) -> (r: String)
    ensures
        r@ == renamed_host(incoming@, status_port, port),
{
    let chars: Vec<char> = chars_of(incoming);
    let mut i: usize = chars.len();
    assert(incoming@.take(incoming@.len() as int) =~= incoming@);
    while i > 0
        invariant
            i <= chars@.len(),
            chars@ == incoming@,
            last_colon(incoming@) == last_colon(incoming@.take(i as int)),
        decreases i,
    {
        assert(incoming@.take(i as int).drop_last() =~= incoming@.take(i - 1));
        i = i - 1;
        if chars[i] == ':' {
            let behind: String = text_of(
                vstd::slice::slice_subrange(chars.as_slice(), i + 1, chars.len()),
            );
            assert(behind@ =~= incoming@.skip(i + 1));
            let mut expected: String = String::new();
            push_decimal(&mut expected, status_port as u64);
            assert(expected@ =~= decimal(status_port as nat));
            if same_text(behind.as_str(), expected.as_str()) {
                let mut out: String = text_of(
                    vstd::slice::slice_subrange(chars.as_slice(), 0, i),
                );
                assert(out@ =~= incoming@.take(i as int));
                out.append(":");
                push_decimal(&mut out, port as u64);
                return out;
            }
            return incoming.to_owned();
        }
    }
    incoming.to_owned()
}

/// The host that a probe names to the application.
pub fn probe_host(incoming: &str, status_port: u16, destination: &str, port: u16) -> (r: String)
    ensures
        r@ == final_host(incoming@, status_port, destination@, port),
{
    let renamed: String = rename_host(incoming, status_port, port);
    if renamed.is_empty() || same_text(renamed.as_str(), "<none>") {
        let mut out: String = destination.to_owned();
        out.append(":");
        push_decimal(&mut out, port as u64);
        out
    } else {
        renamed
    }
}

/// A header's name, in lower case, and its value.
pub type Header = (String, Vec<u8>);

/// A header, as mathematics has it.
pub type HeaderView = (Seq<char>, Seq<u8>);

/// Each header, as mathematics has it.
pub open spec fn header_views(headers: Seq<Header>) -> Seq<HeaderView> {
    headers.map_values(|h: Header| (h.0@, h.1@))
}

/// The headers without those of this name.
pub open spec fn without_name(headers: Seq<HeaderView>, name: Seq<char>) -> Seq<HeaderView>
    decreases headers.len(),
{
    if headers.len() == 0 {
        Seq::empty()
    } else if headers.last().0 == name {
        without_name(headers.drop_last(), name)
    } else {
        without_name(headers.drop_last(), name).push(headers.last())
    }
}

/// The headers that are passed on: all but the host. Of several with one name the
/// last is.
pub open spec fn forwarded(headers: Seq<HeaderView>) -> Seq<HeaderView>
    decreases headers.len(),
{
    if headers.len() == 0 {
        Seq::empty()
    } else {
        let before = forwarded(headers.drop_last());
        if headers.last().0 == "host"@ {
            before
        } else {
            without_name(before, headers.last().0).push(headers.last())
        }
    }
}

fn copy_bytes(bytes: &Vec<u8>) -> (r: Vec<u8>)
    ensures
        r@ == bytes@,
{
    let out: Vec<u8> = bytes.clone();
    assert(out@ =~= bytes@);
    out
}

fn drop_header(headers: &Vec<Header>, name: &str) -> (r: Vec<Header>)
    ensures
        header_views(r@) == without_name(header_views(headers@), name@),
{
    let ghost all = header_views(headers@);
    let mut out: Vec<Header> = Vec::new();
    let mut i: usize = 0;
    assert(header_views(out@) =~= without_name(all.take(0), name@));
    while i < headers.len()
        invariant
            i <= headers@.len(),
            all == header_views(headers@),
            header_views(out@) == without_name(all.take(i as int), name@),
        decreases headers@.len() - i,
    {
        let ghost before = header_views(out@);
        assert(all.take(i + 1).drop_last() =~= all.take(i as int));
        assert(all.take(i + 1).last() == (headers@[i as int].0@, headers@[i as int].1@));
        if !same_text(headers[i].0.as_str(), name) {
            out.push((headers[i].0.clone(), copy_bytes(&headers[i].1)));
            assert(header_views(out@) =~= before.push(all[i as int]));
        }
        i = i + 1;
    }
    assert(all.take(i as int) =~= all);
    out
}

/// The headers that are passed on.
pub fn forward_headers(headers: &Vec<Header>) -> (r: Vec<Header>)
    ensures
        header_views(r@) == forwarded(header_views(headers@)),
{
    let ghost all = header_views(headers@);
    let mut out: Vec<Header> = Vec::new();
    let mut i: usize = 0;
    assert(header_views(out@) =~= forwarded(all.take(0)));
    while i < headers.len()
        invariant
            i <= headers@.len(),
            all == header_views(headers@),
            header_views(out@) == forwarded(all.take(i as int)),
        decreases headers@.len() - i,
    {
        assert(all.take(i + 1).drop_last() =~= all.take(i as int));
        assert(all.take(i + 1).last() == (headers@[i as int].0@, headers@[i as int].1@));
        if !same_text(headers[i].0.as_str(), "host") {
            out = drop_header(&out, headers[i].0.as_str());
            let ghost before = header_views(out@);
            out.push((headers[i].0.clone(), copy_bytes(&headers[i].1)));
            assert(header_views(out@) =~= before.push(all[i as int]));
        }
        i = i + 1;
    }
    assert(all.take(i as int) =~= all);
    out
}

/// The status of a probe, by the application's answer: a redirect counts as success.
pub open spec fn probe_status(raw: u16) -> u16 {
    if 300 <= raw < 400 || raw < 100 || raw >= 1000 {
        200
    } else {
        raw
    }
}

/// The status of an HTTP probe, by the application's answer, if there was one.
pub open spec fn http_outcome(answer: Option<u16>) -> u16 {
    match answer {
        Some(raw) => probe_status(raw),
        None => 500,
    }
}

/// The status of an HTTP probe: that of the application's answer, but for a
/// redirect, which counts as success. Without an answer the probe failed.
pub fn http_status(answer: Option<u16>) -> (r: u16)
    ensures
        r == http_outcome(answer),
{
    match answer {
        Some(raw) => {
            if (300 <= raw && raw < 400) || !is_status(raw) {
                200
            } else {
                raw
            }
        },
        None => 500,
    }
}

/// The status of a TCP probe.
pub open spec fn tcp_outcome(connected: bool) -> u16 {
    if connected {
        200
    } else {
        500
    }
}

/// The status of a gRPC probe, by the health service's answer, if there was one.
pub open spec fn grpc_outcome(answer: Option<i32>) -> u16 {
    if answer == Some(GRPC_SERVING) {
        200
    } else {
        500
    }
}

/// The status of a TCP probe: whether the connection opened in time.
pub fn tcp_status(connected: bool) -> (r: u16)
    ensures
        r == tcp_outcome(connected),
{
    if connected {
        200
    } else {
        500
    }
}

/// The status of a gRPC probe: whether the health service answered that it serves.
pub fn grpc_status(answer: Option<i32>) -> (r: u16)
    ensures
        r == grpc_outcome(answer),
{
    match answer {
        Some(status) => {
            if status == GRPC_SERVING {
                200
            } else {
                500
            }
        },
        None => 500,
    }
}

/// The name that a gRPC probe goes by, unless whoever asked had one.
pub fn user_agent(incoming: Option<String>) -> (r: String)
    ensures
        r@ == (match incoming {
            Some(name) => name@,
            None => "kube-probe/rust"@,
        }),
{
    match incoming {
        Some(name) => name,
        None => "kube-probe/rust".to_owned(),
    }
}

/// What to do about a probe.
#[derive(Debug, PartialEq, Eq)]
pub enum ProbeStep {
    /// Answer at once, with this status and body.
    Answer(u16, String),
    /// Ask this URL, naming this host and waiting so many seconds.
    HttpGet { url: String, port: u16, timeout_seconds: u64 },
    /// Connect to this port of the application, waiting so many seconds.
    TcpConnect { port: u16, timeout_seconds: u64 },
    /// Ask the health service at this address for this service, waiting so many
    /// seconds.
    GrpcCheck { address: String, service: String, timeout_seconds: u64 },
}

/// The probes of an application.
pub struct Server {
    app_kube_probers: Table<String, Prober>,
    status_port: u16,
    app_probers_destination: String,
}

/// What the server knows of the probes of an application.
pub struct ServerModel {
    pub probers: Map<Seq<char>, Prober>,
    pub status_port: u16,
    pub destination: Seq<char>,
}

impl View for Server {
    type V = ServerModel;

    closed spec fn view(&self) -> ServerModel {
        ServerModel {
            probers: self.app_kube_probers@,
            status_port: self.status_port,
            destination: self.app_probers_destination@,
        }
    }
}

/// What is wrong with the first HTTP prober that is not well formed, from this one
/// on. Probers of other kinds are taken as they are.
pub open spec fn probers_fault(probers: Seq<(String, Prober)>, from: nat) -> Option<Seq<char>>
    decreases probers.len() - from,
{
    if from >= probers.len() {
        None
    } else if probers[from as int].1.http_get is Some && prober_fault(
        probers[from as int].0@,
        probers[from as int].1,
    ) is Some {
        prober_fault(probers[from as int].0@, probers[from as int].1)
    } else {
        probers_fault(probers, from + 1)
    }
}

/// The probers by path.
pub open spec fn probers_of(probers: Seq<(String, Prober)>) -> Map<Seq<char>, Prober>
    decreases probers.len(),
{
    if probers.len() == 0 {
        Map::empty()
    } else {
        probers_of(probers.drop_last()).insert(probers.last().0@, probers.last().1)
    }
}

/// The URL that an HTTP probe asks.
pub open spec fn probe_url(http: HTTPGetAction, destination: Seq<char>) -> Seq<char> {
    (match http.scheme {
        Some(URIScheme::Https) => "https"@,
        _ => "http"@,
    }) + "://"@ + destination + ":"@ + decimal(http.port.number() as nat) + with_slash(http.path@)
}

/// What to do about a probe that comes to this path.
pub open spec fn step_is(step: ProbeStep, server: ServerModel, path: Seq<char>) -> bool {
    let full = with_slash(path);
    if !server.probers.dom().contains(full) {
        step matches ProbeStep::Answer(status, body) && status == 400 && body@
            == "app prober config does not exist for "@ + full
    } else {
        let prober = server.probers[full];
        match prober.http_get {
            Some(http) => step matches ProbeStep::HttpGet { url, port, timeout_seconds } && url@
                == probe_url(http, server.destination) && port == http.port.number()
                && timeout_seconds == wait_seconds(prober.timeout_seconds),
            None => match prober.tcp_socket {
                Some(tcp) => step matches ProbeStep::TcpConnect { port, timeout_seconds } && port
                    == tcp.port.number() && timeout_seconds == wait_seconds(
                    prober.timeout_seconds,
                ),
                None => match prober.grpc {
                    Some(grpc) => step matches ProbeStep::GrpcCheck {
                        address,
                        service,
                        timeout_seconds,
                    } && address@ == "http://"@ + server.destination + ":"@ + signed_decimal(
                        grpc.port as int,
                    ) && service@ == (match grpc.service {
                        Some(name) => name@,
                        None => ""@,
                    }) && timeout_seconds == wait_seconds(prober.timeout_seconds),
                    None => step matches ProbeStep::Answer(status, body) && status == 500
                        && body@.len() == 0,
                },
            },
        }
    }
}

impl Server {
    /// The probes of an application at this destination. `status_port` is where
    /// probes come to. Without probes there is nothing to serve, and an HTTP prober
    /// that is not well formed is not accepted.
    pub fn new(
        app_kube_probers: Option<Vec<(String, Prober)>>,
        status_port: u16,
        app_probers_destination: String,
    ) -> (r: Result<Server, String>)
        ensures
            match app_kube_probers {
                None => r matches Err(e) && e@
                    == "No kube app probes found, not enabling kube app probes."@,
                Some(probers) => match r {
                    Ok(server) => {
                        &&& probers_fault(probers@, 0) is None
                        &&& server@.probers == probers_of(probers@)
                        &&& server@.status_port == status_port
                        &&& server@.destination == app_probers_destination@
                    },
                    Err(e) => probers_fault(probers@, 0) == Some(e@),
                },
            },
    {
        let probers: Vec<(String, Prober)> = match app_kube_probers {
            Some(probers) => probers,
            None => {
                return Err(
                    "No kube app probes found, not enabling kube app probes.".to_owned(),
                );
            },
        };
        match read_probers(probers) {
            Ok(table) => Ok(
                Server { app_kube_probers: table, status_port, app_probers_destination },
            ),
            Err(e) => Err(e),
        }
    }

    /// What to do about a probe that comes to this path.
    pub fn handle_app_probe(&self, path: &str) -> (r: ProbeStep)
        ensures
            step_is(r, self@, path@),
    {
        let full: String = add_slash(path);
        let prober: &Prober = match self.app_kube_probers.get(&full) {
            Some(prober) => prober,
            None => {
                let mut body: String = "app prober config does not exist for ".to_owned();
                body.append(full.as_str());
                return ProbeStep::Answer(400, body);
            },
        };
        let timeout_seconds: u64 = wait(prober.timeout_seconds);
        if let Some(http) = &prober.http_get {
            let port: u16 = http.port.int_value();
            let mut url: String = match http.scheme {
                Some(URIScheme::Https) => "https".to_owned(),
                _ => "http".to_owned(),
            };
            url.append("://");
            url.append(self.app_probers_destination.as_str());
            url.append(":");
            push_decimal(&mut url, port as u64);
            url.append(add_slash(http.path.as_str()).as_str());
            return ProbeStep::HttpGet { url, port, timeout_seconds };
        }
        if let Some(tcp) = &prober.tcp_socket {
            return ProbeStep::TcpConnect { port: tcp.port.int_value(), timeout_seconds };
        }
        if let Some(grpc) = &prober.grpc {
            let mut address: String = "http://".to_owned();
            address.append(self.app_probers_destination.as_str());
            address.append(":");
            address.append(signed_decimal_text(grpc.port).as_str());
            let service: String = match &grpc.service {
                Some(name) => name.clone(),
                None => "".to_owned(),
            };
            return ProbeStep::GrpcCheck { address, service, timeout_seconds };
        }
        ProbeStep::Answer(500, String::new())
    }

    /// The host that an HTTP probe names to the application.
    pub fn host_header(&self, incoming: &str, port: u16) -> (r: String)
        ensures
            r@ == final_host(incoming@, self@.status_port, self@.destination, port),
    {
        probe_host(incoming, self.status_port, self.app_probers_destination.as_str(), port)
    }
}

fn read_probers(probers: Vec<(String, Prober)>) -> (r: Result<Table<String, Prober>, String>)
    ensures
        match r {
            Ok(table) => probers_fault(probers@, 0) is None && table@ == probers_of(probers@),
            Err(e) => probers_fault(probers@, 0) == Some(e@),
        },
{
    let ghost all = probers@;
    let mut rest: Vec<(String, Prober)> = probers;
    let count: usize = rest.len();
    let mut table: Table<String, Prober> = Table::new();
    let mut i: usize = 0;
    assert(all.skip(0) =~= all);
    assert(all.take(0) =~= Seq::empty());
    while i < count
        invariant
            i <= count,
            count == all.len(),
            all == probers@,
            rest@ == all.skip(i as int),
            probers_fault(all, 0) == probers_fault(all, i as nat),
            table@ == probers_of(all.take(i as int)),
        decreases count - i,
    {
        let (path, prober): (String, Prober) = rest.remove(0);
        assert((path, prober) == all[i as int]);
        assert(rest@ =~= all.skip(i + 1));
        assert(all.take(i + 1).drop_last() =~= all.take(i as int));
        if prober.http_get.is_some() {
            match validate_app_kube_prober(path.as_str(), &prober) {
                Ok(_) => {},
                Err(e) => {
                    return Err(e);
                },
            }
        }
        table.insert(path, prober);
        i = i + 1;
    }
    assert(all.take(i as int) =~= all);
    Ok(table)
}

proof fn lemma_last_colon(text: Seq<char>, i: int)
    requires
        0 <= i < text.len(),
        text[i] == ':',
        forall|k: int| i < k < text.len() ==> #[trigger] text[k] != ':',
    ensures
        last_colon(text) == Some(i),
    decreases text.len(),
{
    if i < text.len() - 1 {
        assert(text[text.len() - 1] != ':');
        lemma_last_colon(text.drop_last(), i);
    }
}

proof fn lemma_host_is_kept(host: Seq<char>, named: u16)
    ensures
        last_colon(host + ":"@ + decimal(named as nat)) == Some(host.len() as int),
        (host + ":"@ + decimal(named as nat)).skip(host.len() as int + 1) == decimal(named as nat),
        (host + ":"@ + decimal(named as nat)).take(host.len() as int) == host,
        host + ":"@ + decimal(named as nat) != "<none>"@,
{
    reveal_strlit(":");
    reveal_strlit("<none>");
    lemma_decimal_is_digits(named as nat);
    let incoming = host + ":"@ + decimal(named as nat);
    let i = host.len() as int;
    assert(incoming[i] == ':');
    assert forall|k: int| i < k < incoming.len() implies #[trigger] incoming[k] != ':' by {
        assert(incoming[k] == decimal(named as nat)[k - i - 1]);
    }
    lemma_last_colon(incoming, i);
    assert(incoming.skip(i + 1) =~= decimal(named as nat));
    assert(incoming.take(i) =~= host);
    if incoming == "<none>"@ {
        assert("<none>"@[i] == ':');
        assert(forall|k: int| 0 <= k < 6 ==> #[trigger] "<none>"@[k] != ':');
    }
}

/// A probe that names the port that probes come to reaches the application under its
/// own port; one that names another is left as it is; and the application is never
/// left without a host.
pub proof fn law_host_names_the_application(
    host: Seq<char>,
    named: u16,
    status_port: u16,
    destination: Seq<char>,
    port: u16,
)
    ensures
        final_host(host + ":"@ + decimal(named as nat), status_port, destination, port) == host
            + ":"@ + decimal(
            if named == status_port {
                port as nat
            } else {
                named as nat
            },
        ),
        final_host(Seq::empty(), status_port, destination, port) == destination + ":"@ + decimal(
            port as nat,
        ),
{
    lemma_host_is_kept(host, named);
    lemma_host_is_kept(host, port);
    if decimal(named as nat) == decimal(status_port as nat) {
        lemma_decimal_injective(named as nat, status_port as nat);
    }
    reveal_strlit(":");
}

/// Whether a status tells whoever probes that the application is well.
pub open spec fn is_success(status: u16) -> bool {
    200 <= status && status <= 399
}

/// An HTTP probe succeeds exactly where the application's answer does: whatever the
/// application says is handed on unchanged, but for a redirect, which succeeds as such.
/// Without an answer the probe fails.
pub proof fn law_http_probe_tells_how_the_application_is(answer: u16)
    ensures
        !is_success(http_outcome(None)),
        100 <= answer <= 599 ==> (is_success(http_outcome(Some(answer))) <==> is_success(answer)),
        100 <= answer <= 999 && !(300 <= answer <= 399) ==> http_outcome(Some(answer)) == answer,
        300 <= answer <= 399 ==> http_outcome(Some(answer)) == 200,
        http_outcome(None) >= 500,
{
}

/// A TCP probe succeeds exactly where the connection opened, and a gRPC probe exactly
/// where the health service answered with number one, that it serves; what fails fails
/// with a server error.
pub proof fn law_other_probes_tell_how_the_application_is(connected: bool, answer: Option<i32>)
    ensures
        is_success(tcp_outcome(connected)) <==> connected,
        !connected ==> tcp_outcome(connected) >= 500,
        is_success(grpc_outcome(answer)) <==> (answer matches Some(n) && n == 1),
        !is_success(grpc_outcome(answer)) ==> grpc_outcome(answer) >= 500,
{
}

/// A probe follows no redirect to another host, and no more than ten in all; where it
/// stops short of that, the redirect itself is the answer.
pub proof fn law_redirects_stay_and_end(previous: nat, same_host: bool)
    ensures
        redirect_outcome(previous, same_host) is Follow <==> same_host && previous < 10,
        redirect_outcome(previous, same_host) is Stop <==> !same_host && previous < 10,
{
}

/// A path comes to the same probe with or without its first slash.
pub proof fn law_first_slash_does_not_matter(step: ProbeStep, server: ServerModel, path: Seq<char>)
    requires
        path.len() == 0 || path[0] != '/',
    ensures
        step_is(step, server, path) <==> step_is(step, server, seq!['/'] + path),
        with_slash(path) == seq!['/'] + path,
{
    reveal_strlit("/");
    assert("/"@ + path =~= seq!['/'] + path);
}

/// What a probe does is what its prober says: an HTTP check where it has one, else a TCP
/// check, else a gRPC check, each with the prober's own port and for as long as it says.
/// A path without a prober is answered as a bad request.
pub proof fn law_probe_follows_its_prober(step: ProbeStep, server: ServerModel, path: Seq<char>)
    requires
        path.len() > 0 && path[0] == '/',
        step_is(step, server, path),
    ensures
        step is Answer ==> !(200 <= step->Answer_0 <= 399),
        !server.probers.dom().contains(path) ==> step is Answer && step->Answer_0 == 400,
        server.probers.dom().contains(path) ==> ({
            let prober = server.probers[path];
            &&& step is HttpGet <==> prober.http_get is Some
            &&& step is TcpConnect <==> prober.http_get is None && prober.tcp_socket is Some
            &&& step is GrpcCheck <==> prober.http_get is None && prober.tcp_socket is None
                && prober.grpc is Some
            &&& prober.timeout_seconds >= 0 ==> {
                &&& step is HttpGet ==> step->HttpGet_timeout_seconds == prober.timeout_seconds
                &&& step is TcpConnect ==> step->TcpConnect_timeout_seconds
                    == prober.timeout_seconds
                &&& step is GrpcCheck ==> step->GrpcCheck_timeout_seconds
                    == prober.timeout_seconds
            }
            &&& step is HttpGet && prober.http_get.unwrap().port is Int ==> step->HttpGet_port
                == prober.http_get.unwrap().port->Int_0
            &&& step is TcpConnect && prober.tcp_socket.unwrap().port is Int
                ==> step->TcpConnect_port == prober.tcp_socket.unwrap().port->Int_0
        }),
{
}

/// The value that a header has last.
pub open spec fn last_value(headers: Seq<HeaderView>, name: Seq<char>) -> Option<Seq<u8>>
    decreases headers.len(),
{
    if headers.len() == 0 {
        None
    } else if headers[headers.len() - 1].0 == name {
        Some(headers[headers.len() - 1].1)
    } else {
        last_value(headers.take(headers.len() - 1), name)
    }
}

/// Whether two headers have the name.
pub open spec fn twice(headers: Seq<HeaderView>, name: Seq<char>) -> bool {
    exists|i: int, j: int|
        0 <= i < j < headers.len() && (#[trigger] headers[i]).0 == name && (
        #[trigger] headers[j]).0 == name
}

proof fn lemma_without_name(headers: Seq<HeaderView>, drop: Seq<char>, name: Seq<char>)
    ensures
        last_value(without_name(headers, drop), name) == (if name == drop {
            None
        } else {
            last_value(headers, name)
        }),
        twice(without_name(headers, drop), name) ==> twice(headers, name),
        forall|i: int|
            0 <= i < without_name(headers, drop).len() ==> (#[trigger] without_name(
                headers,
                drop,
            )[i]).0 != drop,
        last_value(headers, name) is None <==> forall|i: int|
            0 <= i < headers.len() ==> (#[trigger] headers[i]).0 != name,
    decreases headers.len(),
{
    if headers.len() > 0 {
        let short = headers.drop_last();
        assert(headers.take(headers.len() - 1) =~= short);
        lemma_without_name(short, drop, name);
        let before = without_name(short, drop);
        let after = without_name(headers, drop);
        lemma_values(before, name);
        if headers.last().0 != drop {
            assert(after.take(after.len() - 1) =~= before);
        }
        if twice(before, name) {
            let (i, j) = choose|i: int, j: int|
                0 <= i < j < short.len() && (#[trigger] short[i]).0 == name && (
                #[trigger] short[j]).0 == name;
            assert(headers[i] == short[i] && headers[j] == short[j]);
            assert(twice(headers, name));
        } else if twice(after, name) {
            let (i, j) = choose|i: int, j: int|
                0 <= i < j < after.len() && (#[trigger] after[i]).0 == name && (
                #[trigger] after[j]).0 == name;
            if j < before.len() {
                assert(before[i] == after[i] && before[j] == after[j]);
            }
            assert(before[i] == after[i]);
            assert(last_value(before, name) is Some);
            assert(last_value(short, name) is Some);
            let k = choose|k: int| 0 <= k < short.len() && (#[trigger] short[k]).0 == name;
            assert(headers[k] == short[k] && headers[headers.len() - 1].0 == name);
            assert(twice(headers, name));
        }
        if last_value(headers, name) is None {
            assert forall|i: int| 0 <= i < headers.len() implies (#[trigger] headers[i]).0
                != name by {
                if i < short.len() {
                    assert(headers[i] == short[i]);
                }
            }
        }
        if forall|i: int| 0 <= i < headers.len() ==> (#[trigger] headers[i]).0 != name {
            assert forall|i: int| 0 <= i < short.len() implies (#[trigger] short[i]).0 != name by {
                assert(headers[i] == short[i]);
            }
            assert(headers[headers.len() - 1].0 != name);
        }
    }
}

proof fn lemma_values(headers: Seq<HeaderView>, name: Seq<char>)
    ensures
        last_value(headers, name) is None <==> forall|i: int|
            0 <= i < headers.len() ==> (#[trigger] headers[i]).0 != name,
    decreases headers.len(),
{
    if headers.len() > 0 {
        let short = headers.take(headers.len() - 1);
        lemma_values(short, name);
        if last_value(headers, name) is None {
            assert forall|i: int| 0 <= i < headers.len() implies (#[trigger] headers[i]).0
                != name by {
                if i < short.len() {
                    assert(headers[i] == short[i]);
                }
            }
        }
        if forall|i: int| 0 <= i < headers.len() ==> (#[trigger] headers[i]).0 != name {
            assert forall|i: int| 0 <= i < short.len() implies (#[trigger] short[i]).0 != name by {
                assert(headers[i] == short[i]);
            }
            assert(headers[headers.len() - 1].0 != name);
        }
    }
}

/// Every header is passed on but the host: once for each name, with the value that it
/// had last.
pub proof fn law_headers_are_passed_on_once(headers: Seq<HeaderView>, name: Seq<char>)
    ensures
        last_value(forwarded(headers), name) == (if name == "host"@ {
            None
        } else {
            last_value(headers, name)
        }),
        !twice(forwarded(headers), name),
    decreases headers.len(),
{
    if headers.len() > 0 {
        let short = headers.drop_last();
        assert(headers.take(headers.len() - 1) =~= short);
        law_headers_are_passed_on_once(short, name);
        let before = forwarded(short);
        let last = headers.last();
        if last.0 != "host"@ {
            lemma_without_name(before, last.0, name);
            let kept = without_name(before, last.0);
            let after = forwarded(headers);
            assert(after.take(after.len() - 1) =~= kept);
            if twice(after, name) {
                let (i, j) = choose|i: int, j: int|
                    0 <= i < j < after.len() && (#[trigger] after[i]).0 == name && (
                    #[trigger] after[j]).0 == name;
                assert(kept[i] == after[i]);
                if j < kept.len() {
                    assert(kept[j] == after[j]);
                    assert(twice(kept, name));
                }
            }
        }
    }
}

/// A prober is accepted exactly where its path is one that probes come to, it has one
/// kind of check and no other, and that check goes to a port by number.
pub proof fn law_accepted_probers(path: Seq<char>, prober: Prober)
    ensures
        prober_fault(path, prober) is None <==> {
            &&& is_probe_path(path)
            &&& ({
                ||| prober.http_get is Some && prober.tcp_socket is None && prober.grpc is None
                ||| prober.http_get is None && prober.tcp_socket is Some && prober.grpc is None
                ||| prober.http_get is None && prober.tcp_socket is None && prober.grpc is Some
            })
            &&& prober.http_get matches Some(http) ==> http.port is Int
            &&& prober.tcp_socket matches Some(tcp) ==> tcp.port is Int
        },
        !is_probe_path(path) ==> prober_fault(path, prober) == Some(
            "invalid path, must be in form of regex pattern "@
                + "^/app-health/[^/]+/(livez|readyz|startupz)$"@,
        ),
        is_probe_path(path) && prober_fault(path, prober) is Some && kinds(prober) == 1
            ==> prober_fault(path, prober) == Some(
            "invalid prober config for "@ + path + ", port must be int"@,
        ),
{
}

/// The paths that probes come to are those with the name of an application and one of
/// three questions.
pub proof fn law_paths_of_probes(name: Seq<char>)
    requires
        name.len() > 0,
        !name.contains('/'),
    ensures
        is_probe_path("/app-health/"@ + name + "/livez"@),
        is_probe_path("/app-health/"@ + name + "/readyz"@),
        is_probe_path("/app-health/"@ + name + "/startupz"@),
{
    reveal_strlit("/livez");
    reveal_strlit("/readyz");
    reveal_strlit("/startupz");
    reveal_strlit("livez");
    reveal_strlit("readyz");
    reveal_strlit("startupz");
    reveal_strlit("/");
    assert("/app-health/"@ + name + "/livez"@ =~= probe_path(name, "livez"@));
    assert("/app-health/"@ + name + "/readyz"@ =~= probe_path(name, "readyz"@));
    assert("/app-health/"@ + name + "/startupz"@ =~= probe_path(name, "startupz"@));
}

/// The HTTP probers are checked, all of them, and the first that is not accepted is told
/// of. Probers of other kinds are taken as they are.
pub proof fn law_http_probers_are_checked(probers: Seq<(String, Prober)>, from: nat)
    ensures
        probers_fault(probers, from) is None <==> forall|i: int|
            from <= i < probers.len() && (#[trigger] probers[i]).1.http_get is Some
                ==> prober_fault(probers[i].0@, probers[i].1) is None,
        probers_fault(probers, from) matches Some(fault) ==> exists|i: int|
            {
                &&& from <= i < probers.len()
                &&& (#[trigger] probers[i]).1.http_get is Some
                &&& prober_fault(probers[i].0@, probers[i].1) == Some(fault)
                &&& forall|k: int|
                    from <= k < i && (#[trigger] probers[k]).1.http_get is Some ==> prober_fault(
                        probers[k].0@,
                        probers[k].1,
                    ) is None
            },
    decreases probers.len() - from,
{
    if from < probers.len() {
        law_http_probers_are_checked(probers, from + 1);
        let first = probers[from as int];
        if first.1.http_get is Some && prober_fault(first.0@, first.1) is Some {
            assert(probers[from as int].1.http_get is Some);
        } else if probers_fault(probers, from + 1) is Some {
            let fault = probers_fault(probers, from + 1).unwrap();
            let i = choose|i: int|
                {
                    &&& from + 1 <= i < probers.len()
                    &&& (#[trigger] probers[i]).1.http_get is Some
                    &&& prober_fault(probers[i].0@, probers[i].1) == Some(fault)
                    &&& forall|k: int|
                        from + 1 <= k < i && (#[trigger] probers[k]).1.http_get is Some
                            ==> prober_fault(probers[k].0@, probers[k].1) is None
                };
            assert(probers[i].1.http_get is Some);
        }
    }
}

/// Every prober is found by its path; of two with one path the later counts.
pub proof fn law_probers_are_found_by_path(probers: Seq<(String, Prober)>, path: Seq<char>)
    ensures
        probers_of(probers).dom().contains(path) <==> exists|i: int|
            0 <= i < probers.len() && (#[trigger] probers[i]).0@ == path,
        probers_of(probers).dom().contains(path) ==> exists|i: int|
            {
                &&& 0 <= i < probers.len()
                &&& (#[trigger] probers[i]).0@ == path
                &&& probers_of(probers)[path] == probers[i].1
                &&& forall|k: int| i < k < probers.len() ==> (#[trigger] probers[k]).0@ != path
            },
    decreases probers.len(),
{
    if probers.len() > 0 {
        let short = probers.drop_last();
        let n = probers.len() - 1;
        law_probers_are_found_by_path(short, path);
        assert forall|i: int| 0 <= i < n implies #[trigger] probers[i] == short[i] by {}
        if probers[n].0@ == path {
            assert(probers_of(probers)[path] == probers[n].1);
        } else if probers_of(short).dom().contains(path) {
            let i = choose|i: int|
                {
                    &&& 0 <= i < short.len()
                    &&& (#[trigger] short[i]).0@ == path
                    &&& probers_of(short)[path] == short[i].1
                    &&& forall|k: int| i < k < short.len() ==> (#[trigger] short[k]).0@ != path
                };
            assert(probers[i].0@ == path);
            assert forall|k: int| i < k < probers.len() implies (#[trigger] probers[k]).0@ != path by {
                if k < n {
                    assert(short[k].0@ != path);
                }
            }
        }
        if exists|i: int| 0 <= i < probers.len() && (#[trigger] probers[i]).0@ == path {
            let i = choose|i: int| 0 <= i < probers.len() && (#[trigger] probers[i]).0@ == path;
            if i < n {
                assert(short[i].0@ == path);
            }
        }
    }
}

/// A port is the number that it is, or the one that its text writes; a text that writes
/// none is port zero. A check waits for as many seconds as it says; fewer than none wrap
/// around and never end.
pub proof fn law_ports_and_waits(port: u16, seconds: i32)
    ensures
        IntOrString::Int(port).number() == port,
        seconds >= 0 ==> wait_seconds(seconds) == seconds,
        seconds < 0 ==> wait_seconds(seconds) - seconds == 0x1_0000_0000_0000_0000,
{
}

} // verus!
