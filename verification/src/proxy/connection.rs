//! The life of one outgoing TCP connection: whose it is, where it goes, whether it
//! may go there, and what is done for it.

use vstd::prelude::*;

use super::outbound::{
    after_sniffing, outbound_connection, route, select_route, should_sniff, HboneAddress,
    OutboundError, Request, Route, RouteModel, Sniffed, TlsMetadata, Upstream,
};
use crate::extensions::sni::SniAction;
use crate::net::SocketAddr;
use crate::rbac::authorize::{
    assert_rbac, authorization, law_addresses_decide, ProxyRbacContext,
};
use crate::rbac::{outcome, AuthorizationRejectionError, Connection, Direction};
use crate::sandbox::discovery::Sandbox;
use crate::state::store::ProxyState;
use crate::state::workload::{GatewayAddress, OutboundProtocol, Workload};
use crate::text::opt_view;

verus! {

/// How far a connection has come.
#[derive(Debug)]
pub enum Phase {
    /// It is looked up whose connection it is.
    Finding,
    /// The gateway that it goes through is looked up.
    Resolving { source: Workload, sandbox: Option<Sandbox> },
    /// The stream is sniffed for its server name.
    Sniffing(Request),
    /// A tunnel is opened.
    Tunnelling(Request),
    /// The target is connected.
    Connecting(Request),
    /// Bytes are copied both ways.
    Copying(Request),
    Closed,
}

/// What happens to a connection.
pub enum Event {
    /// It is known whose connection it is, with the sandbox that stands for the
    /// workload, or that nobody knows.
    Source(Option<(Workload, Option<Sandbox>)>),
    /// The gateway was found, or not.
    Gateway(Option<Upstream>),
    /// The stream was sniffed, or could not be read.
    Sniffed(Option<Sniffed>),
    /// The tunnel or the connection to the target was opened, or not.
    Opened { success: bool },
    /// One side has ended the connection.
    Ended,
    /// What let the connection pass does so no more.
    Withdrawn,
}

/// Why a connection is refused before anything was done for it.
#[derive(Debug, PartialEq, Eq)]
pub enum Denial {
    UnknownSource,
    UnknownGateway,
    Route(OutboundError),
    Policy(AuthorizationRejectionError),
}

/// Why a connection that was let pass ends early.
#[derive(Debug, PartialEq, Eq)]
pub enum Failure {
    /// The stream could not be read.
    Unreadable,
    /// The tunnel or the connection to the target was not opened.
    NotOpened,
    Refused(OutboundError),
}

/// What is to be done for a connection.
#[derive(Debug, PartialEq, Eq)]
pub enum Action {
    /// Nothing for now.
    Wait,
    /// Look the gateway up.
    FindGateway,
    /// Sniff the stream for its server name.
    Sniff,
    /// Ask the gateway for a tunnel.
    OpenTunnel,
    /// Connect the target.
    Connect,
    /// Copy bytes both ways, those that were sniffed first.
    Copy,
    /// Refuse it.
    Deny(Denial),
    /// End it for this reason.
    Fail(Failure),
    /// End it.
    Close,
}

/// An outgoing connection.
pub struct OutboundConnection {
    source_addr: SocketAddr,
    dest_addr: SocketAddr,
    illegal_ports: Vec<u16>,
    fail_open: bool,
    phase: Phase,
}

/// An outgoing connection as mathematics has it.
pub struct ConnectionModel {
    pub source_addr: SocketAddr,
    pub dest_addr: SocketAddr,
    /// The ports of the proxy itself.
    pub illegal_ports: Seq<u16>,
    /// Whether a stream that cannot be sniffed goes on without a name.
    pub fail_open: bool,
    pub phase: Phase,
}

impl View for OutboundConnection {
    type V = ConnectionModel;

    closed spec fn view(&self) -> ConnectionModel {
        ConnectionModel {
            source_addr: self.source_addr,
            dest_addr: self.dest_addr,
            illegal_ports: self.illegal_ports@,
            fail_open: self.fail_open,
            phase: self.phase,
        }
    }
}

/// The request goes straight to the target.
pub open spec fn is_direct(
    request: Request,
    source: Workload,
    sandbox: Option<Sandbox>,
    target: SocketAddr,
) -> bool {
    &&& request.protocol == OutboundProtocol::TCP
    &&& request.source == source
    &&& request.sandbox == sandbox
    &&& request.tls.sni is None
    &&& request.tls.action is None
    &&& request.actual_destination_workload is None
    &&& request.actual_destination == target
    &&& request.hbone_target_destination is None
    &&& request.upstream_sans@.len() == 0
}

/// The request goes through the gateway to the target.
pub open spec fn is_through(
    request: Request,
    source: Workload,
    sandbox: Option<Sandbox>,
    target: SocketAddr,
    gateway: Upstream,
) -> bool {
    &&& request.protocol == OutboundProtocol::HBONE
    &&& request.source == source
    &&& request.sandbox == sandbox
    &&& request.tls.sni is None
    &&& request.tls.action is None
    &&& request.actual_destination_workload == Some(gateway.workload)
    &&& request.actual_destination == gateway.workload_socket_addr
    &&& request.hbone_target_destination == Some(HboneAddress::SocketAddr(target))
    &&& request.upstream_sans == gateway.sans
}

/// What policies are asked about a request between the addresses.
pub open spec fn is_context(
    ctx: ProxyRbacContext,
    source_addr: SocketAddr,
    dest_addr: SocketAddr,
    request: Request,
) -> bool {
    &&& ctx.conn.src == source_addr
    &&& ctx.conn.dst == dest_addr
    &&& ctx.conn.direction == Direction::Outbound
    &&& ctx.workload == request.source
    &&& opt_view(ctx.sandbox) == (match request.sandbox {
        Some(sandbox) => Some(sandbox.uid@),
        None => None,
    })
}

/// The policies say this of a request between the addresses.
pub open spec fn judged(
    state: ProxyState,
    source_addr: SocketAddr,
    dest_addr: SocketAddr,
    request: Request,
    verdict: Result<(), (Seq<char>, Seq<char>)>,
) -> bool {
    &&& exists|ctx: ProxyRbacContext| #[trigger] is_context(ctx, source_addr, dest_addr, request)
    &&& forall|ctx: ProxyRbacContext| #[trigger]
        is_context(ctx, source_addr, dest_addr, request) ==> authorization(state, ctx) == verdict
}

/// How a connection goes on that has its request: it is refused, or connected, or
/// sniffed for the name by which its tunnel is judged.
pub open spec fn starts(
    before: ConnectionModel,
    state: ProxyState,
    request: Request,
    after: Phase,
    action: Action,
) -> bool {
    match action {
        Action::Deny(Denial::Policy(e)) => after is Closed && judged(
            state,
            before.source_addr,
            before.dest_addr,
            request,
            Err(e@),
        ),
        Action::Connect => after == Phase::Connecting(request) && request.protocol
            == OutboundProtocol::TCP && judged(
            state,
            before.source_addr,
            before.dest_addr,
            request,
            Ok(()),
        ),
        Action::Sniff | Action::OpenTunnel => after == (if action is Sniff {
            Phase::Sniffing(request)
        } else {
            Phase::Tunnelling(request)
        }) && (action is Sniff) == (request.hbone_target_destination matches Some(
            HboneAddress::SocketAddr(_),
        )) && request.protocol == OutboundProtocol::HBONE && judged(
            state,
            before.source_addr,
            before.dest_addr,
            request,
            Ok(()),
        ),
        _ => false,
    }
}

/// How a connection goes on whose stream was sniffed: a name that a policy refuses
/// ends it, and so does a failure where failures are not let pass; else the name
/// and what is decided of it go with the request.
pub open spec fn after_name(
    fail_open: bool,
    request: Request,
    sniffed: Sniffed,
    after: Phase,
    action: Action,
) -> bool {
    if sniffed.failure is Some && !fail_open {
        &&& after is Closed
        &&& action matches Action::Fail(Failure::Refused(OutboundError::TlsSniffFailed(why)))
        &&& why@ == sniffed.failure->0@
    } else {
        match sniffed.sni {
            Some(name) if request.sni_decision(name@) == SniAction::Deny => {
                &&& after is Closed
                &&& action matches Action::Fail(Failure::Refused(OutboundError::SniPolicyDenied(n)))
                &&& n@ == name@
            },
            _ => {
                &&& action is OpenTunnel
                &&& after == Phase::Tunnelling(
                    Request {
                        tls: TlsMetadata {
                            sni: sniffed.sni,
                            action: match sniffed.sni {
                                Some(name) => Some(request.sni_decision(name@)),
                                None => None,
                            },
                        },
                        ..request
                    },
                )
            },
        }
    }
}

/// How a connection goes on.
pub open spec fn goes_on(
    before: ConnectionModel,
    state: ProxyState,
    event: Event,
    after: Phase,
    action: Action,
) -> bool {
    match (before.phase, event) {
        (Phase::Finding, Event::Source(None)) => after is Closed && action == Action::Deny(
            Denial::UnknownSource,
        ),
        (Phase::Finding, Event::Source(Some((source, sandbox)))) => match route(
            before.illegal_ports,
            source,
            before.dest_addr,
        ) {
            RouteModel::SelfCall => after is Closed && action == Action::Deny(
                Denial::Route(OutboundError::SelfCall),
            ),
            RouteModel::Denied => after is Closed && action == Action::Deny(
                Denial::Route(OutboundError::EgressPolicyDenied(before.dest_addr)),
            ),
            RouteModel::GatewayMissing => after is Closed && action == Action::Deny(
                Denial::Route(OutboundError::EgressPolicyGatewayMissing(before.dest_addr)),
            ),
            RouteModel::Gateway(_) => after == (Phase::Resolving { source, sandbox }) && action
                is FindGateway,
            RouteModel::Direct => exists|request: Request| #[trigger]
                is_direct(request, source, sandbox, before.dest_addr) && starts(
                    before,
                    state,
                    request,
                    after,
                    action,
                ),
        },
        (Phase::Resolving { source, sandbox }, Event::Gateway(None)) => after is Closed && action
            == Action::Deny(Denial::UnknownGateway),
        (Phase::Resolving { source, sandbox }, Event::Gateway(Some(gateway))) => exists|
            request: Request,
        | #[trigger]
            is_through(request, source, sandbox, before.dest_addr, gateway) && starts(
                before,
                state,
                request,
                after,
                action,
            ),
        (Phase::Sniffing(request), Event::Sniffed(None)) => after is Closed && action
            == Action::Fail(Failure::Unreadable),
        (Phase::Sniffing(request), Event::Sniffed(Some(sniffed))) => after_name(
            before.fail_open,
            request,
            sniffed,
            after,
            action,
        ),
        (Phase::Tunnelling(request), Event::Opened { success }) | (
            Phase::Connecting(request),
            Event::Opened { success },
        ) => if success {
            after == Phase::Copying(request) && action is Copy
        } else {
            after is Closed && action == Action::Fail(Failure::NotOpened)
        },
        (Phase::Copying(_), Event::Ended) => after is Closed && action is Close,
        (
            Phase::Sniffing(_) | Phase::Tunnelling(_) | Phase::Connecting(_) | Phase::Copying(_),
            Event::Withdrawn,
        ) => after is Closed && action is Close,
        _ => after == before.phase && action is Wait,
    }
}

/// Asks the policies about a request, and hands it back.
fn judge(
    state: &ProxyState,
    source_addr: SocketAddr,
    dest_addr: SocketAddr,
    request: Request,
) -> (r: (Request, Result<(), AuthorizationRejectionError>))
    ensures
        r.0 == request,
        judged(*state, source_addr, dest_addr, request, outcome(r.1)),
{
    let conn: Connection = outbound_connection(source_addr, dest_addr, &request);
    let bound: Option<String> = match &request.sandbox {
        Some(sandbox) => Some(sandbox.uid.clone()),
        None => None,
    };
    let Request {
        protocol,
        source,
        sandbox,
        tls,
        actual_destination_workload,
        actual_destination,
        hbone_target_destination,
        upstream_sans,
    } = request;
    let ctx: ProxyRbacContext = ProxyRbacContext { conn, workload: source, sandbox: bound };
    let verdict: Result<(), AuthorizationRejectionError> = assert_rbac(state, &ctx);
    assert(is_context(ctx, source_addr, dest_addr, request));
    assert forall|other: ProxyRbacContext| #[trigger]
        is_context(other, source_addr, dest_addr, request) implies authorization(*state, other)
        == outcome(verdict) by {
        law_addresses_decide(*state, other, ctx);
    }
    let back: Request = Request {
        protocol,
        source: ctx.workload,
        sandbox,
        tls,
        actual_destination_workload,
        actual_destination,
        hbone_target_destination,
        upstream_sans,
    };
    (back, verdict)
}

impl OutboundConnection {
    /// A connection that was just accepted.
    pub fn new(
        source_addr: SocketAddr,
        dest_addr: SocketAddr,
        illegal_ports: Vec<u16>,
        fail_open: bool,
    ) -> (r: Self)
        ensures
            r@ == (ConnectionModel {
                source_addr,
                dest_addr,
                illegal_ports: illegal_ports@,
                fail_open,
                phase: Phase::Finding,
            }),
    {
        OutboundConnection {
            source_addr,
            dest_addr,
            illegal_ports,
            fail_open,
            phase: Phase::Finding,
        }
    }

    /// The request, once there is one.
    pub fn request(&self) -> (r: Option<&Request>)
        ensures
            match self@.phase {
                Phase::Sniffing(request) | Phase::Tunnelling(request) | Phase::Connecting(request)
                | Phase::Copying(request) => r == Some(&request),
                _ => r is None,
            },
    {
        match &self.phase {
            Phase::Sniffing(request) | Phase::Tunnelling(request) | Phase::Connecting(request)
            | Phase::Copying(request) => Some(request),
            _ => None,
        }
    }

    /// The gateway to look up, while that is to be done.
    pub fn gateway(&self) -> (r: Option<&GatewayAddress>)
        ensures
            match self@.phase {
                Phase::Resolving { source, .. } => match route(
                    self@.illegal_ports,
                    source,
                    self@.dest_addr,
                ) {
                    RouteModel::Gateway(gateway) => r == Some(&gateway),
                    _ => r is None,
                },
                _ => r is None,
            },
    {
        match &self.phase {
            Phase::Resolving { source, .. } => match select_route(
                self.illegal_ports.as_slice(),
                source,
                &self.dest_addr,
            ) {
                Ok(Route::Gateway(gateway)) => Some(gateway),
                _ => None,
            },
            _ => None,
        }
    }

    fn start(&mut self, state: &ProxyState, request: Request) -> (r: Action)
        requires
            request.tls.sni is None,
            request.tls.action is None,
        ensures
            final(self)@ == (ConnectionModel { phase: final(self)@.phase, ..old(self)@ }),
            starts(old(self)@, *state, request, final(self)@.phase, r),
    {
        let (request, verdict): (Request, Result<(), AuthorizationRejectionError>) = judge(
            state,
            self.source_addr,
            self.dest_addr,
            request,
        );
        match verdict {
            Err(e) => {
                self.phase = Phase::Closed;
                Action::Deny(Denial::Policy(e))
            },
            Ok(_) => match request.protocol {
                OutboundProtocol::TCP => {
                    self.phase = Phase::Connecting(request);
                    Action::Connect
                },
                OutboundProtocol::HBONE => if should_sniff(&request) {
                    self.phase = Phase::Sniffing(request);
                    Action::Sniff
                } else {
                    self.phase = Phase::Tunnelling(request);
                    Action::OpenTunnel
                },
            },
        }
    }

    fn find(&mut self, state: &ProxyState, source: Workload, sandbox: Option<Sandbox>) -> (r: Action)
        requires
            old(self)@.phase is Closed,
        ensures
            final(self)@ == (ConnectionModel { phase: final(self)@.phase, ..old(self)@ }),
            goes_on(
                ConnectionModel { phase: Phase::Finding, ..old(self)@ },
                *state,
                Event::Source(Some((source, sandbox))),
                final(self)@.phase,
                r,
            ),
    {
        let gateway: bool = match select_route(
            self.illegal_ports.as_slice(),
            &source,
            &self.dest_addr,
        ) {
            Err(e) => {
                return Action::Deny(Denial::Route(e));
            },
            Ok(Route::Gateway(_)) => true,
            Ok(Route::Direct) => false,
        };
        if gateway {
            self.phase = Phase::Resolving { source, sandbox };
            Action::FindGateway
        } else {
            let request: Request = Request::direct(source, sandbox, self.dest_addr);
            assert(is_direct(request, source, sandbox, self.dest_addr));
            self.start(state, request)
        }
    }

    fn named(&mut self, request: Request, sniffed: Sniffed) -> (r: Action)
        requires
            old(self)@.phase is Closed,
        ensures
            final(self)@ == (ConnectionModel { phase: final(self)@.phase, ..old(self)@ }),
            after_name(old(self)@.fail_open, request, sniffed, final(self)@.phase, r),
    {
        let mut request: Request = request;
        match after_sniffing(&mut request, sniffed, self.fail_open) {
            Err(e) => {
                return Action::Fail(Failure::Refused(e));
            },
            Ok(_) => {},
        }
        match request.evaluate_sni_policy() {
            Err(e) => Action::Fail(Failure::Refused(e)),
            Ok(_) => {
                self.phase = Phase::Tunnelling(request);
                Action::OpenTunnel
            },
        }
    }

    /// What is to be done for the connection once something happened to it.
    pub fn proxy_to(&mut self, state: &ProxyState, event: Event) -> (r: Action)
        ensures
            final(self)@ == (ConnectionModel { phase: final(self)@.phase, ..old(self)@ }),
            goes_on(old(self)@, *state, event, final(self)@.phase, r),
    {
        let mut phase: Phase = Phase::Closed;
        std::mem::swap(&mut phase, &mut self.phase);
        match (phase, event) {
            (Phase::Finding, Event::Source(None)) => Action::Deny(Denial::UnknownSource),
            (Phase::Finding, Event::Source(Some((source, sandbox)))) => self.find(
                state,
                source,
                sandbox,
            ),
            (Phase::Resolving { .. }, Event::Gateway(None)) => Action::Deny(Denial::UnknownGateway),
            (Phase::Resolving { source, sandbox }, Event::Gateway(Some(gateway))) => {
                let request: Request = Request::through_gateway(
                    source,
                    sandbox,
                    self.dest_addr,
                    gateway,
                );
                assert(is_through(request, source, sandbox, self.dest_addr, gateway));
                self.start(state, request)
            },
            (Phase::Sniffing(_), Event::Sniffed(None)) => Action::Fail(Failure::Unreadable),
            (Phase::Sniffing(request), Event::Sniffed(Some(sniffed))) => self.named(
                request,
                sniffed,
            ),
            (Phase::Tunnelling(request), Event::Opened { success }) | (
                Phase::Connecting(request),
                Event::Opened { success },
            ) => if success {
                self.phase = Phase::Copying(request);
                Action::Copy
            } else {
                Action::Fail(Failure::NotOpened)
            },
            (Phase::Copying(_), Event::Ended) => Action::Close,
            (Phase::Sniffing(_), Event::Withdrawn) => Action::Close,
            (Phase::Tunnelling(_), Event::Withdrawn) => Action::Close,
            (Phase::Connecting(_), Event::Withdrawn) => Action::Close,
            (Phase::Copying(_), Event::Withdrawn) => Action::Close,
            (phase, _) => {
                self.phase = phase;
                Action::Wait
            },
        }
    }
}

/// The request of a connection that was let pass.
pub open spec fn request_of(phase: Phase) -> Option<Request> {
    match phase {
        Phase::Sniffing(request) | Phase::Tunnelling(request) | Phase::Connecting(request)
        | Phase::Copying(request) => Some(request),
        _ => None,
    }
}

/// Nothing leaves without leave: a connection has a tunnel or a target only from the
/// moment on at which the policies let its request pass.
pub proof fn law_only_permitted_traffic_leaves(
    before: ConnectionModel,
    state: ProxyState,
    event: Event,
    after: Phase,
    action: Action,
)
    requires
        goes_on(before, state, event, after, action),
        request_of(before.phase) is None,
    ensures
        request_of(after) matches Some(request) ==> judged(
            state,
            before.source_addr,
            before.dest_addr,
            request,
            Ok(()),
        ),
        request_of(after) is None ==> !(action is Sniff || action is OpenTunnel || action is Connect
            || action is Copy),
{
}

/// Whose connection it is, which sandbox stands for it and where it goes are settled
/// before anything leaves, and stay so.
pub proof fn law_source_and_route_are_kept(
    before: ConnectionModel,
    state: ProxyState,
    event: Event,
    after: Phase,
    action: Action,
    old_request: Request,
    new_request: Request,
)
    requires
        goes_on(before, state, event, after, action),
        request_of(before.phase) == Some(old_request),
        request_of(after) == Some(new_request),
    ensures
        new_request == (Request { tls: new_request.tls, ..old_request }),
{
}

/// A stream with a server name that the workload's or the sandbox's policy refuses
/// opens no tunnel.
pub proof fn law_refused_name_opens_no_tunnel(
    before: ConnectionModel,
    state: ProxyState,
    request: Request,
    sniffed: Sniffed,
    after: Phase,
    action: Action,
)
    requires
        before.phase == Phase::Sniffing(request),
        goes_on(before, state, Event::Sniffed(Some(sniffed)), after, action),
        sniffed.sni matches Some(name) && request.sni_decision(name@) == SniAction::Deny,
    ensures
        after is Closed,
        action is Fail,
{
}

/// A connection whose leave is withdrawn ends at once, however far it has come.
pub proof fn law_withdrawn_connection_ends(
    before: ConnectionModel,
    state: ProxyState,
    after: Phase,
    action: Action,
)
    requires
        request_of(before.phase) is Some,
        goes_on(before, state, Event::Withdrawn, after, action),
    ensures
        after is Closed,
        action is Close,
{
}

/// How many steps a connection has before it at most.
pub open spec fn steps_left(phase: Phase) -> nat {
    match phase {
        Phase::Finding => 5,
        Phase::Resolving { .. } => 4,
        Phase::Sniffing(_) => 3,
        Phase::Tunnelling(_) | Phase::Connecting(_) => 2,
        Phase::Copying(_) => 1,
        Phase::Closed => 0,
    }
}

/// Every event that means something to a connection brings it nearer to its end;
/// the others leave it as it is. A closed one stays closed.
pub proof fn law_connection_comes_to_its_end(
    before: ConnectionModel,
    state: ProxyState,
    event: Event,
    after: Phase,
    action: Action,
)
    requires
        goes_on(before, state, event, after, action),
    ensures
        action is Wait <==> after == before.phase,
        !(action is Wait) ==> steps_left(after) < steps_left(before.phase),
        before.phase is Closed ==> after is Closed,
{
}

/// A connection is refused before anything is done for it where nobody knows whose it
/// is, where it is for the proxy itself, where its route is denied, and where the gateway
/// of its route is not named or not found.
pub proof fn law_connections_without_a_route_are_refused(
    before: ConnectionModel,
    state: ProxyState,
    event: Event,
    after: Phase,
    action: Action,
)
    requires
        goes_on(before, state, event, after, action),
    ensures
        before.phase is Finding && event == Event::Source(None) ==> after is Closed && action
            == Action::Deny(Denial::UnknownSource),
        before.phase is Resolving && event == Event::Gateway(None) ==> after is Closed && action
            == Action::Deny(Denial::UnknownGateway),
        before.phase is Finding ==> (event matches Event::Source(Some((source, _))) ==> {
            let way = route(before.illegal_ports, source, before.dest_addr);
            &&& way is SelfCall || way is Denied || way is GatewayMissing ==> after is Closed
                && action is Deny
            &&& way is Gateway <==> action is FindGateway
            &&& action is Connect ==> way is Direct
            &&& action !is Sniff && action !is OpenTunnel
        }),
{
}

/// Traffic without a gateway is connected to where it was sent, and traffic with one goes
/// through a tunnel to that gateway, for where it was sent, once its name was looked for;
/// each for its own workload and sandbox, and only where policies let it pass.
pub proof fn law_where_a_connection_goes(
    before: ConnectionModel,
    state: ProxyState,
    event: Event,
    after: Phase,
    action: Action,
)
    requires
        goes_on(before, state, event, after, action),
        before.phase is Finding || before.phase is Resolving,
        request_of(after) is Some,
    ensures
        ({
            let request = request_of(after).unwrap();
            &&& request.tls.sni is None && request.tls.action is None
            &&& before.phase is Finding ==> {
                &&& action is Connect && after is Connecting
                &&& request.protocol == OutboundProtocol::TCP
                &&& request.actual_destination == before.dest_addr
                &&& request.hbone_target_destination is None
                &&& event matches Event::Source(Some((source, sandbox))) && request.source == source
                    && request.sandbox == sandbox
            }
            &&& before.phase matches Phase::Resolving { source, sandbox } ==> {
                &&& action is Sniff && after is Sniffing
                &&& request.protocol == OutboundProtocol::HBONE
                &&& request.hbone_target_destination == Some(
                    HboneAddress::SocketAddr(before.dest_addr),
                )
                &&& request.source == source && request.sandbox == sandbox
                &&& event matches Event::Gateway(Some(gateway)) && request.actual_destination
                    == gateway.workload_socket_addr && request.upstream_sans == gateway.sans
            }
        }),
{
}

/// A stream that could not be read ends, and one that could not be sniffed does where
/// failures are not let pass. A name that no policy refuses goes with the request, with
/// what is decided of it; without a name nothing is.
pub proof fn law_what_a_name_does(
    before: ConnectionModel,
    state: ProxyState,
    request: Request,
    sniffed: Sniffed,
    after: Phase,
    action: Action,
)
    requires
        before.phase == Phase::Sniffing(request),
        goes_on(before, state, Event::Sniffed(Some(sniffed)), after, action),
    ensures
        sniffed.failure is Some && !before.fail_open ==> after is Closed && action is Fail,
        action is OpenTunnel <==> {
            &&& sniffed.failure is None || before.fail_open
            &&& sniffed.sni matches Some(name) ==> request.sni_decision(name@) != SniAction::Deny
        },
        action is OpenTunnel ==> request_of(after) is Some && {
            let next = request_of(after).unwrap();
            &&& next.tls.sni == sniffed.sni
            &&& sniffed.sni is None ==> next.tls.action is None
            &&& sniffed.sni matches Some(name) ==> next.tls.action == Some(
                request.sni_decision(name@),
            )
        },
        action is OpenTunnel || action is Fail,
{
}

/// Bytes are copied exactly once the tunnel or the target is open; what is not opened
/// fails, and a connection that one side has ended is closed.
pub proof fn law_bytes_are_copied_once_it_is_open(
    before: ConnectionModel,
    state: ProxyState,
    event: Event,
    after: Phase,
    action: Action,
)
    requires
        goes_on(before, state, event, after, action),
    ensures
        action is Copy <==> (before.phase is Tunnelling || before.phase is Connecting) && event == (
        Event::Opened { success: true }),
        action is Copy ==> request_of(after) == request_of(before.phase) && after is Copying,
        (before.phase is Tunnelling || before.phase is Connecting) && event == (Event::Opened {
            success: false,
        }) ==> after is Closed && action == Action::Fail(Failure::NotOpened),
        before.phase is Sniffing && event == Event::Sniffed(None) ==> after is Closed && action
            == Action::Fail(Failure::Unreadable),
        before.phase is Copying && event is Ended ==> after is Closed && action is Close,
        action is Close ==> after is Closed && (event is Ended || event is Withdrawn),
{
}

} // verus!
