//! One client connection, from its first bytes to the relay.

use crate::addr::{IpAddr, SocketAddr};
use crate::hello::ClientHelloCapture;
use crate::proxy_header::ProxyHeader;
use crate::route::{ProxyContext, RouteSelection, RouteTarget};
use crate::rule_table;
use crate::rule_table::{RuleTable, TlsInterceptConfig};
use vstd::prelude::*;

verus! {

/// What a session waits for.
#[derive(Clone, Copy, Debug, PartialEq, Eq, Structural)]
pub enum Stage {
    /// The addresses of the hostname.
    Resolution,
    /// The destination that the client connected to.
    OriginalDestination,
    /// The connection to the server.
    Connection,
    /// The firewall mark of the client's socket.
    ClientMark,
    /// The address of the server; whether the connection is intercepted is settled.
    UpstreamAddress { intercept: bool },
}

/// One client connection.
pub struct Session {
    pub peer: SocketAddr,
    pub hostname: Option<String>,
    /// What was read from the client.
    pub buffer: Vec<u8>,
    /// The firewall mark of the connection to the server.
    pub fwmark: u32,
    pub tls_intercept: Option<TlsInterceptConfig>,
    pub proxy_protocol: bool,
    pub stage: Stage,
}

/// What happened to a session.
pub enum Event {
    Resolved(Vec<IpAddr>),
    /// The destination that the client connected to, and the address that accepted it.
    OriginalDestination { destination: IpAddr, local: IpAddr },
    Connected,
    /// The firewall mark of the client's socket, if it could be read.
    ClientMark(Option<u32>),
    UpstreamAddress(SocketAddr),
}

/// What to do for a session.
#[allow(inconsistent_fields)]
pub enum Action {
    /// Connect to this address.
    ConnectTo { addr: SocketAddr, fwmark: u32 },
    /// Ask this resolver for the addresses of the hostname.
    Resolve { resolver: String, hostname: String, fwmark: u32 },
    /// Connect to one of these addresses.
    ConnectToAny { candidates: Vec<IpAddr>, fwmark: u32 },
    /// Find out which destination the client connected to.
    FindOriginalDestination,
    /// Connect to the destination that the client wanted.
    Bypass { destination: IpAddr, fwmark: u32 },
    /// Close the connection: the client wanted the proxy itself.
    Close,
    /// Read the firewall mark of the client's socket.
    ReadClientMark,
    /// Find out the address of the server.
    ReadUpstreamAddress,
    /// Decrypt and mirror the connection, after a PROXY header for the given ends if there are any.
    Intercept {
        config: TlsInterceptConfig,
        hostname: String,
        client_hello: Vec<u8>,
        ends: Option<ProxyHeader>,
    },
    /// Pass the bytes on, after a PROXY header for the given ends if there are any.
    Relay { ends: Option<ProxyHeader>, initial: Vec<u8> },
    /// Give up: the hostname has no addresses.
    NoAnswers { hostname: Option<String> },
}

/// The firewall mark of a socket, zero where it could not be read.
pub open spec fn mark_value(mark: Option<u32>) -> u32 {
    match mark {
        Some(mark) => mark,
        None => 0,
    }
}

/// A session as it starts, and what to do first.
pub open spec fn started(
    ctx: ProxyContext,
    maps: Option<rule_table::RuleMaps>,
    peer: SocketAddr,
    capture: ClientHelloCapture,
) -> (Session, Action) {
    match capture.hostname {
        None => (
            Session {
                peer,
                hostname: None,
                buffer: capture.buffer,
                fwmark: ctx.default_fwmark,
                tls_intercept: None,
                proxy_protocol: ctx.enable_proxy_protocol,
                stage: Stage::OriginalDestination,
            },
            Action::FindOriginalDestination,
        ),
        Some(hostname) => {
            let route = ctx.route_to(maps, hostname@);
            let session = Session {
                peer,
                hostname: Some(hostname),
                buffer: capture.buffer,
                fwmark: route.fwmark,
                tls_intercept: route.tls_intercept,
                proxy_protocol: ctx.enable_proxy_protocol,
                stage: match route.target {
                    RouteTarget::Direct(_) => Stage::Connection,
                    RouteTarget::Resolve(_) => Stage::Resolution,
                },
            };
            let action = match route.target {
                RouteTarget::Direct(addr) => Action::ConnectTo { addr, fwmark: route.fwmark },
                RouteTarget::Resolve(resolver) => Action::Resolve {
                    resolver,
                    hostname,
                    fwmark: route.fwmark,
                },
            };
            (session, action)
        },
    }
}

impl Session {
    /// Whether the session waits for such an event.
    pub open spec fn awaits(self, event: Event) -> bool {
        match event {
            Event::Resolved(_) => self.stage == Stage::Resolution,
            Event::OriginalDestination { .. } => self.stage == Stage::OriginalDestination,
            Event::Connected => self.stage == Stage::Connection,
            Event::ClientMark(_) => self.stage == Stage::ClientMark,
            Event::UpstreamAddress(_) => self.stage is UpstreamAddress,
        }
    }

    /// The session at another stage.
    pub open spec fn at(self, stage: Stage) -> Session {
        Session { stage, ..self }
    }

    /// A session that may be intercepted has a hostname, and one that is to be intercepted may be.
    pub open spec fn wf(self) -> bool {
        &&& self.tls_intercept is Some ==> self.hostname is Some
        &&& self.stage == (Stage::UpstreamAddress { intercept: true }) ==> self.tls_intercept is Some
    }

    /// Whether the connection is intercepted, given the firewall mark of the client's socket.
    pub open spec fn intercepts(self, mark: Option<u32>) -> bool {
        self.tls_intercept matches Some(config) && (config.match_fwmark matches Some(required)
            ==> required == mark_value(mark))
    }

    /// What ends the session: the connection is decrypted and mirrored, or its bytes are passed on.
    pub open spec fn ending(self, intercept: bool, ends: Option<ProxyHeader>) -> Action {
        if intercept {
            Action::Intercept {
                config: self.tls_intercept->0,
                hostname: self.hostname->0,
                client_hello: self.buffer,
                ends,
            }
        } else {
            Action::Relay { ends, initial: self.buffer }
        }
    }

    /// The session goes on to its end, by way of the server's address if a header is to be sent.
    pub open spec fn concluded(self, intercept: bool) -> (Option<Session>, Action) {
        if self.proxy_protocol {
            (Some(self.at(Stage::UpstreamAddress { intercept })), Action::ReadUpstreamAddress)
        } else {
            (None, self.ending(intercept, None))
        }
    }

    /// The session after an event, if it goes on, and what to do then.
    pub open spec fn after(self, event: Event) -> (Option<Session>, Action) {
        match event {
            Event::Resolved(candidates) => if candidates@.len() == 0 {
                (None, Action::NoAnswers { hostname: self.hostname })
            } else {
                (
                    Some(self.at(Stage::Connection)),
                    Action::ConnectToAny { candidates, fwmark: self.fwmark },
                )
            },
            Event::OriginalDestination { destination, local } => if destination.canonical()
                == local.canonical() {
                (None, Action::Close)
            } else {
                (
                    Some(self.at(Stage::Connection)),
                    Action::Bypass { destination, fwmark: self.fwmark },
                )
            },
            Event::Connected => if self.tls_intercept is Some
                && self.tls_intercept->0.match_fwmark is Some {
                (Some(self.at(Stage::ClientMark)), Action::ReadClientMark)
            } else {
                self.concluded(self.intercepts(None))
            },
            Event::ClientMark(mark) => self.concluded(self.intercepts(mark)),
            Event::UpstreamAddress(upstream) => (
                None,
                self.ending(
                    self.stage == (Stage::UpstreamAddress { intercept: true }),
                    Some(ProxyHeader { src: self.peer, dst: upstream }),
                ),
            ),
        }
    }

    /// Starts a session with what was read from the client.
    pub fn start(
        ctx: &ProxyContext,
        rule_table: Option<&RuleTable>,
        peer: SocketAddr,
        capture: ClientHelloCapture,
    ) -> (r: (Session, Action))
        ensures
            r == started(
                *ctx,
                match rule_table {
                    Some(table) => Some(table@),
                    None => None,
                },
                peer,
                capture,
            ),
            r.0.wf(),
    {
        match capture.hostname {
            None => (
                Session {
                    peer,
                    hostname: None,
                    buffer: capture.buffer,
                    fwmark: ctx.default_fwmark,
                    tls_intercept: None,
                    proxy_protocol: ctx.enable_proxy_protocol,
                    stage: Stage::OriginalDestination,
                },
                Action::FindOriginalDestination,
            ),
            Some(hostname) => {
                let RouteSelection { target, fwmark, tls_intercept } = ctx.select_route(
                    rule_table,
                    hostname.as_str(),
                );
                let (stage, action) = match target {
                    RouteTarget::Direct(addr) => (
                        Stage::Connection,
                        Action::ConnectTo { addr, fwmark },
                    ),
                    RouteTarget::Resolve(resolver) => (
                        Stage::Resolution,
                        Action::Resolve { resolver, hostname: hostname.clone(), fwmark },
                    ),
                };
                let session = Session {
                    peer,
                    hostname: Some(hostname),
                    buffer: capture.buffer,
                    fwmark,
                    tls_intercept,
                    proxy_protocol: ctx.enable_proxy_protocol,
                    stage,
                };
                (session, action)
            },
        }
    }

    /// Tells whether the session waits for such an event.
    pub fn expects(&self, event: &Event) -> (r: bool)
        ensures
            r == self.awaits(*event),
    {
        match (event, self.stage) {
            (Event::Resolved(_), Stage::Resolution) => true,
            (Event::OriginalDestination { .. }, Stage::OriginalDestination) => true,
            (Event::Connected, Stage::Connection) => true,
            (Event::ClientMark(_), Stage::ClientMark) => true,
            (Event::UpstreamAddress(_), Stage::UpstreamAddress { .. }) => true,
            _ => false,
        }
    }

    /// Ends the session.
    fn end(self, intercept: bool, ends: Option<ProxyHeader>) -> (r: Action)
        requires
            self.wf(),
            intercept ==> self.tls_intercept is Some,
        ensures
            r == self.ending(intercept, ends),
    {
        if !intercept {
            return Action::Relay { ends, initial: self.buffer };
        }
        match (self.tls_intercept, self.hostname) {
            (Some(config), Some(hostname)) => Action::Intercept {
                config,
                hostname,
                client_hello: self.buffer,
                ends,
            },
            _ => Action::Relay { ends, initial: self.buffer },
        }
    }

    /// Goes on to the end: interception if the configuration and the client's mark call for it.
    fn conclude(self, mark: Option<u32>) -> (r: (Option<Session>, Action))
        requires
            self.wf(),
        ensures
            r == self.concluded(self.intercepts(mark)),
            r.0 matches Some(next) ==> next.wf(),
    {
        let mark: u32 = match mark {
            Some(mark) => mark,
            None => 0,
        };
        let intercept = match &self.tls_intercept {
            None => false,
            Some(config) => match config.match_fwmark {
                None => true,
                Some(required) => required == mark,
            },
        };
        if self.proxy_protocol {
            (
                Some(Session { stage: Stage::UpstreamAddress { intercept }, ..self }),
                Action::ReadUpstreamAddress,
            )
        } else {
            (None, self.end(intercept, None))
        }
    }

    /// Takes an event that the session waits for.
    pub fn step(self, event: Event) -> (r: (Option<Session>, Action))
        requires
            self.wf(),
            self.awaits(event),
        ensures
            r == self.after(event),
            r.0 matches Some(next) ==> next.wf(),
    {
        match event {
            Event::Resolved(candidates) => if candidates.len() == 0 {
                (None, Action::NoAnswers { hostname: self.hostname })
            } else {
                let fwmark: u32 = self.fwmark;
                (
                    Some(Session { stage: Stage::Connection, ..self }),
                    Action::ConnectToAny { candidates, fwmark },
                )
            },
            Event::OriginalDestination { destination, local } => if destination.to_canonical()
                == local.to_canonical() {
                (None, Action::Close)
            } else {
                let fwmark: u32 = self.fwmark;
                (
                    Some(Session { stage: Stage::Connection, ..self }),
                    Action::Bypass { destination, fwmark },
                )
            },
            Event::Connected => {
                let by_mark = match &self.tls_intercept {
                    None => false,
                    Some(config) => config.match_fwmark.is_some(),
                };
                if by_mark {
                    (Some(Session { stage: Stage::ClientMark, ..self }), Action::ReadClientMark)
                } else {
                    self.conclude(None)
                }
            },
            Event::ClientMark(mark) => self.conclude(mark),
            Event::UpstreamAddress(upstream) => {
                let ends = Some(ProxyHeader { src: self.peer, dst: upstream });
                let intercept = match self.stage {
                    Stage::UpstreamAddress { intercept } => intercept,
                    _ => false,
                };
                (None, self.end(intercept, ends))
            },
        }
    }
}

/// The session that events lead to, each of them awaited, if it still goes on.
pub open spec fn reached(session: Session, events: Seq<Event>) -> Option<Session>
    decreases events.len(),
{
    if events.len() == 0 {
        Some(session)
    } else {
        match reached(session, events.drop_last()) {
            None => None,
            Some(before) => if before.awaits(events.last()) {
                before.after(events.last()).0
            } else {
                None
            },
        }
    }
}

/// How far a session has come.
pub open spec fn progress(stage: Stage) -> nat {
    match stage {
        Stage::Resolution => 0,
        Stage::OriginalDestination => 0,
        Stage::Connection => 1,
        Stage::ClientMark => 2,
        Stage::UpstreamAddress { .. } => 3,
    }
}

/// Whatever happens, a session keeps its peer, its hostname, what was read from the client, its
/// firewall mark and its interception.
pub proof fn law_session_keeps_its_settings(session: Session, events: Seq<Event>)
    ensures
        reached(session, events) matches Some(later) ==> later == session.at(later.stage),
    decreases events.len(),
{
    if events.len() > 0 {
        law_session_keeps_its_settings(session, events.drop_last());
    }
}

/// Every session ends: after at most four events no more is awaited.
pub proof fn law_session_ends(session: Session, events: Seq<Event>)
    ensures
        reached(session, events) matches Some(later) ==> progress(later.stage) >= progress(
            session.stage,
        ) + events.len(),
        events.len() >= 4 ==> reached(session, events) is None,
    decreases events.len(),
{
    if events.len() > 0 {
        law_session_ends(session, events.drop_last());
    }
}

/// What was read from the client is passed on whole: whichever way a session ends in a relay or an
/// interception, it hands over exactly the captured bytes.
pub proof fn law_captured_bytes_passed_on(
    ctx: ProxyContext,
    maps: Option<rule_table::RuleMaps>,
    peer: SocketAddr,
    capture: ClientHelloCapture,
    events: Seq<Event>,
    event: Event,
)
    requires
        reached(started(ctx, maps, peer, capture).0, events) is Some,
    ensures
        match reached(started(ctx, maps, peer, capture).0, events)->0.after(event).1 {
            Action::Relay { initial, .. } => initial == capture.buffer,
            Action::Intercept { client_hello, .. } => client_hello == capture.buffer,
            _ => true,
        },
{
    law_session_keeps_its_settings(started(ctx, maps, peer, capture).0, events);
}

/// Every connection that a session makes carries the firewall mark of its route, or the default mark
/// if the client named no server.
pub proof fn law_one_mark_per_session(
    ctx: ProxyContext,
    maps: Option<rule_table::RuleMaps>,
    peer: SocketAddr,
    capture: ClientHelloCapture,
    events: Seq<Event>,
    event: Event,
)
    requires
        reached(started(ctx, maps, peer, capture).0, events) is Some,
    ensures
        ({
            let mark = match capture.hostname {
                Some(hostname) => ctx.route_to(maps, hostname@).fwmark,
                None => ctx.default_fwmark,
            };
            match reached(started(ctx, maps, peer, capture).0, events)->0.after(event).1 {
                Action::ConnectToAny { fwmark, .. } => fwmark == mark,
                Action::Bypass { fwmark, .. } => fwmark == mark,
                _ => true,
            }
        }),
        match started(ctx, maps, peer, capture).1 {
            Action::ConnectTo { fwmark, .. } => fwmark == started(
                ctx,
                maps,
                peer,
                capture,
            ).0.fwmark,
            Action::Resolve { fwmark, .. } => fwmark == started(ctx, maps, peer, capture).0.fwmark,
            _ => true,
        },
{
    law_session_keeps_its_settings(started(ctx, maps, peer, capture).0, events);
}

/// Whether one of the events shows a firewall mark of the client's socket.
pub open spec fn mark_shown(events: Seq<Event>, required: u32) -> bool {
    exists|i: int|
        0 <= i < events.len() && (#[trigger] events[i] matches Event::ClientMark(mark)
            && mark_value(mark) == required)
}

/// Where interception is settled, the client's socket has shown the mark that it asks for.
proof fn lemma_settled_by_mark(session: Session, events: Seq<Event>)
    requires
        !(session.stage is UpstreamAddress),
    ensures
        reached(session, events) matches Some(later) ==> {
            later.stage == (Stage::UpstreamAddress { intercept: true }) ==> {
                &&& later.tls_intercept is Some
                &&& later.tls_intercept->0.match_fwmark matches Some(required) ==> mark_shown(
                    events,
                    required,
                )
            }
        },
    decreases events.len(),
{
    if events.len() > 0 {
        lemma_settled_by_mark(session, events.drop_last());
        assert(events[events.len() - 1] == events.last());
    }
}

/// A connection is intercepted only under a configuration of its hostname's rule, and, where that
/// asks for a firewall mark, only if the client's socket has shown it.
pub proof fn law_intercepted_only_as_configured(
    ctx: ProxyContext,
    maps: Option<rule_table::RuleMaps>,
    peer: SocketAddr,
    capture: ClientHelloCapture,
    events: Seq<Event>,
    event: Event,
)
    requires
        reached(started(ctx, maps, peer, capture).0, events) is Some,
        reached(started(ctx, maps, peer, capture).0, events)->0.awaits(event),
        reached(started(ctx, maps, peer, capture).0, events)->0.after(event).1 is Intercept,
    ensures
        capture.hostname is Some,
        ctx.route_to(maps, capture.hostname->0@).tls_intercept is Some,
        ctx.route_to(maps, capture.hostname->0@).tls_intercept->0.match_fwmark matches Some(
            required,
        ) ==> mark_shown(events.push(event), required),
{
    let session = started(ctx, maps, peer, capture).0;
    law_session_keeps_its_settings(session, events);
    lemma_settled_by_mark(session, events);
    let all = events.push(event);
    assert(all[events.len() as int] == event);
    if ctx.route_to(maps, capture.hostname->0@).tls_intercept->0.match_fwmark is Some {
        let required = ctx.route_to(maps, capture.hostname->0@).tls_intercept->0.match_fwmark->0;
        if mark_shown(events, required) {
            let i = choose|i: int|
                0 <= i < events.len() && (#[trigger] events[i] matches Event::ClientMark(mark)
                    && mark_value(mark) == required);
            assert(all[i] == events[i]);
        }
    }
}

/// What a session waits for from the connection to the server on, given the mark of the client's
/// socket and the server's address.
pub open spec fn closing_events(
    session: Session,
    mark: Option<u32>,
    upstream: SocketAddr,
) -> Seq<Event> {
    let by_mark = session.tls_intercept is Some && session.tls_intercept->0.match_fwmark is Some;
    match (by_mark, session.proxy_protocol) {
        (false, false) => seq![Event::Connected],
        (true, false) => seq![Event::Connected, Event::ClientMark(mark)],
        (false, true) => seq![Event::Connected, Event::UpstreamAddress(upstream)],
        (true, true) => seq![
            Event::Connected,
            Event::ClientMark(mark),
            Event::UpstreamAddress(upstream),
        ],
    }
}

/// Once connected, a session ends in an interception exactly where its configuration and the mark of
/// the client's socket call for one, and in a relay otherwise.
pub proof fn law_intercepted_as_configured(
    session: Session,
    mark: Option<u32>,
    upstream: SocketAddr,
)
    requires
        session.stage == Stage::Connection,
    ensures
        ({
            let events = closing_events(session, mark, upstream);
            let last = reached(session, events.drop_last());
            let ends = if session.proxy_protocol {
                Some(ProxyHeader { src: session.peer, dst: upstream })
            } else {
                None
            };
            &&& last is Some
            &&& last->0.awaits(events.last())
            &&& last->0.after(events.last()) == (
                None::<Session>,
                session.ending(session.intercepts(mark), ends),
            )
            &&& last->0.after(events.last()).1 is Intercept <==> session.intercepts(mark)
            &&& last->0.after(events.last()).1 is Relay <==> !session.intercepts(mark)
        }),
{
    let events = closing_events(session, mark, upstream);
    reveal_with_fuel(reached, 3);
    if events.len() == 3 {
        assert(events.drop_last().drop_last() == seq![Event::Connected]);
    }
}

/// With the PROXY protocol enabled, every connection begins with a header that names the client and
/// the server, intercepted or not; without it, none does.
pub proof fn law_header_on_every_connection(
    ctx: ProxyContext,
    maps: Option<rule_table::RuleMaps>,
    peer: SocketAddr,
    capture: ClientHelloCapture,
    events: Seq<Event>,
    event: Event,
)
    requires
        reached(started(ctx, maps, peer, capture).0, events) is Some,
        reached(started(ctx, maps, peer, capture).0, events)->0.awaits(event),
    ensures
        ({
            let ends = match event {
                Event::UpstreamAddress(upstream) => Some(ProxyHeader { src: peer, dst: upstream }),
                _ => None,
            };
            match reached(started(ctx, maps, peer, capture).0, events)->0.after(event).1 {
                Action::Relay { ends: e, .. } => e == ends && e is Some
                    == ctx.enable_proxy_protocol,
                Action::Intercept { ends: e, .. } => e == ends && e is Some
                    == ctx.enable_proxy_protocol,
                _ => true,
            }
        }),
{
    let session = started(ctx, maps, peer, capture).0;
    law_session_keeps_its_settings(session, events);
    lemma_address_for_header(session, events);
}

/// The server's address is waited for only where a header is to be sent.
proof fn lemma_address_for_header(session: Session, events: Seq<Event>)
    requires
        !(session.stage is UpstreamAddress),
    ensures
        reached(session, events) matches Some(later) ==> (later.stage is UpstreamAddress
            ==> later.proxy_protocol),
    decreases events.len(),
{
    if events.len() > 0 {
        lemma_address_for_header(session, events.drop_last());
    }
}

/// A client that wanted the proxy itself is never connected to it again, whichever form its address
/// has.
pub proof fn law_no_loop_to_self(session: Session, destination: IpAddr, local: IpAddr)
    requires
        destination.canonical() == local.canonical(),
    ensures
        session.after(Event::OriginalDestination { destination, local }) == (
            None::<Session>,
            Action::Close,
        ),
{
}

/// The rule that a captured hostname selects, if there is a table and it has one.
pub open spec fn selected_rule(
    maps: Option<rule_table::RuleMaps>,
    capture: ClientHelloCapture,
) -> Option<rule_table::RuleOverride> {
    if maps is Some && capture.hostname is Some {
        (maps->0).rule_for((capture.hostname->0)@)
    } else {
        None
    }
}

/// The firewall mark for a rule: its own where it sets one, the default otherwise.
pub open spec fn mark_under(ctx: ProxyContext, rule: Option<rule_table::RuleOverride>) -> u32 {
    if rule is Some && (rule->0).fwmark_set {
        (rule->0).fwmark
    } else {
        ctx.default_fwmark
    }
}

/// A session begins with what the selected rule says: it connects to exactly the rule's address, or
/// asks exactly the rule's resolver for exactly the hostname, or the default resolver where the rule
/// names none; without a hostname it looks for the original destination.
pub proof fn law_first_action(
    ctx: ProxyContext,
    maps: Option<rule_table::RuleMaps>,
    peer: SocketAddr,
    capture: ClientHelloCapture,
)
    ensures
        ({
            let rule = selected_rule(maps, capture);
            let mark = mark_under(ctx, rule);
            let (session, action) = started(ctx, maps, peer, capture);
            &&& capture.hostname is None ==> action is FindOriginalDestination && session.stage
                == Stage::OriginalDestination
            &&& capture.hostname is Some && rule is Some && (rule->0).direct is Some ==> {
                &&& action == (Action::ConnectTo { addr: (rule->0).direct->0, fwmark: mark })
                &&& session.stage == Stage::Connection
            }
            &&& capture.hostname is Some && rule is Some && (rule->0).direct is None && (
            rule->0).resolver is Some ==> {
                &&& action == (Action::Resolve {
                    resolver: (rule->0).resolver->0,
                    hostname: capture.hostname->0,
                    fwmark: mark,
                })
                &&& session.stage == Stage::Resolution
            }
            &&& capture.hostname is Some && (rule is None || ((rule->0).direct is None && (
            rule->0).resolver is None)) ==> {
                &&& action == (Action::Resolve {
                    resolver: ctx.default_resolver,
                    hostname: capture.hostname->0,
                    fwmark: mark,
                })
                &&& session.stage == Stage::Resolution
            }
        }),
{
}

/// A session starts with what is known of the client and what the selected rule says of marks and
/// interception.
pub proof fn law_session_as_captured(
    ctx: ProxyContext,
    maps: Option<rule_table::RuleMaps>,
    peer: SocketAddr,
    capture: ClientHelloCapture,
)
    ensures
        ({
            let rule = selected_rule(maps, capture);
            let session = started(ctx, maps, peer, capture).0;
            &&& session.peer == peer
            &&& session.hostname == capture.hostname
            &&& session.buffer == capture.buffer
            &&& session.fwmark == mark_under(ctx, rule)
            &&& session.proxy_protocol == ctx.enable_proxy_protocol
            &&& rule is Some ==> session.tls_intercept == (rule->0).tls_intercept
            &&& rule is None ==> session.tls_intercept is None
        }),
{
}

/// A session waits for one kind of event at a time.
pub proof fn law_one_kind_awaited(session: Session, event: Event)
    ensures
        session.stage == Stage::Resolution ==> (session.awaits(event) <==> event is Resolved),
        session.stage == Stage::OriginalDestination ==> (session.awaits(event)
            <==> event is OriginalDestination),
        session.stage == Stage::Connection ==> (session.awaits(event) <==> event is Connected),
        session.stage == Stage::ClientMark ==> (session.awaits(event) <==> event is ClientMark),
        session.stage is UpstreamAddress ==> (session.awaits(event) <==> event is UpstreamAddress),
{
}

/// The addresses found are handed on as they are, in order, with the session's mark; none at all ends
/// the session.
pub proof fn law_all_candidates_tried(session: Session, candidates: Vec<IpAddr>)
    ensures
        candidates@.len() > 0 ==> {
            let (next, action) = session.after(Event::Resolved(candidates));
            &&& next == Some(Session { stage: Stage::Connection, ..session })
            &&& action == (Action::ConnectToAny { candidates, fwmark: session.fwmark })
        },
        candidates@.len() == 0 ==> session.after(Event::Resolved(candidates)) == (
            None::<Session>,
            Action::NoAnswers { hostname: session.hostname },
        ),
{
}

/// A client without a hostname is taken to exactly the destination that it wanted, unless that is
/// the proxy itself.
pub proof fn law_bypassed_to_destination(session: Session, destination: IpAddr, local: IpAddr)
    ensures
        ({
            let (next, action) = session.after(
                (Event::OriginalDestination { destination, local }),
            );
            &&& destination.canonical() != local.canonical() ==> {
                &&& next == Some(Session { stage: Stage::Connection, ..session })
                &&& action == (Action::Bypass { destination, fwmark: session.fwmark })
            }
            &&& destination.canonical() == local.canonical() ==> next is None && action is Close
        }),
{
}

/// Whether a configuration and the mark of the client's socket call for interception.
pub open spec fn called_for(config: Option<TlsInterceptConfig>, mark: Option<u32>) -> bool {
    &&& config is Some
    &&& (config->0).match_fwmark is None || (config->0).match_fwmark == mark || ((
    config->0).match_fwmark == Some(0u32) && mark is None)
}

/// Whether an action intercepts or relays the connection of a session, as called for, with the bytes
/// read from the client and the given ends.
pub open spec fn carries_out(
    session: Session,
    intercept: bool,
    ends: Option<ProxyHeader>,
    action: Action,
) -> bool {
    &&& intercept ==> action == (Action::Intercept {
        config: session.tls_intercept->0,
        hostname: session.hostname->0,
        client_hello: session.buffer,
        ends,
    })
    &&& !intercept ==> action == (Action::Relay { ends, initial: session.buffer })
}

/// A connected session asks for the client's mark exactly if its configuration names one. Otherwise,
/// and once the mark is known, it asks for the server's address exactly if a header is to be sent, and
/// intercepts exactly if that is called for.
pub proof fn law_connected_session_concluded(session: Session, mark: Option<u32>)
    ensures
        session.tls_intercept is Some && (session.tls_intercept->0).match_fwmark is Some
            ==> session.after(Event::Connected) == (
            Some(Session { stage: Stage::ClientMark, ..session }),
            Action::ReadClientMark,
        ),
        session.tls_intercept is None || (session.tls_intercept->0).match_fwmark is None
            ==> session.after(Event::Connected) == session.after(Event::ClientMark(mark)),
        session.proxy_protocol ==> session.after(Event::ClientMark(mark)) == (
            Some(
                Session {
                    stage: Stage::UpstreamAddress {
                        intercept: called_for(session.tls_intercept, mark),
                    },
                    ..session
                },
            ),
            Action::ReadUpstreamAddress,
        ),
        !session.proxy_protocol ==> {
            let (next, action) = session.after(Event::ClientMark(mark));
            &&& next is None
            &&& carries_out(session, called_for(session.tls_intercept, mark), None, action)
        },
{
}

/// With the server's address known, a session ends as was settled, with a header between client and
/// server.
pub proof fn law_settled_session_ends(session: Session, intercept: bool, upstream: SocketAddr)
    requires
        session.stage == (Stage::UpstreamAddress { intercept }),
    ensures
        ({
            let (next, action) = session.after(Event::UpstreamAddress(upstream));
            &&& next is None
            &&& carries_out(
                session,
                intercept,
                Some(ProxyHeader { src: session.peer, dst: upstream }),
                action,
            )
        }),
{
}

}
