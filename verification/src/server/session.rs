//! Supervision of listeners and connections: what follows each event.

use crate::config::Caps;
use vstd::prelude::*;

verus! {

/// The transport settings of every connection.
#[derive(Debug, Clone, Copy, PartialEq, Eq)]
pub struct TransportSettings {
    /// Only public-key authentication may be attempted.
    pub public_key_only: bool,
    pub max_auth_attempts: usize,
    /// Authenticated connections may sit idle.
    pub inactivity_timeout_millis: Option<u64>,
    /// The delay of a rejected attempt.
    pub auth_rejection_millis: u64,
    /// The delay of the initial probe.
    pub auth_rejection_initial_millis: u64,
    /// The deadline of a handshake.
    pub handshake_timeout_secs: u64,
}

/// The transport settings under the built-in caps.
pub fn transport_settings(caps: &Caps) -> (r: TransportSettings)
    ensures
        r == (TransportSettings {
            public_key_only: true,
            max_auth_attempts: caps.max_auth_attempts as usize,
            inactivity_timeout_millis: None,
            auth_rejection_millis: 250,
            auth_rejection_initial_millis: 0,
            handshake_timeout_secs: caps.handshake_timeout_secs as u64,
        }),
{
    TransportSettings {
        public_key_only: true,
        max_auth_attempts: caps.max_auth_attempts as usize,
        inactivity_timeout_millis: None,
        auth_rejection_millis: 250,
        auth_rejection_initial_millis: 0,
        handshake_timeout_secs: caps.handshake_timeout_secs as u64,
    }
}

/// What happens at a listener.
#[derive(Debug, Clone, Copy, PartialEq, Eq, Structural)]
pub enum ListenerEvent {
    ShutdownRequested,
    Accepted,
    AcceptFailed,
}

/// What a listener does next.
#[derive(Debug, Clone, Copy, PartialEq, Eq, Structural)]
pub enum ListenerAction {
    /// Accept nothing more and wait for the connections.
    Stop,
    /// Drop the connection, accept nothing more, and wait for the connections.
    DropAndStop,
    /// Run the connection and keep accepting.
    Run,
    /// Pause, then keep accepting: a transient failure must not end the
    /// transport.
    Pause { millis: u64 },
}

/// What a listener does next.
pub open spec fn listener_action(event: ListenerEvent, shutting_down: bool) -> ListenerAction {
    match event {
        ListenerEvent::ShutdownRequested => ListenerAction::Stop,
        ListenerEvent::Accepted => if shutting_down {
            ListenerAction::DropAndStop
        } else {
            ListenerAction::Run
        },
        ListenerEvent::AcceptFailed => ListenerAction::Pause { millis: 100 },
    }
}

/// Decide what a listener does next.
pub fn on_listener_event(event: ListenerEvent, shutting_down: bool) -> (r: ListenerAction)
    ensures
        r == listener_action(event, shutting_down),
{
    match event {
        ListenerEvent::ShutdownRequested => ListenerAction::Stop,
        ListenerEvent::Accepted => {
            if shutting_down {
                ListenerAction::DropAndStop
            } else {
                ListenerAction::Run
            }
        },
        ListenerEvent::AcceptFailed => ListenerAction::Pause { millis: 100 },
    }
}

/// What happens to the running server.
#[derive(Debug, Clone, Copy, PartialEq, Eq, Structural)]
pub enum ServeEvent {
    ShutdownRequested,
    /// A listener ended; there may be none left.
    ListenerEnded { more: bool },
}

/// What the running server does next.
#[derive(Debug, Clone, Copy, PartialEq, Eq, Structural)]
pub enum ServeAction {
    Continue,
    /// Refuse new host bridges, stop the sandbox processes, wait for the
    /// listeners, then for the host bridges.
    StopEverything,
    /// Wait for the host bridges.
    Finish,
}

/// What the running server does next.
pub open spec fn serve_action(event: ServeEvent) -> ServeAction {
    match event {
        ServeEvent::ShutdownRequested => ServeAction::StopEverything,
        ServeEvent::ListenerEnded { more } => if more {
            ServeAction::Continue
        } else {
            ServeAction::Finish
        },
    }
}

/// Decide what the running server does next.
pub fn on_serve_event(event: ServeEvent) -> (r: ServeAction)
    ensures
        r == serve_action(event),
{
    match event {
        ServeEvent::ShutdownRequested => ServeAction::StopEverything,
        ServeEvent::ListenerEnded { more } => {
            if more {
                ServeAction::Continue
            } else {
                ServeAction::Finish
            }
        },
    }
}

/// How the setup of a connection went.
#[derive(Debug, Clone, Copy, PartialEq, Eq, Structural)]
pub enum SetupEvent {
    /// The session runs; somebody may already be authenticated.
    Running { authenticated: bool },
    Failed,
    TimedOut,
    ShutdownRequested,
}

/// The supervision of one connection.
#[derive(Debug, Clone, Copy, PartialEq, Eq, Structural)]
pub struct Supervision {
    pub authenticated: bool,
}

/// Why a session is disconnected.
#[derive(Debug, Clone, Copy, PartialEq, Eq, Structural)]
pub enum DisconnectReason {
    ShuttingDown,
    HandshakeTimeout,
}

impl DisconnectReason {
    /// The text sent to the client.
    pub fn text(&self) -> (r: &'static str)
        ensures
            r@ == (match self {
                DisconnectReason::ShuttingDown => "server shutting down"@,
                DisconnectReason::HandshakeTimeout => "handshake timeout"@,
            }),
    {
        match self {
            DisconnectReason::ShuttingDown => "server shutting down",
            DisconnectReason::HandshakeTimeout => "handshake timeout",
        }
    }
}

/// Start the supervision of a connection that was set up.
pub fn begin(event: SetupEvent) -> (r: Option<Supervision>)
    ensures
        r == (match event {
            SetupEvent::Running { authenticated } => Some(Supervision { authenticated }),
            _ => None,
        }),
{
    match event {
        SetupEvent::Running { authenticated } => Some(Supervision { authenticated }),
        _ => None,
    }
}

/// What happens to a supervised connection.
#[derive(Debug, Clone, Copy, PartialEq, Eq, Structural)]
pub enum SessionEvent {
    ShutdownRequested,
    /// An authentication succeeded.
    Authenticated,
    /// The handshake deadline passed; somebody may have authenticated just
    /// before.
    DeadlinePassed { has_principal: bool },
    Ended,
}

/// What follows.
#[derive(Debug, Clone, Copy, PartialEq, Eq, Structural)]
pub enum SessionAction {
    Continue(Supervision),
    /// Disconnect, and give the session a moment to deliver the message.
    Disconnect(DisconnectReason),
    End,
}

/// What follows an event of a supervised connection. The handshake window ends
/// at the first successful authentication.
pub open spec fn session_action(state: Supervision, event: SessionEvent) -> SessionAction {
    match event {
        SessionEvent::ShutdownRequested => SessionAction::Disconnect(
            DisconnectReason::ShuttingDown,
        ),
        SessionEvent::Authenticated => SessionAction::Continue(
            Supervision { authenticated: true },
        ),
        SessionEvent::DeadlinePassed { has_principal } => if state.authenticated || has_principal {
            SessionAction::Continue(Supervision { authenticated: true })
        } else {
            SessionAction::Disconnect(DisconnectReason::HandshakeTimeout)
        },
        SessionEvent::Ended => SessionAction::End,
    }
}

/// Decide what follows an event of a supervised connection.
pub fn on_session_event(state: Supervision, event: SessionEvent) -> (r: SessionAction)
    ensures
        r == session_action(state, event),
{
    match event {
        SessionEvent::ShutdownRequested => SessionAction::Disconnect(
            DisconnectReason::ShuttingDown,
        ),
        SessionEvent::Authenticated => SessionAction::Continue(
            Supervision { authenticated: true },
        ),
        SessionEvent::DeadlinePassed { has_principal } => {
            if state.authenticated || has_principal {
                SessionAction::Continue(Supervision { authenticated: true })
            } else {
                SessionAction::Disconnect(DisconnectReason::HandshakeTimeout)
            }
        },
        SessionEvent::Ended => SessionAction::End,
    }
}

/// An authenticated connection is never ended by the handshake deadline, and
/// stays authenticated.
pub proof fn authenticated_connections_have_no_deadline(state: Supervision, event: SessionEvent)
    requires
        state.authenticated,
    ensures
        session_action(state, event) != SessionAction::Disconnect(
            DisconnectReason::HandshakeTimeout,
        ),
        session_action(state, event) matches SessionAction::Continue(next) ==> next.authenticated,
{
}

/// An accept failure never ends a listener; only a shutdown does.
pub proof fn only_shutdown_ends_a_listener(event: ListenerEvent)
    ensures
        listener_action(event, false) is Stop ==> event is ShutdownRequested,
        listener_action(event, false) !is DropAndStop,
{
}

/// A listener stops exactly at shutdown: a request ends it at once, and a
/// connection that arrives during shutdown is dropped. It runs every other
/// connection, and pauses after a failure to accept one.
pub proof fn listeners_run_until_shutdown(event: ListenerEvent, shutting_down: bool)
    ensures
        listener_action(event, shutting_down) is Stop <==> event is ShutdownRequested,
        listener_action(event, shutting_down) is DropAndStop <==> event is Accepted
            && shutting_down,
        listener_action(event, shutting_down) is Run <==> event is Accepted && !shutting_down,
        listener_action(event, shutting_down) matches ListenerAction::Pause { millis } ==> millis
            == 100 && event is AcceptFailed,
{
}

/// Serving goes on while a listener is left, ends with the last one, and stops
/// everything at shutdown.
pub proof fn serving_ends_with_the_last_listener(event: ServeEvent)
    ensures
        serve_action(event) is StopEverything <==> event is ShutdownRequested,
        serve_action(event) is Continue <==> (event matches ServeEvent::ListenerEnded { more }
            && more),
        serve_action(event) is Finish <==> (event matches ServeEvent::ListenerEnded { more }
            && !more),
{
}

/// A connection is disconnected exactly at shutdown or when its deadline passes
/// without a principal; it ends when it ended, and otherwise goes on
/// authenticated.
pub proof fn connections_end_for_a_reason(state: Supervision, event: SessionEvent)
    ensures
        session_action(state, event) == SessionAction::Disconnect(DisconnectReason::ShuttingDown)
            <==> event is ShutdownRequested,
        session_action(state, event) == SessionAction::Disconnect(
            DisconnectReason::HandshakeTimeout,
        ) <==> (event matches SessionEvent::DeadlinePassed { has_principal } && !has_principal
            && !state.authenticated),
        session_action(state, event) is End <==> event is Ended,
        session_action(state, event) matches SessionAction::Continue(next) ==> next.authenticated,
{
}

/// A transport takes public keys alone, as many attempts and as long a handshake
/// as its caps say, never times out for inactivity, and delays a rejection by a
/// quarter of a second, but not the first.
pub proof fn transports_follow_their_caps(caps: Caps, r: TransportSettings)
    requires
        call_ensures(transport_settings, (&caps,), r),
    ensures
        r.public_key_only,
        r.max_auth_attempts == caps.max_auth_attempts,
        r.handshake_timeout_secs == caps.handshake_timeout_secs,
        r.inactivity_timeout_millis is None,
        r.auth_rejection_millis == 250,
        r.auth_rejection_initial_millis == 0,
{
}

/// Only a session that runs is supervised, authenticated as it is.
pub proof fn running_sessions_are_supervised(event: SetupEvent, r: Option<Supervision>)
    requires
        call_ensures(begin, (event,), r),
    ensures
        r is Some <==> event is Running,
        r matches Some(state) ==> (event matches SetupEvent::Running { authenticated }
            && state.authenticated == authenticated),
{
}

} // verus!
