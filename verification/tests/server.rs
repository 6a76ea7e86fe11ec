use shbox::config::Caps;
use shbox::endpoint::{ListenEndpoint, SocketAddress};
use shbox::server::session::{
    self, DisconnectReason, ListenerAction, ListenerEvent, ServeAction, ServeEvent, SessionAction,
    SessionEvent, SetupEvent, Supervision,
};
use shbox::server::{bind_all, BoundListener, Error, HostProcessLimiter, HostTaskRegistry, Limiter};

#[test]
fn admits_up_to_the_connection_cap() {
    let caps = Caps {
        max_connections: 2,
        max_unauthenticated_connections: 8,
        ..Caps::default()
    };
    let mut limiter = Limiter::new(&caps);
    let a = limiter.reserve().expect("first");
    let _b = limiter.reserve().expect("second");
    assert!(limiter.reserve().is_none(), "third must hit the cap");
    a.release(&mut limiter);
    assert!(limiter.reserve().is_some(), "released slot is reusable");
}

#[test]
fn admits_up_to_the_unauthenticated_cap() {
    let caps = Caps {
        max_connections: 8,
        max_unauthenticated_connections: 2,
        ..Caps::default()
    };
    let mut limiter = Limiter::new(&caps);
    let mut a = limiter.reserve().expect("first");
    let _b = limiter.reserve().expect("second");
    assert!(limiter.reserve().is_none(), "unauth cap hit");
    assert_eq!(limiter.in_flight(), (2, 2));
    a.authenticated(&mut limiter);
    assert_eq!(limiter.in_flight(), (1, 2));
    // A second notification changes nothing.
    a.authenticated(&mut limiter);
    assert_eq!(limiter.in_flight(), (1, 2));
    assert!(limiter.reserve().is_some());
    // An authenticated slot leaves only the total bucket.
    a.release(&mut limiter);
    assert_eq!(limiter.in_flight(), (2, 2));
}

#[test]
fn slots_release_both_buckets_on_drop() {
    let caps = Caps::default();
    let mut limiter = Limiter::new(&caps);
    let slot = limiter.reserve().expect("admit");
    slot.release(&mut limiter);
    let (unauth, total) = limiter.in_flight();
    assert_eq!((unauth, total), (0, 0));
}

#[test]
fn host_process_cap_is_bounded_without_evicting_existing_slots() {
    let caps = Caps {
        max_host_processes: 2,
        ..Caps::default()
    };
    let mut limiter = HostProcessLimiter::new(&caps);
    let first = limiter.reserve().expect("first host process");
    let second = limiter.reserve().expect("second host process");
    assert!(limiter.reserve().is_none(), "host cap must be enforced");
    assert_eq!(limiter.in_flight(), 2);
    limiter.release(first);
    assert_eq!(limiter.in_flight(), 1);
    assert!(limiter.reserve().is_some(), "released slot is reusable");
    limiter.release(second);
}

#[test]
fn bind_all_is_all_or_nothing() {
    let occupied = SocketAddress::new("127.0.0.1:4000");
    let endpoints = [
        ListenEndpoint::Tcp { address: SocketAddress::new("127.0.0.1:0") },
        ListenEndpoint::Tcp { address: occupied.clone() },
        ListenEndpoint::Tcp { address: SocketAddress::new("127.0.0.1:1") },
    ];
    let bind = |address: &SocketAddress| -> Result<String, String> {
        if address.as_str() == "127.0.0.1:4000" {
            Err("address in use".to_string())
        } else {
            Ok(address.as_str().to_string())
        }
    };
    let err = bind_all(&endpoints, &bind).expect_err("occupied address");
    let Error::Bind { address, .. } = &err;
    assert_eq!(address.as_str(), occupied.as_str());
    assert_eq!(err.message(), "cannot bind listen address 127.0.0.1:4000: address in use");
}

#[test]
fn bound_listeners_keep_order_transport_and_path() {
    let endpoints = [
        ListenEndpoint::Tcp { address: SocketAddress::new("0.0.0.0:22") },
        ListenEndpoint::WebSocket {
            address: SocketAddress::new("[::1]:8080"),
            path: "/ssh".to_string(),
        },
    ];
    let bind = |address: &SocketAddress| -> Result<String, String> {
        Ok(address.as_str().to_string())
    };
    let bound = bind_all(&endpoints, &bind).expect("both bind");
    assert_eq!(bound.len(), 2);
    assert!(matches!(&bound[0], BoundListener::Tcp { listener } if listener == "0.0.0.0:22"));
    assert!(matches!(
        &bound[1],
        BoundListener::WebSocket { listener, path } if listener == "[::1]:8080" && path == "/ssh"
    ));
    let none: [ListenEndpoint; 0] = [];
    assert_eq!(bind_all(&none, &bind).expect("nothing to bind").len(), 0);
}

#[test]
fn host_tasks_are_tracked_until_the_registry_closes() {
    let mut registry = HostTaskRegistry::new();
    let first = registry.track().expect("open");
    let second = registry.track().expect("open");
    assert_ne!(first, second);
    assert_eq!(registry.force_stop(), vec![first, second]);
    registry.complete(first);
    assert_eq!(registry.force_stop(), vec![second]);
    registry.close();
    assert!(registry.track().is_none(), "closed registry must refuse tracking");
    assert_eq!(registry.take_all(), vec![second]);
    assert!(registry.take_all().is_empty());
    // Completion after the wait finds nothing to remove.
    registry.complete(second);
    assert!(registry.force_stop().is_empty());
}

#[test]
fn transport_settings_follow_the_caps() {
    let settings = session::transport_settings(&Caps::default());
    assert!(settings.public_key_only);
    assert_eq!(settings.max_auth_attempts, 6);
    assert_eq!(settings.inactivity_timeout_millis, None);
    assert_eq!(settings.auth_rejection_millis, 250);
    assert_eq!(settings.auth_rejection_initial_millis, 0);
    assert_eq!(settings.handshake_timeout_secs, 30);
}

#[test]
fn listeners_survive_accept_failures_and_stop_on_shutdown() {
    assert_eq!(
        session::on_listener_event(ListenerEvent::AcceptFailed, false),
        ListenerAction::Pause { millis: 100 }
    );
    assert_eq!(
        session::on_listener_event(ListenerEvent::Accepted, false),
        ListenerAction::Run
    );
    assert_eq!(
        session::on_listener_event(ListenerEvent::Accepted, true),
        ListenerAction::DropAndStop
    );
    assert_eq!(
        session::on_listener_event(ListenerEvent::ShutdownRequested, true),
        ListenerAction::Stop
    );
    assert_eq!(
        session::on_serve_event(ServeEvent::ShutdownRequested),
        ServeAction::StopEverything
    );
    assert_eq!(
        session::on_serve_event(ServeEvent::ListenerEnded { more: true }),
        ServeAction::Continue
    );
    assert_eq!(
        session::on_serve_event(ServeEvent::ListenerEnded { more: false }),
        ServeAction::Finish
    );
}

#[test]
fn the_handshake_window_ends_at_authentication() {
    assert_eq!(session::begin(SetupEvent::Failed), None);
    assert_eq!(session::begin(SetupEvent::TimedOut), None);
    assert_eq!(session::begin(SetupEvent::ShutdownRequested), None);
    let waiting = session::begin(SetupEvent::Running { authenticated: false }).expect("running");
    assert_eq!(
        session::on_session_event(waiting, SessionEvent::DeadlinePassed { has_principal: false }),
        SessionAction::Disconnect(DisconnectReason::HandshakeTimeout)
    );
    assert_eq!(DisconnectReason::HandshakeTimeout.text(), "handshake timeout");
    let authenticated = Supervision { authenticated: true };
    assert_eq!(
        session::on_session_event(waiting, SessionEvent::Authenticated),
        SessionAction::Continue(authenticated)
    );
    assert_eq!(
        session::on_session_event(waiting, SessionEvent::DeadlinePassed { has_principal: true }),
        SessionAction::Continue(authenticated)
    );
    assert_eq!(
        session::on_session_event(
            authenticated,
            SessionEvent::DeadlinePassed { has_principal: false }
        ),
        SessionAction::Continue(authenticated)
    );
    assert_eq!(
        session::on_session_event(authenticated, SessionEvent::ShutdownRequested),
        SessionAction::Disconnect(DisconnectReason::ShuttingDown)
    );
    assert_eq!(DisconnectReason::ShuttingDown.text(), "server shutting down");
    assert_eq!(
        session::on_session_event(authenticated, SessionEvent::Ended),
        SessionAction::End
    );
}
