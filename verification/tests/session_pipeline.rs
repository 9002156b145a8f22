use umay::addr::{IpAddress, SocketAddress};
use umay::backend::Backend;
use umay::config::Protocol;
use umay::errors::ProxyError;
use umay::pipeline::{
    drain_total_secs, listener_decide, plan_connection, ConnectionPlan, ListenerAction,
    ListenerEvent,
};
use umay::session::{classify_session, client_identity, ServerTls};

fn backend() -> Backend {
    Backend { addr: SocketAddress::new(IpAddress::V4(0x7f00_0001), 1994), weight: 1 }
}

#[test]
fn a_presented_sni_becomes_a_passthrough() {
    let outcome = classify_session(Some("svc.cluster.local".to_string()), None, None);
    match outcome {
        ServerTls::Passthru { sni } => assert_eq!(sni, "svc.cluster.local"),
        ServerTls::Established { .. } => panic!("should be passthrough"),
    }
}

#[test]
fn a_plain_session_is_established_with_its_facts() {
    let certs = vec![vec![1u8, 2, 3], vec![9u8]];
    let alpn = vec![b'h', b'2'];
    let outcome = classify_session(None, Some(&certs), Some(&alpn));
    match outcome {
        ServerTls::Established { client_id, negotiated_protocol } => {
            assert_eq!(client_id.unwrap().0, vec![1u8, 2, 3]);
            assert_eq!(negotiated_protocol.unwrap().0, vec![b'h', b'2']);
        }
        ServerTls::Passthru { .. } => panic!("should be established"),
    }
}

#[test]
fn a_session_without_identity_or_alpn_is_bare() {
    let outcome = classify_session(None, None, None);
    match outcome {
        ServerTls::Established { client_id, negotiated_protocol } => {
            assert!(client_id.is_none());
            assert!(negotiated_protocol.is_none());
        }
        ServerTls::Passthru { .. } => panic!("should be established"),
    }
}

#[test]
fn client_identity_takes_the_first_certificate() {
    assert!(client_identity(None).is_none());
    let empty: Vec<Vec<u8>> = vec![];
    assert!(client_identity(Some(&empty)).is_none());
    let certs = vec![vec![7u8, 7], vec![8u8]];
    assert_eq!(client_identity(Some(&certs)).unwrap().0, vec![7u8, 7]);
}

#[test]
fn no_backend_fails_the_connection() {
    assert_eq!(
        plan_connection(&Protocol::Tcp, None).unwrap_err(),
        ProxyError::NoBackendsAvailable
    );
}

#[test]
fn tcp_and_ws_open_their_upstream_leg() {
    let b = backend();
    assert_eq!(
        plan_connection(&Protocol::Tcp, Some(b)).unwrap(),
        ConnectionPlan::TcpSplice(b)
    );
    assert_eq!(
        plan_connection(&Protocol::Ws, Some(b)).unwrap(),
        ConnectionPlan::WebSocket(b)
    );
}

#[test]
fn udp_and_http_have_no_stream_path() {
    let b = backend();
    assert_eq!(
        plan_connection(&Protocol::Udp, Some(b)).unwrap_err(),
        ProxyError::UnsupportedProtocol
    );
    assert_eq!(
        plan_connection(&Protocol::Http, Some(b)).unwrap_err(),
        ProxyError::UnsupportedProtocol
    );
}

#[test]
fn only_shutdown_stops_the_listener() {
    assert_eq!(
        listener_decide(&ListenerEvent::Incoming),
        ListenerAction::HandleConnection
    );
    assert_eq!(
        listener_decide(&ListenerEvent::AcceptError),
        ListenerAction::LogAndContinue
    );
    assert_eq!(
        listener_decide(&ListenerEvent::Shutdown),
        ListenerAction::StopAccepting
    );
}

#[test]
fn drain_adds_grace_and_exit_and_saturates() {
    assert_eq!(drain_total_secs(5, 3), 8);
    assert_eq!(drain_total_secs(u64::MAX, 1), u64::MAX);
}
