use ss_rust::helper::encode;
use ss_rust::local::protocol::Action as LocalAction;
use ss_rust::local::protocol::ProStep as LocalStep;
use ss_rust::local::protocol::Protocol as LocalProtocol;
use ss_rust::server::cache::DnsCache;
use ss_rust::server::protocol::Action as ServerAction;
use ss_rust::server::protocol::ProStep as ServerStep;
use ss_rust::server::protocol::Protocol as ServerProtocol;
use ss_rust::ErrCode;
use ss_rust::Ip;

#[test]
fn greeting_no_auth_accepted() {
    let mut p = LocalProtocol::new();
    p.feed(&[5, 1, 0]);
    let action = p.handle().unwrap();
    assert!(matches!(action, LocalAction::SendGreeting));
    assert_eq!(p.step, LocalStep::Connect);
    assert_eq!(p.back_start_head(), vec![5, 0]);
    assert!(p.pending().is_empty());
}

#[test]
fn greeting_without_no_auth_rejected() {
    let mut p = LocalProtocol::new();
    p.feed(&[5, 1, 1]);
    let err = p.handle().unwrap_err();
    assert_eq!(err, ErrCode::UnImplementErr);
    assert_eq!(p.step, LocalStep::Start);
}

#[test]
fn greeting_bad_version_rejected() {
    let mut p = LocalProtocol::new();
    p.feed(&[4, 1, 0]);
    let err = p.handle().unwrap_err();
    assert_eq!(err, ErrCode::UnImplementErr);
}

#[test]
fn greeting_empty_method_list_rejected() {
    let mut p = LocalProtocol::new();
    p.feed(&[5, 0, 9]);
    let err = p.handle().unwrap_err();
    assert_eq!(err, ErrCode::UnImplementErr);
}

#[test]
fn greeting_short_input_waits() {
    let mut p = LocalProtocol::new();
    p.feed(&[5, 2]);
    assert!(matches!(p.handle().unwrap(), LocalAction::Pending));
    assert_eq!(p.step, LocalStep::Start);
    assert_eq!(p.pending(), vec![5, 2]);
    p.feed(&[2]);
    assert!(matches!(p.handle().unwrap(), LocalAction::Pending));
    p.feed(&[0]);
    assert!(matches!(p.handle().unwrap(), LocalAction::SendGreeting));
}

fn greeted() -> LocalProtocol {
    let mut p = LocalProtocol::new();
    p.feed(&[5, 1, 0]);
    assert!(matches!(p.handle().unwrap(), LocalAction::SendGreeting));
    p
}

#[test]
fn connect_request_domain_path() {
    let mut p = greeted();
    p.feed(&[5, 1, 0, 3, 7, b'e', b'x', b'a', b'm', b'p', b'l', b'e', 0, 80]);
    let action = p.handle().unwrap();
    assert!(matches!(action, LocalAction::OpenRelay));
    assert_eq!(p.step, LocalStep::ConnectTarget);
    assert_eq!(p.conn_head.version, 5);
    assert_eq!(p.conn_head.cmd, 1);
    assert_eq!(p.conn_head.rsv, 0);
    assert_eq!(p.conn_head.atyp, 3);
    assert_eq!(p.conn_head.url, b"example".to_vec());
    assert_eq!(p.conn_head.port, 80);
    assert!(p.pending().is_empty());
}

#[test]
fn connect_request_partial_consumes_nothing() {
    let mut p = greeted();
    let partial = [5, 1, 0, 3, 7, b'e', b'x', b'a', b'm', b'p', b'l', b'e'];
    p.feed(&partial);
    assert!(matches!(p.handle().unwrap(), LocalAction::Pending));
    assert_eq!(p.step, LocalStep::Connect);
    assert_eq!(p.pending(), partial.to_vec());
    p.feed(&[0, 80]);
    assert!(matches!(p.handle().unwrap(), LocalAction::OpenRelay));
    assert_eq!(p.conn_head.url, b"example".to_vec());
    assert_eq!(p.conn_head.port, 80);
}

#[test]
fn connect_request_ipv4_path() {
    let mut p = greeted();
    p.feed(&[5, 1, 0, 1, 8, 8, 4, 4, 0, 53]);
    assert!(matches!(p.handle().unwrap(), LocalAction::OpenRelay));
    assert_eq!(p.conn_head.atyp, 1);
    assert_eq!(p.conn_head.ip, Ip::new(8, 8, 4, 4));
    assert_eq!(p.conn_head.port, 53);
    assert!(p.conn_head.url.is_empty());
}

#[test]
fn connect_request_unsupported_atyp() {
    let mut p = greeted();
    p.feed(&[5, 1, 0, 4, 0, 0, 0, 0, 0, 0, 0, 0]);
    let err = p.handle().unwrap_err();
    assert_eq!(err, ErrCode::UnImplementErr);
}

#[test]
fn connect_request_domain_not_utf8() {
    let mut p = greeted();
    p.feed(&[5, 1, 0, 3, 2, 0xff, 0xfe, 0, 80]);
    let err = p.handle().unwrap_err();
    assert_eq!(err, ErrCode::SocketErr);
}

#[test]
fn connect_request_multibyte_domain_ok() {
    let mut p = greeted();
    p.feed(&[5, 1, 0, 3, 2, 0xc3, 0xa9, 0x1f, 0x90]);
    assert!(matches!(p.handle().unwrap(), LocalAction::OpenRelay));
    assert_eq!(p.conn_head.url, vec![0xc3, 0xa9]);
    assert_eq!(p.conn_head.port, 0x1f90);
}

#[test]
fn chunked_delivery_equals_whole() {
    let frame = [5, 1, 0, 3, 7, b'e', b'x', b'a', b'm', b'p', b'l', b'e', 0, 80];
    let mut whole = greeted();
    whole.feed(&frame);
    assert!(matches!(whole.handle().unwrap(), LocalAction::OpenRelay));

    let mut chunked = greeted();
    for byte in frame {
        let action = chunked.handle().unwrap();
        assert!(matches!(action, LocalAction::Pending));
        chunked.feed(&[byte]);
    }
    assert!(matches!(chunked.handle().unwrap(), LocalAction::OpenRelay));
    assert_eq!(chunked.conn_head.url, whole.conn_head.url);
    assert_eq!(chunked.conn_head.port, whole.conn_head.port);
    assert_eq!(chunked.conn_head.atyp, whole.conn_head.atyp);
}

#[test]
fn pipelined_bytes_survive_parsing() {
    let mut p = greeted();
    p.feed(&[5, 1, 0, 1, 127, 0, 0, 1, 1, 187, b'h', b'i']);
    assert!(matches!(p.handle().unwrap(), LocalAction::OpenRelay));
    assert_eq!(p.pending(), b"hi".to_vec());
}

#[test]
fn success_reply_echoes_request_address() {
    let mut p = greeted();
    p.feed(&[5, 1, 0, 1, 8, 8, 4, 4, 0, 53]);
    assert!(matches!(p.handle().unwrap(), LocalAction::OpenRelay));
    assert_eq!(p.connect_success(), vec![5, 0, 0, 1, 8, 8, 4, 4, 0, 53]);
    assert_eq!(p.connect_err(), vec![5, 1, 0, 1, 8, 8, 4, 4, 0, 53]);
}

#[test]
fn failure_reply_domain_address() {
    let mut p = greeted();
    p.feed(&[5, 1, 0, 3, 2, b'h', b'i', 0, 80]);
    assert!(matches!(p.handle().unwrap(), LocalAction::OpenRelay));
    assert_eq!(p.connect_err(), vec![5, 1, 0, 3, 2, b'h', b'i', 0, 80]);
}

#[test]
fn relay_header_matches_request() {
    let mut p = greeted();
    p.feed(&[5, 1, 0, 3, 7, b'e', b'x', b'a', b'm', b'p', b'l', b'e', 0, 80]);
    assert!(matches!(p.handle().unwrap(), LocalAction::OpenRelay));
    assert_eq!(
        p.ss_head(),
        vec![3, 7, b'e', b'x', b'a', b'm', b'p', b'l', b'e', 0, 80]
    );
}

#[test]
fn server_decodes_wire_bytes_on_feed() {
    let mut s = ServerProtocol::new(DnsCache::new());
    let header = [1u8, 10, 0, 0, 1, 0, 22];
    let wire = encode(&header);
    s.feed(&wire[..]);
    assert_eq!(s.pending(), header.to_vec());
}

#[test]
fn server_parses_relay_header_ipv4() {
    let mut s = ServerProtocol::new(DnsCache::new());
    let wire = encode(&[1, 10, 0, 0, 1, 0, 22]);
    s.feed(&wire[..]);
    let action = s.handle().unwrap();
    assert!(matches!(action, ServerAction::OpenTarget));
    assert_eq!(s.step, ServerStep::ConnectTarget);
    assert_eq!(s.conn_head.atyp, 1);
    assert_eq!(s.conn_head.ip, Ip::new(10, 0, 0, 1));
    assert_eq!(s.conn_head.port, 22);
    let target = s.connect_target().unwrap();
    assert_eq!(target, Ip::new(10, 0, 0, 1));
}

#[test]
fn server_waits_on_partial_header() {
    let mut s = ServerProtocol::new(DnsCache::new());
    let wire = encode(&[3, 7, b'e', b'x', b'a']);
    s.feed(&wire[..]);
    assert!(matches!(s.handle().unwrap(), ServerAction::Pending));
    assert_eq!(s.step, ServerStep::Connect);
    assert_eq!(s.pending(), vec![3, 7, b'e', b'x', b'a']);
}

#[test]
fn relay_header_round_trip_between_agents() {
    let mut local = greeted();
    local.feed(&[5, 1, 0, 3, 7, b'e', b'x', b'a', b'm', b'p', b'l', b'e', 0, 80, b'p', b'1']);
    assert!(matches!(local.handle().unwrap(), LocalAction::OpenRelay));

    let mut wire: Vec<u8> = Vec::new();
    wire.extend_from_slice(&encode(&local.ss_head())[..]);
    wire.extend_from_slice(&encode(&local.pending())[..]);

    let mut remote = ServerProtocol::new(DnsCache::new());
    remote.feed(&wire);
    assert!(matches!(remote.handle().unwrap(), ServerAction::OpenTarget));
    assert_eq!(remote.conn_head.atyp, 3);
    assert_eq!(remote.conn_head.url, b"example".to_vec());
    assert_eq!(remote.conn_head.port, 80);
    assert_eq!(remote.pending(), b"p1".to_vec());
}
