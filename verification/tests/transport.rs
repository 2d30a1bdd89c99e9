use quic_proxy::stream_handler::passthrough::Passthrough;
use quic_proxy::transport::tcp::TcpClient;
use quic_proxy::transport::{passthrough_target, passthrough_target_from, transport_kind, TransportError, TransportKind};
use quic_proxy::url_parts::UrlParts;

#[test]
fn transport_names() {
    assert_eq!(transport_kind("tcp"), Ok(TransportKind::Tcp));
    assert_eq!(transport_kind("quic"), Ok(TransportKind::Quic));
    assert_eq!(transport_kind("udp"), Err(TransportError::UnknownTransport("udp".to_string())));
    assert_eq!(transport_kind("TCP"), Err(TransportError::UnknownTransport("TCP".to_string())));
}

#[test]
fn passthrough_urls() {
    let target = passthrough_target("quic://remote.host:1080").unwrap();
    assert_eq!(target.kind, TransportKind::Quic);
    assert_eq!(target.address, "remote.host:1080");
    let target = passthrough_target("tcp://10.0.0.1:443").unwrap();
    assert_eq!(target.kind, TransportKind::Tcp);
    assert_eq!(target.address, "10.0.0.1:443");
    let target = passthrough_target("tcp://example.com").unwrap();
    assert_eq!(target.address, "example.com");
    assert_eq!(passthrough_target("http://example.com:1").err(), Some(TransportError::UnknownScheme("http".to_string())));
    assert_eq!(passthrough_target("not a url").err(), Some(TransportError::InvalidUrl));
    assert_eq!(passthrough_target("quic:remote").err(), Some(TransportError::MissingHost));
}

#[test]
fn passthrough_target_from_parts() {
    let parts = UrlParts { scheme: "quic".to_string(), host: Some("h".to_string()), port: Some(9), from_path: "/".to_string() };
    let target = passthrough_target_from(Some(parts)).unwrap();
    assert_eq!((target.kind, target.address.as_str()), (TransportKind::Quic, "h:9"));
    let parts = UrlParts { scheme: "ftp".to_string(), host: None, port: None, from_path: "/".to_string() };
    assert_eq!(passthrough_target_from(Some(parts)).err(), Some(TransportError::MissingHost));
    assert_eq!(passthrough_target_from(None).err(), Some(TransportError::InvalidUrl));
}

#[test]
fn tcp_client_keeps_its_address() {
    let client = TcpClient::new("127.0.0.1:8080");
    assert_eq!(client.remote_addr, "127.0.0.1:8080");
}

#[test]
fn passthrough_keeps_its_client() {
    let passthrough = Passthrough::new(TcpClient::new("h:1"));
    assert_eq!(passthrough.transport_client().remote_addr, "h:1");
}
