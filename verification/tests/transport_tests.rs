use sdtn::bundle::{Bundle, PrimaryBlock};
use sdtn::endpoint::EndpointId;
use sdtn::peer::{
    create_bundle, ClaPeer, ConvergenceLayer, TcpClaClient, TcpClaListener,
    TcpConnectionInfo, TcpPeer,
};
use std::time::{SystemTime, UNIX_EPOCH};

fn create_test_bundle(source: &str, destination: &str, payload: &[u8]) -> Bundle {
    Bundle {
        primary: PrimaryBlock {
            version: 7,
            source: source.to_string(),
            destination: destination.to_string(),
            report_to: "none".to_string(),
            creation_timestamp: SystemTime::now()
                .duration_since(UNIX_EPOCH)
                .unwrap()
                .as_secs(),
            lifetime: 3600,
        },
        payload: payload.to_vec(),
    }
}

struct MockCla {
    address: String,
}

impl MockCla {
    fn new(address: &str) -> Self {
        Self {
            address: address.to_string(),
        }
    }
}

impl ConvergenceLayer for MockCla {
    fn address(&self) -> String {
        self.address.clone()
    }
}

#[test]
fn test_mock_cla_address() {
    let mock_cla = MockCla::new("test://example.com:1234");
    assert_eq!(mock_cla.address(), "test://example.com:1234");
}

#[test]
fn tests_test_tcp_cla_dialer_new() {
    let dialer = TcpClaClient {
        target_addr: "127.0.0.1:8080".to_string(),
        connection_info: None,
    };
    assert_eq!(dialer.target_addr, "127.0.0.1:8080");
}

#[test]
fn tests_test_tcp_cla_dialer_address() {
    let dialer = TcpClaClient {
        target_addr: "localhost:9090".to_string(),
        connection_info: None,
    };
    assert_eq!(dialer.address(), "localhost:9090");
}

#[test]
fn tests_test_create_bundle_simple() {
    let bundle = create_bundle("dtn://source", "dtn://dest", b"hello".to_vec());

    assert_eq!(bundle.primary.source, "dtn://source");
    assert_eq!(bundle.primary.destination, "dtn://dest");
    assert_eq!(bundle.payload, b"hello");
    assert_eq!(bundle.primary.version, 7);
    assert_eq!(bundle.primary.report_to, "none");
    assert_eq!(bundle.primary.lifetime, 3600);
}

#[test]
fn tests_test_create_bundle_with_various_payloads() {
    let test_cases = vec![
        ("empty", b"".to_vec()),
        ("simple", b"hello world".to_vec()),
        ("unicode", "こんにちは世界".as_bytes().to_vec()),
        ("numbers", b"123456789".to_vec()),
        ("binary", vec![0, 1, 2, 255, 254, 253]),
    ];

    for (name, payload) in test_cases {
        let bundle = create_bundle(
            &format!("dtn://source_{name}"),
            &format!("dtn://dest_{name}"),
            payload.clone(),
        );

        assert_eq!(bundle.payload, payload);
        assert!(bundle.primary.creation_timestamp > 0);
    }
}

#[test]
fn tests_test_create_bundle_timing() {
    let before = SystemTime::now()
        .duration_since(UNIX_EPOCH)
        .unwrap()
        .as_secs();
    let bundle = create_bundle("dtn://source", "dtn://dest", b"test".to_vec());
    let after = SystemTime::now()
        .duration_since(UNIX_EPOCH)
        .unwrap()
        .as_secs();

    assert!(bundle.primary.creation_timestamp >= before);
    assert!(bundle.primary.creation_timestamp <= after);
}

#[test]
fn tests_test_create_bundle_different_addresses() {
    let test_cases = vec![
        ("dtn://node1", "dtn://node2"),
        ("tcp://localhost:8080", "tcp://remote:9090"),
        ("http://example.com", "https://secure.example.com"),
        ("", ""),
    ];

    for (source, dest) in test_cases {
        let bundle = create_bundle(source, dest, b"test".to_vec());
        assert_eq!(bundle.primary.source, source);
        assert_eq!(bundle.primary.destination, dest);
    }
}

#[test]
fn tests_test_create_bundle_consistency() {
    for i in 0..10 {
        let bundle = create_bundle(
            &format!("dtn://source{i}"),
            &format!("dtn://dest{i}"),
            format!("payload{i}").into_bytes(),
        );

        assert_eq!(bundle.primary.version, 7);
        assert_eq!(bundle.primary.report_to, "none");
        assert_eq!(bundle.primary.lifetime, 3600);
        assert!(bundle.primary.creation_timestamp > 0);
    }
}

#[test]
fn test_tcp_cla_listener_new() {
    let listener = TcpClaListener {
        bind_addr: "127.0.0.1:8080".to_string(),
    };

    assert_eq!(listener.bind_addr, "127.0.0.1:8080");
}

#[test]
fn test_tcp_cla_listener_address() {
    let listener = TcpClaListener {
        bind_addr: "0.0.0.0:9090".to_string(),
    };

    assert_eq!(listener.address(), "0.0.0.0:9090");
}

#[test]
fn test_create_test_bundle_fields() {
    let bundle = create_test_bundle("source", "dest", b"payload");

    assert_eq!(bundle.primary.version, 7);
    assert_eq!(bundle.primary.source, "source");
    assert_eq!(bundle.primary.destination, "dest");
    assert_eq!(bundle.primary.report_to, "none");
    assert_eq!(bundle.primary.lifetime, 3600);
    assert_eq!(bundle.payload, b"payload");
    assert!(bundle.primary.creation_timestamp > 0);
}

#[test]
fn test_create_test_bundle_timing() {
    let before = SystemTime::now()
        .duration_since(UNIX_EPOCH)
        .unwrap()
        .as_secs();
    let bundle = create_test_bundle("src", "dst", b"test");
    let after = SystemTime::now()
        .duration_since(UNIX_EPOCH)
        .unwrap()
        .as_secs();

    assert!(bundle.primary.creation_timestamp >= before);
    assert!(bundle.primary.creation_timestamp <= after);
}

#[test]
fn test_create_test_bundle_various_payloads() {
    let test_cases = vec![
        b"".to_vec(),
        b"simple".to_vec(),
        "unicode: こんにちは".as_bytes().to_vec(),
        vec![0, 1, 2, 255, 254, 253],
    ];

    for payload in test_cases {
        let bundle = create_test_bundle("src", "dst", &payload);
        assert_eq!(bundle.payload, payload);
    }
}

#[test]
fn tests_test_tcp_peer_new() {
    let eid = EndpointId::from("dtn://test-peer");
    let peer = TcpPeer::new(eid.clone(), "192.168.1.100:8080".to_string());

    assert_eq!(peer.peer_id, eid);
    assert_eq!(peer.address, "192.168.1.100:8080");
}

#[test]
fn test_tcp_peer_from_endpoint_id() {
    let eid = EndpointId::from("dtn://test-node");
    let peer = TcpPeer::from_endpoint_id(eid.clone());

    assert_eq!(peer.peer_id, eid);
    assert_eq!(peer.address, "dtn://test-node");
}

#[test]
fn test_tcp_peer_for_test() {
    let eid = EndpointId::from("dtn://test-endpoint");
    let peer = TcpPeer::for_test(eid.clone());

    assert_eq!(peer.peer_id, eid);
    assert_eq!(peer.address, "dtn://test-endpoint");
}

#[test]
fn tests_test_tcp_peer_get_peer_endpoint_id() {
    let eid = EndpointId::from("dtn://my-peer");
    let peer = TcpPeer::new(eid.clone(), "10.0.0.1:9090".to_string());

    assert_eq!(peer.get_peer_endpoint_id(), eid);
}

#[test]
fn test_tcp_peer_get_cla_type() {
    let eid = EndpointId::from("dtn://any-peer");
    let peer = TcpPeer::new(eid, "localhost:8080".to_string());

    assert_eq!(peer.get_cla_type(), "tcp");
}

#[test]
fn test_tcp_peer_get_connection_address() {
    let eid = EndpointId::from("dtn://addr-test");
    let address = "example.com:1234".to_string();
    let peer = TcpPeer::new(eid, address.clone());

    assert_eq!(peer.get_connection_address(), address);
}

#[test]
fn test_tcp_peer_connection_address_with_info() {
    let eid = EndpointId::from("dtn://addr-test");
    let info = TcpConnectionInfo::new("example.com:1234".to_string());
    assert_eq!(info.port, 1234);
    let peer = TcpPeer::new(eid, "unused".to_string()).with_connection_info(info);

    assert_eq!(peer.get_connection_address(), "example.com:1234:1234");
}

#[test]
fn test_tcp_connection_info_port_parsing() {
    assert_eq!(TcpConnectionInfo::new("127.0.0.1:8080".to_string()).port, 8080);
    assert_eq!(TcpConnectionInfo::new("localhost".to_string()).port, 0);
    assert_eq!(TcpConnectionInfo::new("host:notaport".to_string()).port, 0);
    assert_eq!(TcpConnectionInfo::new("host:65536".to_string()).port, 0);
    assert_eq!(TcpConnectionInfo::new("host:+80".to_string()).port, 80);
    assert_eq!(TcpConnectionInfo::new("a:b:90".to_string()).port, 90);
}

#[test]
fn test_tcp_cla_client_new() {
    let client = TcpClaClient {
        target_addr: "test.example.com:8080".to_string(),
        connection_info: None,
    };
    assert_eq!(client.target_addr, "test.example.com:8080");
}

#[test]
fn test_create_bundle_empty_payload() {
    let bundle = create_bundle("dtn://src", "dtn://dst", vec![]);
    assert_eq!(bundle.payload, b"");
    assert_eq!(bundle.primary.source, "dtn://src");
    assert_eq!(bundle.primary.destination, "dtn://dst");
}

#[test]
fn test_create_bundle_large_payload() {
    let large_payload = vec![0xFF; 1000];
    let bundle = create_bundle("dtn://big-src", "dtn://big-dst", large_payload.clone());
    assert_eq!(bundle.payload, large_payload);
}

#[test]
fn test_create_bundle_unicode_addresses() {
    let bundle = create_bundle(
        "dtn://テスト送信",
        "dtn://テスト受信",
        b"unicode test".to_vec(),
    );
    assert_eq!(bundle.primary.source, "dtn://テスト送信");
    assert_eq!(bundle.primary.destination, "dtn://テスト受信");
}

#[test]
fn tcp_client_tests_test_tcp_cla_dialer_new() {
    let dialer = TcpClaClient {
        target_addr: "127.0.0.1:8080".to_string(),
        connection_info: None,
    };
    assert_eq!(dialer.target_addr, "127.0.0.1:8080");
}

#[test]
fn tcp_client_tests_test_tcp_cla_dialer_address() {
    let dialer = TcpClaClient {
        target_addr: "localhost:9090".to_string(),
        connection_info: None,
    };
    assert_eq!(dialer.address(), "localhost:9090");
}

#[test]
fn tcp_client_tests_test_create_bundle_simple() {
    let bundle = create_bundle("dtn://source", "dtn://dest", b"hello".to_vec());

    assert_eq!(bundle.primary.source, "dtn://source");
    assert_eq!(bundle.primary.destination, "dtn://dest");
    assert_eq!(bundle.payload, b"hello");
    assert_eq!(bundle.primary.version, 7);
    assert_eq!(bundle.primary.report_to, "none");
    assert_eq!(bundle.primary.lifetime, 3600);
}

#[test]
fn tcp_client_tests_test_create_bundle_with_various_payloads() {
    let test_cases = vec![
        ("empty", b"".to_vec()),
        ("simple", b"hello world".to_vec()),
        ("unicode", "こんにちは世界".as_bytes().to_vec()),
        ("numbers", b"123456789".to_vec()),
        ("binary", vec![0, 1, 2, 255, 254, 253]),
    ];

    for (name, payload) in test_cases {
        let bundle = create_bundle(
            &format!("dtn://source_{name}"),
            &format!("dtn://dest_{name}"),
            payload.clone(),
        );

        assert_eq!(bundle.payload, payload);
        assert!(bundle.primary.creation_timestamp > 0);
    }
}

#[test]
fn tcp_client_tests_test_create_bundle_timing() {
    let before = SystemTime::now()
        .duration_since(UNIX_EPOCH)
        .unwrap()
        .as_secs();
    let bundle = create_bundle("dtn://source", "dtn://dest", b"test".to_vec());
    let after = SystemTime::now()
        .duration_since(UNIX_EPOCH)
        .unwrap()
        .as_secs();

    assert!(bundle.primary.creation_timestamp >= before);
    assert!(bundle.primary.creation_timestamp <= after);
}

#[test]
fn tcp_client_tests_test_create_bundle_different_addresses() {
    let test_cases = vec![
        ("dtn://node1", "dtn://node2"),
        ("tcp://localhost:8080", "tcp://remote:9090"),
        ("http://example.com", "https://secure.example.com"),
        ("", ""),
    ];

    for (source, dest) in test_cases {
        let bundle = create_bundle(source, dest, b"test".to_vec());
        assert_eq!(bundle.primary.source, source);
        assert_eq!(bundle.primary.destination, dest);
    }
}

#[test]
fn tcp_client_tests_test_create_bundle_consistency() {
    for i in 0..10 {
        let bundle = create_bundle(
            &format!("dtn://source{i}"),
            &format!("dtn://dest{i}"),
            format!("payload{i}").into_bytes(),
        );

        assert_eq!(bundle.primary.version, 7);
        assert_eq!(bundle.primary.report_to, "none");
        assert_eq!(bundle.primary.lifetime, 3600);
        assert!(bundle.primary.creation_timestamp > 0);
    }
}
