use sdtn::endpoint::EndpointId;
use sdtn::framing::{ack_bytes, encode_frame, split_frames, u32_from_be_bytes, u32_to_be_bytes};
use sdtn::manager::ClaManager;
use sdtn::peer::TcpPeer;

#[test]
fn test_be32_round_trip() {
    for n in [0u32, 1, 255, 256, 65535, 0x01020304, u32::MAX] {
        let bytes = u32_to_be_bytes(n);
        assert_eq!(bytes, n.to_be_bytes().to_vec());
        assert_eq!(u32_from_be_bytes(bytes[0], bytes[1], bytes[2], bytes[3]), n);
    }
}

#[test]
fn test_encode_frame_layout() {
    let body = b"hello".to_vec();
    let frame = encode_frame(&body);
    assert_eq!(&frame[..4], &[0, 0, 0, 5]);
    assert_eq!(&frame[4..], b"hello");
}

#[test]
fn test_ack_bytes_values() {
    assert_eq!(ack_bytes(true), b"OK".to_vec());
    assert_eq!(ack_bytes(false), b"ERROR".to_vec());
}

#[test]
fn test_split_frames_single_frame_clean_close() {
    let body = b"hi".to_vec();
    let stream = encode_frame(&body);

    let parsed = split_frames(&stream);
    assert_eq!(parsed.frames.len(), 1);
    assert_eq!(parsed.frames[0], b"hi".to_vec());
    assert!(parsed.clean_eof);
}

#[test]
fn test_split_frames_multiple_frames_in_order() {
    let mut stream = encode_frame(&b"first".to_vec());
    stream.extend_from_slice(&encode_frame(&b"second".to_vec()));
    stream.extend_from_slice(&encode_frame(&Vec::new()));

    let parsed = split_frames(&stream);
    assert_eq!(parsed.frames.len(), 3);
    assert_eq!(parsed.frames[0], b"first".to_vec());
    assert_eq!(parsed.frames[1], b"second".to_vec());
    assert_eq!(parsed.frames[2], Vec::<u8>::new());
    assert!(parsed.clean_eof);
}

#[test]
fn test_split_frames_garbage_length_then_truncation() {
    // A frame for a small bundle, then a length prefix that promises far
    // more bytes than follow before the peer goes away.
    let mut stream = encode_frame(&b"hi".to_vec());
    stream.extend_from_slice(&1000u32.to_be_bytes());
    stream.extend_from_slice(b"short");

    let parsed = split_frames(&stream);
    assert_eq!(parsed.frames.len(), 1);
    assert_eq!(parsed.frames[0], b"hi".to_vec());
    assert!(!parsed.clean_eof);
}

#[test]
fn test_split_frames_partial_length_prefix() {
    let parsed = split_frames(&[0, 0]);
    assert_eq!(parsed.frames.len(), 0);
    assert!(!parsed.clean_eof);
}

#[test]
fn test_split_frames_empty_stream() {
    let parsed = split_frames(&[]);
    assert_eq!(parsed.frames.len(), 0);
    assert!(parsed.clean_eof);
}

#[test]
fn test_register_peer_deduplicates_by_identity() {
    let mut manager: ClaManager<TcpPeer> = ClaManager::new();

    let added1 =
        manager.register_peer(TcpPeer::from_endpoint_id(EndpointId::from("dtn://peer1")));
    let added2 =
        manager.register_peer(TcpPeer::from_endpoint_id(EndpointId::from("dtn://peer2")));
    let added_dup =
        manager.register_peer(TcpPeer::from_endpoint_id(EndpointId::from("dtn://peer1")));

    assert!(added1);
    assert!(added2);
    assert!(!added_dup);

    let peers = manager.list_all_peers();
    assert_eq!(peers.len(), 2);
    assert_eq!(peers[0].peer_id.as_str(), "dtn://peer1");
    assert_eq!(peers[1].peer_id.as_str(), "dtn://peer2");
}

#[test]
fn test_list_all_peers_empty_registry() {
    let manager: ClaManager<TcpPeer> = ClaManager::new();
    assert!(manager.list_all_peers().is_empty());
}
