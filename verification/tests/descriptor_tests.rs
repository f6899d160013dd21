use sdtn::bundle::Bundle;
use sdtn::descriptor::BundleDescriptor;
use sdtn::endpoint::EndpointId;

#[test]
fn test_bundle_descriptor_new() {
    let bundle = Bundle::new("dtn://src", "dtn://dest", b"test".to_vec());
    let descriptor = BundleDescriptor::new(bundle.clone());

    assert_eq!(descriptor.bundle.primary.source, bundle.primary.source);
    assert_eq!(
        descriptor.bundle.primary.destination,
        bundle.primary.destination
    );
    assert_eq!(descriptor.bundle.payload, bundle.payload);
    assert_eq!(descriptor.forwarding_attempts, 0);
    assert!(descriptor.already_sent.is_empty());
    assert!(descriptor.created_at > 0);
}

#[test]
fn test_mark_sent() {
    let bundle = Bundle::new("dtn://src", "dtn://dest", b"test".to_vec());
    let mut descriptor = BundleDescriptor::new(bundle);

    let eid = EndpointId::from("dtn://peer1");
    descriptor.mark_sent(eid.clone());

    assert!(descriptor.already_sent.contains(&eid));
    assert_eq!(descriptor.already_sent.len(), 1);
}

#[test]
fn test_mark_sent_multiple() {
    let bundle = Bundle::new("dtn://src", "dtn://dest", b"test".to_vec());
    let mut descriptor = BundleDescriptor::new(bundle);

    let eid1 = EndpointId::from("dtn://peer1");
    let eid2 = EndpointId::from("dtn://peer2");

    descriptor.mark_sent(eid1.clone());
    descriptor.mark_sent(eid2.clone());

    assert!(descriptor.already_sent.contains(&eid1));
    assert!(descriptor.already_sent.contains(&eid2));
    assert_eq!(descriptor.already_sent.len(), 2);
}

#[test]
fn test_mark_sent_duplicate() {
    let bundle = Bundle::new("dtn://src", "dtn://dest", b"test".to_vec());
    let mut descriptor = BundleDescriptor::new(bundle);

    let eid = EndpointId::from("dtn://peer1");
    descriptor.mark_sent(eid.clone());
    descriptor.mark_sent(eid.clone());

    assert!(descriptor.already_sent.contains(&eid));
    assert_eq!(descriptor.already_sent.len(), 1);
}

#[test]
fn test_get_already_sent() {
    let bundle = Bundle::new("dtn://src", "dtn://dest", b"test".to_vec());
    let mut descriptor = BundleDescriptor::new(bundle);

    let eid1 = EndpointId::from("dtn://peer1");
    let eid2 = EndpointId::from("dtn://peer2");

    descriptor.mark_sent(eid1.clone());
    descriptor.mark_sent(eid2.clone());

    let already_sent = descriptor.get_already_sent();
    assert!(already_sent.contains(&eid1));
    assert!(already_sent.contains(&eid2));
    assert_eq!(already_sent.len(), 2);
}

#[test]
fn test_has_been_sent_to() {
    let bundle = Bundle::new("dtn://src", "dtn://dest", b"test".to_vec());
    let mut descriptor = BundleDescriptor::new(bundle);

    let eid1 = EndpointId::from("dtn://peer1");
    let eid2 = EndpointId::from("dtn://peer2");

    descriptor.mark_sent(eid1.clone());

    assert!(descriptor.has_been_sent_to(&eid1));
    assert!(!descriptor.has_been_sent_to(&eid2));
}

#[test]
fn test_increment_forwarding_attempts() {
    let bundle = Bundle::new("dtn://src", "dtn://dest", b"test".to_vec());
    let mut descriptor = BundleDescriptor::new(bundle);

    assert_eq!(descriptor.get_forwarding_attempts(), 0);

    descriptor.increment_forwarding_attempts();
    assert_eq!(descriptor.get_forwarding_attempts(), 1);

    descriptor.increment_forwarding_attempts();
    assert_eq!(descriptor.get_forwarding_attempts(), 2);
}

#[test]
fn test_get_forwarding_attempts() {
    let bundle = Bundle::new("dtn://src", "dtn://dest", b"test".to_vec());
    let descriptor = BundleDescriptor::new(bundle);

    assert_eq!(descriptor.get_forwarding_attempts(), 0);
}

#[test]
fn test_is_ready_for_forwarding_valid() {
    let bundle = Bundle::new("dtn://src", "dtn://dest", b"test".to_vec());
    let descriptor = BundleDescriptor::new(bundle);

    assert!(descriptor.is_ready_for_forwarding(5));
    assert!(descriptor.is_ready_for_forwarding(1));
}

#[test]
fn test_is_ready_for_forwarding_max_attempts_reached() {
    let bundle = Bundle::new("dtn://src", "dtn://dest", b"test".to_vec());
    let mut descriptor = BundleDescriptor::new(bundle);

    descriptor.increment_forwarding_attempts();
    descriptor.increment_forwarding_attempts();
    descriptor.increment_forwarding_attempts();

    assert!(!descriptor.is_ready_for_forwarding(3));
    assert!(!descriptor.is_ready_for_forwarding(2));
    assert!(descriptor.is_ready_for_forwarding(4));
}

#[test]
fn test_is_ready_for_forwarding_expired_at() {
    let mut bundle = Bundle::new("dtn://src", "dtn://dest", b"test".to_vec());
    bundle.primary.creation_timestamp = 1000;
    bundle.primary.lifetime = 1;

    let descriptor = BundleDescriptor::new(bundle);

    assert!(descriptor.is_ready_for_forwarding_at(1001, 5));
    assert!(!descriptor.is_ready_for_forwarding_at(1002, 5));
}

#[test]
fn test_get_bundle_id() {
    let bundle = Bundle::new("dtn://src", "dtn://dest", b"test".to_vec());
    let descriptor = BundleDescriptor::new(bundle.clone());

    let bundle_id = descriptor.get_bundle_id();
    let expected_id = format!(
        "{}-{}",
        bundle.primary.source, bundle.primary.creation_timestamp
    );

    assert_eq!(bundle_id, expected_id);
}

#[test]
fn test_get_bundle_id_different_bundles() {
    let bundle1 = Bundle::new("dtn://src1", "dtn://dest", b"test1".to_vec());
    let bundle2 = Bundle::new("dtn://src2", "dtn://dest", b"test2".to_vec());

    let descriptor1 = BundleDescriptor::new(bundle1);
    let descriptor2 = BundleDescriptor::new(bundle2);

    assert_ne!(descriptor1.get_bundle_id(), descriptor2.get_bundle_id());
}

#[test]
fn test_bundle_descriptor_clone() {
    let bundle = Bundle::new("dtn://src", "dtn://dest", b"test".to_vec());
    let mut descriptor = BundleDescriptor::new(bundle);

    let eid = EndpointId::from("dtn://peer1");
    descriptor.mark_sent(eid.clone());
    descriptor.increment_forwarding_attempts();

    let cloned = descriptor.clone();

    assert_eq!(
        descriptor.bundle.primary.source,
        cloned.bundle.primary.source
    );
    assert_eq!(descriptor.forwarding_attempts, cloned.forwarding_attempts);
    assert_eq!(descriptor.created_at, cloned.created_at);
    assert!(cloned.already_sent.contains(&eid));
}

#[test]
fn test_bundle_descriptor_debug() {
    let bundle = Bundle::new("dtn://src", "dtn://dest", b"test".to_vec());
    let descriptor = BundleDescriptor::new(bundle);

    let debug_str = format!("{descriptor:?}");
    assert!(debug_str.contains("BundleDescriptor"));
    assert!(debug_str.contains("dtn://src"));
    assert!(debug_str.contains("dtn://dest"));
}

#[test]
fn test_complex_forwarding_scenario() {
    let bundle = Bundle::new("dtn://src", "dtn://dest", b"test".to_vec());
    let mut descriptor = BundleDescriptor::new(bundle);

    descriptor.mark_sent(EndpointId::from("dtn://peer1"));
    descriptor.mark_sent(EndpointId::from("dtn://peer2"));
    descriptor.mark_sent(EndpointId::from("dtn://peer3"));

    descriptor.increment_forwarding_attempts();
    descriptor.increment_forwarding_attempts();

    assert_eq!(descriptor.already_sent.len(), 3);
    assert_eq!(descriptor.forwarding_attempts, 2);
    assert!(descriptor.has_been_sent_to(&EndpointId::from("dtn://peer1")));
    assert!(descriptor.has_been_sent_to(&EndpointId::from("dtn://peer2")));
    assert!(descriptor.has_been_sent_to(&EndpointId::from("dtn://peer3")));
    assert!(!descriptor.has_been_sent_to(&EndpointId::from("dtn://peer4")));
    assert!(descriptor.is_ready_for_forwarding(5));
    assert!(!descriptor.is_ready_for_forwarding(2));
}
