use sdtn::config::{generate_creation_timestamp, BundleConfig, Config, EndpointsConfig, RoutingConfig, StorageConfig};
use sdtn::consts;
use sdtn::routing::RoutingAlgorithmType;

#[test]
fn test_generate_creation_timestamp() {
    let ts = generate_creation_timestamp();
    assert!(ts > 0);
}

#[test]
fn test_config_structure() {
    let config = Config::test_config();

    assert_eq!(config.bundle.version, 7);
    assert_eq!(config.bundle.lifetime, 3600);

    assert_eq!(config.endpoints.destination, "dtn://dest");
    assert_eq!(config.endpoints.source, "dtn://src");
    assert_eq!(config.endpoints.report_to, "dtn://report");

    assert_eq!(config.storage.path, "bundles");
    assert_eq!(config.storage.max_size, 1024);

    assert_eq!(config.routing.algorithm, "epidemic");
}

#[test]
fn test_get_routing_algorithm_type_epidemic() {
    let config = Config::test_config();
    let algorithm_type = config.get_routing_algorithm_type();
    assert!(matches!(algorithm_type, RoutingAlgorithmType::Epidemic));
}

#[test]
fn test_get_routing_algorithm_type_prophet() {
    let config = Config {
        bundle: BundleConfig {
            version: 7,
            lifetime: 3600,
        },
        endpoints: EndpointsConfig {
            destination: "dtn://dest".to_string(),
            source: "dtn://src".to_string(),
            report_to: "dtn://report".to_string(),
        },
        storage: StorageConfig {
            path: "bundles".to_string(),
            max_size: 1024,
        },
        routing: RoutingConfig {
            algorithm: "prophet".to_string(),
        },
    };

    let algorithm_type = config.get_routing_algorithm_type();
    assert!(matches!(algorithm_type, RoutingAlgorithmType::Prophet));
}

#[test]
fn test_get_routing_algorithm_type_case_insensitive() {
    let config = Config {
        bundle: BundleConfig {
            version: 7,
            lifetime: 3600,
        },
        endpoints: EndpointsConfig {
            destination: "dtn://dest".to_string(),
            source: "dtn://src".to_string(),
            report_to: "dtn://report".to_string(),
        },
        storage: StorageConfig {
            path: "bundles".to_string(),
            max_size: 1024,
        },
        routing: RoutingConfig {
            algorithm: "EPIDEMIC".to_string(),
        },
    };

    let algorithm_type = config.get_routing_algorithm_type();
    assert!(matches!(algorithm_type, RoutingAlgorithmType::Epidemic));
}

#[test]
fn test_get_routing_algorithm_type_unknown_fallback() {
    let config = Config {
        bundle: BundleConfig {
            version: 7,
            lifetime: 3600,
        },
        endpoints: EndpointsConfig {
            destination: "dtn://dest".to_string(),
            source: "dtn://src".to_string(),
            report_to: "dtn://report".to_string(),
        },
        storage: StorageConfig {
            path: "bundles".to_string(),
            max_size: 1024,
        },
        routing: RoutingConfig {
            algorithm: "unknown_algorithm".to_string(),
        },
    };

    let algorithm_type = config.get_routing_algorithm_type();
    assert!(matches!(algorithm_type, RoutingAlgorithmType::Epidemic));
}

#[test]
fn test_get_routing_algorithm_type_prophet_uppercase() {
    let config = Config {
        bundle: BundleConfig {
            version: 7,
            lifetime: 3600,
        },
        endpoints: EndpointsConfig {
            destination: "dtn://dest".to_string(),
            source: "dtn://src".to_string(),
            report_to: "dtn://report".to_string(),
        },
        storage: StorageConfig {
            path: "bundles".to_string(),
            max_size: 1024,
        },
        routing: RoutingConfig {
            algorithm: "PROPHET".to_string(),
        },
    };

    let algorithm_type = config.get_routing_algorithm_type();
    assert!(matches!(algorithm_type, RoutingAlgorithmType::Prophet));
}

#[test]
fn test_bundle_config_debug() {
    let bundle_config = BundleConfig {
        version: 7,
        lifetime: 3600,
    };

    let debug_str = format!("{:?}", bundle_config);
    assert!(debug_str.contains("BundleConfig"));
    assert!(debug_str.contains("7"));
    assert!(debug_str.contains("3600"));
}

#[test]
fn test_endpoints_config_debug() {
    let endpoints_config = EndpointsConfig {
        destination: "dtn://dest".to_string(),
        source: "dtn://src".to_string(),
        report_to: "dtn://report".to_string(),
    };

    let debug_str = format!("{:?}", endpoints_config);
    assert!(debug_str.contains("EndpointsConfig"));
    assert!(debug_str.contains("dtn://dest"));
    assert!(debug_str.contains("dtn://src"));
    assert!(debug_str.contains("dtn://report"));
}

#[test]
fn test_storage_config_debug() {
    let storage_config = StorageConfig {
        path: "test_bundles".to_string(),
        max_size: 2048,
    };

    let debug_str = format!("{:?}", storage_config);
    assert!(debug_str.contains("StorageConfig"));
    assert!(debug_str.contains("test_bundles"));
    assert!(debug_str.contains("2048"));
}

#[test]
fn test_routing_config_debug() {
    let routing_config = RoutingConfig {
        algorithm: "epidemic".to_string(),
    };

    let debug_str = format!("{:?}", routing_config);
    assert!(debug_str.contains("RoutingConfig"));
    assert!(debug_str.contains("epidemic"));
}

#[test]
fn test_config_debug() {
    let config = Config::test_config();
    let debug_str = format!("{:?}", config);
    assert!(debug_str.contains("Config"));
    assert!(debug_str.contains("bundle"));
    assert!(debug_str.contains("endpoints"));
    assert!(debug_str.contains("storage"));
    assert!(debug_str.contains("routing"));
}

#[test]
fn test_config_deserialization_fields() {
    let config = Config::test_config();

    assert!(config.bundle.version > 0);
    assert!(config.bundle.lifetime > 0);
    assert!(!config.endpoints.destination.is_empty());
    assert!(!config.endpoints.source.is_empty());
    assert!(!config.endpoints.report_to.is_empty());
    assert!(!config.storage.path.is_empty());
    assert!(config.storage.max_size > 0);
    assert!(!config.routing.algorithm.is_empty());
}

#[test]
fn test_test_config() {
    let config = Config::test_config();
    assert_eq!(config.bundle.version, 7);
    assert_eq!(config.bundle.lifetime, 3600);
    assert_eq!(config.endpoints.destination, "dtn://dest");
    assert_eq!(config.endpoints.source, "dtn://src");
    assert_eq!(config.endpoints.report_to, "dtn://report");
    assert_eq!(config.storage.path, "bundles");
    assert_eq!(config.storage.max_size, 1024);
    assert_eq!(config.routing.algorithm, "epidemic");
}

#[test]
fn test_default_constants() {
    assert_eq!(consts::DEFAULT_VERSION, 7);
    assert_eq!(consts::DEFAULT_LIFETIME, 3600);
    assert_eq!(consts::DEFAULT_REPORT_TO, "none");
    assert_eq!(consts::BUNDLES_DIR, "./bundles");
    assert_eq!(consts::DISPATCHED_DIR, "./dispatched");
}

#[test]
fn test_ble_constants() {
    assert_eq!(
        consts::ble::SERVICE_UUID,
        "12345678-1234-5678-1234-56789abcdef0"
    );
    assert_eq!(
        consts::ble::WRITE_CHAR_UUID,
        "12345678-1234-5678-1234-56789abcdef1"
    );
    assert_eq!(
        consts::ble::NOTIFY_CHAR_UUID,
        "12345678-1234-5678-1234-56789abcdef2"
    );
    assert_eq!(consts::ble::ADV_NAME, "spacearth-dtn-ble");
    assert_eq!(consts::ble::ack(), b"ACK\n");
}

#[test]
fn test_tcp_constants() {
    assert_eq!(consts::tcp::ACK, "ACK");
    assert_eq!(consts::tcp::OK, "OK");
    assert_eq!(consts::tcp::SUCCESS, "SUCCESS");
    assert_eq!(consts::tcp::RECEIVED, "RECEIVED");
}

#[test]
fn test_ble_uuid_format() {
    let service_uuid = consts::ble::SERVICE_UUID;

    let parts: Vec<&str> = service_uuid.split('-').collect();
    assert_eq!(parts.len(), 5);
    assert_eq!(parts[0].len(), 8);
    assert_eq!(parts[1].len(), 4);
    assert_eq!(parts[2].len(), 4);
    assert_eq!(parts[3].len(), 4);
    assert_eq!(parts[4].len(), 12);

    assert_ne!(consts::ble::SERVICE_UUID, consts::ble::WRITE_CHAR_UUID);
    assert_ne!(consts::ble::SERVICE_UUID, consts::ble::NOTIFY_CHAR_UUID);
    assert_ne!(consts::ble::WRITE_CHAR_UUID, consts::ble::NOTIFY_CHAR_UUID);
}

#[test]
fn test_ack_bytes() {
    let ack_bytes = consts::ble::ack();
    assert_eq!(ack_bytes.len(), 4);
    assert_eq!(ack_bytes[0], b'A');
    assert_eq!(ack_bytes[1], b'C');
    assert_eq!(ack_bytes[2], b'K');
    assert_eq!(ack_bytes[3], b'\n');
}

#[test]
fn test_directory_paths() {
    assert!(consts::BUNDLES_DIR.starts_with("./"));
    assert!(consts::DISPATCHED_DIR.starts_with("./"));
    assert_ne!(consts::BUNDLES_DIR, consts::DISPATCHED_DIR);
}

#[test]
fn test_tcp_string_constants_not_empty() {
    assert!(!consts::tcp::ACK.is_empty());
    assert!(!consts::tcp::OK.is_empty());
    assert!(!consts::tcp::SUCCESS.is_empty());
    assert!(!consts::tcp::RECEIVED.is_empty());

    assert_ne!(consts::tcp::ACK, consts::tcp::OK);
    assert_ne!(consts::tcp::ACK, consts::tcp::SUCCESS);
    assert_ne!(consts::tcp::ACK, consts::tcp::RECEIVED);
}

#[test]
fn test_lifetime_is_positive() {
    assert!(consts::DEFAULT_LIFETIME > 0);
    assert_eq!(consts::DEFAULT_LIFETIME, 60 * 60);
}
