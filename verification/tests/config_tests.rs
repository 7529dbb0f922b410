use qlite::config::Config;
use qlite::config::QueueConfig;

#[test]
fn test_default_config() {
    let config = Config::default();
    assert_eq!(config.server.port, 3000);
    assert_eq!(config.database.path, "qlite.db");
    assert!(config.validate().is_ok());
}

#[test]
fn test_fifo_queue_validation() {
    let mut config = QueueConfig::new("test.fifo".to_string(), true);
    assert!(config.validate().is_ok());

    config.name = "test".to_string();
    assert!(config.validate().is_err());
}

#[test]
fn test_standard_queue_validation() {
    let mut config = QueueConfig::new("test".to_string(), false);
    assert!(config.validate().is_ok());

    config.name = "test.fifo".to_string();
    assert!(config.validate().is_err());
}

#[test]
fn test_config_validation_bounds() {
    let mut config = Config::default();
    config.queues.message_retention_seconds = 59;
    assert!(config.validate().is_err());
    config.queues.message_retention_seconds = 60;
    assert!(config.validate().is_ok());
    config.queues.message_retention_seconds = 1209600;
    assert!(config.validate().is_ok());
    config.queues.message_retention_seconds = 1209601;
    assert!(config.validate().is_err());
    config.queues.message_retention_seconds = 1209600;
    config.server.port = 0;
    assert!(config.validate().is_err());
    config.server.port = 1;
    config.queues.max_receive_count = 0;
    assert!(config.validate().is_err());
}

#[test]
fn test_apply_overrides() {
    let mut config = Config::default();
    config.apply_overrides(
        Some(8080),
        Some("127.0.0.1".to_string()),
        None,
        Some(true),
        Some("http://example".to_string()),
        Some(false),
    );
    assert_eq!(config.server.port, 8080);
    assert_eq!(config.server.host, "127.0.0.1");
    assert_eq!(config.database.path, "qlite.db");
    assert!(config.server.enable_ui);
    assert_eq!(config.server.base_url.as_deref(), Some("http://example"));
    assert!(!config.metrics.enabled);
}

#[test]
fn test_queue_config_default_fifo_dedup() {
    let fifo = QueueConfig::new("orders.fifo".to_string(), true);
    assert!(fifo.is_fifo);
    assert!(fifo.content_based_deduplication);
    let standard = QueueConfig::new("orders".to_string(), false);
    assert!(!standard.is_fifo);
    assert!(!standard.content_based_deduplication);
}
