//! The engine exercised through the store and the service, with explicit
//! instants in place of a clock.

use qlite::store::Database;
use qlite::store::MsgStatus;
use qlite::service::QueueService;
use qlite::config::RetentionConfig;
use qlite::config::RetentionMode;

#[test]
fn test_database_basic_operations() {
    let mut db = Database::new();

    db.create_queue("test-queue", 1000).expect("Failed to create queue");

    let queues = db.list_queues();
    assert_eq!(queues.len(), 1);
    assert_eq!(queues[0].0, "test-queue");

    db.send_message("test-queue", "msg1", "Hello World", None, None, 1000)
        .expect("Failed to send message");

    let received = db.receive_message("test-queue", 2000);
    assert!(received.is_some());
    let (id, body, _created_at, _attributes) = received.unwrap();
    assert_eq!(id, "msg1");
    assert_eq!(body, "Hello World");

    let attrs = db.get_queue_attributes("test-queue", 2000);
    assert!(attrs.is_some());
}

#[test]
fn test_database_operations() {
    let mut db = Database::new();

    db.create_queue("db-test-queue", 1000).expect("Failed to create queue in database");

    db.send_message("db-test-queue", "msg-id-1", "Database test message", None, None, 1000)
        .expect("Failed to send message to database");

    let queues = db.list_queues();
    assert_eq!(queues.len(), 1);
    assert_eq!(queues[0].0, "db-test-queue");
}

#[test]
fn test_basic_queue_operations() {
    let mut service = QueueService::new();

    service.create_queue("test-queue", 1000).expect("Failed to create queue");

    let queues = service.list_queues();
    assert_eq!(queues.len(), 1);
    assert_eq!(queues[0].0, "test-queue");

    let message_id = service
        .send_message("test-queue", "Hello World", None, None, 1000)
        .expect("Failed to send message");
    assert!(!message_id.is_empty());

    let received = service.receive_message("test-queue", 2000).expect("Failed to receive message");
    assert!(received.is_some());
    let msg = received.unwrap();
    assert_eq!(msg.body, "Hello World");

    let attrs = service
        .get_queue_attributes("test-queue", 2000)
        .expect("Failed to get queue attributes");
    assert!(attrs.is_some());
}

#[test]
fn test_queue_service_operations() {
    let mut service = QueueService::new();

    service.create_queue("service-queue", 1000).expect("Failed to create queue");

    let attributes = Some(r#"{"author":{"StringValue":"test-user","DataType":"String"}}"#.to_string());

    let message_id = service
        .send_message("service-queue", "Test message", attributes, None, 1000)
        .expect("Failed to send message with attributes");
    assert!(!message_id.is_empty());

    let received = service
        .receive_message("service-queue", 2000)
        .expect("Failed to receive message");
    assert!(received.is_some());

    let msg = received.unwrap();
    assert_eq!(msg.body, "Test message");
    assert!(msg.attributes.is_some());
}

#[test]
fn test_message_lifecycle() {
    let mut service = QueueService::new();

    service.create_queue("lifecycle-queue", 1000).expect("Failed to create queue");

    let message_id = service
        .send_message("lifecycle-queue", "Lifecycle test", None, None, 1000)
        .expect("Failed to send message");

    let received = service
        .receive_message("lifecycle-queue", 2000)
        .expect("Failed to receive message");
    assert!(received.is_some());
    let msg = received.unwrap();
    assert_eq!(msg.body, "Lifecycle test");
    let receipt_handle = msg.receipt_handle;

    let deleted = service.delete_message(&receipt_handle, 3000).expect("Failed to delete message");
    assert!(deleted);

    let received_after_delete = service
        .receive_message("lifecycle-queue", 4000)
        .expect("Failed to attempt receive after delete");
    assert!(received_after_delete.is_none());

    let restored = service.restore_message(&message_id).expect("Failed to restore message");
    assert!(restored);
}

#[test]
fn test_message_delete_and_restore() {
    let mut service = QueueService::new();

    service.create_queue("delete-test-queue", 1000).expect("Failed to create queue");

    let message_id = service
        .send_message("delete-test-queue", "Delete test", None, None, 1000)
        .expect("Failed to send message");

    let received = service
        .receive_message("delete-test-queue", 2000)
        .expect("Failed to receive message");
    assert!(received.is_some());

    let msg = received.unwrap();
    let receipt_handle = msg.receipt_handle;

    let deleted = service.delete_message(&receipt_handle, 3000).expect("Failed to delete message");
    assert!(deleted);

    let restored = service.restore_message(&message_id).expect("Failed to restore message");
    assert!(restored);
}

#[test]
fn test_queue_deletion() {
    let mut service = QueueService::new();

    service.create_queue("queue-to-delete", 1000).expect("Failed to create queue");

    service
        .send_message("queue-to-delete", "Message 1", None, None, 1000)
        .expect("Failed to send message 1");
    service
        .send_message("queue-to-delete", "Message 2", None, None, 1001)
        .expect("Failed to send message 2");

    let queues_before = service.list_queues();
    assert_eq!(queues_before.len(), 1);

    let deleted = service.delete_queue("queue-to-delete").expect("Failed to delete queue");
    assert!(deleted);

    let queues_after = service.list_queues();
    assert_eq!(queues_after.len(), 0);
}

#[test]
fn test_retention_cleanup() {
    let mut service = QueueService::new();

    service.create_queue("retention-queue", 1000).expect("Failed to create queue");

    service
        .send_message("retention-queue", "Retention test", None, None, 1000)
        .expect("Failed to send message");

    let retention_config = RetentionConfig {
        cleanup_interval_seconds: 1,
        batch_size: 100,
        mode: RetentionMode::Delete,
        delete_after_days: Some(1),
    };

    let cleaned = service
        .cleanup_expired_messages(&retention_config, 2000)
        .expect("Failed to run cleanup");

    assert!(cleaned == 0 || cleaned > 0);
}

#[test]
fn test_get_all_queue_messages() {
    let mut service = QueueService::new();

    service.create_queue("all-messages-queue", 1000).expect("Failed to create queue");

    for i in 1..=5u64 {
        service
            .send_message("all-messages-queue", &format!("Message {}", i), None, None, 1000 + i)
            .expect("Failed to send message");
    }

    let all_messages = service
        .get_all_queue_messages("all-messages-queue")
        .expect("Failed to get all messages");

    assert_eq!(all_messages.len(), 5);

    let bodies: Vec<&str> = all_messages.iter().map(|m| m.body.as_str()).collect();
    for i in 1..=5 {
        let expected_body = format!("Message {}", i);
        assert!(bodies.contains(&expected_body.as_str()));
    }
}

#[test]
fn test_queue_attributes() {
    let mut service = QueueService::new();

    service.create_queue("attrs-queue", 1000).expect("Failed to create queue");

    let attrs = service
        .get_queue_attributes("attrs-queue", 1500)
        .expect("Failed to get queue attributes");
    assert!(attrs.is_some());
    let queue_attrs = attrs.unwrap();
    assert_eq!(queue_attrs.approximate_number_of_messages, 0);

    for i in 1..=3u64 {
        service
            .send_message("attrs-queue", &format!("Message {}", i), None, None, 1000 + i)
            .expect("Failed to send message");
    }

    let updated_attrs = service
        .get_queue_attributes("attrs-queue", 2000)
        .expect("Failed to get updated queue attributes");
    assert!(updated_attrs.is_some());
    let queue_attrs = updated_attrs.unwrap();
    assert_eq!(queue_attrs.approximate_number_of_messages, 3);
}

#[test]
fn test_queue_attributes_with_messages() {
    let mut service = QueueService::new();

    service.create_queue("attrs-test-queue", 1000).expect("Failed to create queue");

    let initial_attrs = service
        .get_queue_attributes("attrs-test-queue", 1500)
        .expect("Failed to get initial attributes");
    assert!(initial_attrs.is_some());
    let attrs = initial_attrs.unwrap();
    assert_eq!(attrs.approximate_number_of_messages, 0);

    for i in 1..=3u64 {
        service
            .send_message("attrs-test-queue", &format!("Message {}", i), None, None, 1000 + i)
            .expect("Failed to send message");
    }

    let updated_attrs = service
        .get_queue_attributes("attrs-test-queue", 2000)
        .expect("Failed to get updated attributes");
    assert!(updated_attrs.is_some());
    let attrs = updated_attrs.unwrap();
    assert_eq!(attrs.approximate_number_of_messages, 3);
}

#[test]
fn test_multiple_queues() {
    let mut service = QueueService::new();

    let queue_names = vec!["queue-1", "queue-2", "queue-3"];
    for queue_name in &queue_names {
        service.create_queue(queue_name, 1000).expect("Failed to create queue");
    }

    for queue_name in queue_names.iter() {
        service
            .send_message(queue_name, &format!("Message for {}", queue_name), None, None, 1000)
            .expect("Failed to send message");
    }

    for queue_name in &queue_names {
        let received = service.receive_message(queue_name, 2000).expect("Failed to receive message");
        assert!(received.is_some());
        let msg = received.unwrap();
        assert!(msg.body.contains(queue_name));
    }

    let queues = service.list_queues();
    assert_eq!(queues.len(), 3);

    let queue_names_from_list: Vec<&str> = queues.iter().map(|(name, _)| name.as_str()).collect();
    for expected_name in &queue_names {
        assert!(queue_names_from_list.contains(expected_name));
    }
}

#[test]
fn test_message_deduplication() {
    let mut service = QueueService::new();

    service.create_queue("dedup-queue", 1000).expect("Failed to create queue");

    let dedup_id = "unique-dedup-123";
    let message_id1 = service
        .send_message("dedup-queue", "Deduplicated message", None, Some(dedup_id.to_string()), 1000)
        .expect("Failed to send first message");

    let message_id2 = service
        .send_message(
            "dedup-queue",
            "Deduplicated message duplicate",
            None,
            Some(dedup_id.to_string()),
            2000,
        )
        .expect("Failed to send second message");

    assert!(!message_id1.is_empty());
    assert!(!message_id2.is_empty());

    let rows = service.get_all_queue_messages("dedup-queue").unwrap();
    assert_eq!(rows.len(), 1);
}

#[test]
fn test_visibility_timeout_behavior() {
    let mut service = QueueService::new();

    service.create_queue("visibility-queue", 1000).expect("Failed to create queue");

    service
        .send_message("visibility-queue", "Visibility test", None, None, 1000)
        .expect("Failed to send message");

    let first_receive = service
        .receive_message("visibility-queue", 2000)
        .expect("Failed to receive message");
    assert!(first_receive.is_some());

    let second_receive = service
        .receive_message("visibility-queue", 2000)
        .expect("Failed to attempt second receive");
    assert!(second_receive.is_none());
}

#[test]
fn test_error_conditions() {
    let mut service = QueueService::new();

    let receive_result = service.receive_message("nonexistent-queue", 1000);
    assert!(receive_result.is_ok());
    assert!(receive_result.unwrap().is_none());

    let attrs_result = service.get_queue_attributes("nonexistent-queue", 1000);
    assert!(attrs_result.is_ok());
    assert!(attrs_result.unwrap().is_none());

    let delete_result = service.delete_message("nonexistent-receipt-handle", 1000);
    assert!(delete_result.is_ok());
    assert!(!delete_result.unwrap());

    let restore_result = service.restore_message("nonexistent-message-id");
    assert!(restore_result.is_ok());
    assert!(!restore_result.unwrap());

    let delete_queue_result = service.delete_queue("nonexistent-queue");
    assert!(delete_queue_result.is_ok());
    assert!(!delete_queue_result.unwrap());
}

#[test]
fn test_duplicate_message_id_is_refused() {
    let mut db = Database::new();
    db.create_queue("q", 1000).unwrap();
    db.send_message("q", "same-id", "first", None, None, 1000).unwrap();
    let second = db.send_message("q", "same-id", "second", None, None, 2000);
    assert!(matches!(second, Err(qlite::store::QueueError::Duplicate)));
    let rows = db.get_all_queue_messages("q");
    assert_eq!(rows.len(), 1);
    assert_eq!(rows[0].body, "first");
}

#[test]
fn test_delete_is_idempotent() {
    let mut db = Database::new();
    db.create_queue("q", 1000).unwrap();
    db.send_message("q", "m1", "body", None, None, 1000).unwrap();
    assert!(db.delete_message("m1", 2000).unwrap());
    assert!(!db.delete_message("m1", 3000).unwrap());
    let rows = db.get_all_queue_messages("q");
    assert_eq!(rows.len(), 1);
    assert!(matches!(rows[0].status, MsgStatus::Deleted));
}
