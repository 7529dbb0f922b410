//! End-to-end scenarios of the broker's semantics, each driven with
//! explicit instants: lifecycle, visibility redelivery, FIFO order,
//! content deduplication, dead-letter promotion and redrive, and the
//! immediate half of long polling.

use qlite::config::QueueConfig;
use qlite::config::RetentionConfig;
use qlite::config::RetentionMode;
use qlite::service::QueueService;
use qlite::service::cleanup_cron_expression;

fn keep_forever() -> RetentionConfig {
    RetentionConfig {
        cleanup_interval_seconds: 3600,
        batch_size: 1000,
        mode: RetentionMode::KeepForever,
        delete_after_days: Some(14),
    }
}

#[test]
fn basic_lifecycle() {
    let mut s = QueueService::new();
    s.create_queue("q", 1000).unwrap();
    s.send_message("q", "hello", None, None, 1000).unwrap();

    let got = s.receive_message("q", 2000).unwrap().expect("message due");
    assert_eq!(got.body, "hello");
    let rows = s.get_all_queue_messages("q").unwrap();
    assert_eq!(rows.len(), 1);
    assert_eq!(rows[0].receive_count, 1);

    assert!(s.delete_message(&got.receipt_handle, 3000).unwrap());
    let again = s.receive_message("q", 4000).unwrap();
    assert!(again.is_none());
}

#[test]
fn visibility_redelivery() {
    let mut s = QueueService::new();
    let mut cfg = QueueConfig::new("q".to_string(), false);
    cfg.visibility_timeout_seconds = 1;
    s.create_queue_with_config(cfg, 1000).unwrap();
    s.send_message("q", "x", None, None, 1000).unwrap();

    let first = s.receive_message("q", 2000).unwrap().expect("message due");
    assert_eq!(first.body, "x");

    // Without deleting: the lease (1 s) expires, the sweep reclaims it.
    let flipped = s.cleanup_expired_messages(&keep_forever(), 4000).unwrap();
    assert_eq!(flipped, 1);

    let second = s.receive_message("q", 4000).unwrap().expect("redelivery due");
    assert_eq!(second.body, "x");
    let rows = s.get_all_queue_messages("q").unwrap();
    assert_eq!(rows[0].receive_count, 2);
}

#[test]
fn fifo_ordering() {
    let mut s = QueueService::new();
    s.create_queue("orders.fifo", 1000).unwrap();
    for (i, body) in ["A", "B", "C"].iter().enumerate() {
        s.send_message_enhanced_with_group(
            "orders.fifo",
            body,
            None,
            None,
            0,
            Some("g1".to_string()),
            1000 + i as u64,
        )
        .unwrap();
    }
    let a = s.receive_message("orders.fifo", 2000).unwrap().unwrap();
    let b = s.receive_message("orders.fifo", 2001).unwrap().unwrap();
    let c = s.receive_message("orders.fifo", 2002).unwrap().unwrap();
    assert_eq!((a.body.as_str(), b.body.as_str(), c.body.as_str()), ("A", "B", "C"));
}

#[test]
fn content_based_dedup() {
    let mut s = QueueService::new();
    s.create_queue("orders.fifo", 1000).unwrap();
    s.send_message("orders.fifo", "p", None, None, 1000).unwrap();
    s.send_message("orders.fifo", "p", None, None, 31000).unwrap();

    let rows = s.get_all_queue_messages("orders.fifo").unwrap();
    assert_eq!(rows.len(), 1);
    assert_eq!(rows[0].body, "p");
    // The deduplication id is the MD5 digest of the body.
    assert_eq!(rows[0].deduplication_id.as_deref(), Some("83878c91171338902e0fe0fb97a8c47a"));
}

#[test]
fn dedup_window_expires() {
    let mut s = QueueService::new();
    s.create_queue("q", 1000).unwrap();
    s.send_message("q", "payload", None, Some("d1".to_string()), 1000).unwrap();
    // Within five minutes: absorbed.
    s.send_message("q", "payload", None, Some("d1".to_string()), 200_000).unwrap();
    assert_eq!(s.get_all_queue_messages("q").unwrap().len(), 1);
    // Past the window: inserted.
    s.send_message("q", "payload", None, Some("d1".to_string()), 302_000).unwrap();
    assert_eq!(s.get_all_queue_messages("q").unwrap().len(), 2);
}

#[test]
fn dlq_promotion() {
    let mut s = QueueService::new();
    let mut cfg = QueueConfig::new("q".to_string(), false);
    cfg.max_receive_count = Some(2);
    cfg.dead_letter_target_arn = Some("sqs/dlq".to_string());
    s.create_queue_with_config(cfg, 1000).unwrap();
    s.create_queue("dlq", 1000).unwrap();

    s.send_message("q", "m", None, None, 1000).unwrap();

    assert!(s.receive_message("q", 2000).unwrap().is_some());
    s.cleanup_expired_messages(&keep_forever(), 40_000).unwrap();
    assert!(s.receive_message("q", 41_000).unwrap().is_some());
    s.cleanup_expired_messages(&keep_forever(), 80_000).unwrap();

    // The third receive crosses the limit: promoted, nothing delivered.
    assert!(s.receive_message("q", 81_000).unwrap().is_none());

    let dlq = s.get_dlq_messages("dlq").unwrap();
    assert_eq!(dlq.len(), 1);
    assert_eq!(dlq[0].original_body, "m");
    assert_eq!(dlq[0].original_queue, "q");
    assert_eq!(dlq[0].dlq_queue, "dlq");
    // The promoted message left the live table entirely.
    assert_eq!(s.get_all_queue_messages("q").unwrap().len(), 0);
}

#[test]
fn dlq_redrive() {
    let mut s = QueueService::new();
    let mut cfg = QueueConfig::new("q".to_string(), false);
    cfg.max_receive_count = Some(2);
    cfg.dead_letter_target_arn = Some("sqs/dlq".to_string());
    s.create_queue_with_config(cfg, 1000).unwrap();
    s.send_message("q", "m", None, None, 1000).unwrap();
    assert!(s.receive_message("q", 2000).unwrap().is_some());
    s.cleanup_expired_messages(&keep_forever(), 40_000).unwrap();
    assert!(s.receive_message("q", 41_000).unwrap().is_some());
    s.cleanup_expired_messages(&keep_forever(), 80_000).unwrap();
    assert!(s.receive_message("q", 81_000).unwrap().is_none());
    assert_eq!(s.get_dlq_messages("dlq").unwrap().len(), 1);

    let moved = s.redrive_dlq_messages("dlq", "q", Some(10), 90_000).unwrap();
    assert_eq!(moved, 1);
    assert_eq!(s.get_dlq_messages("dlq").unwrap().len(), 0);

    let rows = s.get_all_queue_messages("q").unwrap();
    assert_eq!(rows.len(), 1);
    assert_eq!(rows[0].body, "m");
    assert_eq!(rows[0].receive_count, 0);

    let back = s.receive_message("q", 91_000).unwrap().expect("redriven message due");
    assert_eq!(back.body, "m");
}

#[test]
fn long_poll_sees_late_arrival() {
    // The waiting half of long polling is the adapter's loop; the engine's
    // part is that an empty check followed by a send makes the next check
    // deliver.
    let mut s = QueueService::new();
    s.create_queue("q", 1000).unwrap();
    assert!(s.receive_message("q", 2000).unwrap().is_none());
    s.send_message("q", "late", None, None, 3000).unwrap();
    let got = s.receive_message("q", 4000).unwrap().expect("arrival wakes the poller");
    assert_eq!(got.body, "late");
}

#[test]
fn delayed_message_hidden_until_due() {
    let mut s = QueueService::new();
    s.create_queue("q", 1000).unwrap();
    s.send_message_enhanced("q", "later", None, None, 10, 1000).unwrap();
    assert!(s.receive_message("q", 5000).unwrap().is_none());
    let got = s.receive_message("q", 12_000).unwrap().expect("delay has passed");
    assert_eq!(got.body, "later");
}

#[test]
fn message_ids_unique_and_fresh() {
    let mut s = QueueService::new();
    s.create_queue("q", 1000).unwrap();
    let a = s.send_message("q", "one", None, None, 1000).unwrap();
    let b = s.send_message("q", "two", None, None, 1001).unwrap();
    assert_eq!(a.len(), 36);
    assert_eq!(b.len(), 36);
    assert_ne!(a, b);
    let rows = s.get_all_queue_messages("q").unwrap();
    assert_ne!(rows[0].id, rows[1].id);
}

#[test]
fn receive_count_monotone_across_redeliveries() {
    let mut s = QueueService::new();
    let mut cfg = QueueConfig::new("q".to_string(), false);
    cfg.visibility_timeout_seconds = 1;
    s.create_queue_with_config(cfg, 1000).unwrap();
    s.send_message("q", "m", None, None, 1000).unwrap();
    let mut seen = Vec::new();
    let mut t = 2000u64;
    for _ in 0..3 {
        s.receive_message("q", t).unwrap().unwrap();
        seen.push(s.get_all_queue_messages("q").unwrap()[0].receive_count);
        t += 10_000;
        s.cleanup_expired_messages(&keep_forever(), t).unwrap();
    }
    assert_eq!(seen, vec![1, 2, 3]);
}

#[test]
fn keep_forever_cleanup_deletes_nothing() {
    let mut s = QueueService::new();
    s.create_queue("q", 1000).unwrap();
    for i in 0..4u64 {
        s.send_message("q", &format!("m{}", i), None, None, 1000 + i).unwrap();
    }
    s.receive_message("q", 2000).unwrap().unwrap();
    let before = s.get_all_queue_messages("q").unwrap().len();
    s.cleanup_expired_messages(&keep_forever(), 100_000).unwrap();
    let after = s.get_all_queue_messages("q").unwrap().len();
    assert_eq!(before, after);
    assert_eq!(after, 4);
}

#[test]
fn delete_mode_cleanup_removes_aged_rows() {
    let mut s = QueueService::new();
    s.create_queue("q", 1000).unwrap();
    s.send_message("q", "old", None, None, 1000).unwrap();
    s.send_message("q", "young", None, None, 200_000_000_000).unwrap();
    let cfg = RetentionConfig {
        cleanup_interval_seconds: 3600,
        batch_size: 1000,
        mode: RetentionMode::Delete,
        delete_after_days: Some(1),
    };
    // A day is 86 400 000 ms; only the first row is older than that.
    let removed = s.cleanup_expired_messages(&cfg, 200_000_100_000).unwrap();
    assert_eq!(removed, 1);
    let rows = s.get_all_queue_messages("q").unwrap();
    assert_eq!(rows.len(), 1);
    assert_eq!(rows[0].body, "young");
}

#[test]
fn redrive_policy_attribute_round_trip() {
    let mut s = QueueService::new();
    s.create_queue("q", 1000).unwrap();
    let attrs = vec![
        ("VisibilityTimeout".to_string(), "17".to_string()),
        (
            "RedrivePolicy".to_string(),
            r#"{"deadLetterTargetArn":"arn:aws:sqs:us-east-1:000000000000:dlq","maxReceiveCount":3}"#
                .to_string(),
        ),
    ];
    s.set_queue_attributes("q", &attrs).unwrap();
    let cfg = s.get_queue_config("q").unwrap().expect("configuration stored");
    assert_eq!(cfg.visibility_timeout_seconds, 17);
    assert_eq!(cfg.max_receive_count, Some(3));
    assert_eq!(
        cfg.dead_letter_target_arn.as_deref(),
        Some("arn:aws:sqs:us-east-1:000000000000:dlq")
    );
}

#[test]
fn malformed_attributes_fall_back_to_defaults() {
    let mut s = QueueService::new();
    s.create_queue("q", 1000).unwrap();
    let attrs = vec![
        ("VisibilityTimeout".to_string(), "-5".to_string()),
        ("RedrivePolicy".to_string(), "not json".to_string()),
    ];
    s.set_queue_attributes("q", &attrs).unwrap();
    let cfg = s.get_queue_config("q").unwrap().unwrap();
    assert_eq!(cfg.visibility_timeout_seconds, 30);
    assert_eq!(cfg.max_receive_count, None);
    assert_eq!(cfg.dead_letter_target_arn, None);
}

#[test]
fn recreating_a_queue_is_a_no_op() {
    let mut s = QueueService::new();
    s.create_queue("orders.fifo", 1000).unwrap();
    let mut attrs = vec![("VisibilityTimeout".to_string(), "7".to_string())];
    attrs.push((
        "RedrivePolicy".to_string(),
        r#"{"deadLetterTargetArn":"sqs/dlq","maxReceiveCount":4}"#.to_string(),
    ));
    s.set_queue_attributes("orders.fifo", &attrs).unwrap();

    // Re-creating the queue changes nothing: not even its configuration.
    s.create_queue("orders.fifo", 9999).unwrap();
    let cfg = s.get_queue_config("orders.fifo").unwrap().unwrap();
    assert_eq!(cfg.visibility_timeout_seconds, 7);
    assert_eq!(cfg.max_receive_count, Some(4));
    assert!(cfg.is_fifo);
    let queues = s.list_queues();
    assert_eq!(queues, vec![("orders.fifo".to_string(), 1000)]);
}

#[test]
fn fifo_name_validation_rejects_bare_suffix() {
    let mut s = QueueService::new();
    let r = s.create_queue(".fifo", 1000);
    assert!(matches!(r, Err(qlite::store::QueueError::Validation(_))));
    assert!(s.create_queue("x.fifo", 1000).is_ok());
}

#[test]
fn batch_send_and_delete() {
    let mut s = QueueService::new();
    s.create_queue("q", 1000).unwrap();
    let entries = vec![
        qlite::store::SendMessageParams {
            queue_name: "q".to_string(),
            message_id: "b1".to_string(),
            body: "first".to_string(),
            attributes: None,
            deduplication_id: None,
            delay_until: None,
            message_group_id: None,
        },
        qlite::store::SendMessageParams {
            queue_name: "q".to_string(),
            message_id: "b2".to_string(),
            body: "second".to_string(),
            attributes: None,
            deduplication_id: None,
            delay_until: None,
            message_group_id: None,
        },
        qlite::store::SendMessageParams {
            queue_name: "q".to_string(),
            message_id: "b1".to_string(),
            body: "clash".to_string(),
            attributes: None,
            deduplication_id: None,
            delay_until: None,
            message_group_id: None,
        },
    ];
    let results = s.send_messages_batch(entries, 1000).unwrap();
    assert_eq!(results.len(), 3);
    assert!(results[0].is_ok());
    assert!(results[1].is_ok());
    assert!(matches!(results[2], Err(qlite::store::QueueError::Duplicate)));
    assert_eq!(s.get_all_queue_messages("q").unwrap().len(), 2);

    let dels = s
        .delete_messages_batch(vec!["b1".to_string(), "missing".to_string()], 2000)
        .unwrap();
    assert_eq!(dels.len(), 2);
    assert_eq!(dels[0].as_ref().ok(), Some(&true));
    assert_eq!(dels[1].as_ref().ok(), Some(&false));
}

#[test]
fn batch_receive_caps_at_ten() {
    let mut s = QueueService::new();
    s.create_queue("q", 1000).unwrap();
    for i in 0..12u64 {
        s.send_message("q", &format!("m{}", i), None, None, 1000 + i).unwrap();
    }
    let got = s.receive_messages_batch("q", 50, 5000).unwrap();
    assert_eq!(got.len(), 10);
    let rest = s.receive_messages_batch("q", 50, 5001).unwrap();
    assert_eq!(rest.len(), 2);
}

#[test]
fn standard_queue_delivers_oldest_first() {
    let mut s = QueueService::new();
    s.create_queue("q", 1000).unwrap();
    s.send_message("q", "newer", None, None, 5000).unwrap();
    s.send_message("q", "older", None, None, 2000).unwrap();
    let first = s.receive_message("q", 10_000).unwrap().unwrap();
    assert_eq!(first.body, "older");
    let second = s.receive_message("q", 10_001).unwrap().unwrap();
    assert_eq!(second.body, "newer");
}

#[test]
fn purge_dlq_counts_removed_records() {
    let mut s = QueueService::new();
    let mut cfg = QueueConfig::new("q".to_string(), false);
    cfg.max_receive_count = Some(1);
    cfg.dead_letter_target_arn = Some("dlq".to_string());
    s.create_queue_with_config(cfg, 1000).unwrap();
    s.send_message("q", "a", None, None, 1000).unwrap();
    s.send_message("q", "b", None, None, 1001).unwrap();
    for t in [2000u64, 40_000, 80_000] {
        s.cleanup_expired_messages(&keep_forever(), t).unwrap();
        while s.receive_message("q", t + 100).unwrap().is_some() {}
    }
    assert_eq!(s.get_dlq_messages("dlq").unwrap().len(), 2);
    assert_eq!(s.purge_dlq("dlq").unwrap(), 2);
    assert_eq!(s.get_dlq_messages("dlq").unwrap().len(), 0);
}

#[test]
fn cron_expression_buckets() {
    assert_eq!(cleanup_cron_expression(1), "0 * * * * *");
    assert_eq!(cleanup_cron_expression(59), "0 * * * * *");
    assert_eq!(cleanup_cron_expression(120), "0 */2 * * * *");
    assert_eq!(cleanup_cron_expression(3599), "0 */59 * * * *");
    assert_eq!(cleanup_cron_expression(3600), "0 0 */1 * * *");
    assert_eq!(cleanup_cron_expression(7200), "0 0 */2 * * *");
}

#[test]
fn queue_listing_is_name_ordered() {
    let mut s = QueueService::new();
    for name in ["zebra", "alpha", "mike"] {
        s.create_queue(name, 1000).unwrap();
    }
    let names: Vec<String> = s.list_queues().into_iter().map(|(n, _)| n).collect();
    assert_eq!(names, vec!["alpha", "mike", "zebra"]);
}

#[test]
fn message_builders_and_readiness() {
    let m = qlite::message::Message::new(
        "id-1".to_string(),
        "q".to_string(),
        "body".to_string(),
        1000,
    );
    let m = m.with_delay_seconds(5, 1000);
    assert_eq!(m.delay_until, Some(6000));
    assert!(!m.is_ready_for_delivery(5999));
    assert!(m.is_ready_for_delivery(6000));
    let m = m.with_deduplication_id("d".to_string()).with_message_group_id("g".to_string());
    assert_eq!(m.deduplication_id.as_deref(), Some("d"));
    assert_eq!(m.message_group_id.as_deref(), Some("g"));

    let q = qlite::message::Queue::new("orders.fifo".to_string(), 1000);
    assert!(q.is_fifo);
    let attrs = vec![
        ("ContentBasedDeduplication".to_string(), "true".to_string()),
        ("VisibilityTimeout".to_string(), "45".to_string()),
        ("MaxReceiveCount".to_string(), "7".to_string()),
    ];
    let q = q.with_attributes(&attrs);
    assert!(q.content_based_deduplication);
    assert_eq!(q.visibility_timeout_seconds, 45);
    assert_eq!(q.max_receive_count, Some(7));
}

#[test]
fn wire_attribute_parsing() {
    let params = vec![
        ("MessageAttribute.1.Name".to_string(), "author".to_string()),
        ("MessageAttribute.1.Value.StringValue".to_string(), "ada".to_string()),
        ("MessageAttribute.1.Value.DataType".to_string(), "String".to_string()),
        ("MessageAttribute.2.Name".to_string(), "prio".to_string()),
        ("MessageAttribute.2.Value.StringValue".to_string(), "7".to_string()),
        ("MessageAttribute.2.Value.DataType".to_string(), "Number".to_string()),
    ];
    let parsed = qlite::message::parse_message_attributes(&params).expect("two attributes");
    assert_eq!(parsed.len(), 2);
    assert_eq!(parsed[0].0, "author");
    assert_eq!(parsed[0].1.string_value.as_deref(), Some("ada"));
    assert_eq!(parsed[1].0, "prio");
    assert_eq!(parsed[1].1.data_type, "Number");

    let empty: Vec<(String, String)> = Vec::new();
    assert!(qlite::message::parse_message_attributes(&empty).is_none());
}

#[test]
fn dashboard_totals() {
    let queues = vec![
        qlite::ui::QueueInfo {
            name: "a".to_string(),
            created_at: 1,
            available_messages: 2,
            in_flight_messages: 1,
        },
        qlite::ui::QueueInfo {
            name: "b".to_string(),
            created_at: 2,
            available_messages: 3,
            in_flight_messages: 4,
        },
    ];
    let d = qlite::ui::build_dashboard(queues);
    assert_eq!(d.total_queues, 2);
    assert_eq!(d.total_available_messages, 5);
    assert_eq!(d.total_in_flight_messages, 5);
    assert_eq!(d.total_messages, 10);
}

#[test]
fn dlq_entry_carries_count_and_reason() {
    let mut s = QueueService::new();
    let mut cfg = QueueConfig::new("q".to_string(), false);
    cfg.max_receive_count = Some(1);
    cfg.dead_letter_target_arn = Some("arn:x/dlq".to_string());
    s.create_queue_with_config(cfg, 1000).unwrap();
    s.send_message("q", "m", None, None, 1000).unwrap();
    assert!(s.receive_message("q", 2000).unwrap().is_some());
    s.cleanup_expired_messages(&keep_forever(), 40_000).unwrap();
    assert!(s.receive_message("q", 41_000).unwrap().is_none());
    let dlq = s.get_dlq_messages("dlq").unwrap();
    assert_eq!(dlq.len(), 1);
    assert_eq!(dlq[0].receive_count, 2);
    assert!(!dlq[0].failure_reason.is_empty());
    assert!(matches!(
        s.get_all_queue_messages("q").unwrap().first().map(|m| m.status),
        None
    ));
}
