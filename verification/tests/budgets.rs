//! Breaker, resource locks, context and configuration.

use edge_agent_core::breaker::Breaker;
use edge_agent_core::config::{BackendConfig, Config};
use edge_agent_core::context::Context;
use edge_agent_core::lock::ResourceLocks;

#[test]
fn trips_on_failures_and_repeats() {
    let mut b = Breaker::new(2, 3);
    b.record_failure();
    assert!(!b.is_open());
    b.record_failure();
    assert!(b.is_open());

    let mut b = Breaker::new(5, 3);
    assert!(!b.record_action(42));
    assert!(!b.record_action(42));
    assert!(b.record_action(42));
    assert!(b.is_open());
}

#[test]
fn success_resets_failure_counter() {
    let mut b = Breaker::new(3, 3);
    b.record_failure();
    b.record_failure();
    assert!(!b.is_open());
    // Success clears the failure counter
    b.record_success();
    assert!(!b.is_open());
    // Now one more failure shouldn't trip it (needs 3 consecutive)
    b.record_failure();
    assert!(!b.is_open());
}

#[test]
fn different_action_resets_repeat_counter() {
    let mut b = Breaker::new(3, 3);
    assert!(!b.record_action(100));
    assert!(!b.record_action(100));
    // Action changed
    assert!(!b.record_action(200));
    // Needs 3 consecutive 200s to trip
    assert!(!b.record_action(200));
    assert!(b.record_action(200));
    assert!(b.is_open());
}

#[test]
fn manual_reset_clears_open_state() {
    let mut b = Breaker::new(2, 2);
    b.record_failure();
    b.record_failure();
    assert!(b.is_open());

    b.reset();
    assert!(!b.is_open());
}

#[test]
fn success_closes_an_open_breaker() {
    let mut b = Breaker::new(1, 3);
    b.record_failure();
    assert!(b.is_open());
    b.record_success();
    assert!(!b.is_open());
}

#[test]
fn reset_forgets_the_last_action() {
    let mut b = Breaker::new(3, 2);
    assert!(!b.record_action(7));
    b.reset();
    assert!(!b.record_action(7));
    assert!(b.record_action(7));
}

#[test]
fn default_config_values() {
    let cfg = Config::default();
    assert_eq!(cfg.context_max_bytes, 64 * 1024);
    assert_eq!(cfg.max_format_retries, 2);
    assert_eq!(cfg.breaker_max_failures, 3);
    assert_eq!(cfg.breaker_max_repeats, 3);
    assert_eq!(cfg.plugin_fuel, 50_000_000);
    assert_eq!(cfg.plugin_memory_limit, 16 * 1024 * 1024);
    assert_eq!(cfg.plugins_dir, "plugins");
    assert!(!cfg.dev_allow_unsigned);
    assert!(matches!(cfg.backend, BackendConfig::Mock));
}

#[test]
fn default_config_trusts_nobody() {
    let cfg = Config::default();
    assert_eq!(cfg.plugin_max_failures, 3);
    assert!(cfg.trusted_pubkey.is_none());
    assert!(cfg.repair_plugin.is_none());
}

#[test]
fn drops_oldest_when_over_budget() {
    let mut ctx = Context::new(40);
    ctx.push("user", "aaaaaaaaaa"); // 4 + 10
    ctx.push("user", "bbbbbbbbbb");
    ctx.push("user", "cccccccccc"); // 42 bytes total -> oldest dropped
    let all: Vec<_> = ctx.entries().iter().map(|e| e.content.as_str()).collect();
    assert_eq!(all, vec!["bbbbbbbbbb", "cccccccccc"]);
    assert!(ctx.byte_len() <= 40);
}

#[test]
fn single_entry_oversized_truncation() {
    let mut ctx = Context::new(20);
    // "user" is 4 bytes. 20 - 4 = 16 bytes max for content.
    ctx.push("user", "0123456789abcdefghijklmn");
    assert_eq!(ctx.entries().iter().count(), 1);
    let first = ctx.entries().iter().next().unwrap();
    assert_eq!(first.role, "user");
    assert_eq!(first.content, "0123456789abcdef");
    assert_eq!(ctx.byte_len(), 20);
}

#[test]
fn utf8_multibyte_boundary_truncation() {
    let mut ctx = Context::new(10);
    // "user" is 4 bytes. budget for content is 6 bytes.
    // Each Chinese character "中" is 3 bytes (UTF-8).
    // "中文测试" = 12 bytes. 6 bytes = 2 characters "中文".
    ctx.push("user", "中文测试");
    let first = ctx.entries().iter().next().unwrap();
    assert_eq!(first.content, "中文");
    assert_eq!(ctx.byte_len(), 10);

    // Test non-aligned budget: 11 bytes total -> 7 bytes for content -> 2 chars (6 bytes)
    let mut ctx2 = Context::new(11);
    ctx2.push("user", "中文测试");
    let first2 = ctx2.entries().iter().next().unwrap();
    assert_eq!(first2.content, "中文");
    assert_eq!(ctx2.byte_len(), 10);
}

#[test]
fn empty_context() {
    let ctx = Context::new(100);
    assert_eq!(ctx.byte_len(), 0);
    assert_eq!(ctx.entries().iter().count(), 0);
}

#[test]
fn budget_too_small_for_a_role_keeps_nothing() {
    let mut ctx = Context::new(10);
    ctx.push("user", "hi");
    ctx.push("a-role-of-more-bytes", "x");
    assert_eq!(ctx.byte_len(), 0);
    assert!(ctx.entries().is_empty());

    let mut exact = Context::new(4);
    exact.push("user", "gone");
    assert_eq!(exact.entries().len(), 1);
    assert_eq!(exact.entries()[0].content, "");
}

#[test]
fn nothing_is_dropped_while_it_fits() {
    let mut ctx = Context::new(12);
    ctx.push("user", "ab");
    ctx.push("user", "cd");
    assert_eq!(ctx.entries().len(), 2);
    assert_eq!(ctx.byte_len(), 12);
}

#[test]
fn single_resource_acquire_and_release() {
    let mut locks = ResourceLocks::default();
    let res = vec!["device:camera".to_string()];

    assert!(locks.acquire_all(1, &res).is_ok());
    // Task 2 fails while Task 1 holds it
    assert_eq!(locks.acquire_all(2, &res), Err("device:camera".to_string()));

    // Release Task 1
    locks.release_task(1);
    // Now Task 2 can acquire
    assert!(locks.acquire_all(2, &res).is_ok());
}

#[test]
fn all_or_nothing_atomicity() {
    let mut locks = ResourceLocks::default();
    // Task 1 holds motor_a
    assert!(locks
        .acquire_all(1, &["device:motor_a".to_string()])
        .is_ok());

    // Task 2 tries to acquire motor_b AND motor_a
    let task2_req = vec!["device:motor_b".to_string(), "device:motor_a".to_string()];
    let err = locks.acquire_all(2, &task2_req);
    assert_eq!(err, Err("device:motor_a".to_string()));

    // Ensure motor_b was NOT acquired by Task 2
    let task3_req = vec!["device:motor_b".to_string()];
    assert!(locks.acquire_all(3, &task3_req).is_ok());
}

#[test]
fn same_task_reacquire() {
    let mut locks = ResourceLocks::default();
    let res = vec!["device:relay".to_string()];
    assert!(locks.acquire_all(1, &res).is_ok());
    // Same task acquiring the same resource again should succeed
    assert!(locks.acquire_all(1, &res).is_ok());
}

#[test]
fn release_only_affects_target_task() {
    let mut locks = ResourceLocks::default();
    assert!(locks.acquire_all(1, &["res1".to_string()]).is_ok());
    assert!(locks.acquire_all(2, &["res2".to_string()]).is_ok());

    locks.release_task(1);

    // res1 is free
    assert!(locks.acquire_all(3, &["res1".to_string()]).is_ok());
    // res2 is still held by task 2
    assert_eq!(locks.acquire_all(3, &["res2".to_string()]), Err("res2".to_string()));
}
