use rpg_top::sampler::{nonneg_count, reset_timeout_sql, statement_timeout_sql, TickResult};
use rpg_top::state::Snapshot;

#[test]
fn tick_result_ok_carries_boxed_snapshot() {
    let snap = Snapshot::default();
    let r = TickResult::Fresh(Box::new(snap));
    match r {
        TickResult::Fresh(b) => assert_eq!(b.ts, 0),
        TickResult::Missed => panic!("expected Ok"),
    }
}

#[test]
fn tick_result_missed_signals_stale() {
    let r = TickResult::Missed;
    assert!(matches!(r, TickResult::Missed));
}

#[test]
fn negative_counts_read_as_zero() {
    assert_eq!(nonneg_count(-5), 0);
    assert_eq!(nonneg_count(0), 0);
    assert_eq!(nonneg_count(17), 17);
    assert_eq!(nonneg_count(i32::MAX), i32::MAX as u32);
}

#[test]
fn timeout_statements_follow_the_setting() {
    assert_eq!(statement_timeout_sql(0), None);
    assert_eq!(
        statement_timeout_sql(5_000).as_deref(),
        Some("set statement_timeout = '5000ms'")
    );
    assert_eq!(reset_timeout_sql(0), None);
    assert_eq!(reset_timeout_sql(1), Some("set statement_timeout = 0"));
}
