use rpg_top::sql::{ACTIVITY_SQL, SUMMARY_SQL};

#[test]
fn summary_sql_mentions_required_columns() {
    for col in [
        "db_name",
        "usename",
        "pg_version",
        "uptime_secs",
        "in_recovery",
        "active",
        "idle_in_tx",
        "waiting",
        "total_backends",
        "max_connections",
        "longest_xact_secs",
        "longest_active_query_secs",
        "deadlocks_total",
        "temp_files_total",
        "autovacuum_busy",
        "autovacuum_max",
        "phys_slots",
        "phys_slots_active",
        "log_slots",
        "log_slots_active",
    ] {
        assert!(
            SUMMARY_SQL.contains(col),
            "summary SQL is missing column {col}"
        );
    }
}

#[test]
fn summary_sql_excludes_self_backend() {
    assert!(
        SUMMARY_SQL.contains("pid <> pg_backend_pid()"),
        "summary SQL must exclude the rpg monitor backend itself",
    );
}

#[test]
fn activity_sql_excludes_self_backend() {
    assert!(
        ACTIVITY_SQL.contains("pid <> pg_backend_pid()"),
        "activity SQL must exclude the rpg monitor backend itself"
    );
}

#[test]
fn activity_sql_orders_active_first_then_qtime_desc() {
    assert!(ACTIVITY_SQL.contains("case a.state when 'active' then 0 else 1 end"));
    assert!(ACTIVITY_SQL.contains("qtime_secs desc nulls last"));
}

#[test]
fn activity_sql_includes_locks_held_column() {
    assert!(
        ACTIVITY_SQL.contains("as locks_held"),
        "activity SQL must include the locks_held column",
    );
    assert!(
        ACTIVITY_SQL.contains("from pg_locks"),
        "locks_held must come from pg_locks",
    );
    assert!(
        ACTIVITY_SQL.contains("where granted"),
        "only granted locks should be counted",
    );
}

#[test]
fn elapsed_time_columns_cast_to_float8() {
    assert!(
        ACTIVITY_SQL.contains("(now() - a.query_start))::float8"),
        "qtime_secs must be cast to float8"
    );
    assert!(
        ACTIVITY_SQL.contains("(now() - a.xact_start))::float8"),
        "xtime_secs must be cast to float8"
    );
}
