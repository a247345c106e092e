//! SQL strings for `/top`, kept together so each view's query is easy to
//! find, review and version-gate. Queries follow a lower-case-keyword
//! style.

use vstd::prelude::*;

verus! {

/// Server summary used in the header bar.
///
/// Returns a single row mixing per-cluster facts (uptime, recovery,
/// `max_connections`), per-database aggregates (`deadlocks`, `temp_files` —
/// summed across every database the cluster knows about), and per-session
/// aggregates from `pg_stat_activity` (active / idle-in-tx / wait counts,
/// longest active transaction, longest active query). Excludes the
/// monitoring backend itself so the active count is not inflated.
pub const SUMMARY_SQL: &'static str = r"
    select
        current_database()                                          as db_name,
        current_user                                                as usename,
        substring(version() from '[0-9]+\.[0-9]+')                  as pg_version,
        extract(
            epoch from (now() - pg_postmaster_start_time())
        )::bigint                                                   as uptime_secs,
        pg_is_in_recovery()                                         as in_recovery,
        coalesce(sum(case when state = 'active' then 1 else 0 end), 0)::int
                                                                    as active,
        coalesce(sum(case
            when state in ('idle in transaction',
                           'idle in transaction (aborted)') then 1 else 0 end), 0)::int
                                                                    as idle_in_tx,
        coalesce(sum(case
            when wait_event is not null and state = 'active' then 1 else 0 end), 0)::int
                                                                    as waiting,
        count(*)::int                                               as total_backends,
        current_setting('max_connections')::int                     as max_connections,
        coalesce(
            extract(epoch from (now() - min(xact_start)))::float8,
            0::float8
        )                                                           as longest_xact_secs,
        coalesce(
            extract(epoch from (
                now() - min(query_start) filter (where state = 'active')
            ))::float8,
            0::float8
        )                                                           as longest_active_query_secs,
        (select coalesce(sum(deadlocks), 0)::int8 from pg_stat_database)
                                                                    as deadlocks_total,
        (select coalesce(sum(temp_files), 0)::int8 from pg_stat_database)
                                                                    as temp_files_total,
        coalesce(
            sum(case when backend_type = 'autovacuum worker' then 1 else 0 end),
            0
        )::int                                                      as autovacuum_busy,
        current_setting('autovacuum_max_workers')::int              as autovacuum_max,
        (select coalesce(count(*), 0)::int from pg_replication_slots
            where slot_type = 'physical')                           as phys_slots,
        (select coalesce(count(*) filter (where active), 0)::int
            from pg_replication_slots where slot_type = 'physical') as phys_slots_active,
        (select coalesce(count(*), 0)::int from pg_replication_slots
            where slot_type = 'logical')                            as log_slots,
        (select coalesce(count(*) filter (where active), 0)::int
            from pg_replication_slots where slot_type = 'logical')  as log_slots_active
    from pg_stat_activity
    where pid <> pg_backend_pid()
";

/// Activity view body — one row per backend other than the monitor's own,
/// with a count of granted locks held per pid (left-joined from
/// `pg_locks`). Ordered with active backends first and longest-running
/// queries on top.
///
/// Portable across PG14–PG18: every column used here exists in PG14's
/// `pg_stat_activity`. `query_id` and `leader_pid` are left out until a
/// drill-down view needs them.
pub const ACTIVITY_SQL: &'static str = "
    with locks as (
        select pid, count(*)::bigint as n
        from pg_locks
        where granted
        group by pid
    )
    select
        a.pid,
        coalesce(a.usename, '')                                     as usename,
        coalesce(a.datname, '')                                     as datname,
        coalesce(a.application_name, '')                            as application_name,
        coalesce(a.client_addr::text, '')                           as client_addr,
        coalesce(a.backend_type, '')                                as backend_type,
        coalesce(a.state, '')                                       as state,
        coalesce(a.wait_event_type, '')                             as wait_event_type,
        coalesce(a.wait_event, '')                                  as wait_event,
        case
            when a.query_start is null then null
            else extract(epoch from (now() - a.query_start))::float8
        end                                                         as qtime_secs,
        case
            when a.xact_start is null then null
            else extract(epoch from (now() - a.xact_start))::float8
        end                                                         as xtime_secs,
        coalesce(left(a.query, 500), '')                            as query,
        coalesce(l.n, 0)::bigint                                    as locks_held
    from pg_stat_activity as a
    left join locks as l using (pid)
    where a.pid <> pg_backend_pid()
    order by
        case a.state when 'active' then 0 else 1 end,
        qtime_secs desc nulls last,
        a.pid
";

} // verus!
