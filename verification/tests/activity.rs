use rpg_top::state::{ActivityRow, Snapshot, SortColumn};
use rpg_top::views::activity::{
    cell_roles, CellRole,
    format_locks, format_secs, format_wait_label, header_labels, is_sort_header, qtime_warn_color, sort_arrow,
    row_cells, row_count_caption, scrub_terminal_unsafe, short_backend_type, sorted_row_order,
    squash_query, state_color, table_is_extended, truncate, wait_color_for_row, QtimeStyle,
    StateStyle, WaitStyle,
};

#[test]
fn truncate_short_string_unchanged() {
    assert_eq!(truncate("abc", 10), "abc");
}

#[test]
fn truncate_long_string_appends_ellipsis() {
    let out = truncate("abcdefghij", 5);
    assert_eq!(out.chars().count(), 5);
    assert!(out.ends_with('…'));
}

#[test]
fn truncate_handles_unicode_correctly() {
    let out = truncate("αβγδεζ", 4);
    assert_eq!(out.chars().count(), 4);
    assert!(out.ends_with('…'));
}

#[test]
fn format_secs_uses_human_units() {
    assert_eq!(format_secs(None), "-");
    assert_eq!(format_secs(Some(45_000)), "45ms");
    assert_eq!(format_secs(Some(2_500_000)), "2.5s");
    assert_eq!(format_secs(Some(125_000_000)), "2m");
    assert_eq!(format_secs(Some(7_200_000_000)), "2h");
    assert_eq!(format_secs(Some(172_800_000_000)), "2d");
}

#[test]
fn format_locks_dash_when_zero() {
    assert_eq!(format_locks(0), "-");
    assert_eq!(format_locks(1), "1");
    assert_eq!(format_locks(42), "42");
}

#[test]
fn squash_query_collapses_whitespace() {
    let q = "select\n    *\nfrom\tt\n  where  x = 1";
    assert_eq!(squash_query(q), "select * from t where x = 1");
}

#[test]
fn row_count_caption_handles_no_snapshot() {
    assert_eq!(row_count_caption(None), "(loading)");
    let s = Snapshot::default();
    assert_eq!(row_count_caption(Some(&s)), "(0 rows)");
}

#[test]
fn user_controllable_strings_strip_control_characters() {
    let raw = "victim\x1b[2J\x1b[31mPWNED\x07\x08\rback\nnewline\ttab";
    let scrubbed = scrub_terminal_unsafe(raw);
    for ch in ['\x1b', '\x07', '\x08', '\r', '\n', '\t'] {
        assert!(
            !scrubbed.contains(ch),
            "{ch:?} must be stripped: {scrubbed:?}"
        );
    }
    assert!(scrubbed.contains("victim"));
    assert!(scrubbed.contains("PWNED"));
}

#[test]
fn squash_query_strips_ansi_escapes() {
    let q = "select 1\x1b[2J\x1b[31m -- malicious";
    let out = squash_query(q);
    assert!(!out.contains('\x1b'));
    assert!(out.contains("select 1"));
}

#[test]
fn truncate_strips_ansi_escapes() {
    let out = truncate("user\x1b[2J", 10);
    assert!(!out.contains('\x1b'));
}

#[test]
fn wait_label_uses_colon_delimiter() {
    let row = ActivityRow {
        wait_event_type: "IO".into(),
        wait_event: "DataFileRead".into(),
        state: "active".into(),
        ..Default::default()
    };
    assert_eq!(format_wait_label(&row), "IO:DataFileRead");
}

#[test]
fn wait_label_empty_when_idle_and_no_event() {
    let row = ActivityRow {
        state: "idle".into(),
        ..Default::default()
    };
    assert_eq!(format_wait_label(&row), "");
}

#[test]
fn wait_label_cpu_star_when_active_and_no_event() {
    let row = ActivityRow {
        state: "active".into(),
        ..Default::default()
    };
    assert_eq!(format_wait_label(&row), "CPU*");
}

#[test]
fn wait_label_type_only_when_event_blank() {
    let row = ActivityRow {
        wait_event_type: "Lock".into(),
        ..Default::default()
    };
    assert_eq!(format_wait_label(&row), "Lock");
}

#[test]
fn wait_color_routes_pg_ash_palette() {
    let mk = |state: &str, wtype: &str| ActivityRow {
        state: state.into(),
        wait_event_type: wtype.into(),
        ..Default::default()
    };
    let cases = [
        ("active", "Lock", WaitStyle::Lock),
        ("active", "LWLock", WaitStyle::LwLock),
        ("active", "IO", WaitStyle::Io),
        ("active", "IPC", WaitStyle::Ipc),
        ("active", "Client", WaitStyle::Client),
        ("active", "Timeout", WaitStyle::Timeout),
        ("active", "BufferPin", WaitStyle::BufferPin),
        ("active", "Activity", WaitStyle::Activity),
        ("active", "Extension", WaitStyle::Extension),
        ("active", "", WaitStyle::Cpu),
    ];
    for (state, wtype, expected) in cases {
        let row = mk(state, wtype);
        assert_eq!(
            wait_color_for_row(&row),
            expected,
            "state={state} wtype={wtype}"
        );
    }

    // Idle in transaction always uses the IdleTx colour.
    let r = ActivityRow {
        state: "idle in transaction".into(),
        wait_event_type: "Client".into(),
        ..Default::default()
    };
    assert_eq!(
        wait_color_for_row(&r),
        WaitStyle::IdleTx,
        "idle-in-tx must use the IdleTx color, not the Client wait color"
    );
}

#[test]
fn scrub_keeps_printable_unicode_and_drops_c1() {
    assert_eq!(scrub_terminal_unsafe("héllo ✓"), "héllo ✓");
    assert_eq!(scrub_terminal_unsafe("a\u{85}b\u{9f}c\u{7f}d"), "abcd");
    assert_eq!(scrub_terminal_unsafe("a\u{FFFD}b"), "a\u{FFFD}b");
    assert_eq!(scrub_terminal_unsafe("a\tb"), "a b");
}

#[test]
fn truncate_to_zero_and_one() {
    assert_eq!(truncate("abc", 0), "…");
    assert_eq!(truncate("abc", 1), "…");
    assert_eq!(truncate("abc", 3), "abc");
    assert_eq!(truncate("abcd", 3), "ab…");
}

#[test]
fn format_secs_edges_and_rounding() {
    assert_eq!(format_secs(Some(-1)), "-");
    assert_eq!(format_secs(Some(0)), "0ms");
    assert_eq!(format_secs(Some(999_999)), "1000ms");
    assert_eq!(format_secs(Some(1_000_000)), "1.0s");
    assert_eq!(format_secs(Some(2_250_000)), "2.2s");
    assert_eq!(format_secs(Some(2_350_000)), "2.4s");
    assert_eq!(format_secs(Some(90_000_000)), "2m");
    assert_eq!(format_secs(Some(150_000_000)), "2m");
    assert_eq!(format_secs(Some(86_400_000_000)), "1d");
}

#[test]
fn short_backend_type_compacts_names() {
    assert_eq!(short_backend_type("client backend"), "client");
    assert_eq!(short_backend_type("background writer"), "bg writer");
    assert_eq!(short_backend_type("autovacuum worker"), "autovacuum worker");
    assert_eq!(short_backend_type("parallel worker backend backend"), "parallel worker");
}

#[test]
fn state_and_qtime_roles() {
    assert_eq!(state_color("active"), StateStyle::Active);
    assert_eq!(state_color("idle in transaction (aborted)"), StateStyle::IdleInTx);
    assert_eq!(state_color("idle"), StateStyle::Idle);
    assert_eq!(state_color("fastpath function call"), StateStyle::Plain);
    assert_eq!(qtime_warn_color(None), QtimeStyle::Plain);
    assert_eq!(qtime_warn_color(Some(999_999)), QtimeStyle::Plain);
    assert_eq!(qtime_warn_color(Some(1_000_000)), QtimeStyle::Warn);
    assert_eq!(qtime_warn_color(Some(30_000_000)), QtimeStyle::Crit);
}

fn rows_for_sort() -> Vec<ActivityRow> {
    vec![
        ActivityRow { pid: 3, usename: "bob".into(), qtime_micros: None, ..Default::default() },
        ActivityRow { pid: 1, usename: "amy".into(), qtime_micros: Some(5), ..Default::default() },
        ActivityRow { pid: 2, usename: "bob".into(), qtime_micros: Some(9), ..Default::default() },
        ActivityRow { pid: 4, usename: "Zed".into(), qtime_micros: Some(5), ..Default::default() },
    ]
}

#[test]
fn sorting_is_stable_in_both_directions() {
    let rows = rows_for_sort();
    assert_eq!(sorted_row_order(&rows, SortColumn::Pid, false), vec![1, 2, 0, 3]);
    assert_eq!(sorted_row_order(&rows, SortColumn::Pid, true), vec![3, 0, 2, 1]);
    // Byte order: upper case sorts first; ties keep sampled order.
    assert_eq!(sorted_row_order(&rows, SortColumn::User, false), vec![3, 1, 0, 2]);
    assert_eq!(sorted_row_order(&rows, SortColumn::User, true), vec![0, 2, 1, 3]);
    // Absent elapsed times sort below present ones.
    assert_eq!(sorted_row_order(&rows, SortColumn::Qtime, true), vec![2, 1, 3, 0]);
    assert_eq!(sorted_row_order(&rows, SortColumn::Qtime, false), vec![0, 1, 3, 2]);
    assert_eq!(sorted_row_order(&Vec::new(), SortColumn::Wait, false), Vec::<usize>::new());
}

#[test]
fn cells_follow_layout() {
    let row = ActivityRow {
        pid: 12_345,
        usename: "application_user".into(),
        datname: "prod".into(),
        application_name: "web-1".into(),
        client_addr: "10.0.0.5".into(),
        backend_type: "client backend".into(),
        state: "idle in transaction".into(),
        wait_event_type: "Client".into(),
        wait_event: "ClientRead".into(),
        qtime_micros: Some(5_000_000),
        xtime_micros: None,
        query: "begin;\n  select 1".into(),
        locks_held: 3,
    };
    assert_eq!(
        row_cells(&row, false),
        vec!["12345", "applicati…", "prod", "idle in…", "Client:ClientRead", "5.0s", "-", "3", "begin; select 1"]
    );
    let wide = row_cells(&row, true);
    assert_eq!(wide.len(), 12);
    assert_eq!(&wide[3..6], &["web-1", "10.0.0.5", "client"]);
    assert_eq!(header_labels(false).len(), 9);
    assert_eq!(header_labels(true)[3], "app");
    assert!(table_is_extended(true, 120));
    assert!(!table_is_extended(true, 119));
    assert!(!table_is_extended(false, 200));
}

#[test]
fn sort_header_marker() {
    assert_eq!(sort_arrow(true), "▼");
    assert_eq!(sort_arrow(false), "▲");
    assert!(is_sort_header("qtime", SortColumn::Qtime));
    assert!(!is_sort_header("xtime", SortColumn::Qtime));
}

#[test]
fn cell_roles_line_up_with_row_cells() {
    let row = ActivityRow { pid: 7, state: "active".into(), ..Default::default() };
    for extended in [false, true] {
        let roles = cell_roles(extended);
        let cells = row_cells(&row, extended);
        assert_eq!(roles.len(), cells.len());
        let state_at = if extended { 6 } else { 3 };
        assert_eq!(cells[state_at], "active");
        assert_eq!(roles[state_at], CellRole::State);
        assert_eq!(roles[state_at + 1], CellRole::Wait);
        assert_eq!(roles[state_at + 2], CellRole::Qtime);
        assert_eq!(roles.iter().filter(|r| **r == CellRole::Plain).count(), cells.len() - 3);
    }
}
