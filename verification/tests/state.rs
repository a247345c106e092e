use rpg_top::sampler::TickResult;
use rpg_top::keys::{format_key_label, KeyCode, KeyEvent, KeyModifiers};
use rpg_top::state::{
    ActivityRow, App, KeyOverlay, KillMode, PromptKind, ServerSummary, Snapshot, SortColumn,
    TopView, DEFAULT_REFRESH_NANOS,
};
use rpg_top::state::{parse_refresh_nanos, PromptState};

fn snap_with(n: usize) -> Snapshot {
    Snapshot {
        ts: 1_700_000_000,
        server: ServerSummary {
            db_name: "prod".into(),
            user: "nik".into(),
            pg_version: "16.4".into(),
            ..Default::default()
        },
        rows: (0..n)
            .map(|i| ActivityRow {
                pid: 10_000 + i as i32,
                usename: "app".into(),
                datname: "prod".into(),
                state: "active".into(),
                query: format!("select {i}"),
                ..Default::default()
            })
            .collect(),
    }
}

fn key(code: KeyCode) -> KeyEvent {
    KeyEvent::new(code, KeyModifiers::none())
}

fn ctrl(c: char) -> KeyEvent {
    KeyEvent::new(KeyCode::Char(c), KeyModifiers::control())
}

fn snap_with_pid(pid: i32, query: &str) -> Snapshot {
    Snapshot {
        ts: 1,
        server: ServerSummary::default(),
        rows: vec![ActivityRow {
            pid,
            usename: "nik".into(),
            datname: "prod".into(),
            state: "active".into(),
            query: query.into(),
            ..Default::default()
        }],
    }
}

#[test]
fn new_app_has_empty_snapshot_and_zero_cursor() {
    let app = App::new();
    assert!(app.snapshot.is_none());
    assert_eq!(app.selected_row, 0);
    assert_eq!(app.row_count(), 0);
    assert!(!app.should_exit);
    assert_eq!(app.view, TopView::Activity);
    assert_eq!(app.refresh_nanos, DEFAULT_REFRESH_NANOS);
    assert!(!app.extended);
    assert!(app.prompt.is_none());
}

#[test]
fn q_esc_and_ctrl_c_request_exit() {
    for k in [key(KeyCode::Char('q')), key(KeyCode::Esc), ctrl('c')] {
        let mut app = App::new();
        assert!(app.handle_key(k, 10));
        assert!(app.should_exit);
    }
}

#[test]
fn cursor_navigation_clamps_to_bounds() {
    let mut app = App::new();
    app.set_snapshot(snap_with(5));

    app.handle_key(key(KeyCode::Down), 10);
    assert_eq!(app.selected_row, 1);
    for _ in 0..50 {
        app.handle_key(key(KeyCode::Down), 10);
    }
    assert_eq!(app.selected_row, 4);
    for _ in 0..50 {
        app.handle_key(key(KeyCode::Up), 10);
    }
    assert_eq!(app.selected_row, 0);

    app.handle_key(key(KeyCode::End), 10);
    assert_eq!(app.selected_row, 4);
    app.handle_key(key(KeyCode::Home), 10);
    assert_eq!(app.selected_row, 0);
}

#[test]
fn page_up_down_uses_provided_page_size() {
    let mut app = App::new();
    app.set_snapshot(snap_with(20));
    app.handle_key(key(KeyCode::PageDown), 7);
    assert_eq!(app.selected_row, 7);
    app.handle_key(key(KeyCode::PageDown), 7);
    assert_eq!(app.selected_row, 14);
    app.handle_key(key(KeyCode::PageUp), 5);
    assert_eq!(app.selected_row, 9);
}

#[test]
fn k_no_longer_aliases_cursor_up() {
    let mut app = App::new();
    app.set_snapshot(snap_with(3));
    app.handle_key(key(KeyCode::Down), 10);
    app.handle_key(key(KeyCode::Down), 10);
    assert_eq!(app.selected_row, 2);
    app.handle_key(key(KeyCode::Char('k')), 10);
    // Cursor unchanged; `k` opened a confirm prompt instead.
    assert_eq!(app.selected_row, 2);
    assert!(app.kill_confirm.is_some());
}

#[test]
fn snapshot_replace_clamps_cursor() {
    let mut app = App::new();
    app.set_snapshot(snap_with(10));
    app.handle_key(key(KeyCode::End), 10);
    assert_eq!(app.selected_row, 9);

    app.set_snapshot(snap_with(3));
    assert_eq!(app.selected_row, 2);

    app.set_snapshot(snap_with(0));
    assert_eq!(app.selected_row, 0);
}

#[test]
fn note_stale_increments_and_set_snapshot_clears() {
    let mut app = App::new();
    app.note_stale();
    app.note_stale();
    assert_eq!(app.stale_ticks, 2);
    app.set_snapshot(snap_with(1));
    assert_eq!(app.stale_ticks, 0);
    assert!(app.last_error.is_none());
}

#[test]
fn note_error_round_trip() {
    let mut app = App::new();
    app.note_error("boom".into());
    assert_eq!(app.last_error.as_deref(), Some("boom"));
}

#[test]
fn unknown_keys_are_no_ops() {
    let mut app = App::new();
    app.set_snapshot(snap_with(3));
    let exit = app.handle_key(key(KeyCode::Char('z')), 10);
    assert!(!exit);
    assert_eq!(app.selected_row, 0);
}

#[test]
fn view_label_is_user_visible_text() {
    assert_eq!(TopView::Activity.label(), "Activity");
}

#[test]
fn e_toggles_extended_columns() {
    let mut app = App::new();
    assert!(!app.extended);
    app.handle_key(key(KeyCode::Char('e')), 10);
    assert!(app.extended);
    app.handle_key(key(KeyCode::Char('e')), 10);
    assert!(!app.extended);
}

#[test]
fn s_opens_refresh_prompt_seeded_with_current_value() {
    let mut app = App::new();
    app.refresh_nanos = 1_000_000_000;
    app.handle_key(key(KeyCode::Char('s')), 10);
    let prompt = app.prompt.as_ref().expect("prompt opened");
    assert_eq!(prompt.kind, PromptKind::Refresh);
    assert_eq!(prompt.buffer, "1");

    // The fractional seed format keeps two decimals.
    app.prompt = None;
    app.refresh_nanos = 500_000_000;
    app.handle_key(key(KeyCode::Char('s')), 10);
    assert_eq!(app.prompt.as_ref().unwrap().buffer, "0.50");
}

#[test]
fn refresh_prompt_accepts_digits_and_dot() {
    let mut app = App::new();
    app.open_refresh_prompt();
    // Seed is "1"; clear it then type 0.25
    for _ in 0..3 {
        app.handle_key(key(KeyCode::Backspace), 10);
    }
    for c in "0.25".chars() {
        app.handle_key(key(KeyCode::Char(c)), 10);
    }
    assert_eq!(app.prompt.as_ref().unwrap().buffer, "0.25");

    // Letters are rejected.
    app.handle_key(key(KeyCode::Char('x')), 10);
    assert_eq!(app.prompt.as_ref().unwrap().buffer, "0.25");

    app.handle_key(key(KeyCode::Enter), 10);
    assert!(app.prompt.is_none());
    assert_eq!(app.refresh_nanos, 250_000_000);
}

#[test]
fn refresh_prompt_clamps_out_of_range_input() {
    let mut app = App::new();
    let original = app.refresh_nanos;
    app.open_refresh_prompt();
    for _ in 0..app.prompt.as_ref().unwrap().buffer.len() {
        app.handle_key(key(KeyCode::Backspace), 10);
    }
    for c in "999".chars() {
        app.handle_key(key(KeyCode::Char(c)), 10);
    }
    app.handle_key(key(KeyCode::Enter), 10);
    // 999 > MAX → ignored.
    assert_eq!(app.refresh_nanos, original);
}

#[test]
fn esc_cancels_prompt_without_changing_setting() {
    let mut app = App::new();
    let original = app.refresh_nanos;
    app.open_refresh_prompt();
    for c in "0.5".chars() {
        app.handle_key(key(KeyCode::Char(c)), 10);
    }
    // Esc closes the prompt without applying.
    assert!(!app.handle_key(key(KeyCode::Esc), 10));
    assert!(app.prompt.is_none());
    assert_eq!(app.refresh_nanos, original);
    // First Esc closed the prompt; second Esc exits.
    assert!(app.handle_key(key(KeyCode::Esc), 10));
}

#[test]
fn exit_keys_swallowed_while_prompt_open() {
    let mut app = App::new();
    app.open_refresh_prompt();
    let exit = app.handle_key(key(KeyCode::Char('q')), 10);
    assert!(!exit);
    assert!(app.prompt.is_some());
}

#[test]
fn default_sort_is_qtime_descending() {
    let app = App::new();
    assert_eq!(app.sort_column, SortColumn::Qtime);
    assert!(app.sort_desc);
}

#[test]
fn gt_advances_sort_column_lt_rewinds() {
    let mut app = App::new();
    // Default = Qtime; > goes to Xtime.
    app.handle_key(key(KeyCode::Char('>')), 10);
    assert_eq!(app.sort_column, SortColumn::Xtime);
    app.handle_key(key(KeyCode::Char('>')), 10);
    assert_eq!(app.sort_column, SortColumn::Locks);
    app.handle_key(key(KeyCode::Char('<')), 10);
    assert_eq!(app.sort_column, SortColumn::Xtime);
}

#[test]
fn sort_cycler_wraps_around() {
    let mut app = App::new();
    app.sort_column = SortColumn::Pid;
    app.handle_key(key(KeyCode::Char('<')), 10);
    assert_eq!(app.sort_column, SortColumn::Query);
    app.handle_key(key(KeyCode::Char('>')), 10);
    assert_eq!(app.sort_column, SortColumn::Pid);
}

#[test]
fn r_toggles_direction_only() {
    let mut app = App::new();
    let col = app.sort_column;
    let was_desc = app.sort_desc;
    app.handle_key(key(KeyCode::Char('r')), 10);
    assert_eq!(app.sort_column, col);
    assert_eq!(app.sort_desc, !was_desc);
}

#[test]
fn k_opens_cancel_confirmation_with_selected_row_data() {
    let mut app = App::new();
    app.set_snapshot(snap_with_pid(1234, "select pg_sleep(60)"));
    app.handle_key(key(KeyCode::Char('k')), 10);
    let req = app.kill_confirm.as_ref().expect("k opens confirm");
    assert_eq!(req.mode, KillMode::Cancel);
    assert_eq!(req.pid, 1234);
    assert_eq!(req.usename, "nik");
    assert!(req.query_summary.starts_with("select pg_sleep"));
}

#[test]
fn shift_k_opens_terminate_confirmation() {
    let mut app = App::new();
    app.set_snapshot(snap_with_pid(1234, "select 1"));
    app.handle_key(key(KeyCode::Char('K')), 10);
    let req = app.kill_confirm.as_ref().expect("K opens confirm");
    assert_eq!(req.mode, KillMode::Terminate);
}

#[test]
fn k_is_a_no_op_with_no_rows() {
    let mut app = App::new();
    app.handle_key(key(KeyCode::Char('k')), 10);
    assert!(app.kill_confirm.is_none());
}

#[test]
fn k_is_a_no_op_for_zero_pid_rows() {
    let mut app = App::new();
    let mut snap = snap_with_pid(0, "(no query)");
    snap.rows[0].state.clear();
    app.set_snapshot(snap);
    app.handle_key(key(KeyCode::Char('k')), 10);
    assert!(app.kill_confirm.is_none());
}

#[test]
fn k_is_a_no_op_for_negative_pid_rows() {
    let mut app = App::new();
    app.set_snapshot(snap_with_pid(-1, "(no query)"));
    app.handle_key(key(KeyCode::Char('k')), 10);
    assert!(app.kill_confirm.is_none());
}

#[test]
fn y_promotes_confirm_to_pending() {
    let mut app = App::new();
    app.set_snapshot(snap_with_pid(1234, "select 1"));
    app.handle_key(key(KeyCode::Char('k')), 10);
    assert!(app.kill_confirm.is_some());

    app.handle_key(key(KeyCode::Char('y')), 10);
    assert!(app.kill_confirm.is_none(), "confirm consumed");
    let pending = app.kill_pending.as_ref().expect("pending set");
    assert_eq!(pending.pid, 1234);
    assert_eq!(pending.mode, KillMode::Cancel);
}

#[test]
fn n_and_esc_cancel_kill_confirmation_without_firing() {
    for cancel_key in [KeyCode::Char('n'), KeyCode::Char('N'), KeyCode::Esc] {
        let mut app = App::new();
        app.set_snapshot(snap_with_pid(1234, "select 1"));
        app.handle_key(key(KeyCode::Char('K')), 10);
        assert!(app.kill_confirm.is_some());
        app.handle_key(key(cancel_key), 10);
        assert!(app.kill_confirm.is_none());
        assert!(app.kill_pending.is_none());
        assert!(
            !app.should_exit,
            "Esc must not exit while kill prompt is open"
        );
    }
}

#[test]
fn k_targets_the_sorted_row_not_the_sql_row() {
    let mut app = App::new();
    let snap = Snapshot {
        ts: 1,
        server: ServerSummary::default(),
        rows: vec![
            ActivityRow {
                pid: 7777,
                usename: "nik".into(),
                datname: "prod".into(),
                state: "active".into(),
                query: "select pg_sleep(60)".into(),
                ..Default::default()
            },
            ActivityRow {
                pid: 1111,
                usename: "nik".into(),
                datname: "prod".into(),
                state: "active".into(),
                query: "select 1".into(),
                ..Default::default()
            },
        ],
    };
    app.set_snapshot(snap);
    // Sort by Pid ascending: the sorted rows are [1111, 7777].
    app.sort_column = SortColumn::Pid;
    app.sort_desc = false;
    // Cursor on the second row of the sorted rows → pid 7777.
    app.selected_row = 1;
    app.handle_key(key(KeyCode::Char('k')), 10);
    let req = app
        .kill_confirm
        .as_ref()
        .expect("k must open the confirm prompt");
    assert_eq!(
        req.pid, 7777,
        "kill confirm must target the sorted-slice row at selected_row, \
         not snap.rows[selected_row]"
    );
}

#[test]
fn k_targets_sorted_row_under_qtime_sort() {
    let mut app = App::new();
    let snap = Snapshot {
        ts: 1,
        server: ServerSummary::default(),
        rows: vec![
            ActivityRow {
                pid: 100,
                usename: "a".into(),
                datname: "d".into(),
                state: "active".into(),
                qtime_micros: Some(1_000_000),
                ..Default::default()
            },
            ActivityRow {
                pid: 999,
                usename: "b".into(),
                datname: "d".into(),
                state: "active".into(),
                qtime_micros: Some(60_000_000),
                ..Default::default()
            },
        ],
    };
    app.set_snapshot(snap);
    app.sort_column = SortColumn::Qtime;
    app.sort_desc = true; // sorted: [999 (60s), 100 (1s)]
    app.selected_row = 0; // cursor on the 60s row → pid 999
    app.handle_key(key(KeyCode::Char('k')), 10);
    let req = app.kill_confirm.as_ref().expect("k must open confirm");
    assert_eq!(req.pid, 999, "cursor must target Qtime-sorted row");
}

#[test]
fn page_down_saturates_at_last_row() {
    let mut app = App::new();
    app.set_snapshot(snap_with(3));
    app.handle_key(key(KeyCode::PageDown), 10);
    assert_eq!(
        app.selected_row, 2,
        "PageDown past end must saturate at last row"
    );
}

#[test]
fn sort_right_edge_wraps_from_query_to_pid() {
    let mut app = App::new();
    app.sort_column = SortColumn::Query;
    app.handle_key(key(KeyCode::Char('>')), 10);
    assert_eq!(
        app.sort_column,
        SortColumn::Pid,
        "> from last column must wrap to first"
    );
}

#[test]
fn set_snapshot_clears_last_error() {
    let mut app = App::new();
    app.note_error("connection lost".into());
    assert!(app.last_error.is_some());
    app.set_snapshot(snap_with(1));
    assert!(
        app.last_error.is_none(),
        "set_snapshot must clear last_error"
    );
}

#[test]
fn left_right_arrows_cycle_sort_column() {
    let mut app = App::new();
    let start = app.sort_column;
    app.handle_key(key(KeyCode::Right), 10);
    assert_ne!(app.sort_column, start);
    let after_right = app.sort_column;
    app.handle_key(key(KeyCode::Left), 10);
    assert_eq!(app.sort_column, start, "Left should rewind Right");
    app.handle_key(key(KeyCode::Left), 10);
    assert_ne!(app.sort_column, after_right);
}

#[test]
fn space_sets_force_refresh_flag() {
    let mut app = App::new();
    assert!(!app.force_refresh);
    app.handle_key(key(KeyCode::Char(' ')), 10);
    assert!(app.force_refresh);
}

#[test]
fn changing_column_resets_to_default_direction() {
    let mut app = App::new();
    // Start at Qtime desc, reverse via r → Qtime asc.
    app.handle_key(key(KeyCode::Char('r')), 10);
    assert!(!app.sort_desc);
    // Cycle to Xtime — desc by default.
    app.handle_key(key(KeyCode::Char('>')), 10);
    assert_eq!(app.sort_column, SortColumn::Xtime);
    assert!(app.sort_desc);
    // Cycle into User (textual default → asc).
    for _ in 0..5 {
        app.handle_key(key(KeyCode::Char('<')), 10);
    }
    assert_eq!(app.sort_column, SortColumn::User);
    assert!(!app.sort_desc);
}

#[test]
fn pressing_a_key_seeds_the_overlay_with_its_label() {
    let mut app = App::new();
    app.show_keys = true;
    app.handle_key(key(KeyCode::Down), 10);
    let ko = app
        .fresh_key_overlay()
        .expect("overlay should be set after a keypress");
    assert_eq!(ko.label, "↓");

    app.handle_key(key(KeyCode::Char('e')), 10);
    assert_eq!(app.fresh_key_overlay().unwrap().label, "e");

    app.handle_key(key(KeyCode::Char('<')), 10);
    assert_eq!(app.fresh_key_overlay().unwrap().label, "<");
}

#[test]
fn key_overlay_is_suppressed_inside_prompt() {
    let mut app = App::new();
    app.show_keys = true;
    app.open_refresh_prompt();
    app.handle_key(key(KeyCode::Char('5')), 10);
    assert!(app.fresh_key_overlay().is_none());
}

#[test]
fn modifier_keys_get_compact_prefixes() {
    let make = |code: KeyCode, mods: KeyModifiers| KeyEvent::new(code, mods);

    assert_eq!(
        format_key_label(&make(KeyCode::Char('c'), KeyModifiers::control())),
        "C-c"
    );
    assert_eq!(
        format_key_label(&make(KeyCode::Char('x'), KeyModifiers::alt())),
        "M-x"
    );
    assert_eq!(
        format_key_label(&make(
            KeyCode::Char('k'),
            KeyModifiers { control: true, alt: true, ..KeyModifiers::none() }
        )),
        "C-M-k"
    );
    // Shift on a printable arrives as the upper-cased char itself.
    assert_eq!(
        format_key_label(&make(KeyCode::Char('K'), KeyModifiers::shift())),
        "K"
    );
    // BackTab is the canonical Shift-Tab and gets an explicit ⇧Tab.
    assert_eq!(
        format_key_label(&make(KeyCode::BackTab, KeyModifiers::shift())),
        "⇧Tab"
    );
}

#[test]
fn key_overlay_off_by_default() {
    let mut app = App::new();
    app.handle_key(key(KeyCode::Char('e')), 10);
    assert!(
        app.fresh_key_overlay().is_none(),
        "key overlay must default to off"
    );
}

#[test]
fn fresh_key_overlay_expires_after_ttl() {
    let mut app = App::new();
    app.show_keys = true;
    app.handle_key(key(KeyCode::Char('e')), 10);
    assert!(app.fresh_key_overlay().is_some());

    let ko = app.last_key.as_mut().unwrap();
    ko.expires_at = std::time::Instant::now()
        .checked_sub(std::time::Duration::from_millis(1))
        .expect("clock has advanced past 1 ms since boot");
    assert!(app.fresh_key_overlay().is_none());
}

#[test]
fn key_overlay_at_shows_until_expiry() {
    let mut app = App::new();
    let start = std::time::Instant::now();
    assert!(app.key_overlay_at(&start).is_none());
    app.last_key = Some(KeyOverlay {
        label: "q".to_string(),
        expires_at: start + std::time::Duration::from_millis(1_200),
    });
    assert_eq!(app.key_overlay_at(&start).unwrap().label, "q");
    let just_before = start + std::time::Duration::from_millis(1_199);
    assert!(app.key_overlay_at(&just_before).is_some());
    let at_expiry = start + std::time::Duration::from_millis(1_200);
    assert!(app.key_overlay_at(&at_expiry).is_none());
    let later = start + std::time::Duration::from_secs(5);
    assert!(app.key_overlay_at(&later).is_none());
}

#[test]
fn unlabelled_keys_leave_overlay_alone() {
    let mut app = App::new();
    app.show_keys = true;
    app.handle_key(key(KeyCode::Other), 10);
    assert!(app.last_key.is_none());
    assert_eq!(format_key_label(&key(KeyCode::Other)), "");
    assert_eq!(
        format_key_label(&KeyEvent::new(
            KeyCode::Other,
            KeyModifiers::control()
        )),
        ""
    );
}

#[test]
fn kill_summary_collapses_and_cuts_long_queries() {
    let mut app = App::new();
    let long = format!("select\n  {}", "x, ".repeat(40));
    app.set_snapshot(snap_with_pid(42, &long));
    app.handle_key(key(KeyCode::Char('k')), 10);
    let req = app.kill_confirm.as_ref().expect("confirm opened");
    assert_eq!(req.query_summary.chars().count(), 60);
    assert!(req.query_summary.ends_with('…'));
    assert!(req.query_summary.starts_with("select x, x,"));
    assert_eq!(req.pg_function_for_request(), "pg_cancel_backend");
    assert_eq!(KillMode::Terminate.pg_function(), "pg_terminate_backend");
    assert_eq!(KillMode::Terminate.verb_upper(), "TERMINATE");
}

#[test]
fn prompt_rejects_eleventh_character_and_bad_numbers() {
    let mut app = App::new();
    app.open_refresh_prompt();
    app.handle_key(key(KeyCode::Backspace), 10);
    for c in "12345678901".chars() {
        app.handle_key(key(KeyCode::Char(c)), 10);
    }
    assert_eq!(app.prompt.as_ref().unwrap().buffer, "1234567890");

    // Two dots do not parse: the prompt closes, the interval stays.
    app.prompt.as_mut().unwrap().buffer = "1.2.3".into();
    app.handle_key(key(KeyCode::Enter), 10);
    assert!(app.prompt.is_none());
    assert_eq!(app.refresh_nanos, DEFAULT_REFRESH_NANOS);
}

#[test]
fn refresh_limits_are_inclusive() {
    for (text, expect) in [
        ("0.1", 100_000_000u64),
        ("60", 60_000_000_000),
        ("60.000", 60_000_000_000),
        ("5.", 5_000_000_000),
        (".5", 500_000_000),
        ("0.123456789", 123_456_789),
    ] {
        let mut app = App::new();
        app.open_refresh_prompt();
        app.prompt.as_mut().unwrap().buffer = text.into();
        app.handle_key(key(KeyCode::Enter), 10);
        assert_eq!(app.refresh_nanos, expect, "text {text}");
    }
    for text in ["0.09", "60.001", "61", ".", "", "0"] {
        let mut app = App::new();
        app.open_refresh_prompt();
        app.prompt.as_mut().unwrap().buffer = text.into();
        app.handle_key(key(KeyCode::Enter), 10);
        assert_eq!(app.refresh_nanos, DEFAULT_REFRESH_NANOS, "text {text}");
    }
}

#[test]
fn refresh_seed_rounds_to_two_decimals() {
    let mut app = App::new();
    app.refresh_nanos = 12_345_000_000;
    app.open_refresh_prompt();
    assert_eq!(app.prompt.as_ref().unwrap().buffer, "12.34");
    app.refresh_nanos = 59_999_800_000;
    app.open_refresh_prompt();
    assert_eq!(app.prompt.as_ref().unwrap().buffer, "60");
}

#[test]
fn header_labels_and_defaults_per_column() {
    assert_eq!(SortColumn::Wait.header_label(), "wait");
    assert!(SortColumn::Pid.default_desc());
    assert!(!SortColumn::Query.default_desc());
    assert_eq!(PromptKind::Refresh.label(), "delay (secs)");
    assert_eq!(KillMode::Cancel.verb_upper(), "CANCEL");
}

#[test]
fn cycle_sort_by_large_steps_wraps() {
    let mut app = App::new();
    app.sort_column = SortColumn::Pid;
    app.cycle_sort(9);
    assert_eq!(app.sort_column, SortColumn::Pid);
    app.cycle_sort(-10);
    assert_eq!(app.sort_column, SortColumn::Query);
    app.cycle_sort(isize::MIN);
    assert_eq!(app.sort_column, SortColumn::Pid);
}

#[test]
fn apply_tick_maps_each_outcome() {
    let mut app = App::new();
    app.apply_tick(Ok(TickResult::Missed));
    assert_eq!(app.stale_ticks, 1);
    app.apply_tick(Err("connection lost".to_string()));
    assert_eq!(app.last_error.as_deref(), Some("connection lost"));
    assert_eq!(app.stale_ticks, 1);
    app.apply_tick(Ok(TickResult::Fresh(Box::new(snap_with(3)))));
    assert_eq!(app.stale_ticks, 0);
    assert!(app.last_error.is_none());
    assert_eq!(app.snapshot.as_ref().map(|s| s.rows.len()), Some(3));
}

#[test]
fn sort_steps_forward_then_back_return_to_start() {
    let mut app = App::new();
    let start = app.sort_column;
    for _ in 0..4 {
        app.handle_key(key(KeyCode::Char('>')), 10);
    }
    assert_ne!(app.sort_column, start);
    for _ in 0..4 {
        app.handle_key(key(KeyCode::Char('<')), 10);
    }
    assert_eq!(app.sort_column, start);
    for _ in 0..9 {
        app.handle_key(key(KeyCode::Char('<')), 10);
    }
    assert_eq!(app.sort_column, start);
}

#[test]
fn refresh_text_reads_numbers_as_float_parsing_does() {
    assert_eq!(parse_refresh_nanos("0.25"), Some(250_000_000));
    assert_eq!(parse_refresh_nanos("+2"), Some(2_000_000_000));
    assert_eq!(parse_refresh_nanos("1e1"), Some(10_000_000_000));
    assert_eq!(parse_refresh_nanos("1E+1"), Some(10_000_000_000));
    assert_eq!(parse_refresh_nanos("2.5e-1"), Some(250_000_000));
    assert_eq!(parse_refresh_nanos("6e1"), Some(60_000_000_000));
    assert_eq!(parse_refresh_nanos("0.006e4"), Some(60_000_000_000));
    assert_eq!(parse_refresh_nanos("000.5"), Some(500_000_000));
    assert_eq!(parse_refresh_nanos("1."), Some(1_000_000_000));
    assert_eq!(parse_refresh_nanos(".5"), Some(500_000_000));
    assert_eq!(parse_refresh_nanos("0.1"), Some(100_000_000));
    assert_eq!(parse_refresh_nanos("60"), Some(60_000_000_000));
    assert_eq!(parse_refresh_nanos("60.000"), Some(60_000_000_000));
    assert_eq!(parse_refresh_nanos("0.1234567891"), Some(123_456_789));
    assert_eq!(parse_refresh_nanos("100e-1"), Some(10_000_000_000));
}

#[test]
fn refresh_text_rejects_non_numbers_and_out_of_range() {
    for text in [
        "", ".", "1.2.3", "e1", "1e", "1e+", "+", "+-1", "1 ", " 1", "abc", "inf", "nan", "-1",
        "-0.5", "0", "0.0999", "60.0000001", "61", "1e2", "1e-2", "1e999999999999999999999999",
        "1e-999999999999999999999999", "0e5",
    ] {
        assert_eq!(parse_refresh_nanos(text), None, "{text:?}");
    }
}

#[test]
fn apply_prompt_accepts_signed_and_exponent_forms() {
    let mut app = App::new();
    app.prompt = Some(PromptState { kind: PromptKind::Refresh, buffer: "+2".to_string() });
    app.apply_prompt();
    assert!(app.prompt.is_none());
    assert_eq!(app.refresh_nanos, 2_000_000_000);
    app.prompt = Some(PromptState { kind: PromptKind::Refresh, buffer: "1e1".to_string() });
    app.apply_prompt();
    assert_eq!(app.refresh_nanos, 10_000_000_000);
    app.prompt = Some(PromptState { kind: PromptKind::Refresh, buffer: "1e9".to_string() });
    app.apply_prompt();
    assert_eq!(app.refresh_nanos, 10_000_000_000);
}

#[test]
fn sort_columns_listed_in_cycling_order() {
    let all = SortColumn::all();
    assert_eq!(
        all,
        vec![
            SortColumn::Pid,
            SortColumn::User,
            SortColumn::Db,
            SortColumn::State,
            SortColumn::Wait,
            SortColumn::Qtime,
            SortColumn::Xtime,
            SortColumn::Locks,
            SortColumn::Query,
        ]
    );
}

#[test]
fn key_overlay_clones_with_its_expiry() {
    let mut app = App::new();
    app.show_keys = true;
    app.handle_key(key(KeyCode::Char('e')), 10);
    let copy = app.last_key.clone().unwrap();
    let original = app.last_key.as_ref().unwrap();
    assert_eq!(copy.label, original.label);
    assert_eq!(copy.expires_at, original.expires_at);
    assert!(copy.expires_at > std::time::Instant::now());
}
