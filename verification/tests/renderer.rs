use rpg_top::renderer::{
    counts_spans, footer_error_text, format_uptime, page_size_for_height, recovery_label,
    summary_spans, terminal_too_small, truncate_err, HeaderSpan, SpanRole,
};
use rpg_top::state::{ActivityRow, App, ServerSummary, Snapshot};
use rpg_top::views::activity::{row_cells, table_is_extended};

fn sample_snapshot() -> Snapshot {
    Snapshot {
        ts: 1_700_000_000,
        server: ServerSummary {
            db_name: "prod".into(),
            user: "nik".into(),
            pg_version: "16.4".into(),
            uptime_secs: 3661,
            in_recovery: true,
            active: 3,
            idle_in_tx: 1,
            waiting: 2,
            total_backends: 12,
            ..Default::default()
        },
        rows: Vec::new(),
    }
}

fn flat(spans: &[HeaderSpan]) -> Vec<(SpanRole, String)> {
    spans.iter().map(|s| (s.role, s.text.clone())).collect()
}

#[test]
fn format_uptime_human_units() {
    assert_eq!(format_uptime(0), "0s");
    assert_eq!(format_uptime(45), "45s");
    assert_eq!(format_uptime(120), "2m");
    assert_eq!(format_uptime(3661), "1h01m");
    assert_eq!(format_uptime(90_000), "1d01h");
}

#[test]
fn format_uptime_negative_and_long() {
    assert_eq!(format_uptime(-5), "0s");
    assert_eq!(format_uptime(14 * 86_400 + 3 * 3600), "14d03h");
}

#[test]
fn truncate_err_flattens_and_cuts() {
    assert_eq!(truncate_err("connection\nlost\r", 40), "connection lost ");
    assert_eq!(truncate_err("abcdef", 4), "abc…");
    assert_eq!(footer_error_text("connection lost", 120), "connection lost");
    assert_eq!(footer_error_text("connection lost", 12), "con…");
    assert_eq!(footer_error_text("x", 3), "…");
}

#[test]
fn frame_size_rules() {
    assert!(terminal_too_small(60, 10));
    assert!(terminal_too_small(79, 30));
    assert!(terminal_too_small(120, 23));
    assert!(!terminal_too_small(80, 24));
    assert_eq!(page_size_for_height(30), 22);
    assert_eq!(page_size_for_height(9), 1);
    assert_eq!(page_size_for_height(0), 1);
}

#[test]
fn header_bits() {
    assert_eq!(recovery_label(true), "standby");
    assert_eq!(recovery_label(false), "primary");
}

#[test]
fn header_summary_spans() {
    let snap = sample_snapshot();
    let text: String = summary_spans(Some(&snap)).iter().map(|s| s.text.as_str()).collect();
    assert_eq!(
        text,
        "db prod  user nik  pg 16.4  standby  uptime 1h01m  as of T1700000000"
    );
    let spans = summary_spans(Some(&snap));
    assert_eq!(spans[0].role, SpanRole::Muted);
    assert_eq!(spans[1].role, SpanRole::Plain);
    assert_eq!(
        flat(&summary_spans(None)),
        vec![(SpanRole::Muted, "connecting…".to_string())]
    );
}

#[test]
fn header_counts_spans() {
    let snap = sample_snapshot();
    let fresh = counts_spans(Some(&snap), 0);
    assert_eq!(fresh[0].role, SpanRole::StatusOk);
    assert_eq!(fresh[0].text, "● ");
    let text: String = fresh.iter().map(|s| s.text.as_str()).collect();
    assert_eq!(text, "● active 3  idle-in-tx 1  wait 2  total 12");

    let stale = counts_spans(Some(&snap), 2);
    assert_eq!(stale[0].role, SpanRole::StatusStale);
    let last = stale.last().unwrap();
    assert_eq!((last.role, last.text.as_str()), (SpanRole::StatusStale, "  stale 2"));

    assert_eq!(
        flat(&counts_spans(None, 0)),
        vec![
            (SpanRole::StatusStale, "● ".to_string()),
            (SpanRole::Muted, "active –  idle-in-tx –  wait –  total –".to_string()),
        ]
    );
}

fn fixture_snapshot() -> Snapshot {
    Snapshot {
        ts: 1_700_000_000,
        server: ServerSummary {
            db_name: "prod".into(),
            user: "nik".into(),
            pg_version: "16.4".into(),
            uptime_secs: 14 * 86_400 + 3 * 3600,
            in_recovery: false,
            active: 17,
            idle_in_tx: 3,
            waiting: 2,
            total_backends: 22,
            ..Default::default()
        },
        rows: vec![ActivityRow {
            pid: 12_345,
            usename: "app".into(),
            datname: "prod".into(),
            application_name: "web-1".into(),
            client_addr: "10.0.0.5".into(),
            backend_type: "client backend".into(),
            state: "active".into(),
            wait_event_type: "IO".into(),
            wait_event: "DataFileRead".into(),
            qtime_micros: Some(42_000_000),
            xtime_micros: Some(42_000_000),
            query: "update accounts set balance = balance + 1 where id = 5".into(),
            ..Default::default()
        }],
    }
}

#[test]
fn header_shows_stale_badge_when_ticks_missed() {
    let mut app = App::new();
    app.set_snapshot(fixture_snapshot());
    app.note_stale();
    app.note_stale();
    let header: String = counts_spans(app.snapshot.as_ref(), app.stale_ticks)
        .iter()
        .map(|s| s.text.as_str())
        .collect();
    assert!(header.contains("stale 2"), "stale badge missing: {header}");
}

#[test]
fn narrow_layout_omits_app_and_client_columns() {
    let mut app = App::new();
    app.set_snapshot(fixture_snapshot());
    let extended = table_is_extended(app.extended, 80);
    let snap = app.snapshot.as_ref().unwrap();
    let cells = row_cells(&snap.rows[0], extended);
    let dump = cells.join(" ");
    assert!(dump.contains("12345"), "narrow layout dropped pid");
    assert!(
        !dump.contains("10.0.0.5"),
        "narrow layout should drop client column"
    );
}
