//! `/top` UI state — pure data, no I/O.
//!
//! All UI rendering reads from [`App`]; it is the single source of truth.
//! [`App::handle_key`] is the state machine that turns key presses into
//! state changes and requests (exit, forced refresh, backend kill).

use vstd::prelude::*;

use std::time::{Duration, Instant};

use crate::decimal::{
    all_digits, clamp_exponent, copy_range, decimal_exponent, digits_value, exponent_text,
    find_exponent_marker, integer_value, is_digit_char, is_negative_text, is_number_text,
    lemma_digits_skip_zeros, lemma_scaled_digits, lemma_scaled_digits_magnitude, lemma_scaled_zero,
    leading_zeros, mantissa_digits, mantissa_text, number_body, prefix_value, read_exponent,
    scaled_exact, scaled_floor, sign_len, split_mantissa, zeros_from,
};
use crate::keys::{format_key_label, key_label, KeyCode, KeyEvent};
use crate::sampler::TickResult;
use crate::text::{
    chars_of, collapse_spaces, int_text, int_text_padded, join_chars, push_char, push_str, push_u64_padded,
    round_div, round_half_even, split_words, words,
};
use crate::views::activity::{shorten_chars, shortened, sorted_order, sorted_row_order};

verus! {

/// A single backend row drawn in the Activity view.
///
/// Elapsed times are whole microseconds, the resolution of Postgres
/// timestamps.
#[derive(Debug, Clone, Default)]
pub struct ActivityRow {
    pub pid: i32,
    pub usename: String,
    pub datname: String,
    pub application_name: String,
    pub client_addr: String,
    pub backend_type: String,
    pub state: String,
    /// `wait_event_type` (e.g. `"IO"`, `"Lock"`); empty when on CPU.
    pub wait_event_type: String,
    pub wait_event: String,
    /// Microseconds since `query_start`; `None` when the backend is idle.
    pub qtime_micros: Option<i64>,
    /// Microseconds since `xact_start`; `None` when the backend is idle.
    pub xtime_micros: Option<i64>,
    /// Query text, already trimmed by the sampler.
    pub query: String,
    /// Number of granted locks held by this backend.
    pub locks_held: i64,
}

/// Server-wide summary drawn in the header bar.
#[derive(Debug, Clone, Default)]
pub struct ServerSummary {
    pub db_name: String,
    pub user: String,
    pub pg_version: String,
    /// Uptime in seconds since postmaster start.
    pub uptime_secs: i64,
    pub in_recovery: bool,
    pub active: u32,
    pub idle_in_tx: u32,
    pub waiting: u32,
    pub total_backends: u32,
    pub max_connections: u32,
    /// Age in microseconds of the longest-running open transaction; 0 when
    /// no backend is in a transaction.
    pub longest_xact_micros: i64,
    /// Age in microseconds of the longest-running active query; 0 when none.
    pub longest_active_query_micros: i64,
    pub deadlocks_total: i64,
    pub temp_files_total: i64,
    pub autovacuum_busy: u32,
    pub autovacuum_max: u32,
    pub phys_slots: u32,
    pub phys_slots_active: u32,
    pub log_slots: u32,
    pub log_slots_active: u32,
}

/// One sample tick of data; what the sampler produces and the renderer reads.
#[derive(Debug, Clone, Default)]
pub struct Snapshot {
    /// Unix timestamp (seconds) when the sample was taken.
    pub ts: i64,
    pub server: ServerSummary,
    pub rows: Vec<ActivityRow>,
}

/// Top-level view selector.
#[derive(Debug, Clone, Copy, PartialEq, Eq)]
pub enum TopView {
    Activity,
}

impl TopView {
    /// The tab label shown for this view.
    pub fn label(self) -> (r: &'static str)
        ensures
            r@ == "Activity"@,
    {
        match self {
            TopView::Activity => "Activity",
        }
    }
}

/// Which setting a footer prompt edits.
#[derive(Debug, Clone, Copy, PartialEq, Eq)]
pub enum PromptKind {
    /// Set refresh interval in seconds.
    Refresh,
}

impl PromptKind {
    /// The prompt's caption.
    pub fn label(self) -> (r: &'static str)
        ensures
            r@ == "delay (secs)"@,
    {
        match self {
            PromptKind::Refresh => "delay (secs)",
        }
    }
}

/// Footer prompt state: which setting is edited and the text typed so far.
#[derive(Debug, Clone, PartialEq, Eq)]
pub struct PromptState {
    pub kind: PromptKind,
    pub buffer: String,
}

/// Action requested via `k` (cancel) or `K` (terminate).
#[derive(Debug, Clone, Copy, PartialEq, Eq, Structural)]
pub enum KillMode {
    Cancel,
    Terminate,
}

impl KillMode {
    /// Upper-case verb shown in the confirmation prompt.
    pub open spec fn verb_upper_spec(self) -> Seq<char> {
        match self {
            KillMode::Cancel => "CANCEL"@,
            KillMode::Terminate => "TERMINATE"@,
        }
    }

    /// Name of the Postgres function that performs the action.
    pub open spec fn pg_function_spec(self) -> Seq<char> {
        match self {
            KillMode::Cancel => "pg_cancel_backend"@,
            KillMode::Terminate => "pg_terminate_backend"@,
        }
    }

    pub fn verb_upper(self) -> (r: &'static str)
        ensures
            r@ == self.verb_upper_spec(),
    {
        match self {
            KillMode::Cancel => "CANCEL",
            KillMode::Terminate => "TERMINATE",
        }
    }

    pub fn pg_function(self) -> (r: &'static str)
        ensures
            r@ == self.pg_function_spec(),
    {
        match self {
            KillMode::Cancel => "pg_cancel_backend",
            KillMode::Terminate => "pg_terminate_backend",
        }
    }
}

/// Sortable columns in the Activity view, in the order the `<` / `>`
/// cyclers visit them.
#[derive(Debug, Clone, Copy, PartialEq, Eq, Structural)]
pub enum SortColumn {
    Pid,
    User,
    Db,
    State,
    Wait,
    Qtime,
    Xtime,
    Locks,
    Query,
}

/// Number of sortable columns.
pub const SORT_COLUMN_COUNT: usize = 9;

impl SortColumn {
    /// Position of the column in the canonical cycling order.
    pub open spec fn index_of(self) -> int {
        match self {
            SortColumn::Pid => 0,
            SortColumn::User => 1,
            SortColumn::Db => 2,
            SortColumn::State => 3,
            SortColumn::Wait => 4,
            SortColumn::Qtime => 5,
            SortColumn::Xtime => 6,
            SortColumn::Locks => 7,
            SortColumn::Query => 8,
        }
    }

    /// The column at position `i` of the canonical order (`i` in `0 .. 9`).
    pub open spec fn at_index(i: int) -> SortColumn {
        if i == 0 { SortColumn::Pid }
        else if i == 1 { SortColumn::User }
        else if i == 2 { SortColumn::Db }
        else if i == 3 { SortColumn::State }
        else if i == 4 { SortColumn::Wait }
        else if i == 5 { SortColumn::Qtime }
        else if i == 6 { SortColumn::Xtime }
        else if i == 7 { SortColumn::Locks }
        else { SortColumn::Query }
    }

    /// Lower-case header label of the column.
    pub open spec fn header_label_spec(self) -> Seq<char> {
        match self {
            SortColumn::Pid => "pid"@,
            SortColumn::User => "user"@,
            SortColumn::Db => "db"@,
            SortColumn::State => "state"@,
            SortColumn::Wait => "wait"@,
            SortColumn::Qtime => "qtime"@,
            SortColumn::Xtime => "xtime"@,
            SortColumn::Locks => "locks"@,
            SortColumn::Query => "query"@,
        }
    }

    /// Numeric and time columns sort descending by default, text columns
    /// ascending.
    pub open spec fn default_desc_spec(self) -> bool {
        matches!(self, SortColumn::Qtime | SortColumn::Xtime | SortColumn::Locks | SortColumn::Pid)
    }

    /// The column `delta` steps away in the canonical order, wrapping.
    pub open spec fn stepped(self, delta: int) -> SortColumn {
        SortColumn::at_index((self.index_of() + delta) % 9)
    }

    /// Every sortable column, in the order the `<` / `>` cyclers visit
    /// them.
    pub fn all() -> (r: Vec<SortColumn>)
        ensures
            r@.len() == SORT_COLUMN_COUNT,
            forall|i: int| 0 <= i < SORT_COLUMN_COUNT ==> #[trigger] r@[i] == SortColumn::at_index(i),
    {
        let r = vec![
            SortColumn::Pid,
            SortColumn::User,
            SortColumn::Db,
            SortColumn::State,
            SortColumn::Wait,
            SortColumn::Qtime,
            SortColumn::Xtime,
            SortColumn::Locks,
            SortColumn::Query,
        ];
        assert forall|i: int| 0 <= i < SORT_COLUMN_COUNT implies #[trigger] r@[i] == SortColumn::at_index(i) by {
            if i == 0 {
            } else if i == 1 {
            } else if i == 2 {
            } else if i == 3 {
            } else if i == 4 {
            } else if i == 5 {
            } else if i == 6 {
            } else if i == 7 {
            } else {
            }
        }
        r
    }

    /// Lower-case header label that appears in the table.
    pub fn header_label(self) -> (r: &'static str)
        ensures
            r@ == self.header_label_spec(),
    {
        match self {
            SortColumn::Pid => "pid",
            SortColumn::User => "user",
            SortColumn::Db => "db",
            SortColumn::State => "state",
            SortColumn::Wait => "wait",
            SortColumn::Qtime => "qtime",
            SortColumn::Xtime => "xtime",
            SortColumn::Locks => "locks",
            SortColumn::Query => "query",
        }
    }

    /// Default sort direction when this column is first selected.
    pub fn default_desc(self) -> (r: bool)
        ensures
            r == self.default_desc_spec(),
    {
        match self {
            SortColumn::Qtime | SortColumn::Xtime | SortColumn::Locks | SortColumn::Pid => true,
            _ => false,
        }
    }

    fn position(self) -> (r: usize)
        ensures
            r == self.index_of(),
    {
        match self {
            SortColumn::Pid => 0,
            SortColumn::User => 1,
            SortColumn::Db => 2,
            SortColumn::State => 3,
            SortColumn::Wait => 4,
            SortColumn::Qtime => 5,
            SortColumn::Xtime => 6,
            SortColumn::Locks => 7,
            SortColumn::Query => 8,
        }
    }

    fn from_position(i: usize) -> (r: SortColumn)
        requires
            i < 9,
        ensures
            r == SortColumn::at_index(i as int),
    {
        if i == 0 { SortColumn::Pid }
        else if i == 1 { SortColumn::User }
        else if i == 2 { SortColumn::Db }
        else if i == 3 { SortColumn::State }
        else if i == 4 { SortColumn::Wait }
        else if i == 5 { SortColumn::Qtime }
        else if i == 6 { SortColumn::Xtime }
        else if i == 7 { SortColumn::Locks }
        else { SortColumn::Query }
    }

    /// Step `delta` positions through the canonical order, wrapping in
    /// either direction.
    fn step(self, delta: isize) -> (r: SortColumn)
        ensures
            r == self.stepped(delta as int),
    {
        let pos = self.position();
        let d: usize = if delta >= 0 {
            (delta as usize) % 9
        } else {
            let t = (-(delta + 1)) as usize;
            let m = t % 9;
            proof {
                vstd::arithmetic::div_mod::lemma_fundamental_div_mod(t as int, 9);
                vstd::arithmetic::div_mod::lemma_fundamental_div_mod_converse(
                    delta as int,
                    9,
                    -(t as int / 9) - 1,
                    8 - m as int,
                );
            }
            8 - m
        };
        proof {
            vstd::arithmetic::div_mod::lemma_add_mod_noop(pos as int, delta as int, 9);
            vstd::arithmetic::div_mod::lemma_add_mod_noop(pos as int, d as int, 9);
            vstd::arithmetic::div_mod::lemma_mod_twice(delta as int, 9);
        }
        SortColumn::from_position((pos + d) % 9)
    }
}

// ---------------------------------------------------------------------------
// Refresh interval: limits, prompt text in and out.
// ---------------------------------------------------------------------------

/// Default refresh interval, in nanoseconds (1 s).
pub const DEFAULT_REFRESH_NANOS: u64 = 1_000_000_000;

/// Lower bound for the refresh prompt, in nanoseconds (0.1 s).
pub const MIN_REFRESH_NANOS: u64 = 100_000_000;

/// Upper bound for the refresh prompt, in nanoseconds (60 s).
pub const MAX_REFRESH_NANOS: u64 = 60_000_000_000;

/// Whether an interval of `n` nanoseconds (rounded down; `exact` when
/// nothing below a nanosecond was dropped) lies between 0.1 s and 60 s
/// inclusive.
pub open spec fn nanos_in_refresh_range(n: int, exact: bool) -> bool {
    MIN_REFRESH_NANOS <= n && (n < MAX_REFRESH_NANOS || (n == MAX_REFRESH_NANOS && exact))
}

/// The interval, in nanoseconds, that a prompt text sets: defined when the
/// text is a finite number as `f64` parsing reads it (an optional sign,
/// digits with at most one `.`, an optional exponent) whose value lies
/// between 0.1 and 60 seconds inclusive; places below a nanosecond are
/// dropped.
pub open spec fn refresh_from_text(s: Seq<char>) -> Option<int> {
    let m = digits_value(mantissa_digits(s));
    let e = decimal_exponent(s) + 9;
    if is_number_text(s) && !is_negative_text(s) && nanos_in_refresh_range(
        scaled_floor(m, e),
        scaled_exact(m, e),
    ) {
        Some(scaled_floor(m, e))
    } else {
        None
    }
}

/// The refresh interval, in nanoseconds, that a prompt text sets; `None`
/// when the text is not a number of seconds within the limits.
pub fn parse_refresh_nanos(s: &str) -> (r: Option<u64>)
    ensures
        match r {
            Some(n) => refresh_from_text(s@) == Some(n as int),
            None => refresh_from_text(s@) is None,
        },
{
    let v = chars_of(s);
    let n = v.len();
    let sl: usize = if n > 0 && (v[0] == '+' || v[0] == '-') { 1 } else { 0 };
    let neg = sl == 1 && v[0] == '-';
    let body = copy_range(&v, sl, n);
    let bn = body.len();
    let ep = find_exponent_marker(&body);
    let m = copy_range(&body, 0, ep);
    proof {
        assert(sign_len(s@) == sl);
        assert(body@ =~= number_body(s@));
        assert(m@ =~= mantissa_text(s@));
        assert(neg == is_negative_text(s@));
    }
    let (digits, flen) = match split_mantissa(&m) {
        Some(p) => p,
        None => {
            return None;
        },
    };
    let ghost big_x: int = match exponent_text(s@) {
        Some(t) => integer_value(t),
        None => 0,
    };
    let x: i128 = if ep < bn {
        let t = copy_range(&body, ep + 1, bn);
        assert(t@ =~= exponent_text(s@)->0);
        match read_exponent(&t) {
            Some(x) => x,
            None => {
                return None;
            },
        }
    } else {
        0
    };
    assert(x == clamp_exponent(big_x));
    assert(is_number_text(s@));
    if neg {
        return None;
    }
    let len = digits.len();
    let lz = leading_zeros(&digits);
    let ghost dp = digits@.skip(lz as int);
    proof {
        lemma_digits_skip_zeros(digits@, lz as int);
    }
    let ghost big_m = digits_value(mantissa_digits(s@));
    let ghost big_e = decimal_exponent(s@) + 9;
    assert(big_m == digits_value(dp));
    if lz == len {
        proof {
            assert(dp.len() == 0);
            lemma_scaled_zero(big_e);
        }
        return None;
    }
    proof {
        assert(all_digits(dp)) by {
            assert forall|i: int| 0 <= i < dp.len() implies is_digit_char(#[trigger] dp[i]) by {
                assert(dp[i] == digits@[i + lz]);
            }
        }
        assert(dp[0] == digits@[lz as int]);
    }
    let k = len - lz;
    let e: i128 = x - flen as i128 + 9;
    let t: i128 = k as i128 + e;
    proof {
        lemma_scaled_digits_magnitude(dp, big_e);
    }
    if t < 9 || t > 11 {
        return None;
    }
    assert(e == big_e);
    let tu = t as usize;
    let nanos = prefix_value(&digits, lz, tu);
    let exact = if tu >= k {
        true
    } else {
        zeros_from(&digits, lz + tu)
    };
    proof {
        lemma_scaled_digits(dp, big_e, t as int);
        if tu < k {
            assert(dp.skip(t as int) =~= digits@.skip(lz + tu));
        }
    }
    if nanos >= MIN_REFRESH_NANOS && (nanos < MAX_REFRESH_NANOS || (nanos == MAX_REFRESH_NANOS && exact)) {
        Some(nanos)
    } else {
        None
    }
}

/// Seed text of the refresh prompt for an interval in nanoseconds: whole
/// seconds when within half a millisecond of one, else two decimals.
pub open spec fn refresh_seed_text(nanos: int) -> Seq<char> {
    let r = nanos % 1_000_000_000;
    if r < 500_000 || 1_000_000_000 - r < 500_000 {
        int_text(round_half_even(nanos, 1_000_000_000))
    } else {
        let h = round_half_even(nanos, 10_000_000);
        int_text(h / 100) + "."@ + int_text_padded(h % 100, 2)
    }
}

/// Seed text of the refresh prompt for an interval in nanoseconds.
pub fn format_refresh_seed(nanos: u64) -> (s: String)
    ensures
        s@ == refresh_seed_text(nanos as int),
{
    let r = nanos % 1_000_000_000;
    let mut s = String::new();
    if r < 500_000 || 1_000_000_000 - r < 500_000 {
        push_u64_padded(&mut s, round_div(nanos, 1_000_000_000), 0);
    } else {
        let h = round_div(nanos, 10_000_000);
        push_u64_padded(&mut s, h / 100, 0);
        push_str(&mut s, ".");
        push_u64_padded(&mut s, h % 100, 2);
    }
    s
}


// ---------------------------------------------------------------------------
// Time, for the key-press overlay.
// ---------------------------------------------------------------------------

#[verifier::external_type_specification]
#[verifier::external_body]
pub struct ExInstant(Instant);

/// `Instant`'s `clone`: `Instant` is `Copy`, so its clone is the same
/// instant.
pub assume_specification[ <Instant as Clone>::clone ](t: &Instant) -> (r: Instant)
    ensures
        r == *t,
;

/// `Instant::now`. The current time: nothing is claimed about the value.
#[verifier::external_body]
fn instant_now() -> Instant {
    Instant::now()
}

/// The span of `ms` milliseconds, as `Duration::from_millis` builds it.
pub uninterp spec fn millis_span(ms: u64) -> Duration;

/// `Duration::from_millis`. Its result is `millis_span` of the argument:
/// a value of the argument alone; `Duration` itself is opaque here.
#[verifier::external_body]
fn duration_from_millis(ms: u64) -> (r: Duration)
    ensures
        r == millis_span(ms),
{
    Duration::from_millis(ms)
}

/// The instant `d` after `t`, or `None` past the range that `Instant` can
/// hold, as `Instant::checked_add` computes it.
pub uninterp spec fn instant_after(t: Instant, d: Duration) -> Option<Instant>;

/// `Instant::checked_add`. Its result is `instant_after` of the two
/// arguments: a value of the arguments alone; both are opaque here.
#[verifier::external_body]
fn instant_checked_add(t: Instant, d: Duration) -> (r: Option<Instant>)
    ensures
        r == instant_after(t, d),
{
    t.checked_add(d)
}

/// Expiry of a key overlay recorded when the clock read `now`: `now` plus
/// `KEY_OVERLAY_TTL_MS` milliseconds, or the later reading `fallback` when
/// that sum lies past what `Instant` can hold.
pub open spec fn overlay_expiry(now: Instant, fallback: Instant) -> Instant {
    match instant_after(now, millis_span(KEY_OVERLAY_TTL_MS)) {
        Some(t) => t,
        None => fallback,
    }
}

/// Whether instant `a` is earlier than instant `b`, as `Instant`'s `<`
/// answers it.
pub uninterp spec fn instant_precedes(a: Instant, b: Instant) -> bool;

/// `Instant`'s `<`. Its answer is `instant_precedes` of the two instants:
/// a comparison of the two values and nothing else; the values themselves
/// are opaque here.
#[verifier::external_body]
fn instant_is_before(a: &Instant, b: &Instant) -> (r: bool)
    ensures
        r == instant_precedes(*a, *b),
{
    a < b
}

/// The recorded key overlay as seen at `now`: shown while `now` is before
/// its expiry, gone afterwards.
pub open spec fn overlay_at(last_key: Option<KeyOverlay>, now: Instant) -> Option<KeyOverlay> {
    match last_key {
        Some(k) => if instant_precedes(now, k.expires_at) {
            Some(k)
        } else {
            None
        },
        None => None,
    }
}

/// An optional borrowed overlay as the overlay it points at.
pub open spec fn overlay_ref_view(r: Option<&KeyOverlay>) -> Option<KeyOverlay> {
    match r {
        Some(k) => Some(*k),
        None => None,
    }
}

/// How long a key-press overlay stays visible, in milliseconds.
pub const KEY_OVERLAY_TTL_MS: u64 = 1_200;

/// Ephemeral on-screen overlay displaying the most recent keystroke.
#[derive(Debug, Clone)]
pub struct KeyOverlay {
    pub label: String,
    pub expires_at: Instant,
}

/// Result of a kill action, surfaced in the footer.
#[derive(Debug, Clone)]
pub struct AdminMessage {
    pub text: String,
    pub level: AdminMessageLevel,
    pub expires_at: Instant,
}

#[derive(Debug, Clone, Copy, PartialEq, Eq)]
pub enum AdminMessageLevel {
    Success,
    Failure,
}

// ---------------------------------------------------------------------------
// Kill requests.
// ---------------------------------------------------------------------------

/// Snapshot of an [`ActivityRow`] taken when `k`/`K` was pressed, so the
/// confirmation describes the backend the user picked even if the table
/// re-sorts before `y`.
#[derive(Debug, Clone)]
pub struct KillRequest {
    pub mode: KillMode,
    pub pid: i32,
    pub usename: String,
    pub datname: String,
    pub state: String,
    pub qtime_micros: Option<i64>,
    pub query_summary: String,
}

/// One-line summary of a query for the confirmation prompt: whitespace
/// collapsed, at most 60 characters, ending in `…` when cut.
pub open spec fn kill_summary(query: Seq<char>) -> Seq<char> {
    shortened(collapse_spaces(query), 60)
}

/// `r` is the request to act with `mode` on `row`.
pub open spec fn is_kill_request_for(r: KillRequest, mode: KillMode, row: ActivityRow) -> bool {
    &&& r.mode == mode
    &&& r.pid == row.pid
    &&& r.usename == row.usename
    &&& r.datname == row.datname
    &&& r.state == row.state
    &&& r.qtime_micros == row.qtime_micros
    &&& r.query_summary@ == kill_summary(row.query@)
}

impl KillRequest {
    /// The Postgres function that carries out this request.
    pub fn pg_function_for_request(&self) -> (r: &'static str)
        ensures
            r@ == self.mode.pg_function_spec(),
    {
        self.mode.pg_function()
    }

    fn from_row(mode: KillMode, row: &ActivityRow) -> (r: KillRequest)
        ensures
            is_kill_request_for(r, mode, *row),
    {
        let ws = split_words(row.query.as_str());
        let joined = join_chars(&ws, ' ');
        proof {
            assert(Seq::new(ws@.len(), |i: int| ws@[i]@) =~= words(row.query@));
        }
        let summary = shorten_chars(&joined, 60);
        KillRequest {
            mode,
            pid: row.pid,
            usename: row.usename.clone(),
            datname: row.datname.clone(),
            state: row.state.clone(),
            qtime_micros: row.qtime_micros,
            query_summary: summary,
        }
    }
}

// ---------------------------------------------------------------------------
// The application state.
// ---------------------------------------------------------------------------

/// UI state for `/top`. Pure data — no I/O, no side effects.
#[derive(Debug)]
pub struct App {
    pub view: TopView,
    pub snapshot: Option<Snapshot>,
    /// Index into the displayed (sorted) rows; clamped whenever a new
    /// snapshot arrives.
    pub selected_row: usize,
    /// Last sampler error, shown in the footer until the next good tick.
    pub last_error: Option<String>,
    /// Number of consecutive sampler ticks that timed out.
    pub stale_ticks: u32,
    /// Set by [`App::handle_key`] when the user requests exit.
    pub should_exit: bool,
    /// Sampler refresh interval in nanoseconds.
    pub refresh_nanos: u64,
    /// Show `app`, `client` and `backend` columns too. Toggled by `e`.
    pub extended: bool,
    /// Footer prompt state; `Some` while the user types into a prompt.
    pub prompt: Option<PromptState>,
    pub sort_column: SortColumn,
    /// Sort descending (largest first); toggled by `r`.
    pub sort_desc: bool,
    /// Record every keystroke for the corner overlay (a recording aid).
    pub show_keys: bool,
    pub last_key: Option<KeyOverlay>,
    /// Set by `Space`: the event loop samples at once and clears it.
    pub force_refresh: bool,
    /// Pending `k`/`K` confirmation.
    pub kill_confirm: Option<KillRequest>,
    /// Approved kill that the event loop will execute on its next pass.
    pub kill_pending: Option<KillRequest>,
    /// Last admin-action result, surfaced briefly in the footer.
    pub admin_message: Option<AdminMessage>,
}

/// The state of a freshly started `/top`.
pub open spec fn initial_app() -> App {
    App {
        view: TopView::Activity,
        snapshot: None,
        selected_row: 0,
        last_error: None,
        stale_ticks: 0,
        should_exit: false,
        refresh_nanos: DEFAULT_REFRESH_NANOS,
        extended: false,
        prompt: None,
        sort_column: SortColumn::Qtime,
        sort_desc: true,
        show_keys: false,
        last_key: None,
        force_refresh: false,
        kill_confirm: None,
        kill_pending: None,
        admin_message: None,
    }
}

impl Default for App {
    fn default() -> (r: App)
        ensures
            r == initial_app(),
    {
        App {
            view: TopView::Activity,
            snapshot: None,
            selected_row: 0,
            last_error: None,
            stale_ticks: 0,
            should_exit: false,
            refresh_nanos: DEFAULT_REFRESH_NANOS,
            extended: false,
            prompt: None,
            sort_column: SortColumn::Qtime,
            sort_desc: true,
            show_keys: false,
            last_key: None,
            force_refresh: false,
            kill_confirm: None,
            kill_pending: None,
            admin_message: None,
        }
    }
}

/// `a - b`, or 0 when that is negative (`usize::saturating_sub`).
pub open spec fn sat_sub(a: int, b: int) -> int {
    if a >= b {
        a - b
    } else {
        0
    }
}

/// The smaller of `a` and `b`.
pub open spec fn min_of(a: int, b: int) -> int {
    if a <= b {
        a
    } else {
        b
    }
}

/// What a key does when neither a prompt nor a kill confirmation is open.
#[derive(Debug, Clone, Copy, PartialEq, Eq)]
pub enum KeyAction {
    Exit,
    Up,
    Down,
    PageUp,
    PageDown,
    Home,
    End,
    OpenPrompt,
    ToggleExtended,
    SortLeft,
    SortRight,
    ReverseSort,
    ForceRefresh,
    Kill(KillMode),
    Nothing,
}

/// The key bindings: `q`/`Esc`/`Ctrl-C` exit, arrows and paging move,
/// `s` opens the refresh prompt, `e` toggles extended columns, `<`/`,`/`←`
/// and `>`/`.`/`→` cycle the sort column, `r` reverses it, `Space` forces a
/// refresh, `k`/`K` ask to cancel/terminate the selected backend.
pub open spec fn key_action_spec(key: KeyEvent) -> KeyAction {
    match key.code {
        KeyCode::Char(c) => {
            if c == 'q' {
                KeyAction::Exit
            } else if c == 'c' && key.modifiers.control {
                KeyAction::Exit
            } else if c == 's' {
                KeyAction::OpenPrompt
            } else if c == 'e' {
                KeyAction::ToggleExtended
            } else if c == '<' || c == ',' {
                KeyAction::SortLeft
            } else if c == '>' || c == '.' {
                KeyAction::SortRight
            } else if c == 'r' {
                KeyAction::ReverseSort
            } else if c == ' ' {
                KeyAction::ForceRefresh
            } else if c == 'k' {
                KeyAction::Kill(KillMode::Cancel)
            } else if c == 'K' {
                KeyAction::Kill(KillMode::Terminate)
            } else {
                KeyAction::Nothing
            }
        },
        KeyCode::Esc => KeyAction::Exit,
        KeyCode::Up => KeyAction::Up,
        KeyCode::Down => KeyAction::Down,
        KeyCode::PageUp => KeyAction::PageUp,
        KeyCode::PageDown => KeyAction::PageDown,
        KeyCode::Home => KeyAction::Home,
        KeyCode::End => KeyAction::End,
        KeyCode::Left => KeyAction::SortLeft,
        KeyCode::Right => KeyAction::SortRight,
        _ => KeyAction::Nothing,
    }
}

/// The action bound to a key.
pub fn key_action(key: &KeyEvent) -> (a: KeyAction)
    ensures
        a == key_action_spec(*key),
{
    match key.code {
        KeyCode::Char(c) => {
            if c == 'q' {
                KeyAction::Exit
            } else if c == 'c' && key.modifiers.control {
                KeyAction::Exit
            } else if c == 's' {
                KeyAction::OpenPrompt
            } else if c == 'e' {
                KeyAction::ToggleExtended
            } else if c == '<' || c == ',' {
                KeyAction::SortLeft
            } else if c == '>' || c == '.' {
                KeyAction::SortRight
            } else if c == 'r' {
                KeyAction::ReverseSort
            } else if c == ' ' {
                KeyAction::ForceRefresh
            } else if c == 'k' {
                KeyAction::Kill(KillMode::Cancel)
            } else if c == 'K' {
                KeyAction::Kill(KillMode::Terminate)
            } else {
                KeyAction::Nothing
            }
        },
        KeyCode::Esc => KeyAction::Exit,
        KeyCode::Up => KeyAction::Up,
        KeyCode::Down => KeyAction::Down,
        KeyCode::PageUp => KeyAction::PageUp,
        KeyCode::PageDown => KeyAction::PageDown,
        KeyCode::Home => KeyAction::Home,
        KeyCode::End => KeyAction::End,
        KeyCode::Left => KeyAction::SortLeft,
        KeyCode::Right => KeyAction::SortRight,
        _ => KeyAction::Nothing,
    }
}

/// Number of bytes in the UTF-8 encoding of `s`, as `str::len` reports it.
pub open spec fn utf8_len(s: Seq<char>) -> int {
    (vstd::utf8::encode_utf8(s).len() as usize) as int
}

/// A character the refresh prompt accepts.
pub open spec fn is_prompt_char(c: char) -> bool {
    is_digit_char(c) || c == '.'
}

impl App {
    /// Number of rows in the current snapshot.
    pub open spec fn rows_len(self) -> int {
        match self.snapshot {
            Some(s) => s.rows@.len() as int,
            None => 0,
        }
    }

    /// Index of the last row (0 when there are none).
    pub open spec fn last_row(self) -> int {
        sat_sub(self.rows_len(), 1)
    }

    pub open spec fn cursor_up_spec(self, n: int) -> App {
        App { selected_row: sat_sub(self.selected_row as int, n) as usize, ..self }
    }

    pub open spec fn cursor_down_spec(self, n: int) -> App {
        App {
            selected_row: min_of(min_of(self.selected_row + n, usize::MAX as int), self.last_row()) as usize,
            ..self
        }
    }

    pub open spec fn clamp_cursor_spec(self) -> App {
        if self.selected_row > self.last_row() {
            App { selected_row: self.last_row() as usize, ..self }
        } else {
            self
        }
    }

    pub open spec fn with_snapshot(self, snap: Snapshot) -> App {
        App { snapshot: Some(snap), stale_ticks: 0, last_error: None, ..self }.clamp_cursor_spec()
    }

    /// The state after one sampler tick: a fresh snapshot replaces the one
    /// shown, a missed tick counts as stale (saturating), and a failed tick
    /// leaves its message for the footer.
    pub open spec fn after_tick(self, outcome: Result<TickResult, String>) -> App {
        match outcome {
            Ok(TickResult::Fresh(snap)) => self.with_snapshot(*snap),
            Ok(TickResult::Missed) => App {
                stale_ticks: min_of(self.stale_ticks + 1, u32::MAX as int) as u32,
                ..self
            },
            Err(msg) => App { last_error: Some(msg), ..self },
        }
    }

    /// The sort column after cycling by `delta`; the direction resets to
    /// the new column's default whenever the column changes.
    pub open spec fn cycled_sort(self, delta: int) -> App {
        let next = self.sort_column.stepped(delta);
        if next != self.sort_column {
            App { sort_column: next, sort_desc: next.default_desc_spec(), ..self }
        } else {
            self
        }
    }

    /// `b` is `self` with the refresh prompt opened, seeded with the
    /// current interval.
    pub open spec fn opened_prompt(self, b: App) -> bool {
        &&& b.prompt is Some
        &&& b.prompt->0.kind == PromptKind::Refresh
        &&& b.prompt->0.buffer@ == refresh_seed_text(self.refresh_nanos as int)
        &&& b == App { prompt: b.prompt, ..self }
    }

    /// The open prompt applied: closed, and the interval set when the text
    /// names one within the limits.
    pub open spec fn applied_prompt(self) -> App {
        match self.prompt {
            None => self,
            Some(p) => match refresh_from_text(p.buffer@) {
                Some(n) => App { prompt: None, refresh_nanos: n as u64, ..self },
                None => App { prompt: None, ..self },
            },
        }
    }

    /// `b` is `self` with the open prompt's text replaced by `text`.
    pub open spec fn prompt_text_now(self, b: App, text: Seq<char>) -> bool {
        &&& b.prompt is Some
        &&& b.prompt->0.kind == self.prompt->0.kind
        &&& b.prompt->0.buffer@ == text
        &&& b == App { prompt: b.prompt, ..self }
    }

    /// A key while the refresh prompt is open: `Esc` closes it, `Enter`
    /// applies it, `Backspace` deletes a character, digits and `.` are
    /// typed while the text is under 10 bytes; anything else is ignored.
    pub open spec fn prompt_step(self, b: App, key: KeyEvent) -> bool {
        let text = self.prompt->0.buffer@;
        match key.code {
            KeyCode::Esc => b == App { prompt: None, ..self },
            KeyCode::Enter => b == self.applied_prompt(),
            KeyCode::Backspace => self.prompt_text_now(
                b,
                if text.len() > 0 { text.drop_last() } else { text },
            ),
            KeyCode::Char(c) => if is_prompt_char(c) && utf8_len(text) < 10 {
                self.prompt_text_now(b, text.push(c))
            } else {
                b == self
            },
            _ => b == self,
        }
    }

    /// A key while a kill confirmation is open: `y`/`Y` approves it, any
    /// other key cancels it.
    pub open spec fn confirm_step(self, b: App, key: KeyEvent) -> bool {
        if key.code == KeyCode::Char('y') || key.code == KeyCode::Char('Y') {
            b == App { kill_pending: self.kill_confirm, kill_confirm: None, ..self }
        } else {
            b == App { kill_confirm: None, ..self }
        }
    }

    /// The row under the cursor in display order, if any.
    pub open spec fn selected_display_row(self) -> Option<ActivityRow> {
        match self.snapshot {
            None => None,
            Some(snap) => {
                let order = sorted_order(snap.rows@, self.sort_column, self.sort_desc);
                if self.selected_row < order.len() {
                    Some(snap.rows@[order[self.selected_row as int] as int])
                } else {
                    None
                }
            },
        }
    }

    /// `k`/`K`: open a confirmation for the highlighted row, unless there is
    /// none or its pid is not positive (background workers).
    pub open spec fn kill_step(self, b: App, mode: KillMode) -> bool {
        match self.selected_display_row() {
            Some(row) => if row.pid > 0 {
                &&& b.kill_confirm is Some
                &&& is_kill_request_for(b.kill_confirm->0, mode, row)
                &&& b == App { kill_confirm: b.kill_confirm, ..self }
            } else {
                b == self
            },
            None => b == self,
        }
    }

    /// A key when no prompt or confirmation is open.
    pub open spec fn normal_step(self, b: App, key: KeyEvent, page: usize) -> bool {
        let page_rows = if page >= 1 { page as int } else { 1 };
        match key_action_spec(key) {
            KeyAction::Exit => b == App { should_exit: true, ..self },
            KeyAction::Up => b == self.cursor_up_spec(1),
            KeyAction::Down => b == self.cursor_down_spec(1),
            KeyAction::PageUp => b == self.cursor_up_spec(page_rows),
            KeyAction::PageDown => b == self.cursor_down_spec(page_rows),
            KeyAction::Home => b == App { selected_row: 0, ..self },
            KeyAction::End => b == App { selected_row: self.last_row() as usize, ..self },
            KeyAction::OpenPrompt => self.opened_prompt(b),
            KeyAction::ToggleExtended => b == App { extended: !self.extended, ..self },
            KeyAction::SortLeft => b == self.cycled_sort(-1),
            KeyAction::SortRight => b == self.cycled_sort(1),
            KeyAction::ReverseSort => b == App { sort_desc: !self.sort_desc, ..self },
            KeyAction::ForceRefresh => b == App { force_refresh: true, ..self },
            KeyAction::Kill(mode) => self.kill_step(b, mode),
            KeyAction::Nothing => b == self,
        }
    }

    /// The key press is recorded for the overlay: overlays are on, no
    /// prompt is open and the key has a label.
    pub open spec fn notes_key(self, key: KeyEvent) -> bool {
        self.show_keys && self.prompt is None && key_label(key).len() > 0
    }

    /// `b` is the state after `key` is pressed in state `self`, with `page`
    /// rows per page.
    pub open spec fn key_step(self, b: App, key: KeyEvent, page: usize) -> bool {
        &&& if self.notes_key(key) {
            &&& b.last_key is Some
            &&& b.last_key->0.label@ == key_label(key)
            &&& exists|now: Instant, fallback: Instant|
                b.last_key->0.expires_at == #[trigger] overlay_expiry(now, fallback)
        } else {
            b.last_key == self.last_key
        }
        &&& {
            let a = App { last_key: b.last_key, ..self };
            if self.prompt is Some {
                a.prompt_step(b, key)
            } else if self.kill_confirm is Some {
                a.confirm_step(b, key)
            } else {
                a.normal_step(b, key, page)
            }
        }
    }
}


/// Removes the last character of a string (`String::pop`).
#[verifier::external_body]
fn string_pop(s: &mut String) -> (r: Option<char>)
    ensures
        old(s)@.len() > 0 ==> final(s)@ == old(s)@.drop_last() && r == Some(old(s)@.last()),
        old(s)@.len() == 0 ==> final(s)@ == old(s)@ && r is None,
{
    s.pop()
}

impl App {
    /// A freshly started `/top`.
    pub fn new() -> (r: App)
        ensures
            r == initial_app(),
    {
        App::default()
    }

    /// Number of visible rows in the active view.
    pub fn row_count(&self) -> (n: usize)
        ensures
            n == self.rows_len(),
    {
        match &self.snapshot {
            Some(snap) => snap.rows.len(),
            None => 0,
        }
    }

    /// Move the cursor up by `n`, saturating at 0.
    pub fn cursor_up(&mut self, n: usize)
        ensures
            *final(self) == old(self).cursor_up_spec(n as int),
    {
        self.selected_row = if self.selected_row >= n { self.selected_row - n } else { 0 };
    }

    /// Move the cursor down by `n`, clamped to the last row.
    pub fn cursor_down(&mut self, n: usize)
        ensures
            *final(self) == old(self).cursor_down_spec(n as int),
    {
        let count = self.row_count();
        let max = if count >= 1 { count - 1 } else { 0 };
        let moved = if self.selected_row <= usize::MAX - n { self.selected_row + n } else { usize::MAX };
        self.selected_row = if moved <= max { moved } else { max };
    }

    /// Move the cursor to the first row.
    pub fn cursor_home(&mut self)
        ensures
            *final(self) == (App { selected_row: 0, ..*old(self) }),
    {
        self.selected_row = 0;
    }

    /// Move the cursor to the last row.
    pub fn cursor_end(&mut self)
        ensures
            *final(self) == (App { selected_row: old(self).last_row() as usize, ..*old(self) }),
    {
        let count = self.row_count();
        self.selected_row = if count >= 1 { count - 1 } else { 0 };
    }

    /// Clamp the cursor to a valid index for the current row count.
    pub fn clamp_cursor(&mut self)
        ensures
            *final(self) == old(self).clamp_cursor_spec(),
    {
        let count = self.row_count();
        let max = if count >= 1 { count - 1 } else { 0 };
        if self.selected_row > max {
            self.selected_row = max;
        }
    }

    /// Replace the current snapshot, reset the stale counter, clear the
    /// last error and clamp the cursor.
    pub fn set_snapshot(&mut self, snap: Snapshot)
        ensures
            *final(self) == old(self).with_snapshot(snap),
    {
        self.snapshot = Some(snap);
        self.stale_ticks = 0;
        self.last_error = None;
        self.clamp_cursor();
    }

    /// Count one more missed sampler tick (saturating).
    pub fn note_stale(&mut self)
        ensures
            *final(self) == (App {
                stale_ticks: min_of(old(self).stale_ticks + 1, u32::MAX as int) as u32,
                ..*old(self)
            }),
    {
        if self.stale_ticks < u32::MAX {
            self.stale_ticks = self.stale_ticks + 1;
        }
    }

    /// Record a sampler error for the footer.
    pub fn note_error(&mut self, msg: String)
        ensures
            *final(self) == (App { last_error: Some(msg), ..*old(self) }),
    {
        self.last_error = Some(msg);
    }

    /// Take in the outcome of one sampler tick: `Ok` with what the tick
    /// yielded, or `Err` with the message of the error that stopped it.
    pub fn apply_tick(&mut self, outcome: Result<TickResult, String>)
        ensures
            *final(self) == old(self).after_tick(outcome),
    {
        match outcome {
            Ok(TickResult::Fresh(snap)) => self.set_snapshot(*snap),
            Ok(TickResult::Missed) => self.note_stale(),
            Err(msg) => self.note_error(msg),
        }
    }

    /// Open the refresh-delay prompt seeded with the current value.
    pub fn open_refresh_prompt(&mut self)
        ensures
            old(self).opened_prompt(*final(self)),
    {
        let seed = format_refresh_seed(self.refresh_nanos);
        self.prompt = Some(PromptState { kind: PromptKind::Refresh, buffer: seed });
    }

    /// Apply the open prompt: it closes either way, and the interval is set
    /// when the text names one within the limits.
    pub fn apply_prompt(&mut self)
        ensures
            *final(self) == old(self).applied_prompt(),
    {
        let parsed = match &self.prompt {
            Some(p) => match p.kind {
                PromptKind::Refresh => Some(parse_refresh_nanos(p.buffer.as_str())),
            },
            None => None,
        };
        match parsed {
            Some(result) => {
                self.prompt = None;
                match result {
                    Some(n) => {
                        self.refresh_nanos = n;
                    },
                    None => {},
                }
            },
            None => {},
        }
    }

    /// Cycle the active sort column by `delta` positions (left = -1,
    /// right = +1); the direction resets to the column's default whenever
    /// the column changes.
    pub fn cycle_sort(&mut self, delta: isize)
        ensures
            *final(self) == old(self).cycled_sort(delta as int),
    {
        let next = self.sort_column.step(delta);
        if next != self.sort_column {
            self.sort_column = next;
            self.sort_desc = next.default_desc();
        }
    }

    fn note_key(&mut self, key: &KeyEvent)
        ensures
            key_label(*key).len() > 0 ==> final(self).last_key is Some
                && final(self).last_key->0.label@ == key_label(*key)
                && exists|now: Instant, fallback: Instant|
                    final(self).last_key->0.expires_at == #[trigger] overlay_expiry(now, fallback),
            key_label(*key).len() == 0 ==> final(self).last_key == old(self).last_key,
            *final(self) == (App { last_key: final(self).last_key, ..*old(self) }),
    {
        let label = format_key_label(key);
        if label.as_str().is_empty() {
            return;
        }
        let now = instant_now();
        let ttl = duration_from_millis(KEY_OVERLAY_TTL_MS);
        let expires_at = match instant_checked_add(now, ttl) {
            Some(t) => {
                assert(t == overlay_expiry(now, t));
                t
            },
            None => {
                let later = instant_now();
                assert(later == overlay_expiry(now, later));
                later
            },
        };
        self.last_key = Some(KeyOverlay { label, expires_at });
    }

    /// The recorded key overlay as of the instant `now`: present while
    /// `now` is before its expiry.
    pub fn key_overlay_at(&self, now: &Instant) -> (r: Option<&KeyOverlay>)
        ensures
            overlay_ref_view(r) == overlay_at(self.last_key, *now),
    {
        match &self.last_key {
            Some(ko) => {
                if instant_is_before(now, &ko.expires_at) {
                    Some(ko)
                } else {
                    None
                }
            },
            None => None,
        }
    }

    /// The key overlay, if it has not expired yet: the overlay as seen at
    /// the current instant, read from the clock once.
    pub fn fresh_key_overlay(&self) -> (r: Option<&KeyOverlay>)
        ensures
            exists|now: Instant| overlay_ref_view(r) == #[trigger] overlay_at(self.last_key, now),
    {
        match &self.last_key {
            Some(_) => {
                let now = instant_now();
                let r = self.key_overlay_at(&now);
                proof {
                    assert(overlay_ref_view(r) == overlay_at(self.last_key, now));
                }
                r
            },
            None => {
                proof {
                    let any: Instant = arbitrary();
                    assert(overlay_at(self.last_key, any) is None);
                }
                None
            },
        }
    }

    fn handle_kill_confirm_key(&mut self, key: KeyEvent)
        ensures
            old(self).confirm_step(*final(self), key),
    {
        match key.code {
            KeyCode::Char(c) => {
                if c == 'y' || c == 'Y' {
                    self.kill_pending = self.kill_confirm.take();
                    return;
                }
            },
            _ => {},
        }
        self.kill_confirm = None;
    }

    fn request_kill(&mut self, mode: KillMode)
        ensures
            old(self).kill_step(*final(self), mode),
    {
        let req = match &self.snapshot {
            None => None,
            Some(snap) => {
                let order = sorted_row_order(&snap.rows, self.sort_column, self.sort_desc);
                if self.selected_row < order.len() {
                    let row = &snap.rows[order[self.selected_row]];
                    if row.pid <= 0 {
                        None
                    } else {
                        Some(KillRequest::from_row(mode, row))
                    }
                } else {
                    None
                }
            },
        };
        if req.is_some() {
            self.kill_confirm = req;
        }
    }

    fn handle_prompt_key(&mut self, key: KeyEvent)
        requires
            old(self).prompt is Some,
        ensures
            old(self).prompt_step(*final(self), key),
    {
        match key.code {
            KeyCode::Esc => {
                self.prompt = None;
            },
            KeyCode::Enter => {
                self.apply_prompt();
            },
            KeyCode::Backspace => {
                let p = self.prompt.take().unwrap();
                let mut buffer = p.buffer;
                string_pop(&mut buffer);
                self.prompt = Some(PromptState { kind: p.kind, buffer });
            },
            KeyCode::Char(c) => {
                let typed = ('0' <= c && c <= '9') || c == '.';
                if typed {
                    let len = match &self.prompt {
                        Some(p) => p.buffer.as_str().len(),
                        None => 0,
                    };
                    if len < 10 {
                        let p = self.prompt.take().unwrap();
                        let mut buffer = p.buffer;
                        push_char(&mut buffer, c);
                        self.prompt = Some(PromptState { kind: p.kind, buffer });
                    }
                }
            },
            _ => {},
        }
    }

    /// Process a key press with `page_size` rows per page. Returns `true`
    /// when the caller should exit the event loop; the same flag is kept in
    /// `should_exit`.
    #[verifier::rlimit(40)]
    pub fn handle_key(&mut self, key: KeyEvent, page_size: usize) -> (exit: bool)
        ensures
            old(self).key_step(*final(self), key, page_size),
            exit == final(self).should_exit,
    {
        if self.show_keys && self.prompt.is_none() {
            self.note_key(&key);
        }
        if self.prompt.is_some() {
            self.handle_prompt_key(key);
            return self.should_exit;
        }
        if self.kill_confirm.is_some() {
            self.handle_kill_confirm_key(key);
            return self.should_exit;
        }
        let page = if page_size >= 1 { page_size } else { 1 };
        match key_action(&key) {
            KeyAction::Exit => {
                self.should_exit = true;
            },
            KeyAction::Up => self.cursor_up(1),
            KeyAction::Down => self.cursor_down(1),
            KeyAction::PageUp => self.cursor_up(page),
            KeyAction::PageDown => self.cursor_down(page),
            KeyAction::Home => self.cursor_home(),
            KeyAction::End => self.cursor_end(),
            KeyAction::OpenPrompt => self.open_refresh_prompt(),
            KeyAction::ToggleExtended => {
                self.extended = !self.extended;
            },
            KeyAction::SortLeft => self.cycle_sort(-1),
            KeyAction::SortRight => self.cycle_sort(1),
            KeyAction::ReverseSort => {
                self.sort_desc = !self.sort_desc;
            },
            KeyAction::ForceRefresh => {
                self.force_refresh = true;
            },
            KeyAction::Kill(mode) => self.request_kill(mode),
            KeyAction::Nothing => {},
        }
        self.should_exit
    }
}


// ---------------------------------------------------------------------------
// Laws of the state machine.
// ---------------------------------------------------------------------------

/// Any interval the refresh prompt accepts lies between the limits.
pub proof fn lemma_refresh_within_limits(s: Seq<char>)
    ensures
        refresh_from_text(s) matches Some(n) ==> MIN_REFRESH_NANOS <= n <= MAX_REFRESH_NANOS,
{
}

/// No key press moves the refresh interval outside its limits.
pub proof fn lemma_key_keeps_refresh_in_limits(a: App, b: App, key: KeyEvent, page: usize)
    requires
        a.key_step(b, key, page),
        MIN_REFRESH_NANOS <= a.refresh_nanos <= MAX_REFRESH_NANOS,
    ensures
        MIN_REFRESH_NANOS <= b.refresh_nanos <= MAX_REFRESH_NANOS,
{
    if let Some(p) = a.prompt {
        lemma_refresh_within_limits(p.buffer@);
    }
}

/// The cursor stays on a valid row: every key press keeps it within the
/// rows (or at 0 when there are none) if it was, and a new snapshot always
/// brings it back within them.
pub proof fn lemma_cursor_stays_in_bounds(a: App, b: App, key: KeyEvent, page: usize, snap: Snapshot)
    requires
        a.key_step(b, key, page),
        a.selected_row <= a.last_row(),
    ensures
        b.selected_row <= b.last_row(),
        a.with_snapshot(snap).selected_row <= a.with_snapshot(snap).last_row(),
{
}

/// A new snapshot leaves a cursor that is still valid where it was.
pub proof fn lemma_snapshot_keeps_valid_cursor(a: App, snap: Snapshot)
    requires
        a.selected_row <= sat_sub(snap.rows@.len() as int, 1),
    ensures
        a.with_snapshot(snap).selected_row == a.selected_row,
        a.with_snapshot(snap).stale_ticks == 0,
        a.with_snapshot(snap).last_error is None,
{
}

/// Cycling the sort column right then left returns to the same column,
/// and nine steps in either direction go all the way round.
pub proof fn lemma_sort_cycle_inverse(c: SortColumn)
    ensures
        c.stepped(1).stepped(-1) == c,
        c.stepped(-1).stepped(1) == c,
        c.stepped(9) == c,
        c.stepped(-9) == c,
{
}

/// Stepping `d` positions through the sort columns and then `d` positions
/// back returns to the same column, for every `d`; and any whole multiple
/// of nine steps, in either direction, goes all the way round.
pub proof fn lemma_step_laws(c: SortColumn, d: int, k: int)
    ensures
        c.stepped(d).stepped(-d) == c,
        c.stepped(9 * k) == c,
{
    let i = c.index_of();
    let j = (i + d) % 9;
    assert(SortColumn::at_index(j).index_of() == j);
    vstd::arithmetic::div_mod::lemma_add_mod_noop(i + d, -d, 9);
    vstd::arithmetic::div_mod::lemma_add_mod_noop(j, -d, 9);
    vstd::arithmetic::div_mod::lemma_small_mod(j as nat, 9);
    vstd::arithmetic::div_mod::lemma_small_mod(i as nat, 9);
    assert((j - d) % 9 == i);
    vstd::arithmetic::div_mod::lemma_mod_multiples_vanish(k, i, 9);
    assert(i + 9 * k == 9 * k + i);
}

/// Outside the prompt and the kill confirmation, `>`, `.` and → move the
/// sort one column right and `<`, `,` and ← one column left, in the
/// cycling order and wrapping at the ends, whatever modifiers are held.
pub proof fn lemma_sort_keys(a: App, b: App, key: KeyEvent, page: usize)
    requires
        a.key_step(b, key, page),
        a.prompt is None,
        a.kill_confirm is None,
    ensures
        key.code == KeyCode::Char('>') || key.code == KeyCode::Char('.') || key.code == KeyCode::Right
            ==> b.sort_column.index_of() == (a.sort_column.index_of() + 1) % 9,
        key.code == KeyCode::Char('<') || key.code == KeyCode::Char(',') || key.code == KeyCode::Left
            ==> b.sort_column.index_of() == (a.sort_column.index_of() + 8) % 9,
{
    let i = a.sort_column.index_of();
    assert(SortColumn::at_index((i + 1) % 9).index_of() == (i + 1) % 9);
    assert(SortColumn::at_index((i - 1) % 9).index_of() == (i - 1) % 9);
    assert((i - 1) % 9 == (i + 8) % 9);
}

/// Outside the prompt and the kill confirmation: `q`, `Esc` and Ctrl-C ask
/// to exit; `r` reverses the sort direction and keeps the column; `e`
/// toggles the extended columns; space asks for an immediate refresh; `s`
/// opens the refresh prompt; ↑ and ↓ move the cursor one row, stopping at
/// the first and the last row, and PgUp / PgDn a page of rows (at least
/// one); Home and End jump to the first and the last row.
pub proof fn lemma_key_effects(a: App, b: App, key: KeyEvent, page: usize)
    requires
        a.key_step(b, key, page),
        a.prompt is None,
        a.kill_confirm is None,
    ensures
        key.code == KeyCode::Esc || key.code == KeyCode::Char('q') || (key.code == KeyCode::Char('c')
            && key.modifiers.control) ==> b.should_exit,
        key.code == KeyCode::Char('r') ==> b.sort_desc == !a.sort_desc && b.sort_column == a.sort_column,
        key.code == KeyCode::Char('e') ==> b.extended == !a.extended,
        key.code == KeyCode::Char(' ') ==> b.force_refresh,
        key.code == KeyCode::Char('s') ==> b.prompt is Some && b.should_exit == a.should_exit,
        key.code == KeyCode::Up ==> b.selected_row == (if a.selected_row > 0 {
            a.selected_row - 1
        } else {
            0
        }),
        key.code == KeyCode::Down && a.selected_row < a.last_row() && a.last_row() <= usize::MAX
            ==> b.selected_row == a.selected_row + 1,
        key.code == KeyCode::Down && a.selected_row >= a.last_row() ==> b.selected_row == a.last_row(),
        key.code == KeyCode::PageUp ==> b.selected_row == (if a.selected_row > page && page >= 1 {
            a.selected_row - page
        } else if a.selected_row > 1 && page == 0 {
            a.selected_row - 1
        } else {
            0
        }),
        key.code == KeyCode::Home ==> b.selected_row == 0,
        key.code == KeyCode::End && a.last_row() <= usize::MAX ==> b.selected_row == a.last_row(),
{
}

/// While the refresh prompt is open every key goes to the prompt: nothing
/// exits, and the sort, cursor, kill state and overlay are untouched.
pub proof fn lemma_prompt_swallows_keys(a: App, b: App, key: KeyEvent, page: usize)
    requires
        a.key_step(b, key, page),
        a.prompt is Some,
    ensures
        b.should_exit == a.should_exit,
        b.selected_row == a.selected_row,
        b.sort_column == a.sort_column,
        b.sort_desc == a.sort_desc,
        b.kill_confirm == a.kill_confirm,
        b.kill_pending == a.kill_pending,
        b.last_key == a.last_key,
{
}

/// While a kill confirmation is open, `y`/`Y` approves it and any other
/// key cancels it; either way the confirmation closes and nothing exits.
pub proof fn lemma_kill_confirmation(a: App, b: App, key: KeyEvent, page: usize)
    requires
        a.key_step(b, key, page),
        a.prompt is None,
        a.kill_confirm is Some,
    ensures
        b.kill_confirm is None,
        b.should_exit == a.should_exit,
        b.kill_pending == (if key.code == KeyCode::Char('y') || key.code == KeyCode::Char('Y') {
            a.kill_confirm
        } else {
            a.kill_pending
        }),
{
}

/// A confirmation is only ever opened for the highlighted row of the
/// sorted table, and never for a backend whose pid is not positive.
pub proof fn lemma_kill_targets_highlighted_row(a: App, b: App, key: KeyEvent, page: usize)
    requires
        a.key_step(b, key, page),
        a.kill_confirm is None,
        b.kill_confirm is Some,
    ensures
        a.prompt is None,
        a.selected_display_row() is Some,
        b.kill_confirm->0.pid == a.selected_display_row()->0.pid,
        b.kill_confirm->0.pid > 0,
{
}

/// Nothing is recorded for the overlay unless overlays are switched on.
pub proof fn lemma_overlay_off_by_default(a: App, b: App, key: KeyEvent, page: usize)
    requires
        a.key_step(b, key, page),
        !a.show_keys,
    ensures
        b.last_key == a.last_key,
{
}

} // verus!
