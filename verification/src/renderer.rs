//! What the frame shows: size checks, header text and footer text. The
//! drawing itself is done by the terminal front end.

use vstd::prelude::*;

use crate::state::Snapshot;
use crate::text::{chars_of, i64_to_string, int_text, int_text_padded, push_str, push_u64_padded, string_from};
use crate::views::activity::{shorten_chars, shortened};

verus! {

/// Minimum terminal height below which a "too small" stub is drawn.
pub const MIN_ROWS: u16 = 24;

/// Minimum terminal width below which a "too small" stub is drawn.
pub const MIN_COLS: u16 = 80;

/// Whether a terminal of `width` × `height` cells is too small for the UI.
pub fn terminal_too_small(width: u16, height: u16) -> (r: bool)
    ensures
        r == (width < MIN_COLS || height < MIN_ROWS),
{
    width < MIN_COLS || height < MIN_ROWS
}

/// Rows per page for a terminal `height` rows tall: what is left after the
/// 8 rows of chrome, and at least 1.
pub fn page_size_for_height(height: u16) -> (r: usize)
    ensures
        r == (if height > 9 { height - 8 } else { 1 }),
{
    if height > 9 {
        (height - 8) as usize
    } else {
        1
    }
}

/// Uptime in human units: seconds below a minute, minutes below an hour,
/// then `NhMMm` below a day and `NdHHh` beyond. Negative counts as 0.
pub open spec fn uptime_text(secs: int) -> Seq<char> {
    let s = if secs < 0 { 0 } else { secs };
    if s < 60 {
        int_text(s) + "s"@
    } else if s < 3600 {
        int_text(s / 60) + "m"@
    } else if s < 86_400 {
        int_text(s / 3600) + "h"@ + int_text_padded((s % 3600) / 60, 2) + "m"@
    } else {
        int_text(s / 86_400) + "d"@ + int_text_padded((s % 86_400) / 3600, 2) + "h"@
    }
}

/// The uptime shown is the elapsed time cut down to the units shown:
/// whole seconds under a minute, whole minutes under an hour, hours and
/// the whole minutes past the hour (two digits) under a day, and days and
/// the whole hours past the day (two digits) beyond; a negative uptime
/// shows as `0s`.
pub proof fn lemma_uptime_text_truncates(secs: int)
    ensures
        secs < 0 ==> uptime_text(secs) == "0"@ + "s"@,
        0 <= secs < 60 ==> uptime_text(secs) == int_text(secs) + "s"@,
        60 <= secs < 3600 ==> exists|m: int|
            #![trigger int_text(m)]
            1 <= m < 60 && m * 60 <= secs < m * 60 + 60 && uptime_text(secs) == int_text(m) + "m"@,
        3600 <= secs < 86_400 ==> exists|h: int, m: int|
            #![trigger int_text(h), int_text_padded(m, 2)]
            1 <= h < 24 && 0 <= m < 60 && h * 3600 + m * 60 <= secs < h * 3600 + m * 60 + 60
                && uptime_text(secs) == int_text(h) + "h"@ + int_text_padded(m, 2) + "m"@,
        86_400 <= secs ==> exists|d: int, h: int|
            #![trigger int_text(d), int_text_padded(h, 2)]
            1 <= d && 0 <= h < 24 && d * 86_400 + h * 3600 <= secs < d * 86_400 + h * 3600 + 3600
                && uptime_text(secs) == int_text(d) + "d"@ + int_text_padded(h, 2) + "h"@,
{
    if secs < 0 {
        reveal_strlit("0");
        assert(int_text(0) =~= "0"@);
    } else if 60 <= secs < 3600 {
        let m = secs / 60;
        assert(m * 60 <= secs < m * 60 + 60);
        assert(uptime_text(secs) == int_text(m) + "m"@);
    } else if 3600 <= secs < 86_400 {
        let h = secs / 3600;
        let m = (secs % 3600) / 60;
        assert(h * 3600 + m * 60 <= secs < h * 3600 + m * 60 + 60);
        assert(uptime_text(secs) == int_text(h) + "h"@ + int_text_padded(m, 2) + "m"@);
    } else if 86_400 <= secs {
        let d = secs / 86_400;
        let h = (secs % 86_400) / 3600;
        assert(d * 86_400 + h * 3600 <= secs < d * 86_400 + h * 3600 + 3600);
        assert(uptime_text(secs) == int_text(d) + "d"@ + int_text_padded(h, 2) + "h"@);
    }
}

/// Uptime in human units.
pub fn format_uptime(secs: i64) -> (r: String)
    ensures
        r@ == uptime_text(secs as int),
{
    let s: u64 = if secs < 0 { 0 } else { secs as u64 };
    let mut out = String::new();
    if s < 60 {
        push_u64_padded(&mut out, s, 0);
        push_str(&mut out, "s");
    } else if s < 3600 {
        push_u64_padded(&mut out, s / 60, 0);
        push_str(&mut out, "m");
    } else if s < 86_400 {
        push_u64_padded(&mut out, s / 3600, 0);
        push_str(&mut out, "h");
        push_u64_padded(&mut out, (s % 3600) / 60, 2);
        push_str(&mut out, "m");
    } else {
        push_u64_padded(&mut out, s / 86_400, 0);
        push_str(&mut out, "d");
        push_u64_padded(&mut out, (s % 86_400) / 3600, 2);
        push_str(&mut out, "h");
    }
    out
}

/// `s` with newlines and carriage returns turned into spaces.
pub open spec fn one_line(s: Seq<char>) -> Seq<char> {
    Seq::new(s.len(), |i: int| if s[i] == '\n' || s[i] == '\r' { ' ' } else { s[i] })
}

/// An error message on one line, shortened to `max` characters (ending in
/// `…` when cut).
pub fn truncate_err(s: &str, max: usize) -> (r: String)
    ensures
        r@ == shortened(one_line(s@), max as int),
{
    let v = chars_of(s);
    let n = v.len();
    let mut cleaned: Vec<char> = Vec::new();
    for i in 0..n
        invariant
            n == v@.len(),
            v@ == s@,
            cleaned@ == one_line(v@).take(i as int),
    {
        let c = v[i];
        cleaned.push(if c == '\n' || c == '\r' { ' ' } else { c });
        assert(one_line(v@).take(i + 1) == one_line(v@).take(i as int).push(one_line(v@)[i as int]));
    }
    assert(one_line(v@).take(n as int) == one_line(v@));
    shorten_chars(&cleaned, max)
}

/// Footer text for a sampler error in a footer `width` cells wide: the
/// message on one line, cut to the width left after the ` error ` label.
pub fn footer_error_text(err: &str, width: u16) -> (r: String)
    ensures
        r@ == shortened(one_line(err@), if width >= 8 { width - 8 } else { 0 }),
{
    let room: usize = if width >= 8 { (width - 8) as usize } else { 0 };
    truncate_err(err, room)
}

/// Role label of the server: `standby` while in recovery, else `primary`.
pub fn recovery_label(in_recovery: bool) -> (r: &'static str)
    ensures
        r@ == (if in_recovery { "standby"@ } else { "primary"@ }),
{
    if in_recovery {
        "standby"
    } else {
        "primary"
    }
}

/// Palette role of a piece of header text.
#[derive(Debug, Clone, Copy, PartialEq, Eq)]
pub enum SpanRole {
    Muted,
    Plain,
    StatusOk,
    StatusStale,
}

/// A piece of header text and the palette role it is drawn in.
#[derive(Debug, Clone)]
pub struct HeaderSpan {
    pub role: SpanRole,
    pub text: String,
}

/// A header span as its role and characters.
pub open spec fn span_view(s: HeaderSpan) -> (SpanRole, Seq<char>) {
    (s.role, s.text@)
}

/// Left half of the header: database, user, version, role, uptime and
/// sample time, or `connecting…` before the first sample.
pub open spec fn summary_spans_spec(snap: Option<Snapshot>) -> Seq<(SpanRole, Seq<char>)> {
    match snap {
        Some(s) => seq![
            (SpanRole::Muted, "db "@),
            (SpanRole::Plain, s.server.db_name@),
            (SpanRole::Muted, "  user "@),
            (SpanRole::Plain, s.server.user@),
            (SpanRole::Muted, "  pg "@),
            (SpanRole::Plain, s.server.pg_version@),
            (SpanRole::Muted, "  "@),
            (SpanRole::Plain, if s.server.in_recovery { "standby"@ } else { "primary"@ }),
            (SpanRole::Muted, "  uptime "@),
            (SpanRole::Plain, uptime_text(s.server.uptime_secs as int)),
            (SpanRole::Muted, "  as of T"@),
            (SpanRole::Plain, int_text(s.ts as int)),
        ],
        None => seq![(SpanRole::Muted, "connecting…"@)],
    }
}

/// Right half of the header: a connection dot (healthy when a snapshot is
/// shown and no tick was missed since), the backend counts, and a `stale N`
/// badge after missed ticks.
pub open spec fn counts_spans_spec(snap: Option<Snapshot>, stale_ticks: u32) -> Seq<(SpanRole, Seq<char>)> {
    let dot = (
        if stale_ticks == 0 && snap is Some { SpanRole::StatusOk } else { SpanRole::StatusStale },
        "● "@,
    );
    match snap {
        Some(s) => seq![
            dot,
            (SpanRole::Muted, "active "@),
            (SpanRole::Plain, int_text(s.server.active as int)),
            (SpanRole::Muted, "  idle-in-tx "@),
            (SpanRole::Plain, int_text(s.server.idle_in_tx as int)),
            (SpanRole::Muted, "  wait "@),
            (SpanRole::Plain, int_text(s.server.waiting as int)),
            (SpanRole::Muted, "  total "@),
            (SpanRole::Plain, int_text(s.server.total_backends as int)),
        ] + if stale_ticks > 0 {
            seq![(SpanRole::StatusStale, "  stale "@ + int_text(stale_ticks as int))]
        } else {
            Seq::empty()
        },
        None => seq![dot, (SpanRole::Muted, "active –  idle-in-tx –  wait –  total –"@)],
    }
}

fn span(role: SpanRole, text: &str) -> (r: HeaderSpan)
    ensures
        span_view(r) == (role, text@),
{
    HeaderSpan { role, text: string_from(text) }
}

fn number_span(v: u64) -> (r: HeaderSpan)
    ensures
        span_view(r) == (SpanRole::Plain, int_text(v as int)),
{
    let mut text = String::new();
    push_u64_padded(&mut text, v, 0);
    HeaderSpan { role: SpanRole::Plain, text }
}

/// Left half of the header bar.
pub fn summary_spans(snap: Option<&Snapshot>) -> (r: Vec<HeaderSpan>)
    ensures
        r@.map_values(|h: HeaderSpan| span_view(h)) == summary_spans_spec(
            match snap {
                Some(s) => Some(*s),
                None => None,
            },
        ),
{
    let mut v: Vec<HeaderSpan> = Vec::new();
    match snap {
        Some(s) => {
            v.push(span(SpanRole::Muted, "db "));
            v.push(HeaderSpan { role: SpanRole::Plain, text: s.server.db_name.clone() });
            v.push(span(SpanRole::Muted, "  user "));
            v.push(HeaderSpan { role: SpanRole::Plain, text: s.server.user.clone() });
            v.push(span(SpanRole::Muted, "  pg "));
            v.push(HeaderSpan { role: SpanRole::Plain, text: s.server.pg_version.clone() });
            v.push(span(SpanRole::Muted, "  "));
            v.push(span(SpanRole::Plain, recovery_label(s.server.in_recovery)));
            v.push(span(SpanRole::Muted, "  uptime "));
            v.push(HeaderSpan { role: SpanRole::Plain, text: format_uptime(s.server.uptime_secs) });
            v.push(span(SpanRole::Muted, "  as of T"));
            v.push(HeaderSpan { role: SpanRole::Plain, text: i64_to_string(s.ts) });
        },
        None => {
            v.push(span(SpanRole::Muted, "connecting…"));
        },
    }
    proof {
        assert(v@.map_values(|h: HeaderSpan| span_view(h)) =~= summary_spans_spec(
            match snap {
                Some(s) => Some(*s),
                None => None,
            },
        ));
    }
    v
}

/// Right half of the header bar.
pub fn counts_spans(snap: Option<&Snapshot>, stale_ticks: u32) -> (r: Vec<HeaderSpan>)
    ensures
        r@.map_values(|h: HeaderSpan| span_view(h)) == counts_spans_spec(
            match snap {
                Some(s) => Some(*s),
                None => None,
            },
            stale_ticks,
        ),
{
    let mut v: Vec<HeaderSpan> = Vec::new();
    let dot_role = if stale_ticks == 0 && snap.is_some() {
        SpanRole::StatusOk
    } else {
        SpanRole::StatusStale
    };
    v.push(span(dot_role, "● "));
    match snap {
        Some(s) => {
            v.push(span(SpanRole::Muted, "active "));
            v.push(number_span(s.server.active as u64));
            v.push(span(SpanRole::Muted, "  idle-in-tx "));
            v.push(number_span(s.server.idle_in_tx as u64));
            v.push(span(SpanRole::Muted, "  wait "));
            v.push(number_span(s.server.waiting as u64));
            v.push(span(SpanRole::Muted, "  total "));
            v.push(number_span(s.server.total_backends as u64));
            if stale_ticks > 0 {
                let mut text = string_from("  stale ");
                push_u64_padded(&mut text, stale_ticks as u64, 0);
                v.push(HeaderSpan { role: SpanRole::StatusStale, text });
            }
        },
        None => {
            v.push(span(SpanRole::Muted, "active –  idle-in-tx –  wait –  total –"));
        },
    }
    proof {
        assert(v@.map_values(|h: HeaderSpan| span_view(h)) =~= counts_spans_spec(
            match snap {
                Some(s) => Some(*s),
                None => None,
            },
            stale_ticks,
        ));
    }
    v
}

} // verus!
