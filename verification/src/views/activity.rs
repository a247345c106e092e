//! Activity view — one row per backend from `pg_stat_activity`.
//!
//! This module holds what the view decides: the order rows are shown in,
//! the text of every cell and which palette role colours it. Drawing the
//! table is left to the terminal front end.

use vstd::prelude::*;

use crate::state::{ActivityRow, SortColumn};
use crate::text::{
    chars_of, collapse_spaces, i64_to_string, int_text, is_control, is_control_char, join_chars,
    push_char, push_str, push_u64_padded, replace_all, replace_str, split_words, str_equal, string_from,
    string_of, words, word_scan, is_space_char, decimal_digits, digit_char, join_with, lemma_words_are_nonempty, has_prefix, starts_with_str, round_half_even, round_div,
    lemma_round_half_even_nearest,
};

verus! {

// ---------------------------------------------------------------------------
// Orders on the sort keys.
// ---------------------------------------------------------------------------

/// Result of comparing two sort keys.
#[derive(Debug, Clone, Copy, PartialEq, Eq)]
pub enum KeyOrder {
    Less,
    Equal,
    Greater,
}

/// The order with `Less` and `Greater` swapped.
pub open spec fn flipped(o: KeyOrder) -> KeyOrder {
    match o {
        KeyOrder::Less => KeyOrder::Greater,
        KeyOrder::Equal => KeyOrder::Equal,
        KeyOrder::Greater => KeyOrder::Less,
    }
}

/// Order of two integers.
pub open spec fn int_order(a: int, b: int) -> KeyOrder {
    if a < b {
        KeyOrder::Less
    } else if a == b {
        KeyOrder::Equal
    } else {
        KeyOrder::Greater
    }
}

/// Lexicographic order of character sequences by code point, which is the
/// byte order of their UTF-8 encodings (`str`'s `Ord`).
pub open spec fn text_order(a: Seq<char>, b: Seq<char>) -> KeyOrder
    decreases a.len(),
{
    if a.len() == 0 {
        if b.len() == 0 {
            KeyOrder::Equal
        } else {
            KeyOrder::Less
        }
    } else if b.len() == 0 {
        KeyOrder::Greater
    } else if a[0] < b[0] {
        KeyOrder::Less
    } else if a[0] > b[0] {
        KeyOrder::Greater
    } else {
        text_order(a.drop_first(), b.drop_first())
    }
}

/// Order of optional elapsed times: absent sorts before any present value.
pub open spec fn elapsed_order(a: Option<i64>, b: Option<i64>) -> KeyOrder {
    match (a, b) {
        (Some(x), Some(y)) => int_order(x as int, y as int),
        (Some(_), None) => KeyOrder::Greater,
        (None, Some(_)) => KeyOrder::Less,
        (None, None) => KeyOrder::Equal,
    }
}

/// Text of the `wait` column: `Type:Event`, `Type` alone when the event is
/// blank, `CPU*` for an active backend with no wait, empty otherwise.
pub open spec fn wait_label_spec(r: ActivityRow) -> Seq<char> {
    if r.wait_event_type@.len() == 0 {
        if r.state@ == "active"@ {
            "CPU*"@
        } else {
            Seq::empty()
        }
    } else if r.wait_event@.len() == 0 {
        r.wait_event_type@
    } else {
        r.wait_event_type@ + ":"@ + r.wait_event@
    }
}

/// Order of two rows on the given column, ascending.
pub open spec fn row_order(a: ActivityRow, b: ActivityRow, col: SortColumn) -> KeyOrder {
    match col {
        SortColumn::Pid => int_order(a.pid as int, b.pid as int),
        SortColumn::User => text_order(a.usename@, b.usename@),
        SortColumn::Db => text_order(a.datname@, b.datname@),
        SortColumn::State => text_order(a.state@, b.state@),
        SortColumn::Wait => text_order(wait_label_spec(a), wait_label_spec(b)),
        SortColumn::Qtime => elapsed_order(a.qtime_micros, b.qtime_micros),
        SortColumn::Xtime => elapsed_order(a.xtime_micros, b.xtime_micros),
        SortColumn::Locks => int_order(a.locks_held as int, b.locks_held as int),
        SortColumn::Query => text_order(a.query@, b.query@),
    }
}

/// `o`, reversed when sorting descending.
pub open spec fn directed(o: KeyOrder, desc: bool) -> KeyOrder {
    if desc {
        flipped(o)
    } else {
        o
    }
}

/// Row `i` comes before row `j` in the stable sort of `rows` on `col`:
/// its key is smaller (larger when descending), or the keys tie and it
/// came first.
pub open spec fn row_precedes(rows: Seq<ActivityRow>, col: SortColumn, desc: bool, i: int, j: int) -> bool {
    let o = directed(row_order(rows[i], rows[j], col), desc);
    o == KeyOrder::Less || (o == KeyOrder::Equal && i < j)
}

/// `order` lists every row index once, in stable-sorted order.
pub open spec fn is_sorted_order(rows: Seq<ActivityRow>, col: SortColumn, desc: bool, order: Seq<usize>) -> bool {
    &&& order.len() == rows.len()
    &&& forall|p: int| 0 <= p < order.len() ==> #[trigger] order[p] < rows.len()
    &&& forall|j: usize| j < rows.len() ==> #[trigger] order.contains(j)
    &&& forall|p: int, q: int|
        0 <= p < q < order.len() ==> row_precedes(rows, col, desc, #[trigger] order[p] as int, #[trigger] order[q] as int)
}

/// The stable-sorted order of `rows` on `col` (unique, see
/// [`lemma_sorted_order_unique`]).
pub open spec fn sorted_order(rows: Seq<ActivityRow>, col: SortColumn, desc: bool) -> Seq<usize> {
    choose|order: Seq<usize>| is_sorted_order(rows, col, desc, order)
}

// ---------------------------------------------------------------------------
// The orders are total preorders.
// ---------------------------------------------------------------------------

proof fn lemma_text_order_props(a: Seq<char>, b: Seq<char>)
    ensures
        text_order(b, a) == flipped(text_order(a, b)),
        text_order(a, b) == KeyOrder::Equal <==> a == b,
    decreases a.len(),
{
    if a.len() > 0 && b.len() > 0 && a[0] == b[0] {
        lemma_text_order_props(a.drop_first(), b.drop_first());
        if a.drop_first() == b.drop_first() {
            assert(a =~= seq![a[0]] + a.drop_first());
            assert(b =~= seq![b[0]] + b.drop_first());
        }
    }
    if a.len() == 0 && b.len() == 0 {
        assert(a =~= b);
    }
}

proof fn lemma_text_order_trans(a: Seq<char>, b: Seq<char>, c: Seq<char>)
    requires
        text_order(a, b) != KeyOrder::Greater,
        text_order(b, c) != KeyOrder::Greater,
    ensures
        text_order(a, c) != KeyOrder::Greater,
        (text_order(a, b) == KeyOrder::Less || text_order(b, c) == KeyOrder::Less)
            ==> text_order(a, c) == KeyOrder::Less,
    decreases a.len(),
{
    if a.len() > 0 && b.len() > 0 && c.len() > 0 && a[0] == b[0] && b[0] == c[0] {
        lemma_text_order_trans(a.drop_first(), b.drop_first(), c.drop_first());
    }
}

proof fn lemma_row_order_props(a: ActivityRow, b: ActivityRow, col: SortColumn)
    ensures
        row_order(b, a, col) == flipped(row_order(a, b, col)),
        row_order(a, a, col) == KeyOrder::Equal,
{
    match col {
        SortColumn::User => {
            lemma_text_order_props(a.usename@, b.usename@);
            lemma_text_order_props(a.usename@, a.usename@);
        },
        SortColumn::Db => {
            lemma_text_order_props(a.datname@, b.datname@);
            lemma_text_order_props(a.datname@, a.datname@);
        },
        SortColumn::State => {
            lemma_text_order_props(a.state@, b.state@);
            lemma_text_order_props(a.state@, a.state@);
        },
        SortColumn::Wait => {
            lemma_text_order_props(wait_label_spec(a), wait_label_spec(b));
            lemma_text_order_props(wait_label_spec(a), wait_label_spec(a));
        },
        SortColumn::Query => {
            lemma_text_order_props(a.query@, b.query@);
            lemma_text_order_props(a.query@, a.query@);
        },
        _ => {},
    }
}

proof fn lemma_row_order_trans(a: ActivityRow, b: ActivityRow, c: ActivityRow, col: SortColumn)
    requires
        row_order(a, b, col) != KeyOrder::Greater,
        row_order(b, c, col) != KeyOrder::Greater,
    ensures
        row_order(a, c, col) != KeyOrder::Greater,
        (row_order(a, b, col) == KeyOrder::Less || row_order(b, c, col) == KeyOrder::Less)
            ==> row_order(a, c, col) == KeyOrder::Less,
{
    match col {
        SortColumn::User => lemma_text_order_trans(a.usename@, b.usename@, c.usename@),
        SortColumn::Db => lemma_text_order_trans(a.datname@, b.datname@, c.datname@),
        SortColumn::State => lemma_text_order_trans(a.state@, b.state@, c.state@),
        SortColumn::Wait => lemma_text_order_trans(wait_label_spec(a), wait_label_spec(b), wait_label_spec(c)),
        SortColumn::Query => lemma_text_order_trans(a.query@, b.query@, c.query@),
        _ => {},
    }
}

/// `row_precedes` is a strict total order on the row indices.
pub proof fn lemma_row_precedes_strict_total(
    rows: Seq<ActivityRow>,
    col: SortColumn,
    desc: bool,
    i: int,
    j: int,
    k: int,
)
    requires
        0 <= i < rows.len(),
        0 <= j < rows.len(),
        0 <= k < rows.len(),
    ensures
        !row_precedes(rows, col, desc, i, i),
        i != j ==> (row_precedes(rows, col, desc, i, j) || row_precedes(rows, col, desc, j, i)),
        row_precedes(rows, col, desc, i, j) ==> !row_precedes(rows, col, desc, j, i),
        row_precedes(rows, col, desc, i, j) && row_precedes(rows, col, desc, j, k)
            ==> row_precedes(rows, col, desc, i, k),
{
    lemma_row_order_props(rows[i], rows[j], col);
    lemma_row_order_props(rows[i], rows[i], col);
    if row_precedes(rows, col, desc, i, j) && row_precedes(rows, col, desc, j, k) {
        lemma_row_order_props(rows[j], rows[k], col);
        lemma_row_order_props(rows[i], rows[k], col);
        if desc {
            lemma_row_order_trans(rows[k], rows[j], rows[i], col);
        } else {
            lemma_row_order_trans(rows[i], rows[j], rows[k], col);
        }
    }
}

/// There is exactly one stable-sorted order: any two orders that both list
/// every row once in sorted order are equal.
pub proof fn lemma_sorted_order_unique(
    rows: Seq<ActivityRow>,
    col: SortColumn,
    desc: bool,
    a: Seq<usize>,
    b: Seq<usize>,
)
    requires
        is_sorted_order(rows, col, desc, a),
        is_sorted_order(rows, col, desc, b),
    ensures
        a == b,
{
    if a != b {
        assert(exists|p: int| 0 <= p < a.len() && a[p] != b[p]) by {
            if !(exists|p: int| 0 <= p < a.len() && a[p] != b[p]) {
                assert(a =~= b);
            }
        }
        // The first position where the orders differ.
        let p0 = choose|p: int| 0 <= p < a.len() && a[p] != b[p];
        let p = first_difference(a, b, p0);
        let x = a[p] as int;
        let y = b[p] as int;
        lemma_row_precedes_strict_total(rows, col, desc, x, y, x);
        // `y` sits somewhere in `a`, `x` somewhere in `b`.
        let j = choose|j: int| 0 <= j < a.len() && a[j] == y as usize;
        let k = choose|k: int| 0 <= k < b.len() && b[k] == x as usize;
        assert(a.contains(y as usize));
        assert(b.contains(x as usize));
        if j < p {
            assert(b[j] == a[j]);
            assert(b[j] == b[p]);
            lemma_row_precedes_strict_total(rows, col, desc, y, y, y);
            assert(row_precedes(rows, col, desc, b[j] as int, b[p] as int));
        }
        if k < p {
            assert(a[k] == b[k]);
            lemma_row_precedes_strict_total(rows, col, desc, x, x, x);
            assert(row_precedes(rows, col, desc, a[k] as int, a[p] as int));
        }
        assert(j != p);
        assert(k != p);
        assert(row_precedes(rows, col, desc, a[p] as int, a[j] as int));
        assert(row_precedes(rows, col, desc, b[p] as int, b[k] as int));
    }
}

/// The smallest position at or below `p` where `a` and `b` differ.
proof fn first_difference(a: Seq<usize>, b: Seq<usize>, p: int) -> (r: int)
    requires
        0 <= p < a.len(),
        a.len() == b.len(),
        a[p] != b[p],
    ensures
        0 <= r <= p,
        a[r] != b[r],
        forall|q: int| 0 <= q < r ==> a[q] == b[q],
    decreases p,
{
    if exists|q: int| 0 <= q < p && a[q] != b[q] {
        let q = choose|q: int| 0 <= q < p && a[q] != b[q];
        first_difference(a, b, q)
    } else {
        p
    }
}

// ---------------------------------------------------------------------------
// Sorting.
// ---------------------------------------------------------------------------

/// A row's value in one sortable column.
pub enum SortKey {
    Number(i64),
    Text(Vec<char>),
    Elapsed(Option<i64>),
}

/// Order of two keys taken from the same column.
pub open spec fn key_order(a: SortKey, b: SortKey) -> KeyOrder {
    match (a, b) {
        (SortKey::Number(x), SortKey::Number(y)) => int_order(x as int, y as int),
        (SortKey::Text(x), SortKey::Text(y)) => text_order(x@, y@),
        (SortKey::Elapsed(x), SortKey::Elapsed(y)) => elapsed_order(x, y),
        _ => KeyOrder::Equal,
    }
}

/// `k` is row `r`'s value in column `col`.
pub open spec fn key_of_row(k: SortKey, r: ActivityRow, col: SortColumn) -> bool {
    match col {
        SortColumn::Pid => k == SortKey::Number(r.pid as i64),
        SortColumn::User => k is Text && k->Text_0@ == r.usename@,
        SortColumn::Db => k is Text && k->Text_0@ == r.datname@,
        SortColumn::State => k is Text && k->Text_0@ == r.state@,
        SortColumn::Wait => k is Text && k->Text_0@ == wait_label_spec(r),
        SortColumn::Qtime => k == SortKey::Elapsed(r.qtime_micros),
        SortColumn::Xtime => k == SortKey::Elapsed(r.xtime_micros),
        SortColumn::Locks => k == SortKey::Number(r.locks_held),
        SortColumn::Query => k is Text && k->Text_0@ == r.query@,
    }
}

proof fn lemma_key_order_is_row_order(ka: SortKey, kb: SortKey, a: ActivityRow, b: ActivityRow, col: SortColumn)
    requires
        key_of_row(ka, a, col),
        key_of_row(kb, b, col),
    ensures
        key_order(ka, kb) == row_order(a, b, col),
{
}

/// Render the `wait` column label, matching `pg_ash`'s `Type:Event` format.
pub fn format_wait_label(r: &ActivityRow) -> (s: String)
    ensures
        s@ == wait_label_spec(*r),
{
    if r.wait_event_type.as_str().is_empty() {
        if str_equal(r.state.as_str(), "active") {
            string_from("CPU*")
        } else {
            String::new()
        }
    } else if r.wait_event.as_str().is_empty() {
        string_from(r.wait_event_type.as_str())
    } else {
        let mut s = string_from(r.wait_event_type.as_str());
        push_str(&mut s, ":");
        push_str(&mut s, r.wait_event.as_str());
        s
    }
}

fn sort_key(r: &ActivityRow, col: SortColumn) -> (k: SortKey)
    ensures
        key_of_row(k, *r, col),
{
    match col {
        SortColumn::Pid => SortKey::Number(r.pid as i64),
        SortColumn::User => SortKey::Text(chars_of(r.usename.as_str())),
        SortColumn::Db => SortKey::Text(chars_of(r.datname.as_str())),
        SortColumn::State => SortKey::Text(chars_of(r.state.as_str())),
        SortColumn::Wait => {
            let w = format_wait_label(r);
            SortKey::Text(chars_of(w.as_str()))
        },
        SortColumn::Qtime => SortKey::Elapsed(r.qtime_micros),
        SortColumn::Xtime => SortKey::Elapsed(r.xtime_micros),
        SortColumn::Locks => SortKey::Number(r.locks_held),
        SortColumn::Query => SortKey::Text(chars_of(r.query.as_str())),
    }
}

fn compare_ints(a: i64, b: i64) -> (o: KeyOrder)
    ensures
        o == int_order(a as int, b as int),
{
    if a < b {
        KeyOrder::Less
    } else if a == b {
        KeyOrder::Equal
    } else {
        KeyOrder::Greater
    }
}

proof fn lemma_text_order_step(a: Seq<char>, b: Seq<char>, i: int)
    requires
        0 <= i < a.len(),
        i < b.len(),
        a[i] == b[i],
    ensures
        text_order(a.skip(i), b.skip(i)) == text_order(a.skip(i + 1), b.skip(i + 1)),
{
    assert(a.skip(i).drop_first() == a.skip(i + 1));
    assert(b.skip(i).drop_first() == b.skip(i + 1));
}

fn compare_text(a: &Vec<char>, b: &Vec<char>) -> (o: KeyOrder)
    ensures
        o == text_order(a@, b@),
{
    let mut i: usize = 0;
    assert(a@.skip(0) == a@);
    assert(b@.skip(0) == b@);
    while i < a.len() && i < b.len()
        invariant
            i <= a@.len(),
            i <= b@.len(),
            text_order(a@, b@) == text_order(a@.skip(i as int), b@.skip(i as int)),
        decreases a@.len() - i,
    {
        if a[i] < b[i] {
            return KeyOrder::Less;
        } else if a[i] > b[i] {
            return KeyOrder::Greater;
        }
        proof {
            lemma_text_order_step(a@, b@, i as int);
        }
        i = i + 1;
    }
    if i == a.len() {
        if i == b.len() {
            KeyOrder::Equal
        } else {
            KeyOrder::Less
        }
    } else {
        KeyOrder::Greater
    }
}

fn compare_elapsed(a: Option<i64>, b: Option<i64>) -> (o: KeyOrder)
    ensures
        o == elapsed_order(a, b),
{
    match (a, b) {
        (Some(x), Some(y)) => compare_ints(x, y),
        (Some(_), None) => KeyOrder::Greater,
        (None, Some(_)) => KeyOrder::Less,
        (None, None) => KeyOrder::Equal,
    }
}

fn compare_keys(a: &SortKey, b: &SortKey) -> (o: KeyOrder)
    ensures
        o == key_order(*a, *b),
{
    match (a, b) {
        (SortKey::Number(x), SortKey::Number(y)) => compare_ints(*x, *y),
        (SortKey::Text(x), SortKey::Text(y)) => compare_text(x, y),
        (SortKey::Elapsed(x), SortKey::Elapsed(y)) => compare_elapsed(*x, *y),
        _ => KeyOrder::Equal,
    }
}

/// The stable-sorted order of `rows` on `col`, ascending or descending:
/// the row indices in display order. Rows whose keys tie keep their
/// sampled order, in either direction.
pub fn sorted_row_order(rows: &Vec<ActivityRow>, col: SortColumn, desc: bool) -> (order: Vec<usize>)
    ensures
        is_sorted_order(rows@, col, desc, order@),
        order@ == sorted_order(rows@, col, desc),
{
    let n = rows.len();
    let mut keys: Vec<SortKey> = Vec::new();
    for i in 0..n
        invariant
            n == rows@.len(),
            keys@.len() == i,
            forall|k: int| 0 <= k < i ==> key_of_row(#[trigger] keys@[k], rows@[k], col),
    {
        keys.push(sort_key(&rows[i], col));
    }
    let ghost rs = rows@;
    let mut order: Vec<usize> = Vec::new();
    for j in 0..n
        invariant
            n == rs.len(),
            rs == rows@,
            keys@.len() == n,
            forall|k: int| 0 <= k < n ==> key_of_row(#[trigger] keys@[k], rs[k], col),
            order@.len() == j,
            forall|p: int| 0 <= p < order@.len() ==> #[trigger] order@[p] < j,
            forall|i: usize| i < j ==> #[trigger] order@.contains(i),
            forall|p: int, q: int|
                0 <= p < q < order@.len() ==> row_precedes(rs, col, desc, #[trigger] order@[p] as int, #[trigger] order@[q] as int),
    {
        let mut pos: usize = 0;
        while pos < order.len()
            invariant
                n == rs.len(),
                j < n,
                keys@.len() == n,
                forall|k: int| 0 <= k < n ==> key_of_row(#[trigger] keys@[k], rs[k], col),
                order@.len() == j,
                forall|p: int| 0 <= p < order@.len() ==> #[trigger] order@[p] < j,
                pos <= order@.len(),
                forall|q: int| 0 <= q < pos ==> !row_precedes(rs, col, desc, j as int, #[trigger] order@[q] as int),
            ensures
                pos <= order@.len(),
                forall|q: int| 0 <= q < pos ==> !row_precedes(rs, col, desc, j as int, #[trigger] order@[q] as int),
                pos < order@.len() ==> row_precedes(rs, col, desc, j as int, order@[pos as int] as int),
            decreases order@.len() - pos,
        {
            let other = order[pos];
            let o = compare_keys(&keys[j], &keys[other]);
            proof {
                lemma_key_order_is_row_order(keys@[j as int], keys@[other as int], rs[j as int], rs[other as int], col);
            }
            let before = match o {
                KeyOrder::Less => !desc,
                KeyOrder::Equal => false,
                KeyOrder::Greater => desc,
            };
            if before {
                break;
            }
            pos = pos + 1;
        }
        let ghost old_order = order@;
        order.insert(pos, j);
        proof {
            assert forall|p: int, q: int|
                0 <= p < q < order@.len() implies row_precedes(rs, col, desc, #[trigger] order@[p] as int, #[trigger] order@[q] as int) by {
                let x = order@[p] as int;
                let y = order@[q] as int;
                if p < pos && q == pos {
                    lemma_row_precedes_strict_total(rs, col, desc, x, y, y);
                } else if p == pos && q > pos {
                    assert(pos < old_order.len());
                    let z = old_order[pos as int] as int;
                    lemma_row_precedes_strict_total(rs, col, desc, y, z, z);
                    lemma_row_precedes_strict_total(rs, col, desc, x, z, y);
                    if q > pos + 1 {
                        assert(row_precedes(rs, col, desc, old_order[pos as int] as int, old_order[q - 1] as int));
                    }
                } else if p < pos && q > pos {
                    assert(row_precedes(rs, col, desc, old_order[p] as int, old_order[q - 1] as int));
                } else if p > pos {
                    assert(row_precedes(rs, col, desc, old_order[p - 1] as int, old_order[q - 1] as int));
                } else {
                    assert(row_precedes(rs, col, desc, old_order[p] as int, old_order[q] as int));
                }
            }
            assert forall|i: usize| i < j + 1 implies #[trigger] order@.contains(i) by {
                if i == j {
                    assert(order@[pos as int] == j);
                } else {
                    assert(old_order.contains(i));
                    let w = choose|w: int| 0 <= w < old_order.len() && old_order[w] == i;
                    if w < pos {
                        assert(order@[w] == i);
                    } else {
                        assert(order@[w + 1] == i);
                    }
                }
            }
        }
    }
    proof {
        assert(is_sorted_order(rs, col, desc, order@));
        lemma_sorted_order_unique(rs, col, desc, order@, sorted_order(rs, col, desc));
    }
    order
}

// ---------------------------------------------------------------------------
// Cell text.
// ---------------------------------------------------------------------------

/// What one input character becomes on screen: tab, newline and carriage
/// return turn into a space; other control characters are dropped;
/// printable Unicode is kept.
pub open spec fn scrub_char(c: char) -> Option<char> {
    if c == '\t' || c == '\n' || c == '\r' {
        Some(' ')
    } else if is_control_char(c) {
        None
    } else {
        Some(c)
    }
}

/// `s` with every character scrubbed as [`scrub_char`] says.
pub open spec fn scrubbed(s: Seq<char>) -> Seq<char>
    decreases s.len(),
{
    if s.len() == 0 {
        Seq::empty()
    } else {
        let rest = scrubbed(s.drop_last());
        match scrub_char(s.last()) {
            Some(c) => rest.push(c),
            None => rest,
        }
    }
}

/// Strip every control character (including ESC, BEL, BS, DEL and the C1
/// range) from a string before it reaches the terminal; whitespace
/// controls become a single space each. Any field of `pg_stat_activity` is
/// settable by a connected client and could otherwise carry escape
/// sequences that the operator's terminal would execute. Printable Unicode
/// is preserved.
pub fn scrub_terminal_unsafe(s: &str) -> (r: String)
    ensures
        r@ == scrubbed(s@),
{
    let v = chars_of(s);
    let n = v.len();
    let mut out = String::new();
    for i in 0..n
        invariant
            n == v@.len(),
            v@ == s@,
            out@ == scrubbed(v@.take(i as int)),
    {
        let c = v[i];
        assert(v@.take(i + 1).drop_last() == v@.take(i as int));
        if c == '\t' || c == '\n' || c == '\r' {
            push_char(&mut out, ' ');
        } else if is_control(c) {
        } else {
            push_char(&mut out, c);
        }
    }
    assert(v@.take(n as int) == v@);
    out
}

/// `s` shortened to `max` characters, the last of them `…`, when longer.
pub open spec fn shortened(s: Seq<char>, max: int) -> Seq<char> {
    if s.len() <= max {
        s
    } else {
        s.take(if max >= 1 { max - 1 } else { 0 }) + seq!['…']
    }
}

/// Scrub `s` and shorten it to at most `max` characters (at least one: a
/// lone `…` when `max` is 0), ending in `…` when it was cut.
pub fn truncate(s: &str, max: usize) -> (r: String)
    ensures
        r@ == shortened(scrubbed(s@), max as int),
{
    let t = scrub_terminal_unsafe(s);
    let v = chars_of(t.as_str());
    shorten_chars(&v, max)
}

/// `v` shortened as [`shortened`] says.
pub(crate) fn shorten_chars(v: &Vec<char>, max: usize) -> (r: String)
    ensures
        r@ == shortened(v@, max as int),
{
    if v.len() <= max {
        string_of(v)
    } else {
        let keep = if max >= 1 { max - 1 } else { 0 };
        let mut out = String::new();
        for i in 0..keep
            invariant
                keep < v@.len(),
                out@ == v@.take(i as int),
        {
            push_char(&mut out, v[i]);
            assert(v@.take(i + 1) == v@.take(i as int).push(v@[i as int]));
        }
        push_char(&mut out, '…');
        out
    }
}

/// Scrub a query and collapse its whitespace to single spaces.
pub fn squash_query(s: &str) -> (r: String)
    ensures
        r@ == collapse_spaces(scrubbed(s@)),
{
    let t = scrub_terminal_unsafe(s);
    let ws = split_words(t.as_str());
    let joined = join_chars(&ws, ' ');
    proof {
        assert(Seq::new(ws@.len(), |i: int| ws@[i]@) =~= words(t@));
    }
    string_of(&joined)
}

/// Text of an elapsed-time cell, from microseconds: `-` when absent or
/// negative, else milliseconds below a second, seconds with one decimal
/// below a minute, then whole minutes, hours and days.
pub open spec fn secs_text(v: Option<i64>) -> Seq<char> {
    match v {
        None => "-"@,
        Some(us) => if us < 0 {
            "-"@
        } else if us < 1_000_000 {
            int_text(round_half_even(us as int, 1000)) + "ms"@
        } else if us < 60_000_000 {
            let tenths = round_half_even(us as int, 100_000);
            int_text(tenths / 10) + "."@ + int_text(tenths % 10) + "s"@
        } else if us < 3_600_000_000 {
            int_text(round_half_even(us as int, 60_000_000)) + "m"@
        } else if us < 86_400_000_000 {
            int_text(round_half_even(us as int, 3_600_000_000)) + "h"@
        } else {
            int_text(round_half_even(us as int, 86_400_000_000)) + "d"@
        },
    }
}

/// `q` counts the units of `d` microseconds nearest to `us`.
pub open spec fn nearest_count(q: int, us: int, d: int) -> bool {
    -d <= 2 * (us - q * d) <= d
}

/// An elapsed-time cell is the time rounded to the nearest unit it shows:
/// milliseconds under a second; seconds with one decimal (the whole seconds
/// in full, then the tenth) under a minute; whole minutes under an hour,
/// whole hours under a day, whole days beyond. A missing or negative time
/// shows as `-`.
pub proof fn lemma_secs_text_rounds(v: Option<i64>)
    ensures
        match v {
            None => secs_text(v) == "-"@,
            Some(us) => {
                &&& us < 0 ==> secs_text(v) == "-"@
                &&& 0 <= us < 1_000_000 ==> exists|q: int|
                    #![trigger int_text(q)]
                    nearest_count(q, us as int, 1000) && secs_text(v) == int_text(q) + "ms"@
                &&& 1_000_000 <= us < 60_000_000 ==> exists|w: int, f: int|
                    #![trigger int_text(w), int_text(f)]
                    0 <= f < 10 && nearest_count(10 * w + f, us as int, 100_000) && secs_text(v)
                        == int_text(w) + "."@ + int_text(f) + "s"@
                &&& 60_000_000 <= us < 3_600_000_000 ==> exists|q: int|
                    #![trigger int_text(q)]
                    nearest_count(q, us as int, 60_000_000) && secs_text(v) == int_text(q) + "m"@
                &&& 3_600_000_000 <= us < 86_400_000_000 ==> exists|q: int|
                    #![trigger int_text(q)]
                    nearest_count(q, us as int, 3_600_000_000) && secs_text(v) == int_text(q) + "h"@
                &&& 86_400_000_000 <= us ==> exists|q: int|
                    #![trigger int_text(q)]
                    nearest_count(q, us as int, 86_400_000_000) && secs_text(v) == int_text(q) + "d"@
            },
        },
{
    if let Some(us) = v {
        let n = us as int;
        if 0 <= us < 1_000_000 {
            lemma_round_half_even_nearest(n, 1000);
            let q = round_half_even(n, 1000);
            assert(nearest_count(q, n, 1000));
            assert(secs_text(v) == int_text(q) + "ms"@);
        } else if 1_000_000 <= us < 60_000_000 {
            lemma_round_half_even_nearest(n, 100_000);
            let tenths = round_half_even(n, 100_000);
            let w = tenths / 10;
            let f = tenths % 10;
            assert(10 * w + f == tenths);
            assert(nearest_count(10 * w + f, n, 100_000));
            assert(secs_text(v) == int_text(w) + "."@ + int_text(f) + "s"@);
        } else if 60_000_000 <= us < 3_600_000_000 {
            lemma_round_half_even_nearest(n, 60_000_000);
            let q = round_half_even(n, 60_000_000);
            assert(nearest_count(q, n, 60_000_000));
            assert(secs_text(v) == int_text(q) + "m"@);
        } else if 3_600_000_000 <= us < 86_400_000_000 {
            lemma_round_half_even_nearest(n, 3_600_000_000);
            let q = round_half_even(n, 3_600_000_000);
            assert(nearest_count(q, n, 3_600_000_000));
            assert(secs_text(v) == int_text(q) + "h"@);
        } else if 86_400_000_000 <= us {
            lemma_round_half_even_nearest(n, 86_400_000_000);
            let q = round_half_even(n, 86_400_000_000);
            assert(nearest_count(q, n, 86_400_000_000));
            assert(secs_text(v) == int_text(q) + "d"@);
        }
    }
}

/// Human-readable elapsed time for a cell.
pub fn format_secs(v: Option<i64>) -> (s: String)
    ensures
        s@ == secs_text(v),
{
    match v {
        None => string_from("-"),
        Some(us) => {
            if us < 0 {
                string_from("-")
            } else {
                let n = us as u64;
                let mut s = String::new();
                if us < 1_000_000 {
                    push_u64_padded(&mut s, round_div(n, 1000), 0);
                    push_str(&mut s, "ms");
                } else if us < 60_000_000 {
                    let tenths = round_div(n, 100_000);
                    push_u64_padded(&mut s, tenths / 10, 0);
                    push_str(&mut s, ".");
                    push_u64_padded(&mut s, tenths % 10, 0);
                    push_str(&mut s, "s");
                } else if us < 3_600_000_000 {
                    push_u64_padded(&mut s, round_div(n, 60_000_000), 0);
                    push_str(&mut s, "m");
                } else if us < 86_400_000_000 {
                    push_u64_padded(&mut s, round_div(n, 3_600_000_000), 0);
                    push_str(&mut s, "h");
                } else {
                    push_u64_padded(&mut s, round_div(n, 86_400_000_000), 0);
                    push_str(&mut s, "d");
                }
                s
            }
        },
    }
}

/// Text of the `locks` cell: `-` when none are held.
pub open spec fn locks_text(n: i64) -> Seq<char> {
    if n <= 0 {
        "-"@
    } else {
        int_text(n as int)
    }
}

/// Text of the `locks` cell.
pub fn format_locks(n: i64) -> (s: String)
    ensures
        s@ == locks_text(n),
{
    if n <= 0 {
        string_from("-")
    } else {
        i64_to_string(n)
    }
}

/// Compact form of `backend_type`: the ` backend` suffix dropped and
/// `background ` shortened to `bg `.
pub open spec fn short_backend_spec(s: Seq<char>) -> Seq<char> {
    replace_all(replace_all(s, " backend"@, ""@), "background "@, "bg "@)
}

/// Compact form of `pg_stat_activity.backend_type`.
pub fn short_backend_type(s: &str) -> (r: String)
    ensures
        r@ == short_backend_spec(s@),
{
    proof {
        reveal_strlit(" backend");
        reveal_strlit("background ");
    }
    let first = replace_str(s, " backend", "");
    replace_str(first.as_str(), "background ", "bg ")
}

/// Caption above the table: `(loading)` before the first sample, else the
/// row count.
pub open spec fn row_count_caption_spec(rows: Option<nat>) -> Seq<char> {
    match rows {
        None => "(loading)"@,
        Some(n) => "("@ + int_text(n as int) + " rows)"@,
    }
}

/// Caption above the table, from the number of sampled rows if any.
pub fn row_count_caption(snap: Option<&crate::state::Snapshot>) -> (s: String)
    ensures
        s@ == row_count_caption_spec(
            match snap {
                Some(sn) => Some(sn.rows@.len()),
                None => None,
            },
        ),
{
    match snap {
        None => string_from("(loading)"),
        Some(sn) => {
            let mut s = string_from("(");
            push_u64_padded(&mut s, sn.rows.len() as u64, 0);
            push_str(&mut s, " rows)");
            s
        },
    }
}

// ---------------------------------------------------------------------------
// Palette roles.
// ---------------------------------------------------------------------------

/// Palette role of the `state` cell.
#[derive(Debug, Clone, Copy, PartialEq, Eq)]
pub enum StateStyle {
    Active,
    IdleInTx,
    Idle,
    Plain,
}

/// Palette role of the `state` cell for a backend state.
pub open spec fn state_style_spec(state: Seq<char>) -> StateStyle {
    if state == "active"@ {
        StateStyle::Active
    } else if state == "idle in transaction"@ || state == "idle in transaction (aborted)"@ {
        StateStyle::IdleInTx
    } else if state == "idle"@ {
        StateStyle::Idle
    } else {
        StateStyle::Plain
    }
}

/// Colour role for a backend state.
pub fn state_color(state: &str) -> (r: StateStyle)
    ensures
        r == state_style_spec(state@),
{
    if str_equal(state, "active") {
        StateStyle::Active
    } else if str_equal(state, "idle in transaction") || str_equal(state, "idle in transaction (aborted)") {
        StateStyle::IdleInTx
    } else if str_equal(state, "idle") {
        StateStyle::Idle
    } else {
        StateStyle::Plain
    }
}

/// The values that `pg_stat_activity.state` takes.
pub open spec fn is_backend_state(s: Seq<char>) -> bool {
    ||| s == "active"@
    ||| s == "idle"@
    ||| s == "idle in transaction"@
    ||| s == "idle in transaction (aborted)"@
    ||| s == "fastpath function call"@
    ||| s == "disabled"@
}

/// For every state Postgres reports, the state cell is coloured as idle in
/// transaction exactly when the state begins with `idle in transaction`
/// (the plain and the aborted form alike), and exactly when the wait cell
/// of the same row is coloured as idle in transaction.
pub proof fn lemma_idle_in_transaction_colours(r: ActivityRow)
    requires
        is_backend_state(r.state@),
    ensures
        (state_style_spec(r.state@) == StateStyle::IdleInTx) == has_prefix(r.state@, "idle in transaction"@),
        (state_style_spec(r.state@) == StateStyle::IdleInTx) == (wait_style_spec(r) == WaitStyle::IdleTx),
{
    reveal_strlit("active");
    reveal_strlit("idle");
    reveal_strlit("idle in transaction");
    reveal_strlit("idle in transaction (aborted)");
    reveal_strlit("fastpath function call");
    reveal_strlit("disabled");
    let s = r.state@;
    let p = "idle in transaction"@;
    if s == "idle in transaction (aborted)"@ {
        assert(s.take(p.len() as int) =~= p);
    } else if s == "fastpath function call"@ {
        assert(s.take(p.len() as int)[0] != p[0]);
    } else if s == "idle in transaction"@ {
        assert(s.take(p.len() as int) =~= p);
    }
    assert(wait_type_style(r.wait_event_type@) != WaitStyle::IdleTx);
}

/// Palette role of the `wait` cell (the `pg_ash` colour scheme).
#[derive(Debug, Clone, Copy, PartialEq, Eq)]
pub enum WaitStyle {
    IdleTx,
    Cpu,
    Plain,
    Lock,
    LwLock,
    Io,
    Ipc,
    Client,
    Timeout,
    BufferPin,
    Activity,
    Extension,
    Other,
}

/// Palette role of the `wait` cell for a wait event type.
pub open spec fn wait_type_style(t: Seq<char>) -> WaitStyle {
    if t == "Lock"@ { WaitStyle::Lock }
    else if t == "LWLock"@ { WaitStyle::LwLock }
    else if t == "IO"@ { WaitStyle::Io }
    else if t == "IPC"@ { WaitStyle::Ipc }
    else if t == "Client"@ { WaitStyle::Client }
    else if t == "Timeout"@ { WaitStyle::Timeout }
    else if t == "BufferPin"@ { WaitStyle::BufferPin }
    else if t == "Activity"@ { WaitStyle::Activity }
    else if t == "Extension"@ { WaitStyle::Extension }
    else { WaitStyle::Other }
}

/// Palette role of a row's `wait` cell: idle-in-transaction first, then
/// CPU for an active backend without a wait, then the wait type.
pub open spec fn wait_style_spec(r: ActivityRow) -> WaitStyle {
    if has_prefix(r.state@, "idle in transaction"@) {
        WaitStyle::IdleTx
    } else if r.wait_event_type@.len() == 0 {
        if r.state@ == "active"@ { WaitStyle::Cpu } else { WaitStyle::Plain }
    } else {
        wait_type_style(r.wait_event_type@)
    }
}

/// Colour role of a row's `wait` cell.
pub fn wait_color_for_row(r: &ActivityRow) -> (s: WaitStyle)
    ensures
        s == wait_style_spec(*r),
{
    if starts_with_str(r.state.as_str(), "idle in transaction") {
        return WaitStyle::IdleTx;
    }
    let t = r.wait_event_type.as_str();
    if t.is_empty() {
        return if str_equal(r.state.as_str(), "active") { WaitStyle::Cpu } else { WaitStyle::Plain };
    }
    if str_equal(t, "Lock") { WaitStyle::Lock }
    else if str_equal(t, "LWLock") { WaitStyle::LwLock }
    else if str_equal(t, "IO") { WaitStyle::Io }
    else if str_equal(t, "IPC") { WaitStyle::Ipc }
    else if str_equal(t, "Client") { WaitStyle::Client }
    else if str_equal(t, "Timeout") { WaitStyle::Timeout }
    else if str_equal(t, "BufferPin") { WaitStyle::BufferPin }
    else if str_equal(t, "Activity") { WaitStyle::Activity }
    else if str_equal(t, "Extension") { WaitStyle::Extension }
    else { WaitStyle::Other }
}

/// Palette role of the `qtime` cell.
#[derive(Debug, Clone, Copy, PartialEq, Eq)]
pub enum QtimeStyle {
    Plain,
    Warn,
    Crit,
}

/// Threshold colouring of elapsed query time: critical from 30 s, warning
/// from 1 s.
pub open spec fn qtime_style_spec(v: Option<i64>) -> QtimeStyle {
    match v {
        Some(us) => if us >= 30_000_000 {
            QtimeStyle::Crit
        } else if us >= 1_000_000 {
            QtimeStyle::Warn
        } else {
            QtimeStyle::Plain
        },
        None => QtimeStyle::Plain,
    }
}

/// Severity order of the qtime colours.
pub open spec fn qtime_rank(s: QtimeStyle) -> int {
    match s {
        QtimeStyle::Plain => 0,
        QtimeStyle::Warn => 1,
        QtimeStyle::Crit => 2,
    }
}

/// The qtime colour never gets milder as a query runs longer: a query
/// under a second is plain, one of a second or more is at least a
/// warning, and one of 30 seconds or more is critical; an unknown age is
/// plain.
pub proof fn lemma_qtime_style_monotone(a: i64, b: i64)
    ensures
        a <= b ==> qtime_rank(qtime_style_spec(Some(a))) <= qtime_rank(qtime_style_spec(Some(b))),
        a < 1_000_000 ==> qtime_style_spec(Some(a)) == QtimeStyle::Plain,
        a >= 1_000_000 ==> qtime_rank(qtime_style_spec(Some(a))) >= 1,
        a >= 30_000_000 ==> qtime_style_spec(Some(a)) == QtimeStyle::Crit,
        a < 30_000_000 ==> qtime_style_spec(Some(a)) != QtimeStyle::Crit,
        qtime_style_spec(None) == QtimeStyle::Plain,
{
}

/// Threshold-based colour role for elapsed query time.
pub fn qtime_warn_color(v: Option<i64>) -> (s: QtimeStyle)
    ensures
        s == qtime_style_spec(v),
{
    match v {
        Some(us) => if us >= 30_000_000 {
            QtimeStyle::Crit
        } else if us >= 1_000_000 {
            QtimeStyle::Warn
        } else {
            QtimeStyle::Plain
        },
        None => QtimeStyle::Plain,
    }
}

// ---------------------------------------------------------------------------
// Table layout.
// ---------------------------------------------------------------------------

/// Extended mode shows when asked for and the body is at least 120 wide.
pub fn table_is_extended(extended: bool, width: u16) -> (r: bool)
    ensures
        r == (extended && width >= 120),
{
    extended && width >= 120
}

/// Column headers, in display order.
pub open spec fn header_labels_spec(extended: bool) -> Seq<Seq<char>> {
    if extended {
        seq!["pid"@, "user"@, "db"@, "app"@, "client"@, "backend"@, "state"@, "wait"@, "qtime"@,
            "xtime"@, "locks"@, "query"@]
    } else {
        seq!["pid"@, "user"@, "db"@, "state"@, "wait"@, "qtime"@, "xtime"@, "locks"@, "query"@]
    }
}

/// Column headers for the default or extended layout.
pub fn header_labels(extended: bool) -> (r: Vec<&'static str>)
    ensures
        r@.len() == header_labels_spec(extended).len(),
        forall|i: int| 0 <= i < r@.len() ==> #[trigger] r@[i]@ == header_labels_spec(extended)[i],
{
    let mut v: Vec<&'static str> = Vec::new();
    v.push("pid");
    v.push("user");
    v.push("db");
    if extended {
        v.push("app");
        v.push("client");
        v.push("backend");
    }
    v.push("state");
    v.push("wait");
    v.push("qtime");
    v.push("xtime");
    v.push("locks");
    v.push("query");
    v
}

/// Arrow marking the sort direction in the active column's header.
pub fn sort_arrow(desc: bool) -> (r: &'static str)
    ensures
        r@ == (if desc { "▼"@ } else { "▲"@ }),
{
    if desc {
        "▼"
    } else {
        "▲"
    }
}

/// Whether header `label` belongs to the active sort column.
pub fn is_sort_header(label: &str, col: SortColumn) -> (r: bool)
    ensures
        r == (label@ == col.header_label_spec()),
{
    str_equal(label, col.header_label())
}

/// Text of every cell of a row, in display order.
pub open spec fn row_cells_spec(r: ActivityRow, extended: bool) -> Seq<Seq<char>> {
    let head = seq![
        int_text(r.pid as int),
        shortened(scrubbed(r.usename@), 10),
        shortened(scrubbed(r.datname@), 12),
    ];
    let mid = if extended {
        seq![
            shortened(scrubbed(r.application_name@), 12),
            shortened(scrubbed(r.client_addr@), 15),
            shortened(scrubbed(short_backend_spec(r.backend_type@)), 10),
        ]
    } else {
        Seq::empty()
    };
    let tail = seq![
        shortened(scrubbed(r.state@), 8),
        shortened(scrubbed(wait_label_spec(r)), 22),
        secs_text(r.qtime_micros),
        secs_text(r.xtime_micros),
        locks_text(r.locks_held),
        collapse_spaces(scrubbed(r.query@)),
    ];
    head + mid + tail
}

/// Which colour rule a cell of the table is drawn with.
#[derive(Debug, Clone, Copy, PartialEq, Eq)]
pub enum CellRole {
    /// Default colours.
    Plain,
    /// By the backend's state (`state_color`).
    State,
    /// By the backend's wait (`wait_color_for_row`).
    Wait,
    /// By the query's age (`qtime_warn_color`).
    Qtime,
}

/// Colour rule of every cell of a row, in the order of `row_cells_spec`:
/// the state, wait and qtime cells get their own rules, the rest are plain.
pub open spec fn cell_roles_spec(extended: bool) -> Seq<CellRole> {
    let head = seq![CellRole::Plain, CellRole::Plain, CellRole::Plain];
    let mid = if extended {
        seq![CellRole::Plain, CellRole::Plain, CellRole::Plain]
    } else {
        Seq::empty()
    };
    let tail = seq![
        CellRole::State,
        CellRole::Wait,
        CellRole::Qtime,
        CellRole::Plain,
        CellRole::Plain,
        CellRole::Plain,
    ];
    head + mid + tail
}

/// Colour rule of every cell of a row, one for each cell of `row_cells`.
pub fn cell_roles(extended: bool) -> (roles: Vec<CellRole>)
    ensures
        roles@ == cell_roles_spec(extended),
        forall|r: ActivityRow| #[trigger] row_cells_spec(r, extended).len() == roles@.len(),
{
    let mut roles: Vec<CellRole> = vec![CellRole::Plain, CellRole::Plain, CellRole::Plain];
    if extended {
        roles.push(CellRole::Plain);
        roles.push(CellRole::Plain);
        roles.push(CellRole::Plain);
    }
    roles.push(CellRole::State);
    roles.push(CellRole::Wait);
    roles.push(CellRole::Qtime);
    roles.push(CellRole::Plain);
    roles.push(CellRole::Plain);
    roles.push(CellRole::Plain);
    assert(roles@ =~= cell_roles_spec(extended));
    roles
}

/// Text of every cell of a row, in display order.
pub fn row_cells(r: &ActivityRow, extended: bool) -> (cells: Vec<String>)
    ensures
        cells@.len() == row_cells_spec(*r, extended).len(),
        forall|i: int| 0 <= i < cells@.len() ==> #[trigger] cells@[i]@ == row_cells_spec(*r, extended)[i],
{
    let mut cells: Vec<String> = Vec::new();
    cells.push(i64_to_string(r.pid as i64));
    cells.push(truncate(r.usename.as_str(), 10));
    cells.push(truncate(r.datname.as_str(), 12));
    if extended {
        cells.push(truncate(r.application_name.as_str(), 12));
        cells.push(truncate(r.client_addr.as_str(), 15));
        let b = short_backend_type(r.backend_type.as_str());
        cells.push(truncate(b.as_str(), 10));
    }
    cells.push(truncate(r.state.as_str(), 8));
    let w = format_wait_label(r);
    cells.push(truncate(w.as_str(), 22));
    cells.push(format_secs(r.qtime_micros));
    cells.push(format_secs(r.xtime_micros));
    cells.push(format_locks(r.locks_held));
    cells.push(squash_query(r.query.as_str()));
    cells
}

// ---------------------------------------------------------------------------
// Laws of the cell text.
// ---------------------------------------------------------------------------

/// Scrubbed text holds no control character: nothing that a terminal
/// would interpret reaches the screen.
pub proof fn lemma_scrubbed_is_safe(s: Seq<char>)
    ensures
        forall|i: int|
            0 <= i < scrubbed(s).len() ==> !is_control_char(#[trigger] scrubbed(s)[i]),
    decreases s.len(),
{
    if s.len() > 0 {
        lemma_scrubbed_is_safe(s.drop_last());
        let rest = scrubbed(s.drop_last());
        match scrub_char(s.last()) {
            Some(c) => {
                assert forall|i: int| 0 <= i < rest.push(c).len() implies !is_control_char(#[trigger] rest.push(c)[i]) by {
                    if i < rest.len() {
                        assert(rest.push(c)[i] == rest[i]);
                    }
                }
            },
            None => {},
        }
    }
}

/// A shortened text fits: short texts are unchanged, longer ones are cut
/// to exactly `max` characters (one when `max` is 0) ending in `…`.
pub proof fn lemma_shortened_fits(s: Seq<char>, max: int)
    requires
        max >= 0,
    ensures
        s.len() <= max ==> shortened(s, max) == s,
        s.len() > max ==> shortened(s, max).len() == (if max >= 1 { max } else { 1 }),
        s.len() > max ==> shortened(s, max).last() == '…',
        s.len() > max ==> shortened(s, max).drop_last() == s.take(if max >= 1 { max - 1 } else { 0 }),
{
    if s.len() > max {
        let k = if max >= 1 { max - 1 } else { 0 };
        assert((s.take(k) + seq!['…']).drop_last() == s.take(k));
    }
}

/// Joining non-empty, whitespace-free words with single spaces leaves no
/// whitespace at either end and no whitespace but lone spaces.
proof fn lemma_join_words_shape(parts: Seq<Seq<char>>)
    requires
        forall|i: int| 0 <= i < parts.len() ==> #[trigger] parts[i].len() > 0,
        forall|i: int, j: int|
            0 <= i < parts.len() && 0 <= j < parts[i].len() ==> !is_space_char(#[trigger] parts[i][j]),
    ensures
        ({
            let t = join_with(parts, seq![' ']);
            &&& t.len() > 0 ==> !is_space_char(t[0]) && !is_space_char(t.last())
            &&& forall|i: int| 0 <= i < t.len() && is_space_char(#[trigger] t[i]) ==> t[i] == ' ' && 0 < i
                && i + 1 < t.len() && !is_space_char(t[i - 1]) && !is_space_char(t[i + 1])
        }),
    decreases parts.len(),
{
    if parts.len() == 1 {
        assert(join_with(parts, seq![' ']) == parts[0]);
        assert forall|i: int| 0 <= i < parts[0].len() implies !is_space_char(#[trigger] parts[0][i]) by {}
    } else if parts.len() > 1 {
        let init = parts.drop_last();
        assert forall|i: int, j: int| 0 <= i < init.len() && 0 <= j < init[i].len() implies !is_space_char(#[trigger] init[i][j]) by {
            assert(init[i] == parts[i]);
        }
        lemma_join_words_shape(init);
        let u = join_with(init, seq![' ']);
        let w = parts.last();
        let t = join_with(parts, seq![' ']);
        assert(t == u + seq![' '] + w);
        assert(init[0].len() > 0);
        assert(u.len() > 0) by {
            lemma_join_nonempty(init);
        }
        assert forall|j: int| 0 <= j < w.len() implies !is_space_char(#[trigger] w[j]) by {
            assert(w == parts[parts.len() - 1]);
        }
        assert forall|i: int| 0 <= i < t.len() && is_space_char(#[trigger] t[i]) implies t[i] == ' ' && 0 < i
            && i + 1 < t.len() && !is_space_char(t[i - 1]) && !is_space_char(t[i + 1]) by {
            if i < u.len() {
                assert(t[i] == u[i]);
                if i + 1 < u.len() {
                    assert(t[i + 1] == u[i + 1]);
                }
                assert(t[i - 1] == u[i - 1]);
            } else if i == u.len() {
                assert(t[i - 1] == u.last());
                assert(t[i + 1] == w[0]);
            } else {
                assert(t[i] == w[i - u.len() - 1]);
            }
        }
        assert(t[0] == u[0]);
        assert(t.last() == w.last());
    }
}

proof fn lemma_join_nonempty(parts: Seq<Seq<char>>)
    requires
        parts.len() > 0,
        forall|i: int| 0 <= i < parts.len() ==> #[trigger] parts[i].len() > 0,
    ensures
        join_with(parts, seq![' ']).len() > 0,
    decreases parts.len(),
{
    if parts.len() > 1 {
        assert(parts.drop_last()[0] == parts[0]);
        lemma_join_nonempty(parts.drop_last());
    }
}

proof fn lemma_words_have_no_spaces(s: Seq<char>)
    ensures
        forall|i: int, j: int|
            0 <= i < words(s).len() && 0 <= j < words(s)[i].len() ==> !is_space_char(#[trigger] words(s)[i][j]),
    decreases s.len(),
{
    lemma_word_scan_spaceless(s);
}

proof fn lemma_word_scan_spaceless(s: Seq<char>)
    ensures
        forall|i: int, j: int|
            0 <= i < word_scan(s).0.len() && 0 <= j < word_scan(s).0[i].len() ==> !is_space_char(#[trigger] word_scan(s).0[i][j]),
        forall|j: int| 0 <= j < word_scan(s).1.len() ==> !is_space_char(#[trigger] word_scan(s).1[j]),
    decreases s.len(),
{
    if s.len() > 0 {
        lemma_word_scan_spaceless(s.drop_last());
        let (done, cur) = word_scan(s.drop_last());
        let c = s.last();
        if is_space_char(c) {
            if cur.len() > 0 {
                assert forall|i: int, j: int| 0 <= i < done.push(cur).len() && 0 <= j < done.push(cur)[i].len() implies !is_space_char(#[trigger] done.push(cur)[i][j]) by {
                    if i < done.len() {
                        assert(done.push(cur)[i] == done[i]);
                    }
                }
            }
        } else {
            assert forall|j: int| 0 <= j < cur.push(c).len() implies !is_space_char(#[trigger] cur.push(c)[j]) by {
                if j < cur.len() {
                    assert(cur.push(c)[j] == cur[j]);
                }
            }
        }
    }
}

/// A squashed query neither starts nor ends with whitespace, and its only
/// whitespace is single spaces between words.
pub proof fn lemma_collapse_spaces_shape(s: Seq<char>)
    ensures
        ({
            let t = collapse_spaces(s);
            &&& t.len() > 0 ==> !is_space_char(t[0]) && !is_space_char(t.last())
            &&& forall|i: int| 0 <= i < t.len() && is_space_char(#[trigger] t[i]) ==> t[i] == ' ' && 0 < i
                && i + 1 < t.len() && !is_space_char(t[i - 1]) && !is_space_char(t[i + 1])
        }),
{
    lemma_words_are_nonempty(s);
    lemma_words_have_no_spaces(s);
    lemma_join_words_shape(words(s));
}


/// No character of `s` is a control character.
pub open spec fn control_free(s: Seq<char>) -> bool {
    forall|i: int| 0 <= i < s.len() ==> !is_control_char(#[trigger] s[i])
}

proof fn lemma_control_free_concat(a: Seq<char>, b: Seq<char>)
    requires
        control_free(a),
        control_free(b),
    ensures
        control_free(a + b),
{
    assert forall|i: int| 0 <= i < (a + b).len() implies !is_control_char(#[trigger] (a + b)[i]) by {
        if i < a.len() {
            assert((a + b)[i] == a[i]);
        } else {
            assert((a + b)[i] == b[i - a.len()]);
        }
    }
}

proof fn lemma_decimal_digits_control_free(n: nat)
    ensures
        control_free(decimal_digits(n)),
    decreases n,
{
    if n >= 10 {
        lemma_decimal_digits_control_free(n / 10);
        let d = decimal_digits(n / 10);
        let c = digit_char((n % 10) as int);
        assert forall|i: int| 0 <= i < d.push(c).len() implies !is_control_char(#[trigger] d.push(c)[i]) by {
            if i < d.len() {
                assert(d.push(c)[i] == d[i]);
            }
        }
    }
}

proof fn lemma_int_text_control_free(v: int)
    ensures
        control_free(int_text(v)),
{
    if v < 0 {
        lemma_decimal_digits_control_free((-v) as nat);
        lemma_control_free_concat(seq!['-'], decimal_digits((-v) as nat));
    } else {
        lemma_decimal_digits_control_free(v as nat);
    }
}

proof fn lemma_shortened_scrubbed_control_free(s: Seq<char>, max: int)
    ensures
        control_free(shortened(scrubbed(s), max)),
{
    lemma_scrubbed_is_safe(s);
    let t = scrubbed(s);
    if t.len() > max {
        let k = if max >= 1 { max - 1 } else { 0 };
        assert forall|i: int| 0 <= i < t.take(k).len() implies !is_control_char(#[trigger] t.take(k)[i]) by {
            assert(t.take(k)[i] == t[i]);
        }
        lemma_control_free_concat(t.take(k), seq!['…']);
    }
}

proof fn lemma_join_control_free(parts: Seq<Seq<char>>, sep: Seq<char>)
    requires
        forall|k: int| 0 <= k < parts.len() ==> control_free(#[trigger] parts[k]),
        control_free(sep),
    ensures
        control_free(join_with(parts, sep)),
    decreases parts.len(),
{
    if parts.len() > 1 {
        let front = parts.drop_last();
        assert forall|k: int| 0 <= k < front.len() implies control_free(#[trigger] front[k]) by {
            assert(front[k] == parts[k]);
        }
        lemma_join_control_free(front, sep);
        lemma_control_free_concat(join_with(front, sep), sep);
        assert(control_free(parts[parts.len() - 1]));
        lemma_control_free_concat(join_with(front, sep) + sep, parts.last());
    } else if parts.len() == 1 {
        assert(control_free(parts[0]));
    }
}

proof fn lemma_word_scan_control_free(s: Seq<char>)
    requires
        control_free(s),
    ensures
        forall|k: int| 0 <= k < word_scan(s).0.len() ==> control_free(#[trigger] word_scan(s).0[k]),
        control_free(word_scan(s).1),
    decreases s.len(),
{
    if s.len() > 0 {
        let p = s.drop_last();
        assert forall|i: int| 0 <= i < p.len() implies !is_control_char(#[trigger] p[i]) by {
            assert(p[i] == s[i]);
        }
        lemma_word_scan_control_free(p);
        let (done, cur) = word_scan(p);
        let c = s.last();
        assert(!is_control_char(s[s.len() - 1]));
        if is_space_char(c) {
            if cur.len() > 0 {
                assert forall|k: int| 0 <= k < done.push(cur).len() implies control_free(#[trigger] done.push(cur)[k]) by {
                    if k < done.len() {
                        assert(done.push(cur)[k] == done[k]);
                    }
                }
            }
        } else {
            lemma_control_free_concat(cur, seq![c]);
            assert(cur.push(c) == cur + seq![c]);
        }
    }
}

proof fn lemma_collapse_spaces_control_free(s: Seq<char>)
    requires
        control_free(s),
    ensures
        control_free(collapse_spaces(s)),
{
    lemma_word_scan_control_free(s);
    let (done, cur) = word_scan(s);
    let ws = words(s);
    assert forall|k: int| 0 <= k < ws.len() implies control_free(#[trigger] ws[k]) by {
        if cur.len() > 0 && k == done.len() {
            assert(ws[k] == cur);
        } else {
            assert(ws[k] == done[k]);
        }
    }
    assert(control_free(seq![' ']));
    lemma_join_control_free(ws, seq![' ']);
}

proof fn lemma_secs_text_control_free(v: Option<i64>)
    ensures
        control_free(secs_text(v)),
{
    reveal_strlit("-");
    reveal_strlit("ms");
    reveal_strlit(".");
    reveal_strlit("s");
    reveal_strlit("m");
    reveal_strlit("h");
    reveal_strlit("d");
    assert(control_free("-"@));
    assert(control_free("ms"@));
    assert(control_free("."@));
    assert(control_free("s"@));
    assert(control_free("m"@));
    assert(control_free("h"@));
    assert(control_free("d"@));
    match v {
        None => {},
        Some(us) => {
            if us < 0 {
            } else if us < 1_000_000 {
                let a = int_text(round_half_even(us as int, 1000));
                lemma_int_text_control_free(round_half_even(us as int, 1000));
                lemma_control_free_concat(a, "ms"@);
            } else if us < 60_000_000 {
                let tenths = round_half_even(us as int, 100_000);
                lemma_int_text_control_free(tenths / 10);
                lemma_int_text_control_free(tenths % 10);
                lemma_control_free_concat(int_text(tenths / 10), "."@);
                lemma_control_free_concat(int_text(tenths / 10) + "."@, int_text(tenths % 10));
                lemma_control_free_concat(int_text(tenths / 10) + "."@ + int_text(tenths % 10), "s"@);
            } else if us < 3_600_000_000 {
                lemma_int_text_control_free(round_half_even(us as int, 60_000_000));
                lemma_control_free_concat(int_text(round_half_even(us as int, 60_000_000)), "m"@);
            } else if us < 86_400_000_000 {
                lemma_int_text_control_free(round_half_even(us as int, 3_600_000_000));
                lemma_control_free_concat(int_text(round_half_even(us as int, 3_600_000_000)), "h"@);
            } else {
                lemma_int_text_control_free(round_half_even(us as int, 86_400_000_000));
                lemma_control_free_concat(int_text(round_half_even(us as int, 86_400_000_000)), "d"@);
            }
        },
    }
}

/// Every cell of the table reaches the terminal free of control
/// characters, whatever a client stored in `pg_stat_activity`: no escape
/// sequence from a monitored session is ever drawn.
pub proof fn lemma_row_cells_control_free(r: ActivityRow, extended: bool)
    ensures
        forall|k: int|
            0 <= k < row_cells_spec(r, extended).len() ==> control_free(#[trigger] row_cells_spec(r, extended)[k]),
{
    reveal_strlit("-");
    assert(control_free("-"@));
    lemma_int_text_control_free(r.pid as int);
    lemma_shortened_scrubbed_control_free(r.usename@, 10);
    lemma_shortened_scrubbed_control_free(r.datname@, 12);
    lemma_shortened_scrubbed_control_free(r.application_name@, 12);
    lemma_shortened_scrubbed_control_free(r.client_addr@, 15);
    lemma_shortened_scrubbed_control_free(short_backend_spec(r.backend_type@), 10);
    lemma_shortened_scrubbed_control_free(r.state@, 8);
    lemma_shortened_scrubbed_control_free(wait_label_spec(r), 22);
    lemma_secs_text_control_free(r.qtime_micros);
    lemma_secs_text_control_free(r.xtime_micros);
    if r.locks_held > 0 {
        lemma_int_text_control_free(r.locks_held as int);
    }
    lemma_scrubbed_is_safe(r.query@);
    lemma_collapse_spaces_control_free(scrubbed(r.query@));
    let cells = row_cells_spec(r, extended);
    assert forall|k: int| 0 <= k < cells.len() implies control_free(#[trigger] cells[k]) by {
        if extended {
            assert(k < 12);
        } else {
            assert(k < 9);
        }
    }
}

} // verus!
