//! Compact 3×5 block-letter font for the key-press overlay.
//!
//! Each known glyph is 3 rows of 5 cells built from `█` filled cells and
//! `' '` empty cells; at this size some letters coincide (`I` and `Z` both
//! reduce to a thin vertical bar). Letters are drawn upper-case only: `k` and `K` render
//! the same. Labels with a character that has no glyph fall back to plain
//! text in the front end.

use vstd::prelude::*;

use crate::text::{chars_of, join_with, push_str};

verus! {

/// Width of every glyph, in cells.
pub const GLYPH_W: usize = 5;

/// Height of every glyph, in rows.
pub const GLYPH_H: usize = 3;

/// Number of blank cells between two glyphs in a multi-character label.
pub const GLYPH_GAP: usize = 1;

/// The rows of one glyph, top to bottom.
pub type Glyph = [&'static str; GLYPH_H];

/// ASCII upper-case of `c` (`char::to_ascii_uppercase`).
pub open spec fn ascii_upper(c: char) -> char {
    if 'a' <= c && c <= 'z' {
        ((c as int) - 32) as char
    } else {
        c
    }
}

/// The hand-drawn glyph for an upper-case character, as its three rows.
pub open spec fn glyph_table(u: char) -> Option<Seq<Seq<char>>> {
    if u == 'A' {
        Some(seq![" ███ "@, "█████"@, "█   █"@])
    } else if u == 'B' {
        Some(seq!["████ "@, "█████"@, "████ "@])
    } else if u == 'C' {
        Some(seq![" ████"@, "█    "@, " ████"@])
    } else if u == 'D' {
        Some(seq!["███  "@, "█  █ "@, "███  "@])
    } else if u == 'E' {
        Some(seq!["█████"@, "███  "@, "█████"@])
    } else if u == 'F' {
        Some(seq!["█████"@, "███  "@, "█    "@])
    } else if u == 'G' {
        Some(seq![" ████"@, "█  ██"@, " ████"@])
    } else if u == 'H' {
        Some(seq!["█   █"@, "█████"@, "█   █"@])
    } else if u == 'I' {
        Some(seq!["  █  "@, "  █  "@, "  █  "@])
    } else if u == 'J' {
        Some(seq!["█████"@, "    █"@, " ███ "@])
    } else if u == 'K' {
        Some(seq!["█  █ "@, "███  "@, "█  █ "@])
    } else if u == 'L' {
        Some(seq!["█    "@, "█    "@, "█████"@])
    } else if u == 'M' {
        Some(seq!["██ ██"@, "█ █ █"@, "█   █"@])
    } else if u == 'N' {
        Some(seq!["██  █"@, "█ █ █"@, "█  ██"@])
    } else if u == 'O' {
        Some(seq![" ███ "@, "█   █"@, " ███ "@])
    } else if u == 'P' {
        Some(seq!["████ "@, "████ "@, "█    "@])
    } else if u == 'Q' {
        Some(seq![" ███ "@, "█   █"@, " ██ █"@])
    } else if u == 'R' {
        Some(seq!["████ "@, "███  "@, "█  █ "@])
    } else if u == 'S' {
        Some(seq![" ████"@, " ███ "@, "████ "@])
    } else if u == 'T' {
        Some(seq!["█████"@, "  █  "@, "  █  "@])
    } else if u == 'U' {
        Some(seq!["█   █"@, "█   █"@, " ███ "@])
    } else if u == 'V' {
        Some(seq!["█   █"@, " █ █ "@, "  █  "@])
    } else if u == 'W' {
        Some(seq!["█   █"@, "█ █ █"@, " █ █ "@])
    } else if u == 'X' {
        Some(seq!["█   █"@, "  █  "@, "█   █"@])
    } else if u == 'Y' {
        Some(seq!["█   █"@, "  █  "@, "  █  "@])
    } else if u == 'Z' {
        Some(seq!["  █  "@, "  █  "@, "  █  "@])
    } else if u == '0' {
        Some(seq![" ███ "@, "█ █ █"@, " ███ "@])
    } else if u == '1' {
        Some(seq!["  █  "@, "  █  "@, "█████"@])
    } else if u == '2' {
        Some(seq!["████ "@, "  ██ "@, "█████"@])
    } else if u == '3' {
        Some(seq!["████ "@, "  ██ "@, "████ "@])
    } else if u == '4' {
        Some(seq!["█   █"@, "█████"@, "    █"@])
    } else if u == '5' {
        Some(seq!["█████"@, "████ "@, "████ "@])
    } else if u == '6' {
        Some(seq![" ████"@, "████ "@, " ███ "@])
    } else if u == '7' {
        Some(seq!["█████"@, "   █ "@, " █   "@])
    } else if u == '8' {
        Some(seq![" ███ "@, " ███ "@, " ███ "@])
    } else if u == '9' {
        Some(seq![" ███ "@, " ████"@, "████ "@])
    } else if u == '<' || u == ',' {
        Some(seq!["    █"@, "███  "@, "    █"@])
    } else if u == '>' || u == '.' {
        Some(seq!["█    "@, "  ███"@, "█    "@])
    } else if u == '/' {
        Some(seq!["    █"@, "  █  "@, "█    "@])
    } else if u == '-' {
        Some(seq!["     "@, "█████"@, "     "@])
    } else if u == '+' {
        Some(seq!["  █  "@, "█████"@, "  █  "@])
    } else if u == '=' {
        Some(seq!["█████"@, "     "@, "█████"@])
    } else if u == '?' {
        Some(seq!["████ "@, "  ██ "@, "  █  "@])
    } else if u == '!' {
        Some(seq!["  █  "@, "  █  "@, "  █  "@])
    } else if u == ':' {
        Some(seq!["  █  "@, "     "@, "  █  "@])
    } else if u == ' ' {
        Some(seq!["     "@, "     "@, "     "@])
    } else if u == '▲' || u == '↑' {
        Some(seq!["  █  "@, " ███ "@, "█████"@])
    } else if u == '▼' || u == '↓' {
        Some(seq!["█████"@, " ███ "@, "  █  "@])
    } else if u == '◀' || u == '←' {
        Some(seq!["  ███"@, "█████"@, "  ███"@])
    } else if u == '▶' || u == '→' {
        Some(seq!["███  "@, "█████"@, "███  "@])
    } else {
        None
    }
}

/// The glyph drawn for `c`: that of its ASCII upper-case form.
pub open spec fn glyph_spec(c: char) -> Option<Seq<Seq<char>>> {
    glyph_table(ascii_upper(c))
}

/// Look up the 3×5 glyph for a single character; `None` for characters
/// without a hand-drawn glyph.
pub fn glyph(c: char) -> (r: Option<Glyph>)
    ensures
        match r {
            Some(g) => glyph_spec(c) == Some(seq![g[0]@, g[1]@, g[2]@]),
            None => glyph_spec(c) is None,
        },
{
    let upper = if 'a' <= c && c <= 'z' {
        ((c as u32 - 32) as u8) as char
    } else {
        c
    };
    assert(upper == ascii_upper(c));
    Some(match upper {
        'A' => [" ███ ", "█████", "█   █"],
        'B' => ["████ ", "█████", "████ "],
        'C' => [" ████", "█    ", " ████"],
        'D' => ["███  ", "█  █ ", "███  "],
        'E' => ["█████", "███  ", "█████"],
        'F' => ["█████", "███  ", "█    "],
        'G' => [" ████", "█  ██", " ████"],
        'H' => ["█   █", "█████", "█   █"],
        'I' => ["  █  ", "  █  ", "  █  "],
        'J' => ["█████", "    █", " ███ "],
        'K' => ["█  █ ", "███  ", "█  █ "],
        'L' => ["█    ", "█    ", "█████"],
        'M' => ["██ ██", "█ █ █", "█   █"],
        'N' => ["██  █", "█ █ █", "█  ██"],
        'O' => [" ███ ", "█   █", " ███ "],
        'P' => ["████ ", "████ ", "█    "],
        'Q' => [" ███ ", "█   █", " ██ █"],
        'R' => ["████ ", "███  ", "█  █ "],
        'S' => [" ████", " ███ ", "████ "],
        'T' => ["█████", "  █  ", "  █  "],
        'U' => ["█   █", "█   █", " ███ "],
        'V' => ["█   █", " █ █ ", "  █  "],
        'W' => ["█   █", "█ █ █", " █ █ "],
        'X' => ["█   █", "  █  ", "█   █"],
        'Y' => ["█   █", "  █  ", "  █  "],
        'Z' => ["  █  ", "  █  ", "  █  "],
        '0' => [" ███ ", "█ █ █", " ███ "],
        '1' => ["  █  ", "  █  ", "█████"],
        '2' => ["████ ", "  ██ ", "█████"],
        '3' => ["████ ", "  ██ ", "████ "],
        '4' => ["█   █", "█████", "    █"],
        '5' => ["█████", "████ ", "████ "],
        '6' => [" ████", "████ ", " ███ "],
        '7' => ["█████", "   █ ", " █   "],
        '8' => [" ███ ", " ███ ", " ███ "],
        '9' => [" ███ ", " ████", "████ "],
        '<' | ',' => ["    █", "███  ", "    █"],
        '>' | '.' => ["█    ", "  ███", "█    "],
        '/' => ["    █", "  █  ", "█    "],
        '-' => ["     ", "█████", "     "],
        '+' => ["  █  ", "█████", "  █  "],
        '=' => ["█████", "     ", "█████"],
        '?' => ["████ ", "  ██ ", "  █  "],
        '!' => ["  █  ", "  █  ", "  █  "],
        ':' => ["  █  ", "     ", "  █  "],
        ' ' => ["     ", "     ", "     "],
        '▲' | '↑' => ["  █  ", " ███ ", "█████"],
        '▼' | '↓' => ["█████", " ███ ", "  █  "],
        '◀' | '←' => ["  ███", "█████", "  ███"],
        '▶' | '→' => ["███  ", "█████", "███  "],
        _ => {
            return None;
        },
    })
}

/// Every cell of a glyph row is `█` (filled) or a space (empty).
pub open spec fn is_block_row(row: Seq<char>) -> bool {
    forall|j: int| 0 <= j < row.len() ==> #[trigger] row[j] == '█' || row[j] == ' '
}

/// Every glyph is 3 rows of 5 cells, each cell `█` or a space.
pub proof fn lemma_glyph_shape(c: char)
    ensures
        glyph_spec(c) matches Some(rows) ==> rows.len() == 3 && forall|r: int|
            0 <= r < 3 ==> #[trigger] rows[r].len() == 5 && is_block_row(rows[r]),
{
    reveal_strlit("     ");
    reveal_strlit("    █");
    reveal_strlit("   █ ");
    reveal_strlit("  █  ");
    reveal_strlit("  ██ ");
    reveal_strlit("  ███");
    reveal_strlit(" █   ");
    reveal_strlit(" █ █ ");
    reveal_strlit(" ██ █");
    reveal_strlit(" ███ ");
    reveal_strlit(" ████");
    reveal_strlit("█    ");
    reveal_strlit("█   █");
    reveal_strlit("█  █ ");
    reveal_strlit("█  ██");
    reveal_strlit("█ █ █");
    reveal_strlit("██ ██");
    reveal_strlit("██  █");
    reveal_strlit("███  ");
    reveal_strlit("████ ");
    reveal_strlit("█████");
}

/// Lower-case letters are drawn as their upper-case forms.
pub proof fn lemma_glyph_case_insensitive(c: char)
    requires
        'a' <= c <= 'z',
    ensures
        glyph_spec(c) == glyph_spec(ascii_upper(c)),
        ascii_upper(c) as int == c as int - 32,
{
}

/// Row `r` of the rendering of `label`: the glyphs' rows joined by one
/// blank cell.
pub open spec fn label_row(label: Seq<char>, r: int) -> Seq<char> {
    join_with(Seq::new(label.len(), |i: int| glyph_spec(label[i])->0[r]), " "@)
}

/// The rows rendering `label` in the block font, or `None` when some
/// character has no glyph.
pub open spec fn label_rows(label: Seq<char>) -> Option<Seq<Seq<char>>> {
    if forall|i: int| 0 <= i < label.len() ==> #[trigger] glyph_spec(label[i]) is Some {
        Some(Seq::new(3, |r: int| label_row(label, r)))
    } else {
        None
    }
}

/// Render a label as a multi-glyph block, joining each character's glyph
/// with `GLYPH_GAP` blank columns. `None` when any character has no glyph.
pub fn render_label(label: &str) -> (r: Option<Vec<String>>)
    ensures
        match r {
            Some(rows) => label_rows(label@) is Some && rows@.len() == 3 && forall|k: int|
                0 <= k < 3 ==> #[trigger] rows@[k]@ == label_rows(label@)->0[k],
            None => label_rows(label@) is None,
        },
{
    let chars = chars_of(label);
    let n = chars.len();
    let mut glyphs: Vec<Glyph> = Vec::new();
    for i in 0..n
        invariant
            n == chars@.len(),
            chars@ == label@,
            glyphs@.len() == i,
            forall|k: int| 0 <= k < i ==> glyph_spec(chars@[k]) == Some(
                seq![#[trigger] glyphs@[k][0]@, glyphs@[k][1]@, glyphs@[k][2]@],
            ),
    {
        match glyph(chars[i]) {
            Some(g) => glyphs.push(g),
            None => {
                return None;
            },
        }
    }
    assert(forall|k: int| 0 <= k < label@.len() ==> #[trigger] glyph_spec(label@[k]) is Some) by {
        assert forall|k: int| 0 <= k < label@.len() implies #[trigger] glyph_spec(label@[k]) is Some by {
            assert(glyphs@[k][0]@ == glyphs@[k][0]@);
        }
    }
    let mut rows: Vec<String> = Vec::new();
    for r in 0..GLYPH_H
        invariant
            n == chars@.len(),
            chars@ == label@,
            glyphs@.len() == n,
            forall|k: int| 0 <= k < n ==> glyph_spec(chars@[k]) == Some(
                seq![#[trigger] glyphs@[k][0]@, glyphs@[k][1]@, glyphs@[k][2]@],
            ),
            rows@.len() == r,
            forall|q: int| 0 <= q < r ==> #[trigger] rows@[q]@ == label_row(label@, q),
    {
        let ghost parts = Seq::new(n as nat, |i: int| glyph_spec(label@[i])->0[r as int]);
        let mut line = String::new();
        for i in 0..n
            invariant
                n == chars@.len(),
                chars@ == label@,
                glyphs@.len() == n,
                r < 3,
                forall|k: int| 0 <= k < n ==> glyph_spec(chars@[k]) == Some(
                    seq![#[trigger] glyphs@[k][0]@, glyphs@[k][1]@, glyphs@[k][2]@],
                ),
                parts == Seq::new(n as nat, |i: int| glyph_spec(label@[i])->0[r as int]),
                line@ == join_with(parts.take(i as int), " "@),
        {
            let ghost prev = line@;
            let g = &glyphs[i];
            if i > 0 {
                push_str(&mut line, " ");
            }
            push_str(&mut line, g[r]);
            proof {
                let gs = seq![g[0]@, g[1]@, g[2]@];
                assert(glyph_spec(label@[i as int]) == Some(gs));
                if r == 0 {
                    assert(gs[0] == g[0]@);
                } else if r == 1 {
                    assert(gs[1] == g[1]@);
                } else {
                    assert(gs[2] == g[2]@);
                }
                assert(parts[i as int] == g[r as int]@);
                assert(parts.take(i + 1).drop_last() == parts.take(i as int));
                assert(parts.take(i + 1).last() == parts[i as int]);
                if i == 0 {
                    assert(parts.take(1)[0] == parts[0]);
                }
            }
        }
        assert(parts.take(n as int) == parts);
        rows.push(line);
    }
    Some(rows)
}

/// Length of parts joined by a separator.
pub proof fn lemma_join_len(parts: Seq<Seq<char>>, sep: Seq<char>, w: int)
    requires
        forall|i: int| 0 <= i < parts.len() ==> #[trigger] parts[i].len() == w,
    ensures
        parts.len() > 0 ==> join_with(parts, sep).len() == parts.len() * w + (parts.len() - 1) * sep.len(),
        parts.len() == 0 ==> join_with(parts, sep).len() == 0,
    decreases parts.len(),
{
    let n = parts.len() as int;
    let k = sep.len() as int;
    if n == 1 {
        assert(n * w + (n - 1) * k == w) by (nonlinear_arith)
            requires
                n == 1,
        ;
    }
    if n > 1 {
        lemma_join_len(parts.drop_last(), sep, w);
        assert(join_with(parts, sep).len() == join_with(parts.drop_last(), sep).len() + k + w);
        assert((n - 1) * w + (n - 2) * k + k + w == n * w + (n - 1) * k) by (nonlinear_arith);
    }
}

/// A rendered label of `n` characters is 3 rows, each `5 n + (n - 1)`
/// cells wide.
pub proof fn lemma_label_width(label: Seq<char>)
    requires
        label_rows(label) is Some,
        label.len() > 0,
    ensures
        label_rows(label)->0.len() == 3,
        forall|r: int| 0 <= r < 3 ==> #[trigger] label_rows(label)->0[r].len() == 5 * label.len() + label.len() - 1,
{
    reveal_strlit(" ");
    assert forall|r: int| 0 <= r < 3 implies #[trigger] label_rows(label)->0[r].len() == 5 * label.len() + label.len() - 1 by {
        let parts = Seq::new(label.len(), |i: int| glyph_spec(label[i])->0[r]);
        assert forall|i: int| 0 <= i < parts.len() implies #[trigger] parts[i].len() == 5 by {
            assert(glyph_spec(label[i]) is Some);
            lemma_glyph_shape(label[i]);
        }
        lemma_join_len(parts, " "@, 5);
        assert(label_rows(label)->0[r] == label_row(label, r));
        assert(label.len() * 5 + (label.len() - 1) * 1 == 5 * label.len() + label.len() - 1) by (nonlinear_arith);
    }
}

} // verus!
