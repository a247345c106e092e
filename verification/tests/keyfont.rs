use rpg_top::keyfont::{glyph, render_label, GLYPH_GAP, GLYPH_H, GLYPH_W};

#[test]
fn every_glyph_is_3x5() {
    for c in ('A'..='Z')
        .chain('0'..='9')
        .chain(['<', '>', '/', '-', '+', '=', '?', '!', ':', ' '])
        .chain(['▲', '▼', '◀', '▶'])
    {
        let g = glyph(c).unwrap_or_else(|| panic!("missing glyph for {c:?}"));
        for (i, row) in g.iter().enumerate() {
            assert_eq!(
                row.chars().count(),
                GLYPH_W,
                "{c:?} row {i} has wrong width: {row:?}",
            );
        }
        assert_eq!(g.len(), GLYPH_H);
    }
}

#[test]
fn lowercase_letters_map_to_uppercase() {
    assert_eq!(glyph('e'), glyph('E'));
    assert_eq!(glyph('q'), glyph('Q'));
    assert_eq!(glyph('z'), glyph('Z'));
}

#[test]
fn unknown_chars_return_none() {
    assert!(glyph('@').is_none());
    assert!(glyph('λ').is_none());
}

#[test]
fn render_label_concatenates_glyphs_with_gap() {
    let rows = render_label("AB").expect("known label");
    assert_eq!(rows.len(), GLYPH_H);
    // Each row: 5 glyph cols + 1 gap col + 5 glyph cols = 11.
    for row in &rows {
        assert_eq!(row.chars().count(), GLYPH_W * 2 + GLYPH_GAP);
    }
    // The top row of A, then the gap, then the top row of B.
    assert!(rows[0].starts_with(" ███ "));
    assert!(rows[0].ends_with("████ "));
}

#[test]
fn render_label_returns_none_for_unknown_char() {
    // λ has no glyph, so the whole label fails (the caller falls back to text).
    assert!(render_label("Aλ").is_none());
}

#[test]
fn glyph_arrows_have_distinct_shapes() {
    assert_eq!(glyph('↑'), glyph('▲'));
    assert_eq!(glyph('→').unwrap(), ["███  ", "█████", "███  "]);
    assert_ne!(glyph('◀'), glyph('▶'));
}

#[test]
fn render_label_width_for_three_glyphs() {
    let rows = render_label("esc").expect("known label");
    assert_eq!(rows.len(), 3);
    for row in &rows {
        assert_eq!(row.chars().count(), 5 * 3 + 2);
    }
    assert_eq!(rows[1], "███    ███  █    ");
}

#[test]
fn render_label_of_empty_text_is_three_empty_rows() {
    let rows = render_label("").expect("empty label renders");
    assert_eq!(rows, vec![String::new(), String::new(), String::new()]);
}

#[test]
fn glyphs_use_full_blocks_and_spaces_only() {
    for c in ('A'..='Z')
        .chain('0'..='9')
        .chain(['<', '>', '/', '-', '+', '=', '?', '!', ':', ' '])
        .chain(['▲', '▼', '◀', '▶'])
    {
        let g = glyph(c).unwrap();
        for row in g.iter() {
            assert!(row.chars().all(|ch| ch == '█' || ch == ' '), "{c:?}: {row:?}");
        }
    }
    assert_eq!(glyph('M').unwrap(), ["██ ██", "█ █ █", "█   █"]);
}

#[test]
fn i_and_z_share_the_thin_bar() {
    assert_eq!(glyph('I'), glyph('Z'));
    assert_eq!(glyph('Z').unwrap(), ["  █  ", "  █  ", "  █  "]);
}
