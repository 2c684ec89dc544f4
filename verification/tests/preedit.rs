//! Composing text.

use koma::preedit::{layout_preedit, preedit_caret, Preedit, PreeditCell};

/// `(col, row, char)` triples, for readable assertions.
fn placed(cells: &[PreeditCell]) -> Vec<(usize, usize, char)> {
    cells.iter().map(|c| (c.col, c.row, c.c)).collect()
}

#[test]
fn composing_text_starts_at_the_caret() {
    let cells = layout_preedit("abc", None, (5, 2), 80, 24);
    assert_eq!(placed(&cells), vec![(5, 2, 'a'), (6, 2, 'b'), (7, 2, 'c')]);
}

#[test]
fn kana_takes_two_columns_each() {
    let cells = layout_preedit("にほん", None, (0, 0), 80, 24);
    assert_eq!(placed(&cells), vec![(0, 0, 'に'), (2, 0, 'ほ'), (4, 0, 'ん')]);
    assert!(cells.iter().all(|c| c.width == 2));
}

#[test]
fn composing_text_wraps_at_the_pane_edge() {
    let cells = layout_preedit("abcd", None, (2, 0), 4, 24);
    assert_eq!(placed(&cells), vec![(2, 0, 'a'), (3, 0, 'b'), (0, 1, 'c'), (1, 1, 'd')]);
}

#[test]
fn a_wide_char_wraps_whole_rather_than_splitting() {
    // One column left, but 'あ' needs two — it must move to the next row
    // intact instead of straddling the edge.
    let cells = layout_preedit("あ", None, (3, 0), 4, 24);
    assert_eq!(placed(&cells), vec![(0, 1, 'あ')]);
}

#[test]
fn composing_text_stops_at_the_bottom_of_the_pane() {
    // Two rows only: everything past them is dropped, not drawn off-pane.
    let cells = layout_preedit("abcdef", None, (0, 0), 2, 2);
    assert!(cells.iter().all(|c| c.row < 2), "{:?}", placed(&cells));
    assert_eq!(cells.len(), 4);
}

#[test]
fn the_active_segment_is_marked_by_byte_range() {
    // "にほんご": each kana is 3 bytes. Mark the second one.
    let text = "にほんご";
    let cells = layout_preedit(text, Some((3, 6)), (0, 0), 80, 24);
    let active: Vec<char> = cells.iter().filter(|c| c.active).map(|c| c.c).collect();
    assert_eq!(active, vec!['ほ']);
}

#[test]
fn no_segment_is_active_without_a_range() {
    let cells = layout_preedit("にほん", None, (0, 0), 80, 24);
    assert!(cells.iter().all(|c| !c.active));
}

#[test]
fn an_empty_target_range_marks_nothing() {
    // IMEs send a zero-width range to mean "caret here", not "select this".
    let cells = layout_preedit("abc", Some((1, 1)), (0, 0), 80, 24);
    assert!(cells.iter().all(|c| !c.active));
}

#[test]
fn the_caret_follows_the_composed_text() {
    let cells = layout_preedit("にほん", None, (1, 0), 80, 24);
    assert_eq!(preedit_caret(&cells, (1, 0), 80), (7, 0), "1 + three wide chars");
}

#[test]
fn the_caret_wraps_when_composing_fills_the_row() {
    let cells = layout_preedit("abcd", None, (0, 0), 4, 24);
    assert_eq!(preedit_caret(&cells, (0, 0), 4), (0, 1));
}

#[test]
fn an_empty_composition_leaves_the_caret_alone() {
    let cells = layout_preedit("", None, (7, 3), 80, 24);
    assert!(cells.is_empty());
    assert_eq!(preedit_caret(&cells, (7, 3), 80), (7, 3));
}

#[test]
fn newlines_in_composing_text_are_ignored() {
    // Composition is a single run; a stray newline must not break layout.
    let cells = layout_preedit("a\nb", None, (0, 0), 80, 24);
    assert_eq!(placed(&cells), vec![(0, 0, 'a'), (1, 0, 'b')]);
}

#[test]
fn a_degenerate_pane_produces_no_cells() {
    assert!(layout_preedit("abc", None, (0, 0), 0, 24).is_empty());
    assert!(layout_preedit("abc", None, (0, 0), 80, 0).is_empty());
}

#[test]
fn preedit_tracks_active_state() {
    let mut p = Preedit::default();
    assert!(!p.is_active());
    p.text = "に".into();
    p.target = Some((0, 3));
    assert!(p.is_active());
    p.clear();
    assert!(!p.is_active() && p.target.is_none());
}

#[test]
fn a_composition_binds_to_the_pane_it_started_in() {
    let mut p = Preedit::default();
    p.update("に".into(), None, 7);
    assert_eq!(p.owner, Some(7));
}

#[test]
fn a_composition_in_flight_keeps_its_owner_when_focus_moves() {
    let mut p = Preedit::default();
    p.update("に".into(), None, 7);
    // Focus moved to pane 9 mid-composition; the text still belongs to 7.
    p.update("にほ".into(), None, 9);
    assert_eq!(p.owner, Some(7));
}

#[test]
fn the_empty_preedit_before_a_commit_does_not_orphan_it() {
    // winit sends Preedit("") immediately before Commit. If that cleared
    // the owner, the commit would fall back to whatever is focused now —
    // exactly the misdelivery this is meant to prevent.
    let mut p = Preedit::default();
    p.update("にほん".into(), None, 7);
    p.update(String::new(), None, 9);
    assert_eq!(p.owner, Some(7));
    assert_eq!(p.commit(9), 7, "commit must go to the composing pane");
}

#[test]
fn commit_consumes_the_composition() {
    let mut p = Preedit::default();
    p.update("に".into(), Some((0, 3)), 2);
    assert_eq!(p.commit(2), 2);
    assert!(!p.is_active());
    assert_eq!(p.owner, None);
    assert_eq!(p.target, None);
}

#[test]
fn a_fresh_composition_after_a_commit_binds_to_the_new_focus() {
    let mut p = Preedit::default();
    p.update("に".into(), None, 7);
    p.commit(7);
    p.update("あ".into(), None, 9);
    assert_eq!(p.owner, Some(9));
}

#[test]
fn a_composition_started_after_a_cancel_rebinds() {
    // Escape clears the text without a commit; the stale owner must not
    // capture the next composition.
    let mut p = Preedit::default();
    p.update("に".into(), None, 7);
    p.update(String::new(), None, 7);
    p.update("あ".into(), None, 9);
    assert_eq!(p.owner, Some(9));
}

#[test]
fn commit_falls_back_when_nothing_was_composing() {
    let mut p = Preedit::default();
    assert_eq!(p.commit(4), 4);
}

#[test]
fn clear_drops_the_owner_too() {
    let mut p = Preedit::default();
    p.update("に".into(), Some((0, 3)), 3);
    p.clear();
    assert!(!p.is_active());
    assert_eq!(p.owner, None);
}

#[test]
fn the_caret_can_land_one_row_past_a_full_pane() {
    // Why `ime_anchor` clamps the anchor row: the cells are clipped to
    // the pane, but the caret that follows them is not, so a composition
    // that fills the pane puts it on a row that does not exist.
    let cells = layout_preedit("abcd", None, (0, 0), 2, 2);
    assert!(cells.iter().all(|c| c.row < 2), "cells are clipped");
    let (_, row) = preedit_caret(&cells, (0, 0), 2);
    assert_eq!(row, 2, "one past the last row");
}

#[test]
fn clipping_the_layout_bounds_the_anchor() {
    // Passing the pane's real row count (rather than usize::MAX) is what
    // keeps the anchor within one row of the pane for any length of text.
    let rows = 3;
    let cells = layout_preedit(&"あ".repeat(200), None, (0, 0), 4, rows);
    assert!(cells.iter().all(|c| c.row < rows));
    let (_, row) = preedit_caret(&cells, (0, 0), 4);
    assert!(row <= rows, "anchor row {row} should be at most {rows}");
}

#[test]
fn the_caret_is_where_the_next_character_goes() {
    let texts = ["", "a", "abcd", "abcde", "\u{304b}", "ab\u{304b}", "abc\u{304b}", "a\nb", "\n"];
    for text in texts {
        for start in [(0, 0), (2, 1), (3, 0)] {
            let cells = layout_preedit(text, None, start, 4, 20);
            let more = layout_preedit(&format!("{text}x"), None, start, 4, 20);
            assert_eq!(more.len(), cells.len() + 1);
            let last = more[more.len() - 1];
            assert_eq!(preedit_caret(&cells, start, 4), (last.col, last.row), "{text:?} {start:?}");
        }
    }
}
