//! The pointer, selections, composing text and what is drawn.

use koma::cell::{Cell, Color, CursorShape, FLAG_BOLD, FLAG_INVERSE};
use koma::grid::Grid;
use koma::mouse::{Button, Tracking};
use koma::paint::{has_accent, is_wide, paint_pane, Ink, Paint};
use koma::performer::Performer;
use koma::pointer::{MoveAction, Pointer, ReleaseAction};
use koma::preedit::{ImeAction, ImeEvent, Preedit};
use koma::selection::{
    mode_for_streak, next_streak, word_at_cells, Click, Mode, Point, Selection,
};
use koma::shell::{has_finished, new_size, Foreground, Look};
use koma::theme::{resolve_pair, Theme};
use koma::vt::VtParser;

fn feed(cols: usize, rows: usize, input: &str) -> Grid {
    let mut g = Grid::new(cols, rows);
    let mut perf = Performer { grid: &mut g, reply: Vec::new() };
    VtParser::new().advance(&mut perf, input.as_bytes());
    g
}

fn click(millis: u64, col: usize) -> Click {
    Click { millis, pane: 1, row: 5, col }
}

#[test]
fn repeat_clicks_cycle_through_the_modes() {
    let mut p = Pointer::new();
    assert_eq!(p.count_click(click(0, 3)), Mode::Char);
    assert_eq!(p.count_click(click(399, 3)), Mode::Word);
    assert_eq!(p.count_click(click(500, 3)), Mode::Line);
    assert_eq!(p.count_click(click(600, 3)), Mode::Char);
    assert_eq!(p.count_click(click(1000, 3)), Mode::Char, "too late");
    assert_eq!(p.count_click(click(1001, 4)), Mode::Char, "another cell");
    assert_eq!(next_streak(Some(click(0, 3)), u32::MAX, click(1, 3)), 1);
    assert_eq!(mode_for_streak(5), Mode::Word);
}

#[test]
fn the_release_goes_where_the_press_went() {
    let mut p = Pointer::new();
    p.press_reported(Some(7));
    assert_eq!(p.watched_pane(2), 7);
    assert_eq!(
        p.moved(Tracking::ButtonEvent),
        MoveAction::Report { owner: Some(7), held: Some(Button::Left) }
    );
    assert_eq!(p.released(), ReleaseAction::Report(7));
    assert_eq!(p.released(), ReleaseAction::Nothing);
    assert_eq!(p.watched_pane(2), 2);
    assert_eq!(p.moved(Tracking::AnyEvent), MoveAction::Report { owner: None, held: None });
    assert_eq!(p.moved(Tracking::Off), MoveAction::Nothing);
}

#[test]
fn a_drag_selects_and_a_plain_click_does_not() {
    let at = |col| (Point::new(3, col), Point::new(3, col));
    let mut p = Pointer::new();
    p.begin_selection(1, at(2), Mode::Char);
    assert_eq!(p.moved(Tracking::Off), MoveAction::Extend);
    assert_eq!(p.released(), ReleaseAction::Cleared);
    assert!(p.selection.is_none() && !p.dragging);

    p.begin_selection(1, at(2), Mode::Char);
    p.extend_selection(at(6));
    assert_eq!(p.released(), ReleaseAction::Nothing);
    let kept = p.selection_in(1).expect("it stays");
    assert_eq!(kept.range(), (Point::new(3, 2), Point::new(3, 6)));
    assert!(p.selection_in(2).is_none());

    p.pane_resized(2);
    assert!(p.selection.is_some());
    p.pane_resized(1);
    assert!(p.selection.is_none());

    p.begin_selection(1, at(2), Mode::Char);
    p.press_missed();
    assert!(p.selection.is_none());
    p.extend_selection(at(4));
    assert!(p.selection.is_none(), "nothing to stretch");
}

#[test]
fn a_double_width_character_is_one_of_its_word() {
    let g = feed(12, 2, "a 日本x b");
    let row = g.row_cells(g.abs_row(0)).unwrap();
    assert_eq!(row[2], Some('日'));
    assert_eq!(row[3], None);
    assert_eq!(word_at_cells(&row, 3), (2, 7));
    assert_eq!(word_at_cells(&row, 1), (1, 2));
    let abs = g.abs_row(0);
    assert_eq!(g.span_for(abs, 6, Mode::Word), (Point::new(abs, 2), Point::new(abs, 7)));
    assert_eq!(g.span_for(abs, 6, Mode::Line), (Point::new(abs, 0), Point::new(abs, 12)));
    assert_eq!(g.span_for(abs, 6, Mode::Char), (Point::new(abs, 6), Point::new(abs, 6)));
    let mut s = Selection::new(g.span_for(abs, 6, Mode::Word), Mode::Word);
    assert_eq!(g.selected_text(&s).as_deref(), Some("日本x"));
    s.extend_to((Point::new(abs + 1, 0), Point::new(abs + 1, 12)));
    assert_eq!(g.selected_text(&s).as_deref(), Some("日本x b\n"));
    let blank = Selection::new((Point::new(abs + 1, 0), Point::new(abs + 1, 12)), Mode::Line);
    assert_eq!(g.selected_text(&blank), None, "nothing but blanks");
}

#[test]
fn composing_goes_back_to_the_live_screen_and_commits_where_it_began() {
    let mut p = Preedit::default();
    assert!(matches!(p.handle(ImeEvent::Enabled, 4), ImeAction::Anchor));
    let empty = ImeEvent::Preedit(String::new(), None);
    assert!(matches!(p.handle(empty, 4), ImeAction::Compose(None)));
    let kana = ImeEvent::Preedit("に".to_string(), Some((0, 3)));
    assert!(matches!(p.handle(kana, 4), ImeAction::Compose(Some(4))));
    let more = ImeEvent::Preedit("にほ".to_string(), None);
    assert!(matches!(p.handle(more, 9), ImeAction::Compose(Some(4))));
    assert_eq!(p.composing_pane(9), 4);
    let done = ImeEvent::Commit("日本".to_string());
    assert!(matches!(p.handle(done, 9), ImeAction::Deliver(4, text) if text == "日本"));
    assert_eq!(p.composing_pane(9), 9);
    p.update("x".to_string(), None, 5);
    p.update(String::new(), None, 7);
    assert_eq!(p.composing_pane(9), 9, "a cancelled composition has no pane");
    p.update("x".to_string(), None, 5);
    assert!(!p.drop_composition_of(6));
    assert!(p.drop_composition_of(5));
    assert!(!p.is_active());
    p.update("x".to_string(), None, 5);
    assert!(matches!(p.handle(ImeEvent::Disabled, 5), ImeAction::Redraw));
    assert!(!p.is_active() && p.owner.is_none());
}

#[test]
fn the_candidate_window_stays_on_the_pane() {
    let g = feed(4, 2, "abc\r\nde");
    let mut p = Preedit::default();
    assert_eq!(g.ime_anchor(&p, 4, 2), (2, 1));
    p.update("x".to_string(), None, 1);
    assert_eq!(g.ime_anchor(&p, 4, 2), (3, 1));
    p.update("xyz".to_string(), None, 1);
    assert_eq!(g.ime_anchor(&p, 4, 2), (0, 1), "one row past is clamped");
}

const FG: [u8; 3] = [0xd8, 0xde, 0xe9];
const BG: [u8; 3] = [0x1b, 0x1f, 0x27];

#[test]
fn the_palette_is_xterms() {
    let t = Theme::default();
    assert_eq!(t.indexed(1), [0xf7, 0x76, 0x8e]);
    assert_eq!(t.indexed(16), [0, 0, 0]);
    assert_eq!(t.indexed(99), [135, 95, 255]);
    assert_eq!(t.indexed(231), [255, 255, 255]);
    assert_eq!(t.indexed(232), [8, 8, 8]);
    assert_eq!(t.indexed(255), [238, 238, 238]);
    assert_eq!(t.resolve(Color::Default, true), FG);
    assert_eq!(t.resolve(Color::Default, false), BG);
    assert_eq!(t.resolve(Color::Rgb([1, 2, 3]), true), [1, 2, 3]);
}

#[test]
fn bold_brightens_and_inverse_swaps() {
    let t = Theme::default();
    let mut cell = Cell { c: 'x', fg: Color::Indexed(1), bg: Color::Default, flags: FLAG_BOLD };
    assert_eq!(resolve_pair(&cell, &t), ([0xff, 0x7a, 0x93], BG));
    cell.flags = FLAG_BOLD | FLAG_INVERSE;
    assert_eq!(resolve_pair(&cell, &t), (BG, [0xff, 0x7a, 0x93]));
    cell.fg = Color::Indexed(8);
    cell.flags = FLAG_BOLD;
    assert_eq!(resolve_pair(&cell, &t).0, [0x41, 0x48, 0x68], "bright already");
}

fn paints(g: &Grid, focused: bool, sel: Option<Selection>, p: &Preedit) -> Vec<Paint> {
    paint_pane(g, &Theme::default(), 1, focused, &sel, p, 80, 24)
}

#[test]
fn a_row_is_painted_backgrounds_first() {
    let g = feed(6, 1, "\x1b[?25l\x1b[41m日\x1b[m\x1b[1;4ma");
    let red = Ink::Rgb([0xf7, 0x76, 0x8e]);
    assert_eq!(
        paints(&g, true, None, &Preedit::default()),
        vec![
            Paint::Fill { col: 0, row: 0, width: 2, ink: red },
            Paint::Glyph { col: 0, row: 0, c: '日', bold: false, ink: Ink::Rgb(FG) },
            Paint::Glyph { col: 2, row: 0, c: 'a', bold: true, ink: Ink::Rgb(FG) },
            Paint::Underline { col: 2, row: 0, ink: Ink::Rgb(FG) },
        ]
    );
    let row = g.view_row(0).unwrap();
    assert!(is_wide(row, 0) && !is_wide(row, 1) && !is_wide(row, 5) && !is_wide(row, 99));
}

#[test]
fn selected_cells_get_the_selection_background() {
    let g = feed(3, 1, "\x1b[?25lab");
    let sel = Selection::new((Point::new(0, 1), Point::new(0, 3)), Mode::Char);
    let fills: Vec<Paint> = paints(&g, true, Some(sel), &Preedit::default())
        .into_iter()
        .filter(|p| matches!(p, Paint::Fill { .. }))
        .collect();
    assert_eq!(
        fills,
        vec![
            Paint::Fill { col: 1, row: 0, width: 1, ink: Ink::Selection },
            Paint::Fill { col: 2, row: 0, width: 1, ink: Ink::Selection },
        ]
    );
}

#[test]
fn a_focused_block_cursor_keeps_its_character_readable() {
    let g = feed(3, 1, "ab\x1b[1;1H");
    let none = Preedit::default();
    let shape = CursorShape::Block;
    let with = paints(&g, true, None, &none);
    assert_eq!(with[2], Paint::Cursor { col: 0, row: 0, shape, focused: true });
    assert_eq!(
        with[3],
        Paint::Glyph { col: 0, row: 0, c: 'a', bold: false, ink: Ink::Rgb(BG) }
    );
    let without = paints(&g, false, None, &none);
    assert_eq!(without.last(), Some(&Paint::Cursor { col: 0, row: 0, shape, focused: false }));
}

#[test]
fn the_cursor_stands_down_over_history_and_while_composing() {
    let is_cursor = |p: &Paint| matches!(p, Paint::Cursor { .. });
    let mut g = feed(4, 2, "a\r\nb\r\nc");
    let mut p = Preedit::default();
    assert!(paints(&g, true, None, &p).iter().any(is_cursor));
    p.update("に".to_string(), Some((0, 3)), 1);
    let composing = paints(&g, true, None, &p);
    assert!(!composing.iter().any(is_cursor));
    assert_eq!(
        composing[2..],
        [
            Paint::Fill { col: 1, row: 1, width: 2, ink: Ink::Composition },
            Paint::Glyph { col: 1, row: 1, c: 'に', bold: false, ink: Ink::Rgb(FG) },
            Paint::Rule { col: 1, row: 1, width: 2, active: true },
            Paint::Caret { col: 3, row: 1 },
        ]
    );
    // Without a range the composition has no caret.
    p.update("に".to_string(), None, 1);
    let bare = paints(&g, true, None, &p);
    assert!(!bare.iter().any(|p| matches!(p, Paint::Caret { .. })));
    assert_eq!(bare.len(), composing.len() - 1);
    // Another pane's composition is none of ours.
    p.clear();
    p.update("に".to_string(), None, 2);
    assert!(paints(&g, true, None, &p).iter().any(is_cursor));
    g.scroll_view(1);
    assert!(!paints(&g, true, None, &p).iter().any(is_cursor));
}

#[test]
fn only_what_fits_is_painted() {
    let g = feed(4, 2, "abcd\r\nefgh");
    let out = paint_pane(
        &g,
        &Theme::default(),
        1,
        true,
        &None,
        &Preedit::default(),
        2,
        1,
    );
    let glyphs: String = out
        .iter()
        .filter_map(|p| match p {
            Paint::Glyph { c, .. } => Some(*c),
            _ => None,
        })
        .collect();
    assert_eq!(glyphs, "ab");
    assert!(has_accent(true, 2) && !has_accent(true, 1) && !has_accent(false, 2));
}

#[test]
fn a_handover_is_asked_about_once() {
    let mut f = Foreground::new(Some(10));
    assert_eq!(f.look(Some(10)), Look::Nothing, "nothing has run yet");
    assert_eq!(f.look(Some(55)), Look::Nothing);
    assert_eq!(f.look(None), Look::Nothing, "no answer is not a handover");
    assert_eq!(f.look(Some(10)), Look::Check(55));
    assert_eq!(f.look(Some(10)), Look::Nothing);
    f.shell_in_front = false;
    assert_eq!(f.look(Some(10)), Look::Finished, "never saw who had it");
    assert_eq!(Foreground::new(None).look(Some(3)), Look::Nothing);
    assert!(has_finished(Look::Check(55), false) && !has_finished(Look::Check(55), true));
    assert!(has_finished(Look::Finished, true) && !has_finished(Look::Nothing, false));
}

#[test]
fn a_pty_has_at_least_one_cell() {
    assert_eq!(new_size((80, 24), 80, 24), None);
    assert_eq!(new_size((80, 24), 0, 24), Some((1, 24)));
    assert_eq!(new_size((1, 1), 0, 0), None);
}
