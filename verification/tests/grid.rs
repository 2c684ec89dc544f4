//! The screen, driven by the bytes a program writes.

use koma::base64::decode_base64;
use koma::cell::{Color, CursorShape, FLAG_BOLD, FLAG_WIDE_SPACER};
use koma::grid::Grid;
use koma::mouse::{Encoding as MouseEncoding, Tracking as MouseTracking};
use koma::performer::Performer;
use koma::vt::VtParser;

/// Runs `input` through the VT parser against a fresh grid.
fn feed(cols: usize, rows: usize, input: &[&str]) -> Grid {
    let mut g = Grid::new(cols, rows);
    let mut parser = VtParser::new();
    {
        let mut perf = Performer { grid: &mut g, reply: Vec::new() };
        for chunk in input {
            parser.advance(&mut perf, chunk.as_bytes());
        }
    }
    g
}

fn row_text(g: &Grid, y: usize) -> String {
    (0..g.cols).map(|x| g.cell(x, y).c).collect::<String>().trim_end().to_string()
}

#[test]
fn prints_text_and_moves_cursor() {
    let g = feed(20, 5, &["hello"]);
    assert_eq!(row_text(&g, 0), "hello");
    assert_eq!((g.cx, g.cy), (5, 0));
}

#[test]
fn cr_lf_start_a_new_line() {
    let g = feed(20, 5, &["ab\r\ncd"]);
    assert_eq!(row_text(&g, 0), "ab");
    assert_eq!(row_text(&g, 1), "cd");
    assert_eq!((g.cx, g.cy), (2, 1));
}

#[test]
fn wrap_is_deferred_until_the_next_character() {
    // Filling the last column must not scroll on its own.
    let g = feed(4, 3, &["abcd"]);
    assert_eq!(row_text(&g, 0), "abcd");
    assert_eq!((g.cx, g.cy), (3, 0));

    let g = feed(4, 3, &["abcde"]);
    assert_eq!(row_text(&g, 0), "abcd");
    assert_eq!(row_text(&g, 1), "e");
    assert_eq!((g.cx, g.cy), (1, 1));
}

#[test]
fn scrolling_past_the_bottom_fills_scrollback() {
    let g = feed(8, 2, &["one\r\ntwo\r\nthree"]);
    assert_eq!(row_text(&g, 0), "two");
    assert_eq!(row_text(&g, 1), "three");
    assert_eq!(g.scrollback.len(), 1);
    let first: String = g.scrollback[0].iter().map(|c| c.c).collect();
    assert_eq!(first.trim_end(), "one");
}

#[test]
fn view_row_reads_back_into_scrollback() {
    let mut g = feed(8, 2, &["one\r\ntwo\r\nthree"]);
    g.view_offset = 1;
    let top: String = g.view_row(0).unwrap().iter().map(|c| c.c).collect();
    assert_eq!(top.trim_end(), "one");
    let next: String = g.view_row(1).unwrap().iter().map(|c| c.c).collect();
    assert_eq!(next.trim_end(), "two");
}

#[test]
fn cup_positions_the_cursor_one_based() {
    let g = feed(20, 10, &["\x1b[3;5Hx"]);
    assert_eq!((g.cx, g.cy), (5, 2));
    assert_eq!(g.cell(4, 2).c, 'x');
}

#[test]
fn sgr_sets_and_resets_attributes() {
    let g = feed(20, 3, &["\x1b[1;31mA\x1b[0mB"]);
    let a = g.cell(0, 0);
    assert_eq!(a.fg, Color::Indexed(1));
    assert_eq!(a.flags & FLAG_BOLD, FLAG_BOLD);
    let b = g.cell(1, 0);
    assert_eq!(b.fg, Color::Default);
    assert_eq!(b.flags, 0);
}

#[test]
fn sgr_truecolor_and_256_colour() {
    let g = feed(20, 3, &["\x1b[38;2;10;20;30mA\x1b[48;5;99mB"]);
    assert_eq!(g.cell(0, 0).fg, Color::Rgb([10, 20, 30]));
    assert_eq!(g.cell(1, 0).bg, Color::Indexed(99));
}

#[test]
fn erase_in_line_clears_to_the_right() {
    let g = feed(10, 3, &["abcdef\x1b[1;3H\x1b[0K"]);
    assert_eq!(row_text(&g, 0), "ab");
}

#[test]
fn erase_in_display_clears_everything() {
    let g = feed(10, 3, &["ab\r\ncd\x1b[2J"]);
    assert_eq!(row_text(&g, 0), "");
    assert_eq!(row_text(&g, 1), "");
}

#[test]
fn delete_and_insert_characters_shift_the_line() {
    let g = feed(10, 2, &["abcdef\x1b[1;2H\x1b[2P"]);
    assert_eq!(row_text(&g, 0), "adef");

    let g = feed(10, 2, &["abc\x1b[1;2H\x1b[2@"]);
    assert_eq!(row_text(&g, 0), "a  bc");
}

#[test]
fn wide_characters_occupy_two_cells() {
    let g = feed(10, 2, &["あa"]);
    assert_eq!(g.cell(0, 0).c, 'あ');
    assert_eq!(g.cell(1, 0).flags & FLAG_WIDE_SPACER, FLAG_WIDE_SPACER);
    assert_eq!(g.cell(2, 0).c, 'a');
}

#[test]
fn wide_character_wraps_rather_than_splitting() {
    // Only one column left, so the two-cell glyph must move to the next row.
    let g = feed(3, 3, &["ab", "あ"]);
    assert_eq!(g.cell(0, 1).c, 'あ');
    assert_eq!(g.cell(1, 1).flags & FLAG_WIDE_SPACER, FLAG_WIDE_SPACER);
}

#[test]
fn alt_screen_saves_and_restores_the_main_buffer() {
    let mut g = Grid::new(10, 3);
    let mut parser = VtParser::new();
    let mut run = |g: &mut Grid, s: &str| {
        let mut perf = Performer { grid: g, reply: Vec::new() };
        parser.advance(&mut perf, s.as_bytes());
    };
    run(&mut g, "main");
    run(&mut g, "\x1b[?1049h");
    assert!(g.alt_active);
    assert_eq!(row_text(&g, 0), "");
    run(&mut g, "alt");
    assert_eq!(row_text(&g, 0), "alt");
    run(&mut g, "\x1b[?1049l");
    assert!(!g.alt_active);
    assert_eq!(row_text(&g, 0), "main");
}

#[test]
fn scroll_region_limits_scrolling() {
    // Region rows 2..3 (1-based); row 1 must stay put.
    let g = feed(6, 4, &["\x1b[2;3r\x1b[1;1Htop\x1b[2;1Ha\r\nb\r\nc"]);
    assert_eq!(row_text(&g, 0), "top");
    assert_eq!(row_text(&g, 1), "b");
    assert_eq!(row_text(&g, 2), "c");
}

#[test]
fn dsr_reports_cursor_position() {
    let mut g = Grid::new(20, 5);
    let mut parser = VtParser::new();
    let mut perf = Performer { grid: &mut g, reply: Vec::new() };
    parser.advance(&mut perf, b"\x1b[3;7H\x1b[6n");
    assert_eq!(perf.reply, b"\x1b[3;7R");
}

#[test]
fn osc_sets_the_window_title() {
    let g = feed(20, 3, &["\x1b]0;my title\x07"]);
    assert_eq!(g.title, "my title");
}

#[test]
fn resize_keeps_the_bottom_of_the_screen() {
    let mut g = feed(10, 4, &["a\r\nb\r\nc\r\nd"]);
    g.resize(10, 2);
    assert_eq!(g.rows, 2);
    assert_eq!(row_text(&g, 0), "c");
    assert_eq!(row_text(&g, 1), "d");
}

#[test]
fn decckm_toggles_application_cursor_keys() {
    let g = feed(10, 3, &["\x1b[?1h"]);
    assert!(g.app_cursor_keys);
    let g = feed(10, 3, &["\x1b[?1h\x1b[?1l"]);
    assert!(!g.app_cursor_keys);
}

#[test]
fn sgr_does_not_cancel_a_pending_wrap() {
    // Colour changes at the end of a line must not eat the wrap.
    let g = feed(4, 3, &["abcd", "\x1b[31m", "e"]);
    assert_eq!(row_text(&g, 0), "abcd");
    assert_eq!(row_text(&g, 1), "e");
    assert_eq!(g.cell(0, 1).fg, Color::Indexed(1));
}

#[test]
fn cursor_movement_does_cancel_a_pending_wrap() {
    let g = feed(4, 3, &["abcd", "\x1b[1;1H", "e"]);
    assert_eq!(row_text(&g, 0), "ebcd");
    assert_eq!(row_text(&g, 1), "");
}

#[test]
fn scrollback_rows_keep_their_original_width() {
    // Renderers must clamp to the row length, not the current column count.
    let mut g = feed(4, 2, &["ab\r\ncd\r\nef"]);
    assert_eq!(g.scrollback[0].len(), 4);
    g.resize(10, 2);
    g.view_offset = 1;
    assert_eq!(g.view_row(0).unwrap().len(), 4, "old row stays 4 wide");
    assert_eq!(g.view_row(1).unwrap().len(), 10, "live rows use the new width");
}

#[test]
fn output_does_not_slide_a_scrolled_back_viewport() {
    // Scroll back to "one", then let more output arrive. The user is
    // anchored to the line they are reading, not to a distance from the
    // bottom, so "one" must still be the top row.
    let mut g = feed(8, 2, &["one\r\ntwo\r\nthree"]);
    g.view_offset = 1;
    let top = |g: &Grid| -> String {
        g.view_row(0).unwrap().iter().map(|c| c.c).collect::<String>().trim_end().to_string()
    };
    assert_eq!(top(&g), "one");

    let mut parser = VtParser::new();
    let mut perf = Performer { grid: &mut g, reply: Vec::new() };
    parser.advance(&mut perf, b"\r\nfour\r\nfive");
    assert_eq!(top(&g), "one", "the viewport drifted to {:?}", top(&g));
    // "two" and "three" scrolled off, so the offset grew by two to keep
    // pointing at the same line.
    assert_eq!(g.view_offset, 3);
}

#[test]
fn a_live_viewport_keeps_following_new_output() {
    // view_offset == 0 means "pinned to the bottom" and must stay there.
    let mut g = feed(8, 2, &["one\r\ntwo"]);
    assert_eq!(g.view_offset, 0);
    let mut parser = VtParser::new();
    let mut perf = Performer { grid: &mut g, reply: Vec::new() };
    parser.advance(&mut perf, b"\r\nthree\r\nfour");
    assert_eq!(g.view_offset, 0);
    assert_eq!(row_text(&g, 1), "four");
}

#[test]
fn trimming_scrollback_clamps_the_viewport() {
    let mut g = Grid::new(8, 2);
    g.max_scrollback = 3;
    let mut parser = VtParser::new();
    {
        let mut perf = Performer { grid: &mut g, reply: Vec::new() };
        parser.advance(&mut perf, b"a\r\nb\r\nc");
    }
    g.view_offset = g.scrollback.len();
    {
        let mut perf = Performer { grid: &mut g, reply: Vec::new() };
        parser.advance(&mut perf, b"\r\nd\r\ne\r\nf\r\ng");
    }
    assert_eq!(g.scrollback.len(), 3, "trimmed to max_scrollback");
    assert!(g.view_offset <= g.scrollback.len(), "offset {} ran past the top", g.view_offset);
    assert!(g.view_row(0).is_some(), "the top row must still resolve");
}

#[test]
fn the_alternate_screen_does_not_grow_scrollback() {
    // tmux and vim redraw constantly; none of it belongs in our history.
    let mut g = feed(8, 2, &["one\r\ntwo"]);
    let before = g.scrollback.len();
    let mut parser = VtParser::new();
    let mut perf = Performer { grid: &mut g, reply: Vec::new() };
    parser.advance(&mut perf, b"\x1b[?1049h");
    parser.advance(&mut perf, b"a\r\nb\r\nc\r\nd");
    assert_eq!(g.scrollback.len(), before);
}

#[test]
fn a_row_id_stays_with_its_line_as_it_scrolls_away() {
    // "one" is on screen, then scrolls into history. Its id must not move,
    // or a selection made before the output would drift.
    let mut g = feed(8, 2, &["one\r\ntwo"]);
    let id_of_one = g.abs_row(0);
    let text = |g: &Grid, abs| -> String {
        g.row_at(abs).unwrap().iter().map(|c| c.c).collect::<String>().trim_end().to_string()
    };
    assert_eq!(text(&g, id_of_one), "one");

    let mut parser = VtParser::new();
    let mut perf = Performer { grid: &mut g, reply: Vec::new() };
    parser.advance(&mut perf, b"\r\nthree\r\nfour");
    assert_eq!(text(&g, id_of_one), "one", "the id followed the wrong line");
}

#[test]
fn row_ids_survive_history_being_trimmed() {
    let mut g = Grid::new(8, 2);
    g.max_scrollback = 2;
    let mut parser = VtParser::new();
    let mut perf = Performer { grid: &mut g, reply: Vec::new() };
    parser.advance(&mut perf, b"a\r\nb\r\nc\r\nd\r\ne");
    // "a" was dropped, so its id must go dead rather than being handed to
    // whatever line moved into its slot.
    assert_eq!(g.trimmed, 1);
    assert!(g.row_at(0).is_none(), "a trimmed line must not resolve");
    let text = |abs| -> Option<String> {
        g.row_at(abs).map(|r| r.iter().map(|c| c.c).collect::<String>().trim_end().to_string())
    };
    assert_eq!(text(1).as_deref(), Some("b"), "ids did not shift with the trim");
    assert_eq!(text(2).as_deref(), Some("c"));
    assert_eq!(text(3).as_deref(), Some("d"));
    assert_eq!(text(4).as_deref(), Some("e"));
}

#[test]
fn row_ids_line_up_across_the_scrollback_fold() {
    // With the viewport scrolled back, rows above the fold come from
    // history and rows below from the live screen; ids must run
    // continuously across the join.
    let mut g = feed(8, 3, &["a\r\nb\r\nc\r\nd\r\ne"]);
    g.view_offset = 2;
    let ids: Vec<usize> = (0..3).map(|y| g.abs_row(y)).collect();
    assert_eq!(ids, vec![ids[0], ids[0] + 1, ids[0] + 2], "ids must be contiguous");
    for (y, &abs) in ids.iter().enumerate() {
        let via_view: String = g.view_row(y).unwrap().iter().map(|c| c.c).collect();
        let via_id: String = g.row_at(abs).unwrap().iter().map(|c| c.c).collect();
        assert_eq!(via_view, via_id, "row {y} disagrees with id {abs}");
    }
}

#[test]
fn an_id_past_the_bottom_does_not_resolve() {
    let g = feed(8, 2, &["a\r\nb"]);
    let last = g.abs_row(1);
    assert!(g.row_at(last).is_some());
    assert!(g.row_at(last + 1).is_none());
}

#[test]
fn decset_2004_toggles_bracketed_paste() {
    assert!(!Grid::new(10, 3).bracketed_paste, "off until the program asks");
    assert!(feed(10, 3, &["\x1b[?2004h"]).bracketed_paste);
    assert!(!feed(10, 3, &["\x1b[?2004h\x1b[?2004l"]).bracketed_paste);
}

#[test]
fn decset_selects_a_mouse_tracking_mode() {
    assert_eq!(Grid::new(10, 3).mouse_tracking, MouseTracking::Off);
    assert_eq!(feed(10, 3, &["\x1b[?1000h"]).mouse_tracking, MouseTracking::Normal);
    assert_eq!(feed(10, 3, &["\x1b[?1002h"]).mouse_tracking, MouseTracking::ButtonEvent);
    assert_eq!(feed(10, 3, &["\x1b[?1003h"]).mouse_tracking, MouseTracking::AnyEvent);
}

#[test]
fn turning_a_mouse_mode_off_stops_tracking_entirely() {
    // There is no falling back to a lesser mode; tmux relies on this when
    // it hands the mouse back.
    let g = feed(10, 3, &["\x1b[?1002h\x1b[?1002l"]);
    assert_eq!(g.mouse_tracking, MouseTracking::Off);
    let g = feed(10, 3, &["\x1b[?1003h\x1b[?1000l"]);
    assert_eq!(g.mouse_tracking, MouseTracking::Off);
}

#[test]
fn decset_1006_switches_to_sgr_encoding() {
    assert_eq!(Grid::new(10, 3).mouse_encoding, MouseEncoding::Legacy);
    assert_eq!(feed(10, 3, &["\x1b[?1006h"]).mouse_encoding, MouseEncoding::Sgr);
    assert_eq!(feed(10, 3, &["\x1b[?1006h\x1b[?1006l"]).mouse_encoding, MouseEncoding::Legacy);
}

#[test]
fn tmux_style_startup_leaves_the_mouse_fully_configured() {
    // What tmux actually sends for `set -g mouse on`.
    let g = feed(10, 3, &["\x1b[?1049h\x1b[?1000h\x1b[?1002h\x1b[?1006h"]);
    assert!(g.alt_active);
    assert_eq!(g.mouse_tracking, MouseTracking::ButtonEvent);
    assert_eq!(g.mouse_encoding, MouseEncoding::Sgr);
}

#[test]
fn alternate_scroll_is_on_until_a_program_declines_it() {
    // less and man expect the wheel to become arrows; a program that
    // handles the mouse itself turns this off.
    assert!(Grid::new(10, 3).alternate_scroll);
    assert!(!feed(10, 3, &["\x1b[?1007l"]).alternate_scroll);
    assert!(feed(10, 3, &["\x1b[?1007l\x1b[?1007h"]).alternate_scroll);
}

#[test]
fn shrinking_moves_the_lost_rows_into_history() {
    // Splitting a pane shrinks it, and what was above the fold must still be
    // there to scroll back to.
    let mut g = feed(20, 5, &["one\r\ntwo\r\nthree\r\nfour\r\nfive"]);
    assert_eq!(g.scrollback.len(), 0);
    g.resize(20, 2);
    assert_eq!(row_text(&g, 0), "four");
    assert_eq!(row_text(&g, 1), "five");
    assert_eq!(g.scrollback.len(), 3, "the three rows above must be recoverable");
    let back: Vec<String> = g
        .scrollback
        .iter()
        .map(|r| r.iter().map(|c| c.c).collect::<String>().trim_end().to_string())
        .collect();
    assert_eq!(back, vec!["one", "two", "three"]);
}

#[test]
fn growing_pulls_history_back_instead_of_opening_a_gap() {
    // Closing a split should undo what opening it did.
    let mut g = feed(20, 5, &["one\r\ntwo\r\nthree\r\nfour\r\nfive"]);
    g.resize(20, 2);
    g.resize(20, 5);
    let shown: Vec<String> = (0..5).map(|y| row_text(&g, y)).collect();
    assert_eq!(shown, vec!["one", "two", "three", "four", "five"]);
    assert_eq!(g.scrollback.len(), 0, "the pulled rows must leave history");
}

#[test]
fn growing_past_the_history_leaves_the_gap_at_the_top() {
    let mut g = feed(20, 2, &["a\r\nb"]);
    assert_eq!(g.scrollback.len(), 0);
    g.resize(20, 4);
    // Nothing to pull, so the blanks belong above the cursor, not below.
    assert_eq!((0..4).map(|y| row_text(&g, y)).collect::<Vec<_>>(), vec!["", "", "a", "b"]);
}

#[test]
fn shrinking_keeps_the_cursor_on_screen() {
    // The cursor sits on the last used row of a shell, and stays with it.
    let mut g = feed(20, 5, &["one\r\ntwo\r\nthree"]);
    assert_eq!((g.cx, g.cy), (5, 2));
    g.resize(20, 2);
    assert_eq!(row_text(&g, g.cy), "three", "the cursor left its line");
    assert_eq!(g.cx, 5);
    assert!(g.cy < 2);
}

#[test]
fn a_resize_round_trip_keeps_the_cursor_on_its_line() {
    let mut g = feed(20, 5, &["one\r\ntwo\r\nthree"]);
    g.resize(20, 2);
    g.resize(20, 5);
    assert_eq!(row_text(&g, g.cy), "three", "the cursor drifted off its line");
    assert_eq!(g.cx, 5);
    // And nothing was lost on the way.
    let shown: Vec<String> = (0..5).map(|y| row_text(&g, y)).collect();
    assert!(
        shown.iter().any(|r| r == "one") && shown.iter().any(|r| r == "two"),
        "history did not come back: {shown:?}"
    );
}

#[test]
fn a_full_screen_programs_own_rows_never_reach_history() {
    // vim and tmux redraw themselves; their frames are not our scrollback.
    // What the main screen behind them loses off the top still is, which is
    // why this checks whose rows arrived rather than merely counting them.
    let mut g = feed(20, 4, &["a\r\nb\r\nc"]);
    let mut parser = VtParser::new();
    {
        let mut perf = Performer { grid: &mut g, reply: Vec::new() };
        parser.advance(&mut perf, b"\x1b[?1049h");
        parser.advance(&mut perf, b"x\r\ny\r\nz");
    }
    g.resize(20, 2);
    g.resize(20, 4);
    let history: Vec<String> = g
        .scrollback
        .iter()
        .map(|r| r.iter().map(|c| c.c).collect::<String>().trim_end().to_string())
        .collect();
    for frame in ["x", "y", "z"] {
        assert!(!history.contains(&frame.to_string()), "{frame:?} leaked into {history:?}");
    }
}

#[test]
fn shrinking_respects_the_scrollback_limit() {
    let mut g = Grid::new(20, 6);
    g.max_scrollback = 2;
    let mut parser = VtParser::new();
    let mut perf = Performer { grid: &mut g, reply: Vec::new() };
    parser.advance(&mut perf, b"a\r\nb\r\nc\r\nd\r\ne\r\nf");
    drop(perf);
    g.resize(20, 1);
    assert_eq!(g.scrollback.len(), 2, "history grew past its cap");
    assert_eq!(g.trimmed, 3, "trimmed rows must stay counted for row ids");
}

#[test]
fn shrinking_eats_the_blank_tail_before_touching_history() {
    // The common case: a pane with a few lines of output and a prompt, then
    // split. The blank rows under the prompt go first.
    let mut g = feed(20, 24, &["one\r\ntwo\r\n$ "]);
    g.resize(20, 12);
    assert_eq!(g.scrollback.len(), 0, "nothing needed to leave the screen");
    assert_eq!(
        (0..4).map(|y| row_text(&g, y)).collect::<Vec<_>>(),
        vec!["one", "two", "$", ""]
    );
    assert_eq!(g.cy, 2, "the cursor stayed on its line");
}

#[test]
fn a_full_screen_still_pushes_from_the_top() {
    // With no blank tail to take, rows leave at the top.
    let mut g = feed(20, 5, &["a\r\nb\r\nc\r\nd\r\ne"]);
    g.resize(20, 2);
    assert_eq!((0..2).map(|y| row_text(&g, y)).collect::<Vec<_>>(), vec!["d", "e"]);
    assert_eq!(g.scrollback.len(), 3);
    assert_eq!(g.cy, 1, "the cursor ends on the new bottom row");
}

#[test]
fn the_cursor_survives_any_shrink() {
    // shrink_from is at most cy + 1 - rows, so the window always contains
    // the cursor whatever the mix of blank tail and pushed history.
    for rows_old in 2..12usize {
        for cy in 0..rows_old {
            for rows_new in 1..rows_old {
                let mut g = Grid::new(8, rows_old);
                g.cy = cy;
                g.resize(8, rows_new);
                assert!(
                    g.cy < rows_new,
                    "old={rows_old} cy={cy} new={rows_new} left the cursor at {}",
                    g.cy
                );
            }
        }
    }
}

/// The one route a copy has out of tmux on the far end of an ssh session.
#[test]
fn osc_52_puts_text_on_the_clipboard() {
    // BEL-terminated, and ST-terminated, which is what tmux sends.
    let g = feed(20, 3, &["\x1b]52;c;aGVsbG8=\x07"]);
    assert_eq!(g.pending_clipboard.as_deref(), Some("hello"));
    let g = feed(20, 3, &["\x1b]52;c;aGVsbG8=\x1b\\"]);
    assert_eq!(g.pending_clipboard.as_deref(), Some("hello"));
}

#[test]
fn osc_52_takes_any_selection_name() {
    // tmux names no selection at all; xterm's own clients say c, p, or a cut
    // buffer. There is one clipboard here, so all of them write to it.
    for target in ["", "c", "p", "s0", "pc"] {
        let g = feed(20, 3, &[&format!("\x1b]52;{target};aGk=\x07")]);
        assert_eq!(g.pending_clipboard.as_deref(), Some("hi"), "target {target:?}");
    }
}

#[test]
fn dec_line_drawing_turns_letters_into_box_characters() {
    // Without a UTF-8 locale — the usual state of a machine reached over
    // ssh — tmux draws its pane dividers this way, and they arrived as
    // literal rows of `q`.
    let g = feed(10, 2, &["\x1b(0qqqxlk\x1b(Bqx"]);
    assert_eq!(row_text(&g, 0), "───│┌┐qx");
}

#[test]
fn shift_out_selects_the_other_charset() {
    // G1 holds the graphics set; SO maps it in, SI takes it back out.
    let g = feed(10, 2, &["\x1b)0a\x0eq\x0fq"]);
    assert_eq!(row_text(&g, 0), "a─q");
}

#[test]
fn the_saved_cursor_carries_its_charset() {
    // Save while drawing boxes, print ASCII, restore: `q` must be a line
    // again, not the letter.
    let g = feed(10, 2, &["\x1b(0\x1b7\x1b(Bx\x1b8q"]);
    assert_eq!(row_text(&g, 0), "─", "the restore did not bring the charset back");
}

#[test]
fn a_charset_switch_does_not_cancel_a_pending_wrap() {
    let g = feed(4, 3, &["abcd", "\x1b(0", "q"]);
    assert_eq!(row_text(&g, 0), "abcd");
    assert_eq!(row_text(&g, 1), "─");
}

/// Runs `input` and returns whatever the terminal wants to send back.
fn reply_to(input: &[u8]) -> Vec<u8> {
    let mut g = Grid::new(20, 5);
    let mut parser = VtParser::new();
    let mut perf = Performer { grid: &mut g, reply: Vec::new() };
    parser.advance(&mut perf, input);
    perf.reply
}

#[test]
fn the_two_device_attributes_queries_get_their_own_answers() {
    // tmux asks both the moment it starts, and hands input it cannot parse to
    // the pane: a mixed-up answer would be typed at the prompt.
    assert_eq!(reply_to(b"\x1b[c"), b"\x1b[?6c");
    assert_eq!(reply_to(b"\x1b[0c"), b"\x1b[?6c");
    assert_eq!(reply_to(b"\x1b[>c"), b"\x1b[>0;0;0c");
    assert_eq!(reply_to(b"\x1b[>0c"), b"\x1b[>0;0;0c");
}

#[test]
fn a_secondary_attributes_reply_is_never_a_primary_one() {
    // Stated as the property rather than the byte string: whatever we grow
    // into, the two replies must stay tellable apart by their asker.
    let secondary = reply_to(b"\x1b[>c");
    assert!(secondary.starts_with(b"\x1b[>"), "tmux looks for CSI > here");
    assert_ne!(secondary, reply_to(b"\x1b[c"));
}

#[test]
fn a_cursor_report_answers_only_the_query_that_asked_for_it() {
    assert_eq!(reply_to(b"\x1b[3;7H\x1b[6n"), b"\x1b[3;7R");
    // DECXCPR wants a `CSI ? ... R`. Saying nothing is better than saying
    // something the asker will feed to the shell as keystrokes.
    assert!(reply_to(b"\x1b[3;7H\x1b[?6n").is_empty());
    // The mode query tmux sends looking for a light/dark answer.
    assert!(reply_to(b"\x1b[?996n").is_empty());
}

#[test]
fn xtversion_names_the_terminal() {
    let r = reply_to(b"\x1b[>0q");
    let s = String::from_utf8_lossy(&r);
    assert!(s.starts_with("\x1bP>|koma("), "unexpected XTVERSION reply: {s:?}");
    assert!(s.ends_with("\x1b\\"), "XTVERSION must be ST-terminated: {s:?}");
}

#[test]
fn setting_the_cursor_style_still_works() {
    // `CSI Ps SP q` shares its final byte with XTVERSION, so the two must
    // not be confused for each other.
    let g = feed(10, 3, &["\x1b[5 q"]);
    assert!(matches!(g.cursor_shape, CursorShape::Bar));
    assert!(reply_to(b"\x1b[5 q").is_empty());
}

#[test]
fn splitting_while_a_full_screen_program_runs_keeps_the_shell_behind_it() {
    // Opening vim, splitting the pane, then quitting must not wipe the shell.
    let mut g = feed(20, 6, &["shell1\r\nshell2\r\nshell3"]);
    let mut parser = VtParser::new();
    {
        let mut perf = Performer { grid: &mut g, reply: Vec::new() };
        parser.advance(&mut perf, b"\x1b[?1049h");
        parser.advance(&mut perf, b"vim-a\r\nvim-b");
    }
    g.resize(20, 4);
    {
        let mut perf = Performer { grid: &mut g, reply: Vec::new() };
        parser.advance(&mut perf, b"\x1b[?1049l");
    }
    assert!(!g.alt_active);
    let shown: Vec<String> = (0..4).map(|y| row_text(&g, y)).collect();
    assert_eq!(shown, vec!["shell1", "shell2", "shell3", ""]);
}

#[test]
fn the_saved_screen_survives_growing_as_well_as_shrinking() {
    let mut g = feed(20, 4, &["a\r\nb"]);
    let mut parser = VtParser::new();
    {
        let mut perf = Performer { grid: &mut g, reply: Vec::new() };
        parser.advance(&mut perf, b"\x1b[?1049h");
    }
    g.resize(20, 8);
    g.resize(30, 8);
    {
        let mut perf = Performer { grid: &mut g, reply: Vec::new() };
        parser.advance(&mut perf, b"\x1b[?1049l");
    }
    let shown: Vec<String> = (0..8).map(|y| row_text(&g, y)).collect();
    assert!(shown.contains(&"a".to_string()) && shown.contains(&"b".to_string()), "{shown:?}");
}

#[test]
fn the_cursor_behind_a_full_screen_program_comes_back_in_range() {
    let mut g = feed(20, 6, &["one\r\ntwo\r\nthree"]);
    let (cx, cy) = (g.cx, g.cy);
    assert_eq!((cx, cy), (5, 2));
    let mut parser = VtParser::new();
    {
        let mut perf = Performer { grid: &mut g, reply: Vec::new() };
        parser.advance(&mut perf, b"\x1b[?1049h");
    }
    g.resize(20, 3);
    {
        let mut perf = Performer { grid: &mut g, reply: Vec::new() };
        parser.advance(&mut perf, b"\x1b[?1049l");
    }
    assert!(g.cy < 3, "cursor at {} in a 3-row screen", g.cy);
    assert_eq!(row_text(&g, g.cy), "three", "the cursor left its line");
}

#[test]
fn a_full_shell_screen_behind_vim_survives_a_split_intact() {
    // The main screen is cut to a window around its own cursor, at the bottom,
    // not around vim's, at the top.
    let mut g = Grid::new(20, 24);
    let mut parser = VtParser::new();
    {
        let mut perf = Performer { grid: &mut g, reply: Vec::new() };
        for i in 1..=23 {
            parser.advance(&mut perf, format!("l{i}\r\n").as_bytes());
        }
        parser.advance(&mut perf, b"$ ");
        parser.advance(&mut perf, b"\x1b[?1049h");
    }
    g.resize(20, 12);
    {
        let mut perf = Performer { grid: &mut g, reply: Vec::new() };
        parser.advance(&mut perf, b"\x1b[?1049l");
    }

    assert_eq!(row_text(&g, g.cy), "$", "the prompt must come back with the shell");
    assert_eq!(
        (0..12).map(|y| row_text(&g, y)).collect::<Vec<_>>(),
        (13..=23).map(|i| format!("l{i}")).chain(["$".to_string()]).collect::<Vec<_>>()
    );

    // And nothing went missing on the way: every line is still reachable.
    let reachable: Vec<String> = (0..g.trimmed + g.scrollback.len() + g.rows)
        .filter_map(|abs| g.row_at(abs))
        .map(|r| r.iter().map(|c| c.c).collect::<String>().trim_end().to_string())
        .collect();
    for i in 1..=23 {
        assert!(reachable.contains(&format!("l{i}")), "l{i} was lost behind vim");
    }
}

#[test]
fn osc_52_carries_multibyte_text() {
    // 日本語 as base64. Nothing about the payload is per-character, so this
    // is really a check that we decode bytes and only then read them as text.
    let g = feed(20, 3, &["\x1b]52;c;5pel5pys6Kqe\x07"]);
    assert_eq!(g.pending_clipboard.as_deref(), Some("日本語"));
}

/// Answering would hand the local clipboard to whatever is on the far end.
#[test]
fn osc_52_queries_are_never_answered() {
    let mut g = Grid::new(20, 3);
    let mut parser = VtParser::new();
    let mut perf = Performer { grid: &mut g, reply: Vec::new() };
    parser.advance(&mut perf, b"\x1b]52;c;?\x07");
    assert!(perf.reply.is_empty(), "the clipboard leaked back to the program");
    assert!(g.pending_clipboard.is_none());
}

#[test]
fn osc_52_leaves_the_clipboard_alone_when_it_says_nothing() {
    // xterm reads an empty payload as "clear the selection". Wiping what the
    // user copied on a remote program's say-so is worse than ignoring it.
    let g = feed(20, 3, &["\x1b]52;c;\x07"]);
    assert!(g.pending_clipboard.is_none());
    let g = feed(20, 3, &["\x1b]52;c\x07"]);
    assert!(g.pending_clipboard.is_none());
}

#[test]
fn a_bad_osc_52_payload_is_dropped_rather_than_pasted_as_garbage() {
    let g = feed(20, 3, &["\x1b]52;c;not base64!!\x07"]);
    assert!(g.pending_clipboard.is_none());
}

#[test]
fn base64_decodes_every_padding_case() {
    // The three group lengths: no padding, one =, two =.
    assert_eq!(decode_base64(b"YWJj").unwrap(), b"abc");
    assert_eq!(decode_base64(b"YWJjZA==").unwrap(), b"abcd");
    assert_eq!(decode_base64(b"YWJjZGU=").unwrap(), b"abcde");
    // Unpadded is accepted too: senders vary, and the length is unambiguous.
    assert_eq!(decode_base64(b"YWJjZA").unwrap(), b"abcd");
    assert_eq!(decode_base64(b"YWJjZGU").unwrap(), b"abcde");
    assert_eq!(decode_base64(b"").unwrap(), b"");
    // Both non-alphanumeric characters of the standard alphabet.
    assert_eq!(decode_base64(b"++//").unwrap(), &[0xfb, 0xef, 0xff]);
}

#[test]
fn base64_tolerates_wrapped_lines_but_not_junk() {
    assert_eq!(decode_base64(b"YWJj\r\nZGVm").unwrap(), b"abcdef");
    assert_eq!(decode_base64(b" YWJj ").unwrap(), b"abc");
    // A lone trailing character spells no whole byte: cut short, not merely
    // unpadded, and decoding it would hand back a truncated copy.
    assert!(decode_base64(b"YWJjZ").is_none());
    assert!(decode_base64(b"Y").is_none());
    assert!(decode_base64(b"YWJj$").is_none());
    // URL-safe base64 is a different alphabet; rejecting beats mangling.
    assert!(decode_base64(b"a-b_").is_none());
}

#[test]
fn a_split_behind_vim_matches_a_split_without_it() {
    // A full-screen program in front makes no difference to a split.
    let build = || {
        let mut g = Grid::new(20, 24);
        let mut parser = VtParser::new();
        let mut perf = Performer { grid: &mut g, reply: Vec::new() };
        for i in 1..=23 {
            parser.advance(&mut perf, format!("l{i}\r\n").as_bytes());
        }
        parser.advance(&mut perf, b"$ ");
        drop(perf);
        g
    };

    let mut plain = build();
    plain.resize(20, 12);

    let mut behind = build();
    let mut parser = VtParser::new();
    {
        let mut perf = Performer { grid: &mut behind, reply: Vec::new() };
        parser.advance(&mut perf, b"\x1b[?1049h");
    }
    behind.resize(20, 12);
    {
        let mut perf = Performer { grid: &mut behind, reply: Vec::new() };
        parser.advance(&mut perf, b"\x1b[?1049l");
    }

    assert_eq!(
        (0..12).map(|y| row_text(&behind, y)).collect::<Vec<_>>(),
        (0..12).map(|y| row_text(&plain, y)).collect::<Vec<_>>(),
    );
    assert_eq!(behind.scrollback.len(), plain.scrollback.len());
    assert_eq!(behind.cy, plain.cy);
}

/// What splitting a pane does to a screenful of shell output: the pane
/// halves in height, then the split is closed again.
#[test]
fn splitting_a_pane_and_closing_it_keeps_every_line() {
    let mut g = Grid::new(40, 24);
    let mut parser = VtParser::new();
    {
        let mut perf = Performer { grid: &mut g, reply: Vec::new() };
        for i in 1..=20 {
            parser.advance(&mut perf, format!("line{i}\r\n").as_bytes());
        }
        parser.advance(&mut perf, b"$ ");
    }

    // Split: the pane is now half as tall.
    g.resize(40, 12);
    assert_eq!(row_text(&g, g.cy), "$", "the prompt must stay in view");

    // Everything above the fold is reachable by scrolling.
    let reachable: Vec<String> = (0..g.trimmed + g.scrollback.len() + g.rows)
        .filter_map(|abs| g.row_at(abs))
        .map(|r| r.iter().map(|c| c.c).collect::<String>().trim_end().to_string())
        .collect();
    for i in 1..=20 {
        assert!(reachable.contains(&format!("line{i}")), "line{i} was lost by the split");
    }

    // Close the split: the pane grows back.
    g.resize(40, 24);
    assert_eq!(row_text(&g, g.cy), "$");
    let shown: Vec<String> = (0..24).map(|y| row_text(&g, y)).collect();
    for i in 1..=20 {
        assert!(shown.contains(&format!("line{i}")), "line{i} did not come back: {shown:?}");
    }
}

/// The same, but narrower as well — splitting left/right changes columns.
#[test]
fn a_narrower_pane_keeps_its_rows_even_though_they_are_clipped() {
    let mut g = Grid::new(40, 6);
    let mut parser = VtParser::new();
    {
        let mut perf = Performer { grid: &mut g, reply: Vec::new() };
        parser.advance(&mut perf, b"a-long-line-of-output-here\r\nsecond\r\n$ ");
    }
    g.resize(20, 6);
    // No reflow, so the tail is clipped — but the line is still there.
    assert!(row_text(&g, 0).starts_with("a-long-line-of-outpu"));
    assert_eq!(row_text(&g, 1), "second");
    assert_eq!(row_text(&g, g.cy), "$");
}
