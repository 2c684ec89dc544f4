//! What holds of every terminal, on examples.

use koma::cell::{Charset, Color, CursorShape, FLAG_INVERSE, FLAG_ITALIC, FLAG_UNDERLINE};
use koma::grid::Grid;
use koma::mouse::{Encoding, Event, Tracking};
use koma::performer::Performer;
use koma::sequences::Action;
use koma::session::{focus_after_close, next_focus, pump};
use koma::viewport::{page_lines, WheelPlan, WheelSource};
use koma::vt::VtParser;

fn send(g: &mut Grid, parser: &mut VtParser, input: &str) -> Vec<u8> {
    let mut perf = Performer { grid: g, reply: Vec::new() };
    assert!(parser.advance(&mut perf, input.as_bytes()));
    perf.reply
}

fn feed(cols: usize, rows: usize, input: &str) -> Grid {
    let mut g = Grid::new(cols, rows);
    send(&mut g, &mut VtParser::new(), input);
    g
}

fn row_text(g: &Grid, y: usize) -> String {
    (0..g.cols).map(|x| g.cell(x, y).c).collect::<String>().trim_end().to_string()
}

fn screen(g: &Grid) -> Vec<String> {
    (0..g.rows).map(|y| row_text(g, y)).collect()
}

#[test]
fn a_grid_has_at_least_one_cell() {
    let g = Grid::new(0, 0);
    assert_eq!((g.cols, g.rows, g.cells.len()), (1, 1, 1));
    assert_eq!((g.top, g.bot, g.max_scrollback), (0, 0, 10_000));
}

#[test]
fn sub_parameters_count_as_parameters() {
    let g = feed(10, 2, "\x1b[38:2:10:20:30mA");
    assert_eq!(g.cell(0, 0).fg, Color::Rgb([10, 20, 30]));
}

#[test]
fn the_parser_keeps_its_place_between_reads() {
    let mut parser = VtParser::new();
    assert!(parser.read(b"\x1b[3").is_empty());
    let found = parser.read(b"1;7mx\n\xe3\x81");
    assert_eq!(found.len(), 3);
    assert!(matches!(&found[0], Action::Csi { params, intermediates, c: 'm' }
        if *params == vec![vec![31], vec![7]] && intermediates.is_empty()));
    assert!(matches!(found[1], Action::Print('x')));
    assert!(matches!(found[2], Action::Execute(10)));
    assert!(matches!(parser.read(b"\x82")[0], Action::Print('あ')));
}

#[test]
fn a_fresh_parser_reads_plain_text_as_it_is() {
    let mut parser = VtParser::new();
    assert!(parser.read(b"").is_empty());
    for _ in 0..2 {
        let found = parser.read("a\x7f\r\u{9b}日".as_bytes());
        assert_eq!(found.len(), 5);
        assert!(matches!(found[0], Action::Print('a')));
        assert!(matches!(found[1], Action::Print('\x7f')));
        assert!(matches!(found[2], Action::Execute(0x0d)));
        assert!(matches!(found[3], Action::Execute(0x9b)));
        assert!(matches!(found[4], Action::Print('日')));
    }
}

#[test]
fn every_attribute_has_its_code() {
    let g = feed(20, 1, "\x1b[3;4;7mA\x1b[23;24;27mB\x1b[93;104mC\x1b[39;49mD\x1b[1mE\x1b[22mF\x1b[1m\x1b[mG");
    assert_eq!(g.cell(0, 0).flags, FLAG_ITALIC | FLAG_UNDERLINE | FLAG_INVERSE);
    assert_eq!(g.cell(1, 0).flags, 0);
    assert_eq!((g.cell(2, 0).fg, g.cell(2, 0).bg), (Color::Indexed(11), Color::Indexed(12)));
    assert_eq!((g.cell(3, 0).fg, g.cell(3, 0).bg), (Color::Default, Color::Default));
    assert_eq!(g.cell(4, 0).flags, 1);
    assert_eq!(g.cell(5, 0).flags, 0);
    assert_eq!(g.cell(6, 0).flags, 0, "no parameter is a reset");
}

#[test]
fn cursor_moves_stop_at_the_edges() {
    let at = |s: &str| {
        let g = feed(10, 5, s);
        (g.cx, g.cy)
    };
    assert_eq!(at("\x1b[3;4H\x1b[A"), (3, 1));
    assert_eq!(at("\x1b[3;4H\x1b[99A"), (3, 0));
    assert_eq!(at("\x1b[99B"), (0, 4));
    assert_eq!(at("\x1b[2e"), (0, 2));
    assert_eq!(at("\x1b[99C\x1b[2D"), (7, 0));
    assert_eq!(at("\x1b[3a"), (3, 0));
    assert_eq!(at("abc\x1b[2E"), (0, 2));
    assert_eq!(at("\x1b[4;4H\x1b[F"), (0, 2));
    assert_eq!(at("\x1b[5G"), (4, 0));
    assert_eq!(at("\x1b[5`\x1b[3d"), (4, 2));
    assert_eq!(at("\x1b[0;0H"), (0, 0), "zero stands for one");
    assert_eq!(at("\x1b[99;99f"), (9, 4));
    assert_eq!(at("ab\x08\x08\x08"), (0, 0));
    assert_eq!(at("a\t"), (8, 0));
    assert_eq!(at("a\t\t"), (9, 0));
    assert_eq!(at("ab\x1bD"), (2, 1));
    assert_eq!(at("ab\x1bE"), (0, 1));
}

#[test]
fn erasing_takes_the_background_of_the_pen() {
    let g = feed(4, 3, "aaaa\r\nbbbb\r\ncccc\x1b[2;3H\x1b[44m\x1b[1J");
    assert_eq!(screen(&g), vec!["", "   b", "cccc"]);
    assert_eq!(g.cell(0, 0).bg, Color::Indexed(4));
    assert_eq!(g.cell(2, 1).bg, Color::Indexed(4));
    assert_eq!(g.cell(3, 1).bg, Color::Default);
    let g = feed(4, 3, "aaaa\r\nbbbb\r\ncccc\x1b[2;3H\x1b[J");
    assert_eq!(screen(&g), vec!["aaaa", "bb", ""]);
    let g = feed(4, 2, "aaaa\x1b[1;2H\x1b[1K");
    assert_eq!(screen(&g), vec!["  aa", ""]);
    let g = feed(4, 2, "aaaa\x1b[1;2H\x1b[2K");
    assert_eq!(screen(&g), vec!["", ""]);
    let g = feed(6, 1, "abcdef\x1b[1;3H\x1b[2X");
    assert_eq!(screen(&g), vec!["ab  ef"]);
}

#[test]
fn lines_are_inserted_and_deleted_within_the_region() {
    let body = "a\r\nb\r\nc\r\nd\x1b[1;3r";
    let g = feed(3, 4, &format!("{body}\x1b[2;1H\x1b[L"));
    assert_eq!(screen(&g), vec!["a", "", "b", "d"]);
    let g = feed(3, 4, &format!("{body}\x1b[1;1H\x1b[M"));
    assert_eq!(screen(&g), vec!["b", "c", "", "d"]);
    // Outside the region neither does anything.
    let g = feed(3, 4, &format!("{body}\x1b[4;1H\x1b[L\x1b[M"));
    assert_eq!(screen(&g), vec!["a", "b", "c", "d"]);
    let g = feed(3, 4, &format!("{body}\x1b[2S"));
    assert_eq!(screen(&g), vec!["c", "", "", "d"]);
    let g = feed(3, 4, &format!("{body}\x1b[T"));
    assert_eq!(screen(&g), vec!["", "a", "b", "d"]);
    let g = feed(3, 4, &format!("{body}\x1b[1;1H\x1bM"));
    assert_eq!(screen(&g), vec!["", "a", "b", "d"]);
}

#[test]
fn a_region_of_one_row_or_past_the_screen_is_ignored() {
    for bad in ["\x1b[2;2r", "\x1b[3;2r", "\x1b[1;9r"] {
        let g = feed(5, 4, &format!("\x1b[2;2H{bad}"));
        assert_eq!((g.top, g.bot, g.cx, g.cy), (0, 3, 1, 1), "{bad:?}");
    }
    let g = feed(5, 4, "\x1b[2r");
    assert_eq!((g.top, g.bot, g.cy), (1, 3, 1));
}

#[test]
fn a_full_reset_starts_over() {
    let g = feed(5, 3, "abc\x1b[?25l\x1b[?1049h\x1b[31m\x1b(0\x1b[5 q\x1bc");
    assert_eq!(screen(&g), vec!["", "", ""]);
    assert!(g.cursor_visible && !g.alt_active);
    assert_eq!(g.pen.fg, Color::Default);
    assert_eq!(g.g0, Charset::Ascii);
    assert_eq!(g.cursor_shape, CursorShape::Block);
}

#[test]
fn a_restored_cursor_carries_everything_that_was_saved() {
    let g = feed(10, 4, "\x1b[2;3H\x1b[32m\x1b[s\x1b[4;9H\x1b[m\x1b[u*");
    assert_eq!((g.cx, g.cy), (3, 1));
    assert_eq!(g.cell(2, 1).fg, Color::Indexed(2));
}

#[test]
fn titles_and_the_bell() {
    let g = feed(10, 2, "\x07\x1b]2;a;b\x07");
    assert!(g.bell);
    assert_eq!(g.title, "a");
    assert_eq!(g.window_title(), "a");
    assert_eq!(Grid::new(10, 2).window_title(), "koma");
    // What is no UTF-8 is replaced.
    let mut g = Grid::new(10, 2);
    let mut perf = Performer { grid: &mut g, reply: Vec::new() };
    perf.osc_dispatch(&[b"0".to_vec(), b"x\xffy".to_vec()]);
    assert_eq!(g.title, "x\u{fffd}y");
}

#[test]
fn the_clipboard_is_handed_out_once() {
    let mut g = feed(10, 2, "\x1b]52;c;aGVsbG8=\x07");
    assert_eq!(g.take_clipboard().as_deref(), Some("hello"));
    assert_eq!(g.take_clipboard(), None);
}

#[test]
fn history_stays_within_its_limit_and_keeps_its_ids() {
    let mut g = Grid::new(4, 2);
    g.max_scrollback = 3;
    let mut parser = VtParser::new();
    for i in 0..20 {
        send(&mut g, &mut parser, &format!("{i}\r\n"));
        assert!(g.scrollback.len() <= 3);
    }
    let first = g.trimmed;
    let text: String = g.row_at(first).unwrap().iter().map(|c| c.c).collect();
    assert_eq!(text.trim_end(), first.to_string(), "line {first} is under id {first}");
}

#[test]
fn the_main_screen_is_safe_behind_the_alternate_one() {
    let mut g = feed(6, 3, "one\r\ntwo");
    let mut parser = VtParser::new();
    send(&mut g, &mut parser, "\x1b[?1049h");
    assert_eq!(screen(&g), vec!["", "", ""]);
    send(&mut g, &mut parser, "\x1b[2Jx\r\ny\r\nz\r\nw\x1b[3S\x1b[?1049l");
    assert_eq!(screen(&g), vec!["one", "two", ""]);
    assert_eq!((g.cx, g.cy), (3, 1));
    assert!(g.scrollback.is_empty());
}

#[test]
fn modes_are_private() {
    let g = feed(5, 2, "\x1b[1h\x1b[2004h");
    assert!(!g.app_cursor_keys && !g.bracketed_paste);
    let g = feed(5, 2, "\x1b[?1;2004;25l\x1b[?1;2004h");
    assert!(g.app_cursor_keys && g.bracketed_paste && !g.cursor_visible);
}

#[test]
fn a_finished_program_gives_the_pane_back() {
    let mut g = feed(6, 2, "a\r\nb\r\nc\x1b[?1049h\x1b[?1002h\x1b[?1006h\x1b[?1007l\x1b[?1h\x1b[?2004h");
    let mut parser = VtParser::new();
    assert!(g.program_owns_screen());
    assert!(matches!(g.wheel(1, false, None), WheelPlan::Nothing));
    // The modes go before the bytes are read, so what a prompt sets lands.
    let (changed, reply) = pump(&mut g, &mut parser, b"$ \x1b[?2004h\x1b[6n", true);
    assert!(changed);
    assert_eq!(reply, b"\x1b[1;3R");
    assert!(g.bracketed_paste && !g.app_cursor_keys && g.alternate_scroll);
    assert_eq!((g.mouse_tracking, g.mouse_encoding), (Tracking::Off, Encoding::Legacy));
    assert!(g.alt_active && !g.program_owns_screen());
    g.scroll_view(1);
    assert_eq!(g.view_offset, 1);
    // Nothing to read: nothing happens, not even a reset.
    let mut h = feed(6, 2, "\x1b[?2004h");
    let (changed, reply) = pump(&mut h, &mut parser, b"", true);
    assert!(!changed && reply.is_empty() && h.bracketed_paste);
}

#[test]
fn the_viewport_moves_and_jumps() {
    let mut g = feed(4, 2, "a\r\nb\r\nc\r\nd\r\ne");
    assert_eq!(g.scrollback.len(), 3);
    g.scroll_view(2);
    assert_eq!(g.view_offset, 2);
    g.scroll_view(-2);
    assert_eq!(g.view_offset, 0);
    g.scroll_to_edge(true);
    assert_eq!(g.view_offset, 3);
    g.scroll_to_edge(false);
    assert_eq!(g.view_offset, 0);
    g.scroll_view(9);
    g.show_live();
    assert_eq!(g.view_offset, 0);
    assert_eq!((page_lines(24), page_lines(1), page_lines(0)), (23, 1, 1));
}

#[test]
fn the_wheel_goes_to_reports_then_arrows_then_the_viewport() {
    let g = feed(4, 2, "a\r\nb\r\nc");
    let report = Some(b"R".to_vec());
    assert!(matches!(g.wheel(3, false, report), WheelPlan::Send(b) if b == b"RRR"));
    let many = Some(b"R".to_vec());
    assert!(matches!(g.wheel(-99, false, many), WheelPlan::Send(b) if b.len() == 32));
    assert!(matches!(g.wheel(5, false, None), WheelPlan::Show(1)));
    assert!(matches!(g.wheel(0, false, Some(b"R".to_vec())), WheelPlan::Nothing));
    let g = feed(4, 2, "\x1b[?1049h\x1b[?1h");
    assert!(matches!(g.wheel(-2, false, None), WheelPlan::Send(b) if b == b"\x1bOB\x1bOB"));
    assert!(matches!(g.wheel(-2, true, None), WheelPlan::Show(0)));
    let g = feed(4, 2, "\x1b[?1049h\x1b[?1007l");
    assert!(matches!(g.wheel(2, false, None), WheelPlan::Show(0)));
}

#[test]
fn a_leftover_fraction_stays_with_its_pane_and_axis() {
    let mut source = WheelSource { pane: 1, across: false };
    assert!(!source.turn_to(1, false));
    assert!(source.turn_to(2, false));
    assert!(source.turn_to(2, true));
    assert!(!source.turn_to(2, true));
}

#[test]
fn shift_keeps_mouse_events_local() {
    let g = feed(8, 4, "\x1b[?1003h\x1b[?1006h");
    let mut held = koma::input::ModifiersState::empty();
    let up = Event::Wheel { up: true };
    assert_eq!(g.mouse_report(up, 2, 3, held).unwrap(), b"\x1b[<64;3;4M");
    held.control = true;
    assert_eq!(g.mouse_report(up, 2, 3, held).unwrap(), b"\x1b[<80;3;4M");
    held.shift = true;
    assert_eq!(g.mouse_report(up, 2, 3, held), None);
}

#[test]
fn points_are_kept_within_the_pane() {
    let mut g = feed(8, 3, "a\r\nb\r\nc\r\nd\r\ne");
    assert_eq!(g.cell_under(3, 1, 8, 3), (3, 1));
    assert_eq!(g.cell_under(99, 99, 8, 3), (7, 2));
    assert_eq!(g.cell_under(5, 2, 4, 2), (3, 1), "no more than fits is shown");
    assert_eq!(g.cell_under(5, 2, 0, 0), (0, 0));
    // For selecting, the row by its id and a column that may be one past.
    assert_eq!(g.spot_under(99, 99, 8, 3), Some((4, 8)));
    g.scroll_view(2);
    assert_eq!(g.spot_under(0, 0, 8, 3), Some((0, 0)));
    g.trimmed = usize::MAX;
    assert_eq!(g.spot_under(0, 0, 8, 3), None, "rows can no longer be numbered");
}

#[test]
fn a_grid_takes_the_size_of_its_pane() {
    let mut g = feed(8, 3, "a\r\nb\r\nc");
    assert!(!g.fit(8, 3));
    assert!(g.fit(8, 2));
    assert_eq!(screen(&g), vec!["b", "c"]);
    assert!(g.fit(0, 0));
    assert_eq!((g.cols, g.rows), (1, 1));
    assert!(!g.fit(usize::MAX, 2), "too large to have");
    assert_eq!((g.cols, g.rows), (1, 1));
}

/// That the screen is a rectangle of its size with the cursor, the scroll region
/// and the viewport inside it.
fn assert_sound(g: &Grid, cols: usize, rows: usize) {
    assert_eq!((g.cols, g.rows, g.cells.len()), (cols, rows, cols * rows));
    assert!(g.cx < cols && g.cy < rows, "cursor at {},{}", g.cx, g.cy);
    assert!(g.top <= g.bot && g.bot < rows, "region {}..{}", g.top, g.bot);
    assert!(g.view_offset <= g.scrollback.len());
    assert!(g.scrollback.len() <= g.max_scrollback);
}

#[test]
fn whatever_is_sent_keeps_everything_on_the_screen() {
    let wild = [
        "\x1b[999;999H", "漢字かな", "\x1b[999A\x1b[999D", "\x1bM\x1bM", "\x1b[2;3r", "\x1b[999B\n\n",
        "\x1b[9;1r", "\x1b[999S\x1b[999T", "\x1b[999L\x1b[999M", "\x1b[999P\x1b[999@\x1b[999X",
        "\x1b7\x1b[?1049h\x1b[999C", "x\r\ny", "\x1b8\x1b[?1049l", "\x1b[u", "\x1b[!p", "\x1bc",
    ];
    let mut g = Grid::new(5, 4);
    let mut parser = VtParser::new();
    for input in wild {
        send(&mut g, &mut parser, input);
        assert_sound(&g, 5, 4);
    }
}

#[test]
fn any_resize_keeps_everything_on_the_screen() {
    let mut g = feed(5, 4, "a\r\nb\r\nc\r\nd\r\ne\x1b[2;3r\x1b[?1049h\x1b[4;5H");
    for (cols, rows) in [(3, 2), (9, 9), (1, 1), (0, 0), (5, 4)] {
        assert!(g.fit(cols, rows) || (g.cols, g.rows) == (cols.max(1), rows.max(1)));
        assert_sound(&g, cols.max(1), rows.max(1));
    }
}

#[test]
fn output_is_refused_once_lines_cannot_be_counted() {
    let mut g = Grid::new(4, 2);
    g.trimmed = usize::MAX;
    let mut perf = Performer { grid: &mut g, reply: Vec::new() };
    assert!(!VtParser::new().advance(&mut perf, b"abc"));
    assert_eq!(row_text(&g, 0), "");
}

#[test]
fn what_still_fits_is_carried_out() {
    let mut g = Grid::new(4, 2);
    g.trimmed = usize::MAX - 3;
    let mut perf = Performer { grid: &mut g, reply: Vec::new() };
    // One line at a time as long as there is a number for it; the title and
    // the report need none, and neither does the reset.
    let mut parser = VtParser::new();
    assert!(!parser.advance(&mut perf, b"a\r\nb\r\nc\r\nd\r\ne\x1b]2;t\x07\x1b[6n"));
    assert_eq!(perf.reply, b"\x1b[2;1R");
    assert_eq!(perf.grid.title, "t");
    assert_eq!(screen(perf.grid), vec!["", ""]);
    assert_eq!(perf.grid.trimmed + perf.grid.scrollback.len(), usize::MAX);
    assert!(!parser.advance(&mut perf, b"x"));
    assert!(!parser.advance(&mut perf, b"y\x1bc"));
    assert!(parser.advance(&mut perf, b"z"));
    assert_eq!(screen(&g), vec!["z", ""]);
}

#[test]
fn a_pending_wrap_outlives_what_leaves_cursor_and_screen_alone() {
    let quiet = [
        "\x1b[?25h", "\x1b[?2004h", "\x1b[?1000l", "\x1b[4h", "\x1b[1049h", "\x1b[?47l", "\x1b[s",
        "\x1b[5z", "\x1b[1m", "\x1b[6n", "\x1b[c", "\x1b[2 q",
    ];
    for quiet in quiet {
        let g = feed(4, 3, &format!("abcd{quiet}e"));
        assert_eq!(row_text(&g, 0), "abcd", "{quiet:?}");
        assert_eq!(g.cell(0, 1).c, 'e', "{quiet:?}");
    }
    let loud =
        ["\x1b[4G", "\x1b[K", "\x1b[0J", "\x1b[r\x1b[4G", "\x1b[?25;1049h\x1b[?1049l"];
    for loud in loud {
        let g = feed(4, 3, &format!("abcd{loud}e"));
        assert_eq!(row_text(&g, 0), "abce", "{loud:?}");
    }
}

#[test]
fn a_region_above_a_standing_line_leaves_its_id() {
    let mut g = Grid::new(8, 3);
    let mut parser = VtParser::new();
    send(&mut g, &mut parser, "top\x1b[1;2r\x1b[3;1Hz");
    assert_eq!(g.abs_row(2), 2);
    send(&mut g, &mut parser, "\x1b[S");
    assert_eq!(g.abs_row(2), 2);
    assert_eq!(g.row_at(2).expect("still held")[0].c, 'z');
    assert_eq!(g.scrollback.len(), 0, "only the whole screen feeds the history");
    // The whole screen again.
    send(&mut g, &mut parser, "\x1b[r\x1b[S");
    assert_eq!(g.scrollback.len(), 1);
    assert_eq!(g.row_at(2).expect("still held")[0].c, 'z');
    assert_eq!(g.abs_row(1), 2);
}

#[test]
fn history_never_outgrows_its_limit() {
    let mut g = Grid::new(4, 3);
    g.max_scrollback = 2;
    let mut parser = VtParser::new();
    let steps =
        ["a\r\nb\r\nc\r\nd", "\x1b[2S", "\x1b[3;1H\n\n", "\x1b[H\x1b[2M", "\x1b[3;1H\x1bD\x1bE"];
    for step in steps {
        send(&mut g, &mut parser, step);
        assert!(g.scrollback.len() <= 2, "{step:?}");
    }
    assert!(g.fit(4, 1));
    assert_eq!(g.scrollback.len(), 2);
}

#[test]
fn valid_text_reaches_title_and_clipboard_as_it_is() {
    let g = feed(4, 2, "\x1b]0;h\u{e9}\x07\x1b]52;c;aMOp\x07");
    assert_eq!(g.title, "h\u{e9}");
    assert_eq!(g.pending_clipboard.as_deref(), Some("h\u{e9}"));
}

#[test]
fn focus_goes_round() {
    let panes = [4, 7, 9];
    assert_eq!(next_focus(&panes, 4, true), Some(7));
    assert_eq!(next_focus(&panes, 9, true), Some(4));
    assert_eq!(next_focus(&panes, 4, false), Some(9));
    assert_eq!(next_focus(&panes, 1, true), Some(7), "from the first where it is lost");
    assert_eq!(next_focus(&[], 4, true), None);
    assert_eq!(focus_after_close(&panes, 3, 7), 7);
    assert_eq!(focus_after_close(&panes, 3, 3), 4);
    assert_eq!(focus_after_close(&[], 3, 3), 0);
}

#[test]
fn growing_back_undoes_a_shrink() {
    let mut g = feed(6, 5, "a\r\nb\r\nc\r\nd\r\ne");
    let before = screen(&g);
    let ids: Vec<usize> = (0..5).map(|y| g.abs_row(y)).collect();
    g.resize(6, 2);
    for (y, id) in ids.iter().enumerate() {
        let text: String = g.row_at(*id).unwrap().iter().map(|c| c.c).collect();
        assert_eq!(text.trim_end(), before[y], "id {id}");
    }
    g.resize(6, 5);
    assert_eq!(screen(&g), before);
    assert_eq!((g.cx, g.cy), (1, 4));
}

#[test]
fn growing_keeps_ids_while_the_history_fills_the_space() {
    let mut g = feed(4, 2, "a\r\nb\r\nc\r\nd\r\ne");
    let text = |g: &Grid, id: usize| -> String {
        g.row_at(id).unwrap().iter().map(|c| c.c).collect::<String>().trim_end().to_string()
    };
    g.resize(6, 4);
    let shown: Vec<String> = (0..5).map(|id| text(&g, id)).collect();
    assert_eq!(shown, vec!["a", "b", "c", "d", "e"]);
    assert_eq!(g.row_at(0).unwrap().len(), 4, "history keeps its width");
    assert_eq!(g.row_at(1).unwrap().len(), 6, "what came back has the new one");
    // Two rows more than there are lines: two blanks on top.
    g.resize(6, 7);
    assert_eq!(screen(&g), vec!["", "", "a", "b", "c", "d", "e"]);
}

#[test]
fn rows_outside_the_region_do_not_scroll() {
    let g = feed(3, 4, "a\r\nb\r\nc\r\nd\x1b[2;3r\x1b[9S");
    assert_eq!(screen(&g), vec!["a", "", "", "d"]);
    let g = feed(3, 4, "a\r\nb\r\nc\r\nd\x1b[2;3r\x1b[9T");
    assert_eq!(screen(&g), vec!["a", "", "", "d"]);
    assert!(g.scrollback.is_empty());
}
