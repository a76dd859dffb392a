use saute::atlas::{build_atlas, RasterGlyph};
use saute::font::FontDef;
use saute::geometry::Rect;
use saute::glyph::FontChar;
use saute::layout::{RenderOp, ScreenLine};
use saute::screen::{TextScreen, NO_HIGHLIGHT};

fn glyph(ch: char, w: u32, h: u32, bl: i32, bt: i32, ax: u32, fill: u8) -> RasterGlyph {
    RasterGlyph {
        ch,
        width: w,
        height: h,
        pitch: w,
        bl,
        bt,
        ax,
        ay: 0,
        bitmap: vec![fill; (w * h) as usize],
    }
}

/// A font over 0x20..=0x7E: every printable glyph 16x24 with advance 18,
/// bearings (1, 20); the space has an empty bitmap.
fn test_font() -> FontDef {
    let mut run = Vec::new();
    for cp in 0x20u32..=0x7E {
        let c = char::from_u32(cp).unwrap();
        if c == ' ' {
            run.push(glyph(c, 0, 0, 0, 0, 18, 0));
        } else {
            run.push(glyph(c, 16, 24, 1, 20, 18, cp as u8));
        }
    }
    build_atlas(&run, 0x20, 32, 40, 2, false).unwrap().font
}

fn newline_glyph() -> FontChar {
    FontChar::new('\n', Rect { x: 0, y: 0, w: 0, h: 0 }, 18, 0, 0, 0)
}

fn fc(font: &FontDef, c: char) -> FontChar {
    font.get_char(c as usize).unwrap()
}

/// The cursor's cached row and column recomputed from scratch.
fn expected_address(screen: &TextScreen) -> (u32, u32) {
    let abs = screen.get_cursor_abs() as usize;
    let mut row = 0u32;
    let mut col = 0u32;
    for g in screen.content.iter().take(abs) {
        if g.ch == '\n' {
            row += 1;
            col = 0;
        } else {
            col += 1;
        }
    }
    (row, col)
}

fn assert_cursor_consistent(screen: &TextScreen) {
    let (row, col) = expected_address(screen);
    assert_eq!(screen.get_cursor_row(), row);
    assert_eq!(screen.get_cursor_col(), col);
}

#[test]
fn push_then_pop_restores_buffer_and_cursor() {
    let font = test_font();
    let mut screen = TextScreen::new(800, 600, 24);
    screen.push_char(fc(&font, 'a'));
    screen.push_char(newline_glyph());
    screen.push_char(fc(&font, 'b'));
    let len = screen.content.len();
    let abs = screen.get_cursor_abs();
    let row = screen.get_cursor_row();
    let col = screen.get_cursor_col();
    for c in ['x', '\n', ' '] {
        let g = if c == '\n' { newline_glyph() } else { fc(&font, c) };
        screen.push_char(g);
        let back = screen.pop_char();
        assert_eq!(back.map(|r| r.ch), Some(c));
        assert_eq!(screen.content.len(), len);
        assert_eq!(screen.get_cursor_abs(), abs);
        assert_eq!(screen.get_cursor_row(), row);
        assert_eq!(screen.get_cursor_col(), col);
    }
    assert_eq!(screen.get_text(), "a\nb");
}

#[test]
fn pop_on_empty_buffer_is_a_quiet_no_op() {
    let mut screen = TextScreen::new(100, 100, 10);
    assert!(screen.pop_char().is_none());
    assert_eq!(screen.get_cursor_abs(), 0);
    assert_eq!(screen.content.len(), 0);
    assert_cursor_consistent(&screen);
}

#[test]
fn cursor_address_stays_consistent_through_edits() {
    let font = test_font();
    let mut screen = TextScreen::new(400, 300, 24);
    let script = "ab\ncd\n\nef";
    for c in script.chars() {
        let g = if c == '\n' { newline_glyph() } else { fc(&font, c) };
        screen.push_char(g);
        assert_cursor_consistent(&screen);
    }
    screen.cursor_back();
    assert_cursor_consistent(&screen);
    screen.cursor_back();
    assert_cursor_consistent(&screen);
    screen.cursor_back();
    assert_cursor_consistent(&screen);
    screen.pop_char();
    assert_cursor_consistent(&screen);
    screen.cursor_forward();
    assert_cursor_consistent(&screen);
    screen.push_char(fc(&font, 'z'));
    assert_cursor_consistent(&screen);
    while screen.pop_char().is_some() {
        assert_cursor_consistent(&screen);
    }
    assert_eq!(screen.get_cursor_abs(), 0);
}

#[test]
fn cursor_movement_clamps_at_both_ends() {
    let font = test_font();
    let mut screen = TextScreen::new(400, 300, 24);
    screen.cursor_back();
    assert_eq!(screen.get_cursor_abs(), 0);
    screen.push_char(fc(&font, 'q'));
    screen.cursor_forward();
    assert_eq!(screen.get_cursor_abs(), 1);
    screen.cursor_back();
    assert_eq!(screen.get_cursor_abs(), 0);
    screen.cursor_back();
    assert_eq!(screen.get_cursor_abs(), 0);
    assert_cursor_consistent(&screen);
}

#[test]
fn cursor_back_recovers_column_across_newline() {
    let font = test_font();
    let mut screen = TextScreen::new(400, 300, 24);
    for c in "ab\ncd".chars() {
        let g = if c == '\n' { newline_glyph() } else { fc(&font, c) };
        screen.push_char(g);
    }
    assert_eq!((screen.get_cursor_row(), screen.get_cursor_col()), (1, 2));
    screen.cursor_back();
    screen.cursor_back();
    assert_eq!((screen.get_cursor_row(), screen.get_cursor_col()), (1, 0));
    // stepping back over the newline lands at the end of "ab"
    screen.cursor_back();
    assert_eq!((screen.get_cursor_row(), screen.get_cursor_col()), (0, 2));
    assert_cursor_consistent(&screen);
}

#[test]
fn rendering_twice_yields_identical_rectangles() {
    let font = test_font();
    let mut screen = TextScreen::new(60, 300, 24);
    screen.cursor_enable();
    for c in "whirl\nwrap around".chars() {
        let g = if c == '\n' { newline_glyph() } else { fc(&font, c) };
        screen.push_char(g);
    }
    screen.set_highlight_mark(3);
    let first = screen.render_all(&font, 5, 7);
    let second = screen.render_all(&font, 5, 7);
    assert_eq!(first, second);
}

#[test]
fn example_two_row_scenario() {
    // Build the printable range at pixel size 32, width limit 800, push
    // "Hi" plus a newline, then three more capitals.
    let font = test_font();
    let mut screen = TextScreen::new(800, 600, 24);
    screen.cursor_enable();
    screen.push_char(fc(&font, 'H'));
    screen.push_char(fc(&font, 'i'));
    screen.push_char(newline_glyph());
    screen.push_char(fc(&font, 'A'));
    screen.push_char(fc(&font, 'A'));
    screen.push_char(fc(&font, 'A'));
    assert_eq!(screen.get_cursor_row(), 1);
    assert_eq!(screen.get_cursor_col(), 3);
    let pass = screen.render_all(&font, 0, 0);
    let blits: Vec<(Rect, Rect)> = pass
        .ops
        .iter()
        .filter_map(|op| match op {
            RenderOp::Blit { src, dst } => Some((*src, *dst)),
            _ => None,
        })
        .collect();
    // H and i on row 0, the three capitals on row 1
    assert_eq!(blits.len(), 5);
    assert_eq!(blits[0].1, Rect { x: 0, y: 0, w: 16, h: 24 });
    assert_eq!(blits[1].1, Rect { x: 18, y: 0, w: 16, h: 24 });
    assert_eq!(blits[2].1, Rect { x: 0, y: 24, w: 16, h: 24 });
    assert_eq!(blits[3].1, Rect { x: 18, y: 24, w: 16, h: 24 });
    assert_eq!(blits[4].1, Rect { x: 36, y: 24, w: 16, h: 24 });
    // the atlas source region of 'H' travels with the op
    let h_rec = fc(&font, 'H');
    assert_eq!(blits[0].0, h_rec.bbox);
    // the cursor bar sits after the third capital on row 1
    let cursors: Vec<Rect> = pass
        .ops
        .iter()
        .filter_map(|op| match op {
            RenderOp::Cursor { region } => Some(*region),
            _ => None,
        })
        .collect();
    assert_eq!(cursors, vec![Rect { x: 54, y: 24, w: 1, h: 24 }]);
    assert_eq!(pass.bounds, Rect { x: 0, y: 0, w: 800, h: 24 });
}

#[test]
fn highlight_covers_half_open_range() {
    let font = test_font();
    let mut screen = TextScreen::new(800, 600, 24);
    screen.cursor_enable();
    for _ in 0..5 {
        screen.push_char(fc(&font, 'A'));
    }
    assert_eq!(screen.get_cursor_abs(), 5);
    screen.set_highlight_mark(2);
    let pass = screen.render_all(&font, 0, 0);
    let highlights: Vec<Rect> = pass
        .ops
        .iter()
        .filter_map(|op| match op {
            RenderOp::Highlight { region } => Some(*region),
            _ => None,
        })
        .collect();
    // indices 3, 4 and 5 (one-based) are highlighted, 1 and 2 are not
    assert_eq!(
        highlights,
        vec![
            Rect { x: 36, y: 0, w: 16, h: 24 },
            Rect { x: 54, y: 0, w: 16, h: 24 },
            Rect { x: 72, y: 0, w: 16, h: 24 },
        ]
    );
}

#[test]
fn no_highlight_without_mark_or_cursor() {
    let font = test_font();
    let mut screen = TextScreen::new(800, 600, 24);
    for _ in 0..4 {
        screen.push_char(fc(&font, 'B'));
    }
    assert_eq!(screen.get_highlight_mark(), NO_HIGHLIGHT);
    screen.cursor_enable();
    let pass = screen.render_all(&font, 0, 0);
    assert!(pass
        .ops
        .iter()
        .all(|op| !matches!(op, RenderOp::Highlight { .. })));
    // with the cursor disabled even a set mark draws nothing
    screen.cursor_disable();
    screen.set_highlight_mark(1);
    let pass = screen.render_all(&font, 0, 0);
    assert!(pass
        .ops
        .iter()
        .all(|op| !matches!(op, RenderOp::Highlight { .. })));
    assert!(pass
        .ops
        .iter()
        .all(|op| !matches!(op, RenderOp::Cursor { .. })));
}

#[test]
fn layout_wraps_at_the_target_width() {
    let font = test_font();
    let mut screen = TextScreen::new(40, 300, 24);
    for _ in 0..3 {
        screen.push_char(fc(&font, 'C'));
    }
    let pass = screen.render_all(&font, 0, 0);
    let blits: Vec<Rect> = pass
        .ops
        .iter()
        .filter_map(|op| match op {
            RenderOp::Blit { dst, .. } => Some(*dst),
            _ => None,
        })
        .collect();
    // advances 18 + 18 fit into 40; the third glyph starts row 1
    assert_eq!(blits[0], Rect { x: 0, y: 0, w: 16, h: 24 });
    assert_eq!(blits[1], Rect { x: 18, y: 0, w: 16, h: 24 });
    assert_eq!(blits[2], Rect { x: 0, y: 24, w: 16, h: 24 });
    assert_eq!(pass.bounds.h, 24);
}

#[test]
fn whitespace_reserves_space_but_is_not_blitted() {
    let font = test_font();
    let mut screen = TextScreen::new(800, 600, 24);
    screen.push_char(fc(&font, 'a'));
    screen.push_char(fc(&font, ' '));
    screen.push_char(fc(&font, 'b'));
    let pass = screen.render_all(&font, 0, 0);
    let blits: Vec<Rect> = pass
        .ops
        .iter()
        .filter_map(|op| match op {
            RenderOp::Blit { dst, .. } => Some(*dst),
            _ => None,
        })
        .collect();
    assert_eq!(blits.len(), 2);
    // the space still advanced the pen by its advance
    assert_eq!(blits[1].x, 36);
}

#[test]
fn get_text_round_trips_pushed_characters() {
    let font = test_font();
    let mut screen = TextScreen::new(800, 600, 24);
    for c in "Hi there".chars() {
        screen.push_char(fc(&font, c));
    }
    screen.push_char(newline_glyph());
    assert_eq!(screen.get_text(), "Hi there\n");
}

#[test]
fn clear_empties_buffer_and_keeps_mark() {
    let font = test_font();
    let mut screen = TextScreen::new(800, 600, 24);
    for _ in 0..3 {
        screen.push_char(fc(&font, 'k'));
    }
    screen.set_highlight_mark(2);
    screen.clear();
    assert_eq!(screen.content.len(), 0);
    assert_eq!(screen.get_cursor_abs(), 0);
    assert_eq!(screen.get_cursor_row(), 0);
    assert_eq!(screen.get_cursor_col(), 0);
    assert_eq!(screen.get_highlight_mark(), 2);
    assert_eq!(screen.get_text(), "");
}

#[test]
fn push_string_inserts_at_the_cursor() {
    let font = test_font();
    let mut screen = TextScreen::new(800, 600, 24);
    for c in "abc".chars() {
        screen.push_char(fc(&font, c));
    }
    screen.cursor_back();
    let run = font.get_string("XY").unwrap();
    screen.push_string(run);
    assert_eq!(screen.get_text(), "abXYc");
    assert_eq!(screen.get_cursor_abs(), 4);
    assert_cursor_consistent(&screen);
}

#[test]
fn screen_getters_and_setters() {
    let mut screen = TextScreen::new(640, 480, 16);
    assert_eq!(screen.width(), 640);
    assert_eq!(screen.height(), 480);
    assert!(!screen.cursor_enabled());
    screen.set_width(320);
    screen.set_height(200);
    screen.cursor_enable();
    assert_eq!(screen.width(), 320);
    assert_eq!(screen.height(), 200);
    assert!(screen.cursor_enabled());
    screen.cursor_disable();
    assert!(!screen.cursor_enabled());
    screen.set_cursor_abs(3);
    screen.set_cursor_row(1);
    screen.set_cursor_col(2);
    assert_eq!(screen.get_cursor_abs(), 3);
    assert_eq!(screen.get_cursor_row(), 1);
    assert_eq!(screen.get_cursor_col(), 2);
}

#[test]
fn screen_line_tracks_cumulative_width() {
    let font = test_font();
    let mut line = ScreenLine::new(2);
    assert_eq!(line.row, 2);
    line.push_char(fc(&font, 'a'));
    line.push_char(fc(&font, 'b'));
    assert_eq!(line.width, 32);
    assert_eq!(line.content().len(), 2);
    let popped = line.pop_char();
    assert_eq!(popped.map(|g| g.ch), Some('b'));
    // the consumed width is cumulative; popping gives none of it back
    assert_eq!(line.width, 32);
    assert_eq!(line.get_text(), "a");
    assert!(ScreenLine::new(0).pop_char().is_none());
}

#[test]
fn screen_line_wrapped_bbox_rounds_rows_up() {
    let font = test_font();
    let mut line = ScreenLine::new(0);
    for c in "abc".chars() {
        line.push_char(fc(&font, c));
    }
    assert_eq!(line.width, 48);
    assert_eq!(line.wrapped_bbox(20, 10), Rect { x: 0, y: 0, w: 20, h: 30 });
    assert_eq!(line.wrapped_bbox(48, 10), Rect { x: 0, y: 0, w: 48, h: 10 });
    assert_eq!(line.wrapped_bbox(100, 10), Rect { x: 0, y: 0, w: 48, h: 10 });
}

#[test]
fn screen_line_renders_from_its_row_and_wraps() {
    let font = test_font();
    let mut line = ScreenLine::new(1);
    for c in "abc".chars() {
        line.push_char(fc(&font, c));
    }
    let (ops, bounds) = line.render(&font, 40, 0, 0);
    let blits: Vec<Rect> = ops
        .iter()
        .filter_map(|op| match op {
            RenderOp::Blit { dst, .. } => Some(*dst),
            _ => None,
        })
        .collect();
    // the line starts one glyph height down; two 16-wide boxes fit 40
    assert_eq!(blits[0], Rect { x: 0, y: 24, w: 16, h: 24 });
    assert_eq!(blits[1], Rect { x: 16, y: 24, w: 16, h: 24 });
    assert_eq!(blits[2], Rect { x: 0, y: 48, w: 16, h: 24 });
    assert_eq!(bounds, Rect { x: 0, y: 48, w: 16, h: 72 });
}
