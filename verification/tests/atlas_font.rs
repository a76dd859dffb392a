use saute::atlas::{build_atlas, AtlasError, RasterGlyph};
use saute::font::FontDef;
use saute::geometry::Rect;
use saute::glyph::FontChar;
use saute::res_man::{ResourceLoader, ResourceManager};

fn glyph(ch: char, w: u32, h: u32, bl: i32, bt: i32, ax: u32, fill: u8) -> RasterGlyph {
    RasterGlyph {
        ch,
        width: w,
        height: h,
        pitch: w,
        bl,
        bt,
        ax,
        ay: 0,
        bitmap: vec![fill; (w * h) as usize],
    }
}

/// One glyph per code point 0x20..=0x7E: space has an empty bitmap, the
/// rest are 16x24 bitmaps filled with the low byte of their code point.
fn printable_run() -> Vec<RasterGlyph> {
    let mut v = Vec::new();
    for cp in 0x20u32..=0x7E {
        let c = char::from_u32(cp).unwrap();
        if c == ' ' {
            v.push(glyph(c, 0, 0, 0, 0, 18, 0));
        } else {
            v.push(glyph(c, 16, 24, 1, 20, 18, cp as u8));
        }
    }
    v
}

fn printable_font() -> FontDef {
    build_atlas(&printable_run(), 0x20, 32, 40, 2, false)
        .unwrap()
        .font
}

#[test]
fn atlas_metrics_match_run() {
    let atlas = build_atlas(&printable_run(), 0x20, 32, 40, 2, false).unwrap();
    let f = &atlas.font;
    assert_eq!(f.max_ascent, 20);
    assert_eq!(f.max_descent, 4);
    assert_eq!(f.glyph_height, 24);
    assert_eq!(f.glyph_height, f.max_ascent + f.max_descent);
    assert_eq!(f.max_back, 1);
    assert_eq!(f.max_forward, 15);
    assert_eq!(f.glyph_width, 16);
    // 94 glyphs of width 16 and one of width 0, averaged over 95
    assert_eq!(f.whitespace_width, (94 * 16) / 95);
    assert_eq!(f.range_first, 0x20);
    assert_eq!(f.font_pixel_size, 32);
    assert_eq!(f.char_spacing, 2);
    // 95 cells of width 32 fit one row
    assert_eq!(atlas.width, 95 * 32);
    assert_eq!(atlas.height, 40);
    assert_eq!(atlas.pixels.len(), (95 * 32 * 40) as usize);
}

#[test]
fn every_built_code_point_resolves_within_bounds() {
    let atlas = build_atlas(&printable_run(), 0x20, 32, 40, 2, false).unwrap();
    for cp in 0x20usize..=0x7E {
        let g = atlas.font.get_char(cp).unwrap();
        assert!(g.bbox.x + g.bbox.w <= atlas.width as u64);
        assert!(g.bbox.y + g.bbox.h <= atlas.height as u64);
        assert!(g
            .bbox
            .within(atlas.width as u64, atlas.height as u64));
    }
    assert!(atlas.font.get_char(0x1F).is_err());
    assert!(atlas.font.get_char(0x7F).is_err());
    assert!(atlas.font.get_char('\n' as usize).is_err());
}

#[test]
fn atlas_cells_follow_the_grid() {
    let atlas = build_atlas(&printable_run(), 0x20, 32, 40, 2, false).unwrap();
    let a_rec = atlas.font.get_char('A' as usize).unwrap();
    let col = ('A' as u64) - 0x20;
    assert_eq!(a_rec.bbox, Rect { x: col * 32, y: 0, w: 16, h: 24 });
    assert_eq!(a_rec.ch, 'A');
    assert_eq!(a_rec._ax, 18);
    assert_eq!(a_rec.bl, 1);
    assert_eq!(a_rec.bt, 20);
}

#[test]
fn atlas_pixels_hold_each_glyph_bitmap() {
    let atlas = build_atlas(&printable_run(), 0x20, 32, 40, 2, false).unwrap();
    let aw = atlas.width as usize;
    for cp in [0x21usize, 'A' as usize, '~' as usize] {
        let col = cp - 0x20;
        for (px, py) in [(0usize, 0usize), (15, 0), (0, 23), (7, 11)] {
            let idx = py * aw + col * 32 + px;
            assert_eq!(atlas.pixels[idx], cp as u8);
        }
        // the cell's right padding stays blank
        let idx_gap = 3 * aw + col * 32 + 20;
        assert_eq!(atlas.pixels[idx_gap], 0);
    }
}

#[test]
fn atlas_wraps_into_rows_when_one_row_overflows() {
    // 1000 cells of width 32 exceed the 16384-pixel width limit:
    // 512 columns, hence 2 rows.
    let mut run = Vec::new();
    for i in 0..1000u32 {
        run.push(glyph(char::from_u32(i % 0x7F).unwrap(), 8, 8, 0, 6, 9, 1));
    }
    let atlas = build_atlas(&run, 0, 32, 10, 0, false).unwrap();
    assert_eq!(atlas.width, 16384);
    assert_eq!(atlas.height, 20);
    let rec_last = atlas.font.get_char(999).unwrap();
    assert_eq!(rec_last.bbox.x, (999 % 512) * 32);
    assert_eq!(rec_last.bbox.y, 10);
}

#[test]
fn atlas_build_rejects_empty_range() {
    let run: Vec<RasterGlyph> = Vec::new();
    assert_eq!(build_atlas(&run, 0, 32, 40, 0, false).unwrap_err(), AtlasError::EmptyRange);
}

#[test]
fn atlas_build_rejects_oversized_cell() {
    let run = vec![glyph('a', 1, 1, 0, 1, 1, 1)];
    assert_eq!(build_atlas(&run, 0, 20000, 40, 0, false).unwrap_err(), AtlasError::CellTooWide);
}

#[test]
fn atlas_build_rejects_excessive_height() {
    let run = vec![glyph('a', 1, 1, 0, 1, 1, 1), glyph('b', 1, 1, 0, 1, 1, 2)];
    assert_eq!(
        build_atlas(&run, 0, 16384, 16384, 0, false).unwrap_err(),
        AtlasError::AtlasTooTall
    );
}

#[test]
fn aligned_rect_shares_one_baseline() {
    let font = printable_font();
    // two glyphs with different bearings placed at the same row origin
    let tall = FontChar::new('T', Rect { x: 0, y: 0, w: 10, h: 22 }, 12, 0, 1, 20);
    let low = FontChar::new('g', Rect { x: 0, y: 0, w: 10, h: 14 }, 12, 0, 1, 8);
    let rt = font.get_char_aligned_rect(5, 100, &tall);
    let rl = font.get_char_aligned_rect(5, 100, &low);
    assert_eq!(rt.y + tall.bt as u64, 100 + font.max_ascent as u64);
    assert_eq!(rl.y + low.bt as u64, 100 + font.max_ascent as u64);
    assert_eq!(rt.y + tall.bt as u64, rl.y + low.bt as u64);
    // no monospaced shift: x is the layout origin
    assert_eq!(rt.x, 5);
    assert_eq!(rt.w, 10);
    assert_eq!(rt.h, 22);
}

#[test]
fn aligned_rect_reserves_whitespace_width() {
    let font = printable_font();
    let space = font.get_char(' ' as usize).unwrap();
    let r = font.get_char_aligned_rect(40, 10, &space);
    assert_eq!(r.w, font.whitespace_width as u64);
    assert_eq!(r.h, 0);
}

#[test]
fn aligned_rect_applies_monospaced_offset() {
    let atlas = build_atlas(&printable_run(), 0x20, 32, 40, 2, true).unwrap();
    let font = atlas.font;
    let g = font.get_char('A' as usize).unwrap();
    let r = font.get_char_aligned_rect(7, 0, &g);
    assert_eq!(r.x, 7 + (font.max_forward as i64 + g.bl as i64) as u64);
}

#[test]
fn get_string_resolves_or_fails_whole() {
    let font = printable_font();
    let ok = font.get_string("Hi").unwrap();
    assert_eq!(ok.len(), 2);
    assert_eq!(ok[0].ch, 'H');
    assert_eq!(ok[1].ch, 'i');
    assert_eq!(font.get_string("Hi\n"), Err(()));
    assert_eq!(font.get_string(""), Ok(Vec::new()));
}

#[test]
fn font_def_new_takes_the_mean_glyph_width() {
    let recs = vec![
        FontChar::new('a', Rect { x: 0, y: 0, w: 2, h: 4 }, 3, 0, 0, 4),
        FontChar::new('b', Rect { x: 2, y: 0, w: 5, h: 4 }, 3, 0, 0, 4),
        FontChar::new('c', Rect { x: 7, y: 0, w: 9, h: 4 }, 3, 0, 0, 4),
    ];
    let font = FontDef::new(recs, 'a' as u32, 6, 9, 1, 4, 2, 0, 9, 12, true);
    assert_eq!(font.whitespace_width, (2 + 5 + 9) / 3);
    assert_eq!(font.glyph_height, 6);
    assert_eq!(font.glyph_width, 9);
    assert_eq!(font.char_spacing, 1);
    assert_eq!(font.max_ascent, 4);
    assert_eq!(font.max_descent, 2);
    assert_eq!(font.max_back, 0);
    assert_eq!(font.max_forward, 9);
    assert_eq!(font.font_pixel_size, 12);
    assert!(font.monospaced);
    assert_eq!(font.get_char('b' as usize).unwrap().ch, 'b');
    assert!(font.get_char('d' as usize).is_err());
}

#[test]
fn rect_within_checks_both_edges() {
    let r = Rect::new(10, 20, 30, 40);
    assert_eq!(r, Rect { x: 10, y: 20, w: 30, h: 40 });
    assert!(r.within(40, 60));
    assert!(!r.within(39, 60));
    assert!(!r.within(40, 59));
}

#[test]
fn font_char_constructors() {
    let d = FontChar::default();
    assert_eq!(d.ch, '\0');
    assert_eq!(d.bbox, Rect { x: 0, y: 0, w: 0, h: 0 });
    assert_eq!(d._ax, 0);
    let g = FontChar::new('x', Rect { x: 1, y: 2, w: 3, h: 4 }, 5, 6, -7, 8);
    assert_eq!(g.ch, 'x');
    assert_eq!(g.bbox, Rect { x: 1, y: 2, w: 3, h: 4 });
    assert_eq!((g._ax, g._ay, g.bl, g.bt), (5, 6, -7, 8));
}

struct DoublingLoader;

impl ResourceLoader<u32> for DoublingLoader {
    type Args = u32;

    fn load(&self, data: &u32) -> Result<u32, String> {
        if *data == 13 {
            Err(String::from("unlucky"))
        } else {
            Ok(*data * 2)
        }
    }

    fn create(&self, w: u32, h: u32) -> u32 {
        w + h
    }
}

#[test]
fn resource_manager_loads_each_key_once() {
    let mut man = ResourceManager::new(DoublingLoader);
    assert!(man.load(1, &5).is_ok());
    assert_eq!(man.get(1), Some(&10));
    // the key is taken now
    assert!(man.load(1, &6).is_err());
    assert_eq!(man.get(1), Some(&10));
    // a loader failure is passed through and stores nothing
    assert_eq!(man.load(2, &13), Err(String::from("unlucky")));
    assert_eq!(man.get(2), None);
}

#[test]
fn resource_manager_create_overwrites() {
    let mut man = ResourceManager::new(DoublingLoader);
    assert!(man.create(7, 3, 4).is_ok());
    assert_eq!(man.get(7), Some(&7));
    assert!(man.create(7, 10, 1).is_ok());
    assert_eq!(man.get(7), Some(&11));
    assert!(man.load(8, &2).is_ok());
    assert!(man.create(9, 1, 1).is_ok());
    assert_eq!(man.get(8), Some(&4));
    assert_eq!(man.get(9), Some(&2));
}
