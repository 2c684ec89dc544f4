//! Faces, glyphs and the atlas.

use koma::atlas::Atlas;
use koma::charmap::{check, holds_font};
use koma::font::{load_family, Bitmap, Face, FontError, FontSet, GlyphStep, Slot};
use koma::frame::{frame_status, grown_capacity, FrameStatus, SurfaceAnswer};

fn be16(out: &mut Vec<u8>, n: u16) {
    out.extend_from_slice(&n.to_be_bytes());
}

fn be32(out: &mut Vec<u8>, n: u32) {
    out.extend_from_slice(&n.to_be_bytes());
}

/// A font file with nothing but a character map of 32-bit groups: first
/// character, last character and first glyph of each.
fn font_with(groups: &[(u32, u32, u32)]) -> Vec<u8> {
    let mut out = Vec::new();
    be32(&mut out, 0x10000);
    be16(&mut out, 1);
    out.extend_from_slice(&[0; 6]);
    out.extend_from_slice(b"cmap");
    be32(&mut out, 0);
    be32(&mut out, 28);
    let map_len = 16 + 12 * groups.len() as u32;
    be32(&mut out, 12 + map_len);
    // The table: one map, for Unicode.
    be16(&mut out, 0);
    be16(&mut out, 1);
    be16(&mut out, 3);
    be16(&mut out, 10);
    be32(&mut out, 12);
    // The map.
    be16(&mut out, 12);
    be16(&mut out, 0);
    be32(&mut out, map_len);
    be32(&mut out, 0);
    be32(&mut out, groups.len() as u32);
    for (first, last, glyph) in groups {
        be32(&mut out, *first);
        be32(&mut out, *last);
        be32(&mut out, *glyph);
    }
    out
}

fn face(groups: &[(u32, u32, u32)]) -> Face {
    Face::new(font_with(groups), 0)
}

const ASCII: (u32, u32, u32) = (0x20, 0x7e, 3);
const KANA: (u32, u32, u32) = (0x3040, 0x309f, 500);

#[test]
fn a_face_knows_its_glyphs() {
    let f = face(&[ASCII, KANA]);
    assert_eq!(f.glyph_for('A'), Some(3 + 0x21));
    assert_eq!(f.glyph_for('あ'), Some(500 + 2));
    assert_eq!(f.glyph_for('漢'), Some(0), "no glyph");
}

#[test]
fn a_file_that_is_no_font_has_no_glyphs() {
    let f = Face::new(b"not a font".to_vec(), 0);
    assert!(f.can_read('A'), "nothing in it to trip over");
    assert!(!holds_font(&f.data, 0));
    assert_eq!(f.glyph_for('A'), None);
    let other = Face::new(font_with(&[ASCII]), 1);
    assert!(holds_font(&other.data, 0) && !holds_font(&other.data, 1));
    assert_eq!(other.glyph_for('A'), None, "there is no second font");
}

#[test]
fn a_character_that_cannot_be_looked_up_is_told_apart() {
    let good = font_with(&[ASCII, KANA]);
    assert!(check(&good, 0, 'A'));
    assert!(check(&good, 0, '漢'));
    // Cut short within the header of the map.
    assert!(!check(&good[..28 + 12 + 10], 0, 'A'));
    // The glyph of the last character does not fit 32 bits, or just does.
    let over = font_with(&[(0x20, 0x7e, 0xffff_ffff - 0x5d)]);
    assert!(!check(&over, 0, '~'));
    assert!(check(&over, 0, '}'));
    assert!(check(&over, 0, 'あ'));
    assert!(check(&font_with(&[(0x20, 0x7e, 0xffff_ffff - 0x5e)]), 0, '~'));
    // Nor does that of the last code point.
    let last = font_with(&[(0x10_fffe, 0xffff_ffff, 0xffff_ffff)]);
    assert!(!check(&last, 0, '\u{10ffff}'));
    assert!(check(&last, 0, '\u{10fffe}'));
}

#[test]
fn one_bad_group_does_not_spoil_a_face() {
    let bad = (0x3040, 0x309f, 0xffff_ffff);
    let f = face(&[ASCII, bad]);
    assert!(f.can_read('A'));
    assert_eq!(f.glyph_for('A'), Some(3 + 0x21));
    assert!(f.can_read('぀'), "the first of a group adds nothing");
    assert!(!f.can_read('あ'));
    assert!(f.can_read('漢'));
    // Such a face draws what it can, and leaves the rest to the next.
    let mut s = FontSet::new(Some(f), None, vec![face(&[KANA])], 64).expect("it parses");
    assert_eq!(s.resolve_face('A', false), Some(0));
    assert_eq!(s.resolve_face('あ', false), Some(1));
    assert_eq!(s.glyph('あ', false), GlyphStep::Rasterise { face: 1, glyph: 502 });
}

#[test]
fn a_face_that_cannot_look_up_a_character_still_parses() {
    let f = face(&[(0x20, 0x7e, 0xffff_ffff)]);
    assert!(!f.can_read('M'));
    let mut s = FontSet::new(Some(f), None, Vec::new(), 64).expect("it parses");
    assert_eq!(s.resolve_face('M', false), None);
    assert_eq!(s.glyph('M', false), GlyphStep::Known(None));
}

#[test]
fn a_map_that_is_cut_off_has_no_glyphs() {
    let good = font_with(&[ASCII, KANA]);
    let short = Face::new(good[..good.len() - 12].to_vec(), 0);
    assert!(short.can_read('A'), "nothing to add up");
    assert_eq!(short.glyph_for('A'), Some(0));
    let header = Face::new(good[..28 + 12 + 16].to_vec(), 0);
    assert!(header.can_read('A'), "nothing to add up");
    assert_eq!(header.glyph_for('A'), Some(0));
    // A glyph number is what its low half says.
    let wide = face(&[(0x20, 0x7e, 0x1_0000)]);
    assert!(wide.can_read('A'), "the sum fits");
    assert_eq!(wide.glyph_for('A'), Some(0x21));
    // A collection too short for its list of fonts.
    let list = Face::new(b"ttcf\0\0\0\0\0\0\0\x01".to_vec(), 0);
    assert!(list.can_read('A'), "no font to read");
    assert_eq!(list.glyph_for('A'), None);
    assert!(check(b"", 0, 'A'));
}

/// A font file with a map for each platform and encoding, one group in each.
fn font_with_maps(maps: &[(u16, u16, u32)]) -> Vec<u8> {
    let mut out = Vec::new();
    be32(&mut out, 0x10000);
    be16(&mut out, 1);
    out.extend_from_slice(&[0; 6]);
    out.extend_from_slice(b"cmap");
    be32(&mut out, 0);
    be32(&mut out, 28);
    be32(&mut out, 4 + 36 * maps.len() as u32);
    be16(&mut out, 0);
    be16(&mut out, maps.len() as u16);
    for (i, (platform, encoding, _)) in maps.iter().enumerate() {
        be16(&mut out, *platform);
        be16(&mut out, *encoding);
        be32(&mut out, 4 + 8 * maps.len() as u32 + 28 * i as u32);
    }
    for (_, _, glyph) in maps {
        be16(&mut out, 12);
        be16(&mut out, 0);
        be32(&mut out, 28);
        be32(&mut out, 0);
        be32(&mut out, 1);
        be32(&mut out, 0x41);
        be32(&mut out, 0x5a);
        be32(&mut out, *glyph);
    }
    out
}

#[test]
fn only_the_map_that_is_read_counts() {
    const BAD: u32 = 0xffff_ffff;
    // The last map of Unicode characters in groups is read.
    let last = Face::new(font_with_maps(&[(1, 0, BAD), (0, 3, BAD), (3, 10, 7)]), 0);
    assert!(last.can_read('B'), "the others are not read");
    assert_eq!(last.glyph_for('B'), Some(8));
    assert!(!check(&font_with_maps(&[(3, 10, 7), (0, 3, BAD)]), 0, 'B'));
    // A map of symbols is read wherever it comes.
    let symbols = Face::new(font_with_maps(&[(3, 10, 7), (3, 0, 20), (3, 10, BAD)]), 0);
    assert!(symbols.can_read('A'), "the others are not read");
    assert_eq!(symbols.glyph_for('A'), Some(20));
    assert!(!check(&font_with_maps(&[(3, 0, BAD), (3, 10, 7)]), 0, 'B'));
    // Neither is a map of some other kind.
    let none = Face::new(font_with_maps(&[(1, 0, BAD)]), 0);
    assert!(none.can_read('B'), "no map is read");
    assert_eq!(none.glyph_for('B'), Some(0));
}

#[test]
fn a_map_of_symbols_is_asked_twice() {
    // The one group has the symbols from U+F000 on.
    let symbols = |glyph: u32| {
        let mut data = font_with_maps(&[(3, 0, glyph)]);
        let at = data.len() - 12;
        data[at..at + 4].copy_from_slice(&0xf041u32.to_be_bytes());
        data[at + 4..at + 8].copy_from_slice(&0xf05au32.to_be_bytes());
        Face::new(data, 0)
    };
    let f = symbols(30);
    assert!(f.can_read('B'));
    assert_eq!(f.glyph_for('B'), Some(31));
    assert!(!symbols(0xffff_ffff).can_read('B'));
    assert!(symbols(0xffff_ffff).can_read('あ'), "too far up to be asked again");
}

#[test]
fn a_font_of_a_collection_is_found_by_its_index() {
    let mut file = b"ttcf\0\x01\0\0".to_vec();
    be32(&mut file, 2);
    be32(&mut file, 20);
    be32(&mut file, 20);
    // The directory is relative to the file, so the table offset moves with it.
    let mut font = font_with(&[ASCII]);
    font[20..24].copy_from_slice(&(20u32 + 28).to_be_bytes());
    file.extend_from_slice(&font);
    assert!(check(&file, 1, 'B'));
    let f = Face::new(file, 1);
    assert_eq!(f.glyph_for('B'), Some(3 + 0x22));
}

fn set() -> FontSet {
    FontSet::new(
        Some(face(&[ASCII])),
        Some(face(&[(0x41, 0x5a, 700)])),
        vec![face(&[KANA]), face(&[(0x3040, 0x30ff, 900)])],
        64,
    )
    .expect("the primary face is readable")
}

fn bitmap(width: u32, height: u32, shade: u8) -> Option<Bitmap> {
    Some(Bitmap {
        left: 1,
        top: 12,
        width,
        height,
        data: vec![shade; (width * height) as usize],
    })
}

#[test]
fn a_set_needs_a_primary_face_that_parses() {
    assert_eq!(FontSet::new(None, None, Vec::new(), 64).err(), Some(FontError::NoFace));
    let broken = Some(Face::new(b"not a font".to_vec(), 0));
    assert_eq!(FontSet::new(broken, None, Vec::new(), 64).err(), Some(FontError::Unreadable));
}

#[test]
fn the_first_face_that_covers_a_character_draws_it() {
    let mut s = set();
    assert_eq!(s.faces.len(), 4);
    assert_eq!(s.resolve_face('A', false), Some(0));
    assert_eq!(s.resolve_face('A', true), Some(1), "bold prefers the bold face");
    assert_eq!(s.resolve_face('a', true), Some(0), "which has no lower case");
    assert_eq!(s.resolve_face('あ', false), Some(2));
    assert_eq!(s.resolve_face('ア', true), Some(3));
    assert_eq!(s.resolve_face('漢', false), None);
    assert_eq!(s.resolve_face('漢', false), None, "also when asked again");
}

#[test]
fn the_face_found_is_remembered() {
    let mut s = set();
    s.resolve_face('A', true);
    assert!(s.face_for.is_empty(), "the bold face is not looked for");
    s.resolve_face('a', true);
    assert_eq!(s.face_for.get(&('a' as u64)), Some(&Some(0)));
    s.glyph('あ', false);
    assert_eq!(s.face_for.get(&('あ' as u64)), Some(&Some(2)));
    s.glyph('漢', false);
    assert_eq!(s.face_for.get(&('漢' as u64)), Some(&None), "also that there is none");
    s.glyph(' ', false);
    assert_eq!(s.face_for.len(), 3, "a blank is not looked up");
}

#[test]
fn a_glyph_is_rasterised_once() {
    let mut s = set();
    let step = s.glyph('A', false);
    assert_eq!(step, GlyphStep::Rasterise { face: 0, glyph: 3 + 0x21 });
    let slot = s.place('A', false, bitmap(5, 7, 9));
    assert_eq!(slot, Some(Slot { x: 0, y: 0, w: 5, h: 7, left: 1, top: 12 }));
    assert_eq!(s.glyph('A', false), GlyphStep::Known(slot));
    assert_eq!(s.glyph('A', true), GlyphStep::Rasterise { face: 1, glyph: 700 });
}

#[test]
fn blanks_and_uncovered_characters_are_nothing_to_draw() {
    let mut s = set();
    assert_eq!(s.glyph(' ', false), GlyphStep::Known(None));
    assert_eq!(s.glyph('\0', false), GlyphStep::Known(None));
    assert_eq!(s.glyph('漢', false), GlyphStep::Known(None));
    assert_eq!(s.place('A', false, None), None);
    assert_eq!(s.glyph('A', false), GlyphStep::Known(None), "remembered as nothing");
    assert_eq!(s.place('B', false, bitmap(0, 7, 9)), None);
    assert_eq!(s.glyph('B', false), GlyphStep::Known(None));
}

#[test]
fn blanks_produce_no_glyph() {
    assert_eq!(set().glyph(' ', false), GlyphStep::Known(None));
}

/// Draws `c` as a bitmap of some shade, if it is not drawn yet.
fn draw(s: &mut FontSet, c: char) -> Option<Slot> {
    match s.glyph(c, false) {
        GlyphStep::Known(slot) => slot,
        GlyphStep::Rasterise { .. } => s.place(c, false, bitmap(8, 12, 200)),
    }
}

#[test]
fn repeated_lookups_hit_the_cache() {
    let mut f = set();
    let a = draw(&mut f, 'W').unwrap();
    let b = draw(&mut f, 'W').unwrap();
    assert_eq!(a, b, "the second lookup must not re-pack the glyph");
}

#[test]
fn atlas_reports_only_the_rows_it_touched() {
    let mut f = set();
    f.atlas.dirty = None;
    draw(&mut f, 'Z').unwrap();
    let (y0, y1) = f.atlas.dirty.expect("inserting a glyph must mark rows dirty");
    assert!(y1 > y0 && y1 <= f.atlas.size);
    assert_eq!((y0, y1), (0, 12));
}

#[test]
fn a_change_of_size_drops_every_glyph() {
    let mut s = set();
    s.place('A', false, bitmap(5, 7, 9));
    s.atlas.dirty = None;
    s.reset();
    assert_eq!(s.glyph('A', false), GlyphStep::Rasterise { face: 0, glyph: 3 + 0x21 });
    assert!(s.atlas.data.iter().all(|&p| p == 0));
    assert_eq!(s.atlas.dirty, Some((0, 64)));
}

#[test]
fn the_first_family_with_a_face_is_loaded() {
    let load = |name: &str| -> Option<Face> {
        match name {
            "second" => Some(face(&[ASCII])),
            "third" => Some(face(&[KANA])),
            _ => None,
        }
    };
    let found = load_family(&["first", "second", "third"], &load).expect("there is one");
    assert_eq!(found.glyph_for('A'), Some(3 + 0x21));
    assert!(load_family(&["first", "other"], &load).is_none());
}

#[test]
fn bitmaps_are_shelved_side_by_side() {
    let mut a = Atlas::new(16);
    a.dirty = None;
    assert_eq!(a.insert(6, 3, &[1; 18]), Some((0, 0)));
    assert_eq!(a.insert(6, 5, &[2; 30]), Some((7, 0)));
    // No room beside: a shelf below the tallest, with a pixel between.
    assert_eq!(a.insert(6, 2, &[3; 12]), Some((0, 6)));
    assert_eq!(a.data[0], 1);
    assert_eq!(a.data[2 * 16 + 5], 1);
    assert_eq!(a.data[6], 0, "the gap between them");
    assert_eq!(a.data[4 * 16 + 12], 2);
    assert_eq!(a.data[5 * 16], 0);
    assert_eq!(a.data[7 * 16 + 5], 3);
    assert_eq!(a.dirty, Some((0, 8)));
}

#[test]
fn what_does_not_fit_leaves_the_pixels_alone() {
    let mut a = Atlas::new(8);
    assert_eq!(a.insert(8, 5, &[1; 40]), Some((0, 0)));
    a.dirty = None;
    assert_eq!(a.insert(4, 3, &[2; 12]), None, "full");
    assert_eq!(a.insert(9, 1, &[]), None, "too wide");
    assert_eq!(a.insert(0, 3, &[]), Some((0, 0)), "nothing to copy");
    assert_eq!(a.data.iter().filter(|&&p| p == 1).count(), 40);
    assert_eq!(a.dirty, None);
    // A lower one still fits under the shelf.
    assert_eq!(a.insert(4, 2, &[2; 8]), Some((0, 6)));
}

#[test]
fn the_rows_to_upload_are_handed_out_once() {
    let mut a = Atlas::new(8);
    assert_eq!(a.take_dirty(8), Some((0, 8)));
    assert_eq!(a.take_dirty(8), None);
    a.insert(3, 2, &[1; 6]);
    assert_eq!(a.take_dirty(1), Some((0, 1)), "no more than the texture has");
    a.dirty = Some((5, 7));
    assert_eq!(a.take_dirty(5), None);
}

#[test]
fn every_answer_of_the_surface_has_its_consequence() {
    assert_eq!(frame_status(SurfaceAnswer::Success), FrameStatus::Presented);
    assert_eq!(frame_status(SurfaceAnswer::Suboptimal), FrameStatus::Presented);
    assert_eq!(frame_status(SurfaceAnswer::Timeout), FrameStatus::Skipped);
    assert_eq!(frame_status(SurfaceAnswer::Occluded), FrameStatus::Skipped);
    assert_eq!(frame_status(SurfaceAnswer::Outdated), FrameStatus::NeedsReconfigure);
    assert_eq!(frame_status(SurfaceAnswer::Lost), FrameStatus::NeedsReconfigure);
    assert_eq!(frame_status(SurfaceAnswer::Validation), FrameStatus::NeedsReconfigure);
}

#[test]
fn capacity_grows_to_the_next_power_of_two() {
    assert_eq!(grown_capacity(0), Some(1));
    assert_eq!(grown_capacity(8192), Some(8192));
    assert_eq!(grown_capacity(8193), Some(16384));
    assert_eq!(grown_capacity(usize::MAX), None);
}
