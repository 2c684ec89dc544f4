//! Which glyph a font has for a character.
//!
//! The character map is read by swash. It adds up numbers that it finds in the
//! font file as they are, so for each character the ones it adds are first
//! checked to be numbers that can be added.

use vstd::prelude::*;

verus! {

/// The tag of a font collection, `ttcf`.
pub const COLLECTION: u32 = 0x74746366;

/// The tag of a font with TrueType outlines.
pub const TRUETYPE: u32 = 0x00010000;

/// The other tag of a font with TrueType outlines, `true`.
pub const APPLE: u32 = 0x74727565;

/// The tag of a font with PostScript outlines, `OTTO`.
pub const OPENTYPE: u32 = 0x4f54544f;

/// The tag of the character map table, `cmap`.
pub const CMAP: u32 = 0x636d6170;

/// The format of a character map with 16-bit segments.
pub const SEGMENTS: u8 = 4;

/// The format of a character map with 32-bit groups.
pub const GROUPS: u8 = 12;

/// The big-endian 16-bit number at `at`.
pub open spec fn be16(data: Seq<u8>, at: int) -> int {
    data[at] * 256 + data[at + 1]
}

/// The big-endian 32-bit number at `at`.
pub open spec fn be32(data: Seq<u8>, at: int) -> int {
    be16(data, at) * 65536 + be16(data, at + 2)
}

/// Whether a font starts at `at`.
pub open spec fn is_font(data: Seq<u8>, at: int) -> bool {
    at + 4 <= data.len() && (be32(data, at) == TRUETYPE || be32(data, at) == APPLE || be32(data, at)
        == OPENTYPE)
}

/// How many fonts a collection lists; none where the file is not one.
pub open spec fn listed(data: Seq<u8>) -> int {
    if data.len() >= 12 && be32(data, 0) == COLLECTION { be32(data, 8) } else { 0 }
}

/// Where the directory of font `index` of a file is.
pub open spec fn font_start(data: Seq<u8>, index: int) -> Option<int> {
    if is_font(data, 0) {
        if index == 0 { Some(0) } else { None }
    } else if index < listed(data) && 12 + 4 * index + 4 <= data.len() && is_font(
        data,
        be32(data, 12 + 4 * index),
    ) {
        Some(be32(data, 12 + 4 * index))
    } else {
        None
    }
}

/// Where the `cmap` table is, going by the entries `l..h` of the directory at
/// `dir`, which are in the order of their tags and searched by halves.
pub open spec fn table_start(data: Seq<u8>, dir: int, l: int, h: int) -> Option<int>
    decreases h - l,
{
    if l < h {
        let i = (l + h) / 2;
        let entry = dir + 12 + 16 * i;
        if entry + 4 > data.len() {
            None
        } else if CMAP < be32(data, entry) {
            table_start(data, dir, l, i)
        } else if be32(data, entry) < CMAP {
            table_start(data, dir, i + 1, h)
        } else if entry + 16 <= data.len() && be32(data, entry + 8) + be32(data, entry + 12)
            <= u32::MAX {
            Some(be32(data, entry + 8))
        } else {
            None
        }
    } else {
        None
    }
}

/// Whether a map with this platform and encoding is of Unicode characters.
pub open spec fn is_unicode(platform: int, encoding: int) -> bool {
    platform == 0 || (platform == 3 && (encoding == 1 || encoding == 10))
}

/// The map that is read of the maps `k..count` of the `cmap` table at `table`,
/// with its format and whether it is one of symbols, `best` being the best
/// before them: the first of symbols, or the last of Unicode characters in
/// 32-bit groups, or the first of Unicode characters. Nothing is read where the
/// table is cut off.
pub open spec fn best_map(
    data: Seq<u8>,
    table: int,
    k: int,
    count: int,
    best: Option<(int, u8, bool)>,
) -> Option<(int, u8, bool)>
    decreases count - k,
{
    let entry = table + 4 + 8 * k;
    let map = table + be32(data, entry + 4);
    if k >= count {
        best
    } else if entry + 8 > data.len() || map + 2 > data.len() {
        None
    } else if data[map + 1] != SEGMENTS && data[map + 1] != GROUPS {
        best_map(data, table, k + 1, count, best)
    } else if map > u32::MAX {
        None
    } else if be16(data, entry) == 3 && be16(data, entry + 2) == 0 {
        Some((map, data[map + 1], true))
    } else if is_unicode(be16(data, entry), be16(data, entry + 2)) && (data[map + 1] == GROUPS
        || best is None) {
        best_map(data, table, k + 1, count, Some((map, data[map + 1], false)))
    } else {
        best_map(data, table, k + 1, count, best)
    }
}

/// The map that is read of the font whose directory is at `dir`.
pub open spec fn map_of_font(data: Seq<u8>, dir: int) -> Option<(int, u8, bool)> {
    if dir + 6 > data.len() {
        None
    } else {
        match table_start(data, dir, 0, be16(data, dir + 4)) {
            Some(table) => if table == 0 || table + 4 > data.len() {
                None
            } else {
                best_map(data, table, 0, be16(data, table + 2), None)
            },
            None => None,
        }
    }
}

/// What a code point's place in its group and the group's first glyph add up
/// to, going by the groups `l..h` of the map at `map`, which are in the order of
/// their code points and searched by halves; `None` where none of those looked
/// at holds it.
pub open spec fn group_sum(data: Seq<u8>, map: int, l: int, h: int, code: int) -> Option<int>
    decreases h - l,
{
    if l < h {
        let i = (l + h) / 2;
        let group = map + 16 + 12 * i;
        if code < be32(data, group) {
            group_sum(data, map, l, i, code)
        } else if be32(data, group + 4) < code {
            group_sum(data, map, i + 1, h, code)
        } else {
            Some(code - be32(data, group) + be32(data, group + 8))
        }
    } else {
        None
    }
}

/// The sum for a code point in the map of 32-bit groups at `map`. Groups that
/// are cut off are not read at all.
pub open spec fn map_sum(data: Seq<u8>, map: int, code: int) -> Option<int> {
    let count = be32(data, map + 12);
    if map + 16 + 12 * count <= data.len() { group_sum(data, map, 0, count, code) } else { None }
}

/// Whether a sum, if there is one, fits 32 bits.
pub open spec fn fits(sum: Option<int>) -> bool {
    sum matches Some(n) ==> n <= u32::MAX
}

/// Whether a sum comes to no glyph.
pub open spec fn is_missing(sum: Option<int>) -> bool {
    sum matches Some(n) ==> n % 65536 == 0
}

/// Whether a code point can be looked up in the map of 32-bit groups at `map`:
/// its header is there, its size fits, and so does the sum. A map of symbols
/// has the first 256 code points a second time, from U+F000 on, and is asked
/// for them there where it lacks them.
pub open spec fn groups_are_sound(data: Seq<u8>, map: int, symbols: bool, code: int) -> bool {
    &&& map + 16 <= data.len()
    &&& 12 * be32(data, map + 12) <= usize::MAX
    &&& fits(map_sum(data, map, code))
    &&& symbols && code <= 0xff && is_missing(map_sum(data, map, code)) ==> fits(
        map_sum(data, map, code + 0xf000),
    )
}

/// Whether `c` can be looked up in font `index` of a file. Where the file holds
/// no such font, or the font no map that is read, there is nothing to add up.
pub open spec fn is_sound(data: Seq<u8>, index: int, c: char) -> bool {
    &&& index < listed(data) ==> 12 + 4 * index <= usize::MAX
    &&& font_start(data, index) matches Some(dir) ==> (map_of_font(data, dir) matches Some(best)
        ==> (best.1 == GROUPS ==> groups_are_sound(data, best.0, best.2, c as int)))
}

/// The glyph that font `index` of the font file `data` has for `c`, zero where
/// it has none; `None` where there is no such font in the file.
pub uninterp spec fn glyph_of(data: Seq<u8>, index: u32, c: char) -> Option<u16>;

/// Calls `swash::FontRef::from_index` and, on the font, `charmap` and the map's
/// `map`. Claims that the glyph depends on the file, the index and the character
/// alone, and that there is one, if only zero, exactly where the file holds such
/// a font. Of the one map that it selects, if that is one of 32-bit groups, swash
/// subtracts 16 from the length, multiplies the number of groups by their size
/// and adds the first glyph of the group it finds to the character's place in
/// it; these are the sums that overflow where the file is not sound.
#[verifier::external_body]
pub(crate) fn glyph_index(data: &[u8], index: u32, c: char) -> (glyph: Option<u16>)
    requires
        is_sound(data@, index as int, c),
    ensures
        glyph == glyph_of(data@, index, c),
        glyph is Some == font_start(data@, index as int) is Some,
{
    let font = swash::FontRef::from_index(data, index as usize)?;
    Some(font.charmap().map(c))
}

fn read16(data: &[u8], at: u64) -> (n: u64)
    requires
        at + 2 <= data@.len(),
    ensures
        n == be16(data@, at as int),
        n <= 0xffff,
{
    data[at as usize] as u64 * 256 + data[(at + 1) as usize] as u64
}

fn read32(data: &[u8], at: u64) -> (n: u64)
    requires
        at + 4 <= data@.len() <= u64::MAX,
    ensures
        n == be32(data@, at as int),
        n <= 0xffff_ffff,
{
    read16(data, at) * 65536 + read16(data, at + 2)
}

/// The sum for a code point in the map of `count` 32-bit groups at `map`.
fn find_sum(data: &[u8], map: u64, count: u64, code: u64) -> (sum: Option<u64>)
    requires
        map <= 0xffff_ffff,
        map + 16 <= data@.len(),
        count == be32(data@, map + 12),
        count <= 0xffff_ffff,
        code <= 0x11_ffff,
    ensures
        match map_sum(data@, map as int, code as int) {
            Some(n) => sum == Some(n as u64) && 0 <= n <= u64::MAX,
            None => sum is None,
        },
{
    let len: u64 = data.len() as u64;
    if map + 16 + 12 * count > len {
        return None;
    }
    let mut l: u64 = 0;
    let mut h: u64 = count;
    while l < h
        invariant
            map <= 0xffff_ffff,
            count <= 0xffff_ffff,
            count == be32(data@, map + 12),
            map + 16 + 12 * count <= data@.len() <= u64::MAX,
            h <= count,
            code <= 0x11_ffff,
            map_sum(data@, map as int, code as int) == group_sum(
                data@,
                map as int,
                l as int,
                h as int,
                code as int,
            ),
        decreases h - l,
    {
        let i: u64 = (l + h) / 2;
        let group: u64 = map + 16 + 12 * i;
        let start: u64 = read32(data, group);
        if code < start {
            h = i;
        } else if read32(data, group + 4) < code {
            l = i + 1;
        } else {
            return Some(code - start + read32(data, group + 8));
        }
    }
    None
}

/// Whether a code point can be looked up in the map of 32-bit groups at `map`.
fn check_groups(data: &[u8], map: u64, symbols: bool, code: u64) -> (ok: bool)
    requires
        map <= 0xffff_ffff,
        code <= 0x10_ffff,
    ensures
        ok == groups_are_sound(data@, map as int, symbols, code as int),
{
    if map + 16 > data.len() as u64 {
        return false;
    }
    let count: u64 = read32(data, map + 12);
    if 12 * count > usize::MAX as u64 {
        return false;
    }
    let missing = match find_sum(data, map, count, code) {
        Some(n) => {
            if n > u32::MAX as u64 {
                return false;
            }
            n % 65536 == 0
        },
        None => true,
    };
    if !(symbols && code <= 0xff && missing) {
        return true;
    }
    match find_sum(data, map, count, code + 0xf000) {
        Some(n) => n <= u32::MAX as u64,
        None => true,
    }
}

/// The map that is read of the `cmap` table at `table`.
fn find_map(data: &[u8], table: u64) -> (best: Option<(u64, u8, bool)>)
    requires
        table <= 0xffff_ffff,
        table + 4 <= data@.len(),
    ensures
        match best_map(data@, table as int, 0, be16(data@, table + 2), None) {
            Some((map, format, symbols)) => best == Some((map as u64, format, symbols)) && 0 <= map
                <= u32::MAX,
            None => best is None,
        },
{
    let len: u64 = data.len() as u64;
    let count: u64 = read16(data, table + 2);
    let mut best: Option<(u64, u8, bool)> = None;
    let mut k: u64 = 0;
    while k < count
        invariant
            k <= count,
            len == data@.len(),
            count == be16(data@, table + 2),
            count <= 0xffff,
            table <= 0xffff_ffff,
            best matches Some(b) ==> b.0 <= u32::MAX,
            best_map(data@, table as int, 0, count as int, None) == best_map(
                data@,
                table as int,
                k as int,
                count as int,
                as_found(best),
            ),
        decreases count - k,
    {
        let entry: u64 = table + 4 + 8 * k;
        if entry + 8 > len {
            return None;
        }
        let map: u64 = table + read32(data, entry + 4);
        if map + 2 > len {
            return None;
        }
        let format: u8 = data[(map + 1) as usize];
        k = k + 1;
        if format != SEGMENTS && format != GROUPS {
            continue;
        }
        if map > u32::MAX as u64 {
            return None;
        }
        let platform: u64 = read16(data, entry);
        let encoding: u64 = read16(data, entry + 2);
        if platform == 3 && encoding == 0 {
            return Some((map, format, true));
        }
        let unicode = platform == 0 || (platform == 3 && (encoding == 1 || encoding == 10));
        if unicode && (format == GROUPS || best.is_none()) {
            best = Some((map, format, false));
        }
    }
    best
}

/// A map as [`best_map`] has it.
spec fn as_found(best: Option<(u64, u8, bool)>) -> Option<(int, u8, bool)> {
    match best {
        Some((map, format, symbols)) => Some((map as int, format, symbols)),
        None => None,
    }
}

/// Where the `cmap` table of the font whose directory is at `dir` is.
fn find_table(data: &[u8], dir: u64) -> (table: Option<u64>)
    requires
        dir <= 0xffff_ffff,
        dir + 6 <= data@.len(),
    ensures
        match table_start(data@, dir as int, 0, be16(data@, dir + 4)) {
            Some(start) => table == Some(start as u64) && 0 <= start <= u32::MAX,
            None => table is None,
        },
{
    let len: u64 = data.len() as u64;
    let mut l: u64 = 0;
    let mut h: u64 = read16(data, dir + 4);
    while l < h
        invariant
            len == data@.len(),
            dir <= 0xffff_ffff,
            l <= 0xffff,
            h <= 0xffff,
            table_start(data@, dir as int, 0, be16(data@, dir + 4)) == table_start(
                data@,
                dir as int,
                l as int,
                h as int,
            ),
        decreases h - l,
    {
        let i: u64 = (l + h) / 2;
        let entry: u64 = dir + 12 + 16 * i;
        if entry + 4 > len {
            return None;
        }
        let tag: u64 = read32(data, entry);
        if (CMAP as u64) < tag {
            h = i;
        } else if tag < CMAP as u64 {
            l = i + 1;
        } else {
            if entry + 16 > len {
                return None;
            }
            let start: u64 = read32(data, entry + 8);
            if start + read32(data, entry + 12) > u32::MAX as u64 {
                return None;
            }
            return Some(start);
        }
    }
    None
}

fn font_at(data: &[u8], at: u64) -> (yes: bool)
    requires
        at <= 0xffff_ffff,
    ensures
        yes == is_font(data@, at as int),
{
    if at + 4 > data.len() as u64 {
        return false;
    }
    let tag: u64 = read32(data, at);
    tag == TRUETYPE as u64 || tag == APPLE as u64 || tag == OPENTYPE as u64
}

/// How many fonts a collection lists.
fn count_listed(data: &[u8]) -> (count: u64)
    ensures
        count == listed(data@),
{
    if data.len() >= 12 && read32(data, 0) == COLLECTION as u64 { read32(data, 8) } else { 0 }
}

/// Whether a code point can be looked up in the font whose directory is at
/// `dir`.
fn check_font(data: &[u8], dir: u64, code: u64) -> (ok: bool)
    requires
        dir <= 0xffff_ffff,
        code <= 0x10_ffff,
    ensures
        ok == (map_of_font(data@, dir as int) matches Some(best) ==> (best.1 == GROUPS
            ==> groups_are_sound(data@, best.0, best.2, code as int))),
{
    let len: u64 = data.len() as u64;
    if dir + 6 > len {
        return true;
    }
    match find_table(data, dir) {
        Some(table) => {
            if table == 0 || table + 4 > len {
                return true;
            }
            match find_map(data, table) {
                Some((map, format, symbols)) => format != GROUPS || check_groups(
                    data,
                    map,
                    symbols,
                    code,
                ),
                None => true,
            }
        },
        None => true,
    }
}

/// Where the directory of font `index` of a font file is.
fn find_font(data: &[u8], index: u32) -> (dir: Option<u64>)
    ensures
        match font_start(data@, index as int) {
            Some(start) => dir == Some(start as u64) && 0 <= start <= u32::MAX,
            None => dir is None,
        },
{
    let at: u64 = 12 + 4 * index as u64;
    if font_at(data, 0) {
        return if index == 0 { Some(0) } else { None };
    }
    if index as u64 >= count_listed(data) || at + 4 > data.len() as u64 {
        return None;
    }
    let dir: u64 = read32(data, at);
    if font_at(data, dir) { Some(dir) } else { None }
}

/// Whether a file holds font `index`.
pub fn holds_font(data: &[u8], index: u32) -> (yes: bool)
    ensures
        yes == (font_start(data@, index as int) is Some),
{
    find_font(data, index).is_some()
}

/// Whether `c` can be looked up in font `index` of a font file.
pub fn check(data: &[u8], index: u32, c: char) -> (ok: bool)
    ensures
        ok == is_sound(data@, index as int, c),
{
    if (index as u64) < count_listed(data) && 12 + 4 * index as u64 > usize::MAX as u64 {
        return false;
    }
    match find_font(data, index) {
        Some(dir) => check_font(data, dir, c as u64),
        None => true,
    }
}

/// Whether `code` is between the first and the last code point of group `i` of
/// the map at `map`.
pub open spec fn group_holds(data: Seq<u8>, map: int, i: int, code: int) -> bool {
    be32(data, map + 16 + 12 * i) <= code <= be32(data, map + 20 + 12 * i)
}

/// Whether there are code points in groups `i` and `j`, and all of group `i`
/// come before those of group `j`.
pub open spec fn comes_before(data: Seq<u8>, map: int, i: int, j: int) -> bool {
    be32(data, map + 16 + 12 * i) <= be32(data, map + 20 + 12 * i) < be32(data, map + 16 + 12 * j)
        <= be32(data, map + 20 + 12 * j)
}

/// Whether the first `count` groups of the map at `map` come in the order of
/// their code points.
pub open spec fn in_order(data: Seq<u8>, map: int, count: int) -> bool {
    forall|i: int, j: int| 0 <= i < j < count ==> #[trigger] comes_before(data, map, i, j)
}

/// In a map whose groups are in order, a code point is found in the group that
/// holds it, at its place there, and is not found if none does.
pub proof fn law_the_group_that_holds_it_is_found(data: Seq<u8>, map: int, code: int, i: int)
    requires
        map + 16 + 12 * be32(data, map + 12) <= data.len(),
        in_order(data, map, be32(data, map + 12)),
    ensures
        0 <= i < be32(data, map + 12) && group_holds(data, map, i, code) ==> map_sum(
            data,
            map,
            code,
        ) == Some(code - be32(data, map + 16 + 12 * i) + be32(data, map + 24 + 12 * i)),
        (forall|k: int| 0 <= k < be32(data, map + 12) ==> !#[trigger] group_holds(data, map, k, code))
            ==> map_sum(data, map, code) is None,
{
    let count = be32(data, map + 12);
    lemma_found(data, map, 0, count, count, code, i);
}

proof fn lemma_found(data: Seq<u8>, map: int, l: int, h: int, count: int, code: int, i: int)
    requires
        0 <= l <= h <= count || count <= 0 && l == 0 && h == count,
        in_order(data, map, count),
    ensures
        l <= i < h && group_holds(data, map, i, code) ==> group_sum(data, map, l, h, code) == Some(
            code - be32(data, map + 16 + 12 * i) + be32(data, map + 24 + 12 * i),
        ),
        (forall|k: int| l <= k < h ==> !#[trigger] group_holds(data, map, k, code)) ==> group_sum(
            data,
            map,
            l,
            h,
            code,
        ) is None,
    decreases h - l,
{
    if l < h {
        let m = (l + h) / 2;
        let group = map + 16 + 12 * m;
        assert(l <= i < m ==> comes_before(data, map, i, m));
        assert(m < i < h ==> comes_before(data, map, m, i));
        assert(group_holds(data, map, m, code) == (be32(data, group) <= code <= be32(
            data,
            group + 4,
        )));
        if code < be32(data, group) {
            lemma_found(data, map, l, m, count, code, i);
        } else if be32(data, group + 4) < code {
            lemma_found(data, map, m + 1, h, count, code, i);
        } else if l <= i < h && group_holds(data, map, i, code) {
            assert(i == m);
            assert(map + 24 + 12 * i == group + 8);
        }
    }
}

/// Where the file holds no such font there is nothing that could overflow.
pub proof fn law_a_missing_font_is_sound(data: Seq<u8>, index: int, c: char)
    requires
        0 <= index < 0x1000_0000,
        font_start(data, index) is None,
    ensures
        is_sound(data, index, c),
{
}

} // verus!
