//! A shelf-packed atlas of alpha bitmaps.

use crate::model;
use vstd::prelude::*;

verus! {

/// The largest side of an atlas: a pixel's position has to fit in 32 bits.
pub const MAX_SIDE: u32 = 0xffff;

/// Where the next bitmap goes: beside the last one on the current shelf.
pub struct Shelves {
    pub size: int,
    pub cursor_x: int,
    pub cursor_y: int,
    pub row_h: int,
}

impl Shelves {
    pub open spec fn wf(self) -> bool {
        &&& 0 <= self.size <= MAX_SIDE
        &&& 0 <= self.cursor_x <= self.size + 1
        &&& 0 <= self.cursor_y <= self.size + 1
        &&& 0 <= self.row_h
        &&& self.row_h == 0 ==> self.cursor_x == 0
        &&& self.row_h > 0 ==> self.cursor_y + self.row_h <= self.size
    }

    /// The shelf that takes a bitmap `w` wide: the current one, or a fresh one
    /// under it.
    pub open spec fn shelf_for(self, w: int) -> Shelves {
        if self.cursor_x + w > self.size {
            Shelves {
                cursor_x: 0,
                cursor_y: self.cursor_y + self.row_h + 1,
                row_h: 0,
                ..self
            }
        } else {
            self
        }
    }

    /// Where a bitmap is put; `None` where there is no room left for it.
    pub open spec fn spot(self, w: int, h: int) -> Option<(int, int)> {
        let shelf = self.shelf_for(w);
        if w == 0 || h == 0 {
            Some((0, 0))
        } else if w > self.size || h > self.size || shelf.cursor_y + h > self.size {
            None
        } else {
            Some((shelf.cursor_x, shelf.cursor_y))
        }
    }

    /// The shelves once a bitmap was offered, taken or not.
    pub open spec fn after(self, w: int, h: int) -> Shelves {
        let shelf = self.shelf_for(w);
        if w == 0 || h == 0 || w > self.size || h > self.size {
            self
        } else if shelf.cursor_y + h > self.size {
            shelf
        } else {
            Shelves {
                cursor_x: shelf.cursor_x + w + 1,
                row_h: model::max(shelf.row_h, h),
                ..shelf
            }
        }
    }

    /// Whether the pixel at column `x` of row `y` is behind what was packed.
    pub open spec fn taken(self, x: int, y: int) -> bool {
        y < self.cursor_y || (x < self.cursor_x && y < self.cursor_y + self.row_h)
    }
}

/// The pixel at column `x` of row `y`.
pub open spec fn pixel(data: Seq<u8>, size: int, x: int, y: int) -> u8 {
    data[y * size + x]
}

/// Whether a pixel lies in the rectangle `w` by `h` at `at`.
pub open spec fn inside(at: (int, int), w: int, h: int, x: int, y: int) -> bool {
    at.0 <= x < at.0 + w && at.1 <= y < at.1 + h
}

/// Whether `after` is `before` with the first `rows` rows of a bitmap `w` wide
/// copied to `at`.
pub open spec fn blitted(
    before: Seq<u8>,
    after: Seq<u8>,
    size: int,
    at: (int, int),
    w: int,
    rows: int,
    src: Seq<u8>,
) -> bool {
    &&& after.len() == before.len()
    &&& forall|x: int, y: int|
        0 <= x < size && 0 <= y < size ==> #[trigger] pixel(after, size, x, y) == if inside(
            at,
            w,
            rows,
            x,
            y,
        ) {
            pixel(src, w, x - at.0, y - at.1)
        } else {
            pixel(before, size, x, y)
        }
}

/// The rows to upload once the rows from `y` to `y + h` were touched as well.
pub open spec fn grown(dirty: Option<(u32, u32)>, y: int, h: int) -> (int, int) {
    match dirty {
        Some((y0, y1)) => (model::min(y0 as int, y), model::max(y1 as int, y + h)),
        None => (y, y + h),
    }
}

#[derive(Debug)]
pub struct Atlas {
    pub size: u32,
    pub data: Vec<u8>,
    pub cursor_x: u32,
    pub cursor_y: u32,
    pub row_h: u32,
    /// Rows touched since the last upload, as `[y0, y1)`.
    pub dirty: Option<(u32, u32)>,
}

proof fn lemma_position(size: int, x: int, y: int)
    requires
        0 <= x < size,
        0 <= y < size,
    ensures
        0 <= y * size + x < size * size,
        y * size <= (size - 1) * size,
{
    assert(y * size + x < size * size && 0 <= y * size && y * size <= (size - 1) * size)
        by (nonlinear_arith)
        requires
            0 <= x < size,
            0 <= y < size,
    ;
}

/// Two pixels of a square have the same position only if they are the same.
proof fn lemma_positions_differ(size: int, x: int, y: int, x2: int, y2: int)
    requires
        0 <= x < size,
        0 <= x2 < size,
        y * size + x == y2 * size + x2,
    ensures
        x == x2,
        y == y2,
{
    assert(y == y2) by (nonlinear_arith)
        requires
            0 <= x < size,
            0 <= x2 < size,
            y * size + x == y2 * size + x2,
    ;
}

impl Atlas {
    pub open spec fn shelves(self) -> Shelves {
        Shelves {
            size: self.size as int,
            cursor_x: self.cursor_x as int,
            cursor_y: self.cursor_y as int,
            row_h: self.row_h as int,
        }
    }

    pub open spec fn wf(self) -> bool {
        self.shelves().wf() && self.data@.len() == self.size * self.size
    }

    /// An empty atlas, all of it still to be uploaded.
    pub fn new(size: u32) -> (atlas: Atlas)
        requires
            size <= MAX_SIDE,
        ensures
            atlas.wf(),
            atlas.shelves() == (Shelves { size: size as int, cursor_x: 0, cursor_y: 0, row_h: 0 }),
            forall|i: int| 0 <= i < atlas.data@.len() ==> atlas.data@[i] == 0,
            atlas.dirty == Some((0u32, size)),
    {
        proof {
            assert(size * size <= 0xffff * 0xffff) by (nonlinear_arith)
                requires
                    0 <= size <= 0xffff,
            ;
        }
        Atlas {
            size,
            data: vec![0u8; (size * size) as usize],
            cursor_x: 0,
            cursor_y: 0,
            row_h: 0,
            dirty: Some((0, size)),
        }
    }

    /// Copies an alpha bitmap into the atlas, returning the pixel it starts at.
    pub fn insert(&mut self, w: u32, h: u32, src: &[u8]) -> (at: Option<(u32, u32)>)
        requires
            old(self).wf(),
            w <= old(self).size && h <= old(self).size ==> src@.len() >= w * h,
        ensures
            final(self).wf(),
            final(self).shelves() == old(self).shelves().after(w as int, h as int),
            match old(self).shelves().spot(w as int, h as int) {
                Some((x, y)) => {
                    &&& at matches Some(p)
                    &&& p.0 == x
                    &&& p.1 == y
                    &&& blitted(
                        old(self).data@,
                        final(self).data@,
                        old(self).size as int,
                        (x, y),
                        w as int,
                        h as int,
                        src@,
                    )
                    &&& if w == 0 || h == 0 {
                        final(self).dirty == old(self).dirty
                    } else {
                        &&& final(self).dirty matches Some(rows)
                        &&& rows.0 == grown(old(self).dirty, y, h as int).0
                        &&& rows.1 == grown(old(self).dirty, y, h as int).1
                    }
                },
                None => {
                    &&& at is None
                    &&& final(self).data@ == old(self).data@
                    &&& final(self).dirty == old(self).dirty
                },
            },
    {
        if w == 0 || h == 0 {
            return Some((0, 0));
        }
        if w > self.size || h > self.size {
            return None;
        }
        if self.cursor_x + w > self.size {
            // Advance to the next shelf.
            self.cursor_x = 0;
            self.cursor_y = self.cursor_y + self.row_h + 1;
            self.row_h = 0;
        }
        if self.cursor_y + h > self.size {
            return None;  // full
        }
        let (x, y): (u32, u32) = (self.cursor_x, self.cursor_y);
        self.blit(x, y, w, h, src);
        self.cursor_x = x + w + 1;
        if self.row_h < h {
            self.row_h = h;
        }
        self.dirty = Some(
            match self.dirty {
                Some((y0, y1)) => (
                    if y0 < y { y0 } else { y },
                    if y1 > y + h { y1 } else { y + h },
                ),
                None => (y, y + h),
            },
        );
        Some((x, y))
    }

    fn blit(&mut self, x: u32, y: u32, w: u32, h: u32, src: &[u8])
        requires
            old(self).size <= MAX_SIDE,
            old(self).data@.len() == old(self).size * old(self).size,
            0 < w,
            x + w <= old(self).size,
            y + h <= old(self).size,
            src@.len() >= w * h,
        ensures
            *final(self) == (Atlas { data: final(self).data, ..*old(self) }),
            blitted(
                old(self).data@,
                final(self).data@,
                old(self).size as int,
                (x as int, y as int),
                w as int,
                h as int,
                src@,
            ),
    {
        let mut row: u32 = 0;
        while row < h
            invariant
                row <= h,
                0 < w,
                *self == (Atlas { data: self.data, ..*old(self) }),
                self.size <= MAX_SIDE,
                self.data@.len() == self.size * self.size,
                x + w <= self.size,
                y + h <= self.size,
                src@.len() >= w * h,
                blitted(
                    old(self).data@,
                    self.data@,
                    self.size as int,
                    (x as int, y as int),
                    w as int,
                    row as int,
                    src@,
                ),
            decreases h - row,
        {
            let ghost before = self.data@;
            proof {
                assert(w * (row + 1) <= w * h) by (nonlinear_arith)
                    requires
                        row + 1 <= h,
                        0 < w,
                ;
            }
            self.blit_row(x, y + row, w, row, src);
            proof {
                let size = self.size as int;
                assert forall|px: int, py: int|
                    0 <= px < size && 0 <= py < size implies #[trigger] pixel(
                    self.data@,
                    size,
                    px,
                    py,
                ) == if inside((x as int, y as int), w as int, row + 1, px, py) {
                    pixel(src@, w as int, px - x, py - y)
                } else {
                    pixel(old(self).data@, size, px, py)
                } by {
                    assert(pixel(before, size, px, py) == pixel(before, size, px, py));
                }
            }
            row = row + 1;
        }
    }

    fn blit_row(&mut self, x: u32, y: u32, w: u32, row: u32, src: &[u8])
        requires
            old(self).size <= MAX_SIDE,
            old(self).data@.len() == old(self).size * old(self).size,
            x + w <= old(self).size,
            y < old(self).size,
            row < old(self).size,
            src@.len() >= w * (row + 1),
        ensures
            *final(self) == (Atlas { data: final(self).data, ..*old(self) }),
            final(self).data@.len() == old(self).data@.len(),
            forall|px: int, py: int|
                0 <= px < old(self).size && 0 <= py < old(self).size ==> #[trigger] pixel(
                    final(self).data@,
                    old(self).size as int,
                    px,
                    py,
                ) == if x <= px < x + w && py == y {
                    pixel(src@, w as int, px - x, row as int)
                } else {
                    pixel(old(self).data@, old(self).size as int, px, py)
                },
    {
        let mut i: u32 = 0;
        while i < w
            invariant
                i <= w,
                *self == (Atlas { data: self.data, ..*old(self) }),
                self.size <= MAX_SIDE,
                self.data@.len() == self.size * self.size,
                self.data@.len() == old(self).data@.len(),
                x + w <= self.size,
                y < self.size,
                row < self.size,
                src@.len() >= w * (row + 1),
                forall|px: int, py: int|
                    0 <= px < self.size && 0 <= py < self.size ==> #[trigger] pixel(
                        self.data@,
                        self.size as int,
                        px,
                        py,
                    ) == if x <= px < x + i && py == y {
                        pixel(src@, w as int, px - x, row as int)
                    } else {
                        pixel(old(self).data@, self.size as int, px, py)
                    },
            decreases w - i,
        {
            proof {
                lemma_position(self.size as int, x + i, y as int);
                assert(row * w + w <= w * (row + 1) && 0 <= row * w && row * w <= 0xffff * 0xffff)
                    by (nonlinear_arith)
                    requires
                        0 <= row < 0xffff,
                        0 <= w <= 0xffff,
                ;
                assert(y * self.size <= 0xfffe * 0xffff) by (nonlinear_arith)
                    requires
                        0 <= y < self.size <= 0xffff,
                ;
            }
            let ghost before = self.data@;
            let d: usize = (y * self.size + x + i) as usize;
            let s: usize = (row * w + i) as usize;
            self.data.set(d, src[s]);
            proof {
                let size = self.size as int;
                assert forall|px: int, py: int|
                    0 <= px < size && 0 <= py < size implies #[trigger] pixel(
                    self.data@,
                    size,
                    px,
                    py,
                ) == if x <= px < x + i + 1 && py == y {
                    pixel(src@, w as int, px - x, row as int)
                } else {
                    pixel(old(self).data@, size, px, py)
                } by {
                    lemma_position(size, px, py);
                    assert(pixel(before, size, px, py) == pixel(before, size, px, py));
                    if py * size + px == d {
                        lemma_positions_differ(size, px, py, x + i, y as int);
                        assert(pixel(src@, w as int, px - x, row as int) == src@[s as int]);
                    } else {
                        assert(pixel(self.data@, size, px, py) == pixel(before, size, px, py));
                        assert(!(py == y && px == x + i));
                    }
                }
            }
            i = i + 1;
        }
    }

    /// Hands out the rows that changed since the last upload, as far as a
    /// texture of `side` rows has them, and forgets them.
    pub fn take_dirty(&mut self, side: u32) -> (rows: Option<(u32, u32)>)
        ensures
            *final(self) == (Atlas { dirty: None, ..*old(self) }),
            rows == (match old(self).dirty {
                Some((y0, y1)) => {
                    let end = if y1 < side { y1 } else { side };
                    if y0 < end { Some((y0, end)) } else { None }
                },
                None => None,
            }),
    {
        match self.dirty {
            Some((y0, y1)) => {
                self.dirty = None;
                let end: u32 = if y1 < side { y1 } else { side };
                if y0 < end { Some((y0, end)) } else { None }
            },
            None => None,
        }
    }
}

/// A bitmap never lands on what was packed before it, and what was packed stays
/// packed: no two bitmaps overlap.
pub proof fn law_bitmaps_never_overlap(shelves: Shelves, w: int, h: int)
    requires
        shelves.wf(),
        0 < w,
        0 < h,
        shelves.spot(w, h) is Some,
    ensures
        forall|x: int, y: int|
            #[trigger] inside(shelves.spot(w, h)->0, w, h, x, y) ==> !shelves.taken(x, y)
                && shelves.after(w, h).taken(x, y),
        forall|x: int, y: int| #[trigger]
            shelves.taken(x, y) ==> shelves.after(w, h).taken(x, y),
{
}

/// A bitmap that does not fit takes no pixel from the ones that do.
pub proof fn law_packed_stays_packed(shelves: Shelves, w: int, h: int, x: int, y: int)
    requires
        shelves.wf(),
        0 <= w,
        0 <= h,
        shelves.taken(x, y),
    ensures
        shelves.after(w, h).taken(x, y),
        shelves.after(w, h).wf(),
{
}

/// A bitmap that is taken lies within the atlas.
pub proof fn law_bitmaps_are_inside(shelves: Shelves, w: int, h: int)
    requires
        shelves.wf(),
        0 < w,
        0 < h,
    ensures
        shelves.spot(w, h) matches Some(at) ==> 0 <= at.0 && at.0 + w <= shelves.size && 0 <= at.1
            && at.1 + h <= shelves.size,
{
}

/// Every row that a bitmap touched is uploaded, and so is every row that was
/// waiting already.
pub proof fn law_touched_rows_are_dirty(dirty: Option<(u32, u32)>, y: int, h: int, row: int)
    requires
        0 <= y,
        0 < h,
        y <= row < y + h || (dirty matches Some(rows) && rows.0 <= row < rows.1),
    ensures
        grown(dirty, y, h).0 <= row < grown(dirty, y, h).1,
{
}

/// A bitmap that was taken is in the atlas pixel by pixel, row under row, and
/// nothing else in it changed.
pub proof fn law_a_bitmap_is_copied(
    before: Seq<u8>,
    after: Seq<u8>,
    size: int,
    at: (int, int),
    w: int,
    h: int,
    src: Seq<u8>,
    x: int,
    y: int,
)
    requires
        blitted(before, after, size, at, w, h, src),
        0 <= x < size,
        0 <= y < size,
    ensures
        after.len() == before.len(),
        at.0 <= x < at.0 + w && at.1 <= y < at.1 + h ==> after[y * size + x] == src[(y - at.1) * w
            + (x - at.0)],
        !(at.0 <= x < at.0 + w && at.1 <= y < at.1 + h) ==> after[y * size + x] == before[y * size
            + x],
{
    assert(pixel(after, size, x, y) == after[y * size + x]);
}

/// A bitmap goes beside the one before it, with a pixel between them, while its
/// shelf has room, and otherwise to the start of a new shelf, a pixel under the
/// highest of the old one. It is refused only where it is larger than the atlas
/// or no shelf is left.
pub proof fn law_where_bitmaps_go(shelves: Shelves, w: int, h: int)
    requires
        shelves.wf(),
        0 < w,
        0 < h,
    ensures
        ({
            let beside = shelves.cursor_x + w <= shelves.size;
            let x = if beside { shelves.cursor_x } else { 0 };
            let y = if beside { shelves.cursor_y } else { shelves.cursor_y + shelves.row_h + 1 };
            let next = shelves.after(w, h);
            if w <= shelves.size && h <= shelves.size && y + h <= shelves.size {
                &&& shelves.spot(w, h) == Some((x, y))
                &&& next.cursor_x == x + w + 1
                &&& next.cursor_y == y
                &&& next.row_h >= h && (beside ==> next.row_h >= shelves.row_h)
                &&& next.row_h == h || (beside && next.row_h == shelves.row_h)
            } else {
                shelves.spot(w, h) is None
            }
        }),
{
}

/// The rows to upload are no more than those touched and those between.
pub proof fn law_only_touched_rows_are_dirty(dirty: Option<(u32, u32)>, y: int, h: int)
    requires
        0 <= y,
        0 < h,
    ensures
        ({
            let (from, to) = grown(dirty, y, h);
            &&& from == y || (dirty matches Some(rows) && from == rows.0)
            &&& to == y + h || (dirty matches Some(rows) && to == rows.1)
        }),
{
}

} // verus!
