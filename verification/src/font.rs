//! The faces that text is drawn with, and the glyphs drawn so far.
//!
//! Faces are ordered: regular, bold, then fallbacks. A character is drawn by the
//! first face whose character map covers it, which is what makes CJK text work
//! when the primary monospace font has no kana or kanji.

use crate::atlas::{Atlas, MAX_SIDE};
use crate::charmap::{self, check, glyph_index, holds_font};
use std::collections::HashMap;
use vstd::prelude::*;

verus! {

/// One font of a font file.
#[derive(Debug)]
pub struct Face {
    pub data: Vec<u8>,
    pub index: u32,
}

impl Face {
    /// Whether the file holds such a font.
    pub open spec fn parses(self) -> bool {
        charmap::font_start(self.data@, self.index as int) is Some
    }

    /// Whether `c` can be looked up: the numbers that the character map gives
    /// for it can be added up.
    pub open spec fn reads(self, c: char) -> bool {
        charmap::is_sound(self.data@, self.index as int, c)
    }

    /// The glyph that the face has for `c`; zero stands for none.
    pub open spec fn glyph(self, c: char) -> Option<u16> {
        charmap::glyph_of(self.data@, self.index, c)
    }

    /// Whether the face has a glyph for `c`. It has none that it cannot look up.
    pub open spec fn covers(self, c: char) -> bool {
        self.reads(c) && (self.glyph(c) matches Some(g) && g != 0)
    }

    /// Font `index` of the file `data`.
    pub fn new(data: Vec<u8>, index: u32) -> (face: Face)
        ensures
            face.data@ == data@,
            face.index == index,
    {
        Face { data, index }
    }

    /// Whether `c` can be looked up.
    pub fn can_read(&self, c: char) -> (yes: bool)
        ensures
            yes == self.reads(c),
    {
        check(self.data.as_slice(), self.index, c)
    }

    /// The glyph that the face has for `c`; `None` if the file holds no such
    /// font.
    pub fn glyph_for(&self, c: char) -> (glyph: Option<u16>)
        requires
            self.reads(c),
        ensures
            glyph == self.glyph(c),
            glyph is Some == self.parses(),
    {
        glyph_index(self.data.as_slice(), self.index, c)
    }

    fn has(&self, c: char) -> (has: bool)
        ensures
            has == self.covers(c),
    {
        if !self.can_read(c) {
            return false;
        }
        match self.glyph_for(c) {
            Some(glyph) => glyph != 0,
            None => false,
        }
    }

    /// Whether the file holds such a font, going by a character that every
    /// primary font is asked for.
    fn is_readable(&self) -> (yes: bool)
        ensures
            yes == self.parses(),
    {
        if self.can_read('M') {
            self.glyph_for('M').is_some()
        } else {
            holds_font(self.data.as_slice(), self.index)
        }
    }
}

/// Whether `load` may give `face` for family `k`.
pub open spec fn loads<F: Fn(&str) -> Option<Face>>(
    load: F,
    families: Seq<&str>,
    k: int,
    face: Option<Face>,
) -> bool {
    call_ensures(load, (families[k],), face)
}

/// The face of the first family that has one, best family first.
pub fn load_family<F: Fn(&str) -> Option<Face>>(families: &[&str], load: &F) -> (face: Option<Face>)
    requires
        forall|name: &str| call_requires(load, (name,)),
    ensures
        match face {
            Some(_) => exists|k: int|
                0 <= k < families@.len() && #[trigger] loads(*load, families@, k, face) && forall|j: int|
                    0 <= j < k ==> #[trigger] loads(*load, families@, j, None),
            None => forall|j: int|
                0 <= j < families@.len() ==> #[trigger] loads(*load, families@, j, None),
        },
{
    let mut k: usize = 0;
    while k < families.len()
        invariant
            k <= families@.len(),
            forall|name: &str| call_requires(load, (name,)),
            forall|j: int| 0 <= j < k ==> #[trigger] loads(*load, families@, j, None),
        decreases families.len() - k,
    {
        let face = load(families[k]);
        assert(loads(*load, families@, k as int, face));
        if face.is_some() {
            return face;
        }
        k = k + 1;
    }
    None
}

/// The first face of `faces`, from face `i` on, that covers `c`.
pub open spec fn first_covering(faces: Seq<Face>, c: char, i: int) -> Option<int>
    decreases faces.len() - i,
{
    if 0 <= i < faces.len() {
        if faces[i].covers(c) { Some(i) } else { first_covering(faces, c, i + 1) }
    } else {
        None
    }
}

/// Where a glyph is in the atlas, and how it sits relative to the pen.
#[derive(Clone, Copy, PartialEq, Eq, Debug, Structural)]
pub struct Slot {
    pub x: u32,
    pub y: u32,
    pub w: u32,
    pub h: u32,
    pub left: i32,
    pub top: i32,
}

/// An alpha bitmap of a glyph, with its offset from the pen.
#[derive(Debug)]
pub struct Bitmap {
    pub left: i32,
    pub top: i32,
    pub width: u32,
    pub height: u32,
    pub data: Vec<u8>,
}

impl Bitmap {
    pub open spec fn wf(self) -> bool {
        self.data@.len() >= self.width * self.height
    }
}

/// What is to be done about a character.
#[derive(Clone, Copy, PartialEq, Eq, Debug, Structural)]
pub enum GlyphStep {
    /// It is in the atlas, or there is nothing to draw: a blank, or no font
    /// covers it.
    Known(Option<Slot>),
    /// It has to be rasterised first.
    Rasterise { face: usize, glyph: u16 },
}

#[derive(Clone, Copy, PartialEq, Eq, Debug, Structural)]
pub enum FontError {
    /// No monospace font was found.
    NoFace,
    /// The primary font could not be parsed.
    Unreadable,
}

/// The key of a character, as drawn or as covered.
pub open spec fn glyph_key(c: char, bold: bool) -> u64 {
    (2 * (c as int) + if bold { 1int } else { 0 }) as u64
}

pub open spec fn char_key(c: char) -> u64 {
    (c as int) as u64
}

proof fn lemma_char_keys_differ(c: char, d: char)
    ensures
        char_key(c) == char_key(d) ==> c == d,
{
}

fn key_of(c: char, bold: bool) -> (key: u64)
    ensures
        key == glyph_key(c, bold),
{
    2 * (c as u64) + if bold { 1 } else { 0 }
}

#[derive(Debug)]
pub struct FontSet {
    pub faces: Vec<Face>,
    pub bold: Option<usize>,
    pub cache: HashMap<u64, Option<Slot>>,
    /// Which face covers a given character, resolved once.
    pub face_for: HashMap<u64, Option<usize>>,
    pub atlas: Atlas,
}

impl FontSet {
    pub open spec fn wf(self) -> bool {
        &&& self.faces@.len() > 0
        &&& self.bold matches Some(b) ==> b < self.faces@.len()
        &&& self.atlas.wf()
        &&& forall|c: char| #[trigger]
            self.face_for@.contains_key(char_key(c)) ==> FontSet::same(
                self.face_for@[char_key(c)],
                first_covering(self.faces@, c, 0),
            )
    }

    /// Whether a face is the one at a position.
    pub open spec fn same(face: Option<usize>, at: Option<int>) -> bool {
        match face {
            Some(f) => at == Some(f as int),
            None => at is None,
        }
    }

    /// The face that draws `c`, the bold one before the others where bold is
    /// asked for.
    pub open spec fn face_of(self, c: char, bold: bool) -> Option<int> {
        match self.bold {
            Some(b) if bold && self.faces@[b as int].covers(c) => Some(b as int),
            _ => first_covering(self.faces@, c, 0),
        }
    }

    /// Which face covers what, once `face` was found for `c`: one that was
    /// looked for among all the faces is remembered, so that it is resolved
    /// once.
    pub open spec fn remembered(self, c: char, bold: bool, face: Option<usize>) -> Map<
        u64,
        Option<usize>,
    > {
        let heavy = bold && (self.bold matches Some(b) && self.faces@[b as int].covers(c));
        if heavy || self.face_for@.contains_key(char_key(c)) {
            self.face_for@
        } else {
            self.face_for@.insert(char_key(c), face)
        }
    }

    /// The faces in the order in which they are tried.
    pub open spec fn ordered(regular: Face, bold: Option<Face>, fallbacks: Seq<Face>) -> Seq<Face> {
        match bold {
            Some(b) => seq![regular, b] + fallbacks,
            None => seq![regular] + fallbacks,
        }
    }

    /// A set of the given faces with nothing drawn yet.
    pub fn new(
        regular: Option<Face>,
        bold: Option<Face>,
        fallbacks: Vec<Face>,
        atlas_size: u32,
    ) -> (set: Result<FontSet, FontError>)
        requires
            atlas_size <= MAX_SIDE,
        ensures
            match regular {
                None => set matches Err(e) && e == FontError::NoFace,
                Some(f) => if !f.parses() {
                    set matches Err(e) && e == FontError::Unreadable
                } else {
                    &&& set matches Ok(s)
                    &&& s.wf()
                    &&& s.faces@ == FontSet::ordered(f, bold, fallbacks@)
                    &&& s.bold == (if bold is Some { Some(1usize) } else { None })
                    &&& s.cache@ == Map::<u64, Option<Slot>>::empty()
                    &&& s.face_for@ == Map::<u64, Option<usize>>::empty()
                    &&& forall|i: int|
                        0 <= i < s.atlas.data@.len() ==> s.atlas.data@[i] == 0
                    &&& s.atlas.shelves() == (crate::atlas::Shelves {
                        size: atlas_size as int,
                        cursor_x: 0,
                        cursor_y: 0,
                        row_h: 0,
                    })
                    &&& s.atlas.dirty == Some((0u32, atlas_size))
                },
            },
    {
        let regular = match regular {
            Some(face) => face,
            None => return Err(FontError::NoFace),
        };
        if !regular.is_readable() {
            return Err(FontError::Unreadable);
        }
        let mut faces: Vec<Face> = Vec::new();
        faces.push(regular);
        let mut at: Option<usize> = None;
        if let Some(face) = bold {
            faces.push(face);
            at = Some(1);
        }
        let mut rest = fallbacks;
        faces.append(&mut rest);
        assert(faces@ == FontSet::ordered(regular, bold, fallbacks@));
        Ok(
            FontSet {
                faces,
                bold: at,
                cache: HashMap::new(),
                face_for: HashMap::new(),
                atlas: Atlas::new(atlas_size),
            },
        )
    }

    /// Drops every glyph drawn so far, as a change of size asks for. Which face
    /// covers what stays known.
    pub fn reset(&mut self)
        requires
            old(self).wf(),
        ensures
            final(self).wf(),
            final(self).faces == old(self).faces,
            final(self).bold == old(self).bold,
            final(self).face_for == old(self).face_for,
            final(self).cache@ == Map::<u64, Option<Slot>>::empty(),
            final(self).atlas.shelves() == (crate::atlas::Shelves {
                size: old(self).atlas.size as int,
                cursor_x: 0,
                cursor_y: 0,
                row_h: 0,
            }),
            final(self).atlas.dirty == Some((0u32, old(self).atlas.size)),
            forall|i: int| 0 <= i < final(self).atlas.data@.len() ==> final(self).atlas.data@[i] == 0,
    {
        self.cache = HashMap::new();
        self.atlas = Atlas::new(self.atlas.size);
    }

    /// Index of the face that can draw `c`, preferring the bold one when asked.
    pub fn resolve_face(&mut self, c: char, bold: bool) -> (face: Option<usize>)
        requires
            old(self).wf(),
        ensures
            final(self).wf(),
            *final(self) == (FontSet { face_for: final(self).face_for, ..*old(self) }),
            FontSet::same(face, old(self).face_of(c, bold)),
            final(self).face_for@ == old(self).remembered(c, bold, face),
    {
        if bold {
            if let Some(b) = self.bold {
                if self.faces[b].has(c) {
                    return Some(b);
                }
            }
        }
        let key: u64 = c as u64;
        assert(key == char_key(c));
        if let Some(known) = self.face_for.get(&key) {
            return *known;
        }
        let found = self.search(c);
        self.face_for.insert(key, found);
        assert forall|d: char| #[trigger]
            self.face_for@.contains_key(char_key(d)) implies FontSet::same(
            self.face_for@[char_key(d)],
            first_covering(self.faces@, d, 0),
        ) by {
            if d != c {
                lemma_char_keys_differ(c, d);
                assert(old(self).face_for@.contains_key(char_key(d)));
            }
        }
        found
    }

    fn search(&self, c: char) -> (found: Option<usize>)
        requires
            self.wf(),
        ensures
            FontSet::same(found, first_covering(self.faces@, c, 0)),
    {
        let mut i: usize = 0;
        while i < self.faces.len()
            invariant
                self.wf(),
                i <= self.faces@.len(),
                first_covering(self.faces@, c, 0) == first_covering(self.faces@, c, i as int),
            decreases self.faces.len() - i,
        {
            if self.faces[i].has(c) {
                return Some(i);
            }
            i = i + 1;
        }
        None
    }

    /// What is to be done to draw `c`.
    pub fn glyph(&mut self, c: char, bold: bool) -> (step: GlyphStep)
        requires
            old(self).wf(),
        ensures
            final(self).wf(),
            final(self).faces == old(self).faces,
            final(self).bold == old(self).bold,
            final(self).atlas == old(self).atlas,
            if c == ' ' || c == '\0' {
                &&& step == GlyphStep::Known(None)
                &&& final(self).cache@ == old(self).cache@
                &&& final(self).face_for@ == old(self).face_for@
            } else if old(self).cache@.contains_key(glyph_key(c, bold)) {
                &&& step == GlyphStep::Known(old(self).cache@[glyph_key(c, bold)])
                &&& final(self).cache@ == old(self).cache@
                &&& final(self).face_for@ == old(self).face_for@
            } else {
                match old(self).face_of(c, bold) {
                    None => {
                        &&& step == GlyphStep::Known(None)
                        &&& final(self).cache@ == old(self).cache@.insert(glyph_key(c, bold), None)
                        &&& final(self).face_for@ == old(self).remembered(c, bold, None)
                    },
                    Some(f) => {
                        &&& step matches GlyphStep::Rasterise { face, glyph }
                        &&& face == f
                        &&& old(self).faces@[f].glyph(c) == Some(glyph)
                        &&& glyph != 0
                        &&& final(self).cache@ == old(self).cache@
                        &&& final(self).face_for@ == old(self).remembered(c, bold, Some(face))
                    },
                }
            },
    {
        if c == ' ' || c == '\0' {
            return GlyphStep::Known(None);
        }
        let key: u64 = key_of(c, bold);
        if let Some(hit) = self.cache.get(&key) {
            return GlyphStep::Known(*hit);
        }
        let resolved = self.resolve_face(c, bold);
        proof {
            lemma_first_covers(self.faces@, c, 0);
        }
        if let Some(face) = resolved {
            if let Some(glyph) = self.faces[face].glyph_for(c) {
                return GlyphStep::Rasterise { face, glyph };
            }
        }
        self.cache.insert(key, None);
        GlyphStep::Known(None)
    }

    /// Puts a rasterised glyph into the atlas and remembers where. An empty
    /// bitmap, one that could not be made, and one that does not fit are
    /// remembered as nothing to draw.
    pub fn place(&mut self, c: char, bold: bool, bitmap: Option<Bitmap>) -> (slot: Option<Slot>)
        requires
            old(self).wf(),
            bitmap matches Some(b) ==> b.wf(),
        ensures
            final(self).wf(),
            final(self).faces == old(self).faces,
            final(self).bold == old(self).bold,
            final(self).face_for == old(self).face_for,
            final(self).cache@ == old(self).cache@.insert(glyph_key(c, bold), slot),
            match bitmap {
                Some(b) if b.width > 0 && b.height > 0 => {
                    let (w, h) = (b.width as int, b.height as int);
                    &&& final(self).atlas.shelves() == old(self).atlas.shelves().after(w, h)
                    &&& match old(self).atlas.shelves().spot(w, h) {
                        Some((x, y)) => {
                            &&& slot == Some(
                                Slot {
                                    x: x as u32,
                                    y: y as u32,
                                    w: b.width,
                                    h: b.height,
                                    left: b.left,
                                    top: b.top,
                                },
                            )
                            &&& crate::atlas::blitted(
                                old(self).atlas.data@,
                                final(self).atlas.data@,
                                old(self).atlas.size as int,
                                (x, y),
                                w,
                                h,
                                b.data@,
                            )
                            &&& final(self).atlas.dirty matches Some(rows)
                            &&& rows.0 == crate::atlas::grown(old(self).atlas.dirty, y, h).0
                            &&& rows.1 == crate::atlas::grown(old(self).atlas.dirty, y, h).1
                        },
                        None => {
                            &&& slot is None
                            &&& final(self).atlas.data@ == old(self).atlas.data@
                            &&& final(self).atlas.dirty == old(self).atlas.dirty
                        },
                    }
                },
                _ => slot is None && final(self).atlas == old(self).atlas,
            },
    {
        let mut slot: Option<Slot> = None;
        if let Some(b) = bitmap {
            if b.width != 0 && b.height != 0 {
                if let Some((x, y)) = self.atlas.insert(b.width, b.height, b.data.as_slice()) {
                    slot = Some(
                        Slot { x, y, w: b.width, h: b.height, left: b.left, top: b.top },
                    );
                }
            }
        }
        self.cache.insert(key_of(c, bold), slot);
        slot
    }
}

proof fn lemma_first_covers(faces: Seq<Face>, c: char, i: int)
    requires
        0 <= i,
    ensures
        first_covering(faces, c, i) matches Some(f) ==> i <= f < faces.len() && faces[f].covers(c)
            && forall|j: int| i <= j < f ==> !(#[trigger] faces[j]).covers(c),
        first_covering(faces, c, i) is None ==> forall|j: int|
            i <= j < faces.len() ==> !(#[trigger] faces[j]).covers(c),
    decreases faces.len() - i,
{
    if i < faces.len() {
        lemma_first_covers(faces, c, i + 1);
    }
}

/// Two characters, or the two weights of one, are never taken for each other.
pub proof fn law_keys_differ(c: char, bold: bool, d: char, heavy: bool)
    ensures
        glyph_key(c, bold) == glyph_key(d, heavy) <==> c == d && bold == heavy,
{
}

/// A face is only passed over where it lacks the character, and a character is
/// only left undrawn where every face lacks it.
pub proof fn law_first_face_that_covers(set: FontSet, c: char, bold: bool)
    requires
        set.wf(),
    ensures
        match set.face_of(c, bold) {
            Some(f) => {
                &&& 0 <= f < set.faces@.len()
                &&& set.faces@[f].covers(c)
                &&& !bold ==> forall|j: int| 0 <= j < f ==> !(#[trigger] set.faces@[j]).covers(c)
            },
            None => forall|j: int| 0 <= j < set.faces@.len() ==> !(#[trigger] set.faces@[j]).covers(
                c,
            ),
        },
{
    lemma_first_covers(set.faces@, c, 0);
}

/// Where bold is asked for, the bold face draws what it covers. Anything else is
/// drawn as if it were not.
pub proof fn law_bold_is_drawn_bold(set: FontSet, c: char)
    ensures
        set.bold matches Some(b) && set.faces@[b as int].covers(c) ==> set.face_of(c, true) == Some(
            set.bold->0 as int,
        ),
        set.bold is None || !set.faces@[set.bold->0 as int].covers(c) ==> set.face_of(c, true)
            == set.face_of(c, false),
{
}

/// The regular face is tried before all others, the bold one after it if there
/// is one, and the fallbacks last, in their order.
pub proof fn law_fallbacks_come_last(regular: Face, bold: Option<Face>, fallbacks: Seq<Face>)
    ensures
        ({
            let faces = FontSet::ordered(regular, bold, fallbacks);
            let own: int = if bold is Some { 2 } else { 1 };
            &&& faces.len() == own + fallbacks.len()
            &&& faces[0] == regular
            &&& bold matches Some(b) ==> faces[1] == b
            &&& forall|k: int|
                0 <= k < fallbacks.len() ==> faces[own + k] == #[trigger] fallbacks[k]
        }),
{
}

/// A face covers what it has a glyph for, and glyph zero is none.
pub proof fn law_what_a_face_covers(face: Face, c: char)
    requires
        face.reads(c),
    ensures
        face.covers(c) <==> face.glyph(c) is Some && face.glyph(c) != Some(0u16),
{
}

/// What was found for a character is remembered for it alone, and nothing that
/// was remembered is forgotten.
pub proof fn law_what_is_remembered(set: FontSet, c: char, face: Option<usize>, d: char)
    ensures
        ({
            let before = set.face_for@;
            let after = set.remembered(c, false, face);
            &&& after.contains_key(char_key(c))
            &&& !before.contains_key(char_key(c)) ==> after[char_key(c)] == face
            &&& before.contains_key(char_key(d)) ==> after.contains_key(char_key(d))
                && after[char_key(d)] == before[char_key(d)]
            &&& d != c ==> (after.contains_key(char_key(d)) <==> before.contains_key(char_key(d)))
        }),
{
    lemma_char_keys_differ(c, d);
}

} // verus!
