use vstd::prelude::*;
use crate::error::RenderError;
use crate::feature::{Coord, FeatureVector, is_defined};

verus! {

/// What a palette holds: the reference points, and the glyph bound to each.
pub struct PaletteView {
    pub entries: Seq<Seq<u8>>,
    pub glyphs: Seq<char>,
}

/// The square of an integer.
pub open spec fn square(d: int) -> int {
    d * d
}

/// The square of the Euclidean distance between a point and a reference
/// point, in units of `1 / 255` squared. The distance itself is the root of
/// this number, so one point is nearer than another exactly when its squared
/// distance is the smaller one.
pub open spec fn dist_sq(point: Seq<Coord>, entry: Seq<u8>) -> int {
    square(point[0].level() - entry[0]) + square(point[1].level() - entry[1]) + square(
        point[2].level() - entry[2],
    ) + square(point[3].level() - entry[3])
}

impl PaletteView {
    /// One glyph for each reference point, at least one reference point, and
    /// four coordinates in each.
    pub open spec fn wf(self) -> bool {
        &&& self.entries.len() > 0
        &&& self.entries.len() == self.glyphs.len()
        &&& forall|i: int| 0 <= i < self.entries.len() ==> (#[trigger] self.entries[i]).len() == 4
    }

    /// Entry `i` is as near to `point` as any entry, and nearer than every
    /// entry before it.
    pub open spec fn is_nearest(self, point: Seq<Coord>, i: int) -> bool {
        &&& 0 <= i < self.entries.len()
        &&& forall|j: int|
            0 <= j < self.entries.len() ==> dist_sq(point, self.entries[i]) <= dist_sq(
                point,
                #[trigger] self.entries[j],
            )
        &&& forall|j: int|
            0 <= j < i ==> dist_sq(point, self.entries[i]) < dist_sq(
                point,
                #[trigger] self.entries[j],
            )
    }

    /// The index of the entry nearest to `point`, the first of them where
    /// several are equally near.
    pub open spec fn nearest(self, point: Seq<Coord>) -> int {
        choose|i: int| self.is_nearest(point, i)
    }

    /// The glyph of the entry nearest to `point`.
    pub open spec fn glyph_for(self, point: Seq<Coord>) -> char {
        self.glyphs[self.nearest(point)]
    }
}

/// The eight reference points, from full intensity over the whole row down to
/// none and up again, and the eight glyphs, the phases of the moon.
pub open spec fn reference_view() -> PaletteView {
    PaletteView {
        entries: seq![
            seq![255u8, 255u8, 255u8, 255u8],
            seq![255u8, 255u8, 255u8, 0u8],
            seq![255u8, 255u8, 0u8, 0u8],
            seq![255u8, 0u8, 0u8, 0u8],
            seq![0u8, 0u8, 0u8, 0u8],
            seq![0u8, 0u8, 0u8, 255u8],
            seq![0u8, 0u8, 255u8, 255u8],
            seq![0u8, 255u8, 255u8, 255u8],
        ],
        glyphs: seq![
            '\u{1F315}',
            '\u{1F316}',
            '\u{1F317}',
            '\u{1F318}',
            '\u{1F311}',
            '\u{1F312}',
            '\u{1F313}',
            '\u{1F314}',
        ],
    }
}

/// At most one entry is the nearest one.
pub proof fn lemma_nearest_unique(palette: PaletteView, point: Seq<Coord>, i: int, j: int)
    requires
        palette.is_nearest(point, i),
        palette.is_nearest(point, j),
    ensures
        i == j,
{
    if i < j {
        assert(dist_sq(point, palette.entries[j]) < dist_sq(point, palette.entries[i]));
        assert(dist_sq(point, palette.entries[i]) <= dist_sq(point, palette.entries[j]));
    } else if j < i {
        assert(dist_sq(point, palette.entries[i]) < dist_sq(point, palette.entries[j]));
        assert(dist_sq(point, palette.entries[j]) <= dist_sq(point, palette.entries[i]));
    }
}

/// The first of the nearest entries among the first `n`.
spec fn first_nearest(palette: PaletteView, point: Seq<Coord>, n: int) -> int
    decreases n,
{
    if n <= 1 {
        0
    } else {
        let before = first_nearest(palette, point, n - 1);
        if dist_sq(point, palette.entries[n - 1]) < dist_sq(point, palette.entries[before]) {
            n - 1
        } else {
            before
        }
    }
}

proof fn lemma_first_nearest(palette: PaletteView, point: Seq<Coord>, n: int)
    requires
        1 <= n <= palette.entries.len(),
    ensures
        0 <= first_nearest(palette, point, n) < n,
        forall|j: int|
            0 <= j < n ==> dist_sq(point, palette.entries[first_nearest(palette, point, n)])
                <= dist_sq(point, #[trigger] palette.entries[j]),
        forall|j: int|
            0 <= j < first_nearest(palette, point, n) ==> dist_sq(
                point,
                palette.entries[first_nearest(palette, point, n)],
            ) < dist_sq(point, #[trigger] palette.entries[j]),
    decreases n,
{
    if n > 1 {
        lemma_first_nearest(palette, point, n - 1);
    }
}

/// Every point has a nearest entry in a palette that is not empty: the
/// matcher's answer is an index of the palette, whatever the point.
pub proof fn lemma_nearest_exists(palette: PaletteView, point: Seq<Coord>)
    requires
        palette.entries.len() > 0,
    ensures
        0 <= palette.nearest(point) < palette.entries.len(),
        palette.is_nearest(point, palette.nearest(point)),
{
    let n = palette.entries.len() as int;
    lemma_first_nearest(palette, point, n);
    let found = first_nearest(palette, point, n);
    assert(palette.is_nearest(point, found));
    lemma_nearest_unique(palette, point, found, palette.nearest(point));
}

/// In the palette of eight the matcher's answer lies between 0 and 7.
pub proof fn lemma_reference_nearest_in_range(point: Seq<Coord>)
    ensures
        0 <= reference_view().nearest(point) <= 7,
{
    lemma_nearest_exists(reference_view(), point);
}

/// Of two entries at the same distance from a point, the later one is never
/// the matcher's answer.
pub proof fn lemma_tie_goes_to_lower(palette: PaletteView, point: Seq<Coord>, i: int, j: int)
    requires
        0 <= i < j < palette.entries.len(),
        dist_sq(point, palette.entries[i]) == dist_sq(point, palette.entries[j]),
    ensures
        palette.nearest(point) != j,
{
    lemma_nearest_exists(palette, point);
    if palette.nearest(point) == j {
        assert(dist_sq(point, palette.entries[j]) < dist_sq(point, palette.entries[i]));
    }
}

/// An entry that is as near as any other, with no entry before it at the same
/// distance, is the matcher's answer.
pub proof fn lemma_first_of_the_nearest(palette: PaletteView, point: Seq<Coord>, i: int)
    requires
        0 <= i < palette.entries.len(),
        forall|j: int|
            0 <= j < palette.entries.len() ==> dist_sq(point, palette.entries[i]) <= dist_sq(
                point,
                #[trigger] palette.entries[j],
            ),
        forall|j: int|
            0 <= j < i ==> dist_sq(point, palette.entries[i]) != dist_sq(
                point,
                #[trigger] palette.entries[j],
            ),
    ensures
        palette.nearest(point) == i,
{
    assert(palette.is_nearest(point, i));
    lemma_nearest_unique(palette, point, i, palette.nearest(point));
}

/// The glyph chosen for a point is one of the palette's glyphs: the one bound
/// to the entry that the matcher answers with.
pub proof fn lemma_glyph_from_palette(palette: PaletteView, point: Seq<Coord>)
    requires
        palette.wf(),
    ensures
        palette.glyphs.contains(palette.glyph_for(point)),
        palette.glyph_for(point) == palette.glyphs[palette.nearest(point)],
        0 <= palette.nearest(point) < palette.glyphs.len(),
{
    lemma_nearest_exists(palette, point);
}

/// The squared difference between a coordinate and a level of a reference
/// point; none where the coordinate is not a number.
fn term_sq(coord: Coord, reference: u8) -> (t: Option<u32>)
    ensures
        coord is Level ==> t is Some && t->Some_0 == square(coord.level() - reference),
        coord is NotANumber ==> t is None,
        t is Some ==> t->Some_0 <= 65025,
{
    match coord {
        Coord::Level(n) => {
            let d: u32 = if n >= reference {
                (n - reference) as u32
            } else {
                (reference - n) as u32
            };
            assert(d * d == square(n - reference) && d * d <= 65025) by (nonlinear_arith)
                requires
                    d == n - reference || d == reference - n,
                    0 <= d <= 255,
            ;
            Some(d * d)
        },
        Coord::NotANumber => None,
    }
}

/// The squared distance between `point` and `entry`, in units of `1 / 255`
/// squared; the distance is its root. A point with a coordinate that is not a
/// number has no distance.
pub fn pythag_distance_sq(point: &FeatureVector, entry: &[u8; 4]) -> (r: Result<u32, RenderError>)
    ensures
        is_defined(point@) ==> r is Ok && r->Ok_0 == dist_sq(point@, entry@),
        !is_defined(point@) ==> r == Err::<u32, RenderError>(RenderError::DegenerateInput),
{
    let t0 = term_sq(point.coords[0], entry[0]);
    let t1 = term_sq(point.coords[1], entry[1]);
    let t2 = term_sq(point.coords[2], entry[2]);
    let t3 = term_sq(point.coords[3], entry[3]);
    match (t0, t1, t2, t3) {
        (Some(a), Some(b), Some(c), Some(d)) => {
            assert(is_defined(point@));
            Ok(a + b + c + d)
        },
        _ => {
            assert(!is_defined(point@)) by {
                if is_defined(point@) {
                    assert(point@[0] is Level);
                    assert(point@[1] is Level);
                    assert(point@[2] is Level);
                    assert(point@[3] is Level);
                }
            }
            Err(RenderError::DegenerateInput)
        },
    }
}

/// An ordered set of reference points in feature space, each bound to one glyph.
#[derive(Debug)]
pub struct Palette {
    entries: Vec<[u8; 4]>,
    glyphs: Vec<char>,
}

impl View for Palette {
    type V = PaletteView;

    closed spec fn view(&self) -> PaletteView {
        PaletteView {
            entries: self.entries@.map_values(|e: [u8; 4]| e@),
            glyphs: self.glyphs@,
        }
    }
}

impl Palette {
    #[verifier::type_invariant]
    spec fn inv(self) -> bool {
        self.entries@.len() > 0 && self.entries@.len() == self.glyphs@.len()
    }

    /// Binds each reference point to the glyph at the same position. There
    /// must be at least one reference point, and as many glyphs as points.
    pub fn new(entries: Vec<[u8; 4]>, glyphs: Vec<char>) -> (r: Result<Palette, RenderError>)
        ensures
            entries@.len() > 0 && entries@.len() == glyphs@.len() ==> r is Ok && r->Ok_0@ == (
            PaletteView { entries: entries@.map_values(|e: [u8; 4]| e@), glyphs: glyphs@ })
                && r->Ok_0@.wf(),
            entries@.len() == 0 || entries@.len() != glyphs@.len() ==> r == Err::<
                Palette,
                RenderError,
            >(RenderError::InvalidInput),
    {
        if entries.len() == 0 || entries.len() != glyphs.len() {
            return Err(RenderError::InvalidInput);
        }
        Ok(Palette { entries, glyphs })
    }

    /// The palette of eight moon phases.
    pub fn reference() -> (palette: Palette)
        ensures
            palette@ == reference_view(),
            palette@.wf(),
    {
        let entries: Vec<[u8; 4]> = vec![
            [255, 255, 255, 255],
            [255, 255, 255, 0],
            [255, 255, 0, 0],
            [255, 0, 0, 0],
            [0, 0, 0, 0],
            [0, 0, 0, 255],
            [0, 0, 255, 255],
            [0, 255, 255, 255],
        ];
        let glyphs: Vec<char> = vec![
            '\u{1F315}',
            '\u{1F316}',
            '\u{1F317}',
            '\u{1F318}',
            '\u{1F311}',
            '\u{1F312}',
            '\u{1F313}',
            '\u{1F314}',
        ];
        let palette = Palette { entries, glyphs };
        proof {
            let have = palette@.entries;
            let want = reference_view().entries;
            assert(have.len() == want.len());
            assert forall|i: int| 0 <= i < have.len() implies have[i] == want[i] by {
                assert(have[i] =~= want[i]);
            }
            assert(have =~= want);
            assert(palette@.glyphs =~= reference_view().glyphs);
        }
        palette
    }

    /// The number of entries.
    pub fn len(&self) -> (n: usize)
        ensures
            n == self@.entries.len(),
            self@.wf(),
    {
        proof {
            use_type_invariant(self);
        }
        self.entries.len()
    }

    /// The reference point and the glyph at `index`, if there is such an entry.
    pub fn entry(&self, index: usize) -> (r: Option<([u8; 4], char)>)
        ensures
            self@.wf(),
            index < self@.entries.len() ==> r is Some && r->Some_0.0@ == self@.entries[index as int]
                && r->Some_0.1 == self@.glyphs[index as int],
            index >= self@.entries.len() ==> r is None,
    {
        proof {
            use_type_invariant(self);
        }
        if index < self.entries.len() {
            Some((self.entries[index], self.glyphs[index]))
        } else {
            None
        }
    }

    /// Finds the entry nearest to `point` by Euclidean distance; of several
    /// that are equally near, the first. A point with a coordinate that is not
    /// a number has no nearest entry.
    pub fn nearest(&self, point: &FeatureVector) -> (r: Result<usize, RenderError>)
        ensures
            self@.wf(),
            is_defined(point@) ==> r is Ok && self@.is_nearest(point@, r->Ok_0 as int) && r->Ok_0
                == self@.nearest(point@),
            !is_defined(point@) ==> r == Err::<usize, RenderError>(RenderError::DegenerateInput),
    {
        proof {
            use_type_invariant(self);
        }
        let mut best: usize = 0;
        let mut best_dist: u32 = match pythag_distance_sq(point, &self.entries[0]) {
            Ok(d) => d,
            Err(e) => {
                return Err(e);
            },
        };
        let mut i: usize = 1;
        while i < self.entries.len()
            invariant
                1 <= i <= self.entries@.len(),
                self@.entries.len() == self.entries@.len(),
                is_defined(point@),
                best < i,
                best_dist == dist_sq(point@, self@.entries[best as int]),
                forall|j: int|
                    0 <= j < i ==> best_dist <= dist_sq(point@, #[trigger] self@.entries[j]),
                forall|j: int|
                    0 <= j < best ==> best_dist < dist_sq(point@, #[trigger] self@.entries[j]),
            decreases self.entries@.len() - i,
        {
            match pythag_distance_sq(point, &self.entries[i]) {
                Ok(d) => {
                    if d < best_dist {
                        best = i;
                        best_dist = d;
                    }
                },
                Err(e) => {
                    return Err(e);
                },
            }
            i = i + 1;
        }
        proof {
            assert(self@.is_nearest(point@, best as int));
            let chosen = self@.nearest(point@);
            assert(self@.is_nearest(point@, chosen));
            lemma_nearest_unique(self@, point@, best as int, chosen);
        }
        Ok(best)
    }

    /// The glyph bound to the entry nearest to `point`.
    pub fn val_to_char(&self, point: &FeatureVector) -> (r: Result<char, RenderError>)
        ensures
            self@.wf(),
            is_defined(point@) ==> r == Ok::<char, RenderError>(self@.glyph_for(point@)),
            !is_defined(point@) ==> r == Err::<char, RenderError>(RenderError::DegenerateInput),
    {
        proof {
            use_type_invariant(self);
        }
        match self.nearest(point) {
            Ok(index) => Ok(self.glyphs[index]),
            Err(e) => Err(e),
        }
    }
}

} // verus!
