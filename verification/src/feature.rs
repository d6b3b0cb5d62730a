use vstd::prelude::*;
use crate::error::RenderError;

verus! {

/// Number of samples in the row that stands for a cell.
pub const ROW_SAMPLES: usize = 8;

/// The raw sample value that stands for full intensity, 1.0 on the normalised
/// scale. A level `n` stands for the real number `n / FULL_SCALE`.
pub const FULL_SCALE: u8 = 255;

/// One coordinate of a feature vector.
#[derive(Clone, Copy, Debug, PartialEq, Eq, Structural)]
pub enum Coord {
    /// The real number `n / 255`, which lies in the unit interval.
    Level(u8),
    /// A coordinate that is not a number.
    NotANumber,
}

impl Coord {
    /// The numerator of the coordinate over `FULL_SCALE`; zero where it is not a number.
    pub open spec fn level(self) -> int {
        match self {
            Coord::Level(n) => n as int,
            Coord::NotANumber => 0,
        }
    }
}

/// A point of the four-dimensional feature space.
#[derive(Clone, Copy, Debug, PartialEq, Eq)]
pub struct FeatureVector {
    pub coords: [Coord; 4],
}

impl View for FeatureVector {
    type V = Seq<Coord>;

    open spec fn view(&self) -> Seq<Coord> {
        self.coords@
    }
}

/// True when every coordinate of `point` is a number.
pub open spec fn is_defined(point: Seq<Coord>) -> bool {
    forall|k: int| 0 <= k < point.len() ==> (#[trigger] point[k]) is Level
}

/// The feature vector of a cell row: the samples at the even positions, in
/// their order, each as a level.
pub open spec fn decimated(row: Seq<u8>) -> Seq<Coord> {
    Seq::new(4, |k: int| Coord::Level(row[2 * k]))
}

/// Turns the eight samples of a cell row into a feature vector.
///
/// Each sample becomes the level of the same number, that is the sample
/// divided by 255, and the samples at the odd positions are dropped. A row of
/// any other length is refused.
pub fn extract_features(row: &[u8]) -> (r: Result<FeatureVector, RenderError>)
    ensures
        row@.len() == 8 ==> r is Ok && r->Ok_0@ == decimated(row@),
        row@.len() != 8 ==> r == Err::<FeatureVector, RenderError>(RenderError::InvalidInput),
{
    if row.len() != ROW_SAMPLES {
        return Err(RenderError::InvalidInput);
    }
    let features = FeatureVector {
        coords: [
            Coord::Level(row[0]),
            Coord::Level(row[2]),
            Coord::Level(row[4]),
            Coord::Level(row[6]),
        ],
    };
    assert(features@ =~= decimated(row@));
    Ok(features)
}

/// Dropping the samples at positions 7, 5, 3 and 1, one after the other,
/// leaves the samples that `decimated` keeps.
pub proof fn lemma_decimated_by_removal(row: Seq<u8>)
    requires
        row.len() == 8,
    ensures
        decimated(row) == row.remove(7).remove(5).remove(3).remove(1).map_values(
            |s: u8| Coord::Level(s),
        ),
        is_defined(decimated(row)),
{
    let kept = row.remove(7).remove(5).remove(3).remove(1);
    assert(kept =~= seq![row[0], row[2], row[4], row[6]]);
    assert(decimated(row) =~= kept.map_values(|s: u8| Coord::Level(s)));
}

} // verus!
