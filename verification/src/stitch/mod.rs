//! Stitches of the mesh pipeline: kinds, the stitch record and the grid of
//! stitches partitioned into rows.

pub mod connectivity;
pub mod grid_generator;
pub mod placement_optimizer;
pub mod type_classifier;

use vstd::prelude::*;

verus! {

/// Stitch kinds of the mesh pipeline.
#[derive(Debug, Clone, Copy, PartialEq, Eq, Structural)]
pub enum StitchType {
    SingleCrochet,
    HalfDoubleCrochet,
    DoubleCrochet,
    Increase,
    Decrease,
    ChainStitch,
}

impl StitchType {
    /// The standard abbreviation of the kind as a sequence of characters.
    pub open spec fn abbreviation_text(self) -> Seq<char> {
        match self {
            StitchType::SingleCrochet => "sc"@,
            StitchType::HalfDoubleCrochet => "hdc"@,
            StitchType::DoubleCrochet => "dc"@,
            StitchType::Increase => "inc"@,
            StitchType::Decrease => "dec"@,
            StitchType::ChainStitch => "ch"@,
        }
    }

    /// The standard abbreviation of the kind.
    pub fn abbreviation(&self) -> (r: &'static str)
        ensures
            r@ == self.abbreviation_text(),
    {
        match self {
            StitchType::SingleCrochet => "sc",
            StitchType::HalfDoubleCrochet => "hdc",
            StitchType::DoubleCrochet => "dc",
            StitchType::Increase => "inc",
            StitchType::Decrease => "dec",
            StitchType::ChainStitch => "ch",
        }
    }
}

/// A single stitch of the grid. Its positions on the surface and in
/// parameter space are kept by the caller, indexed by `id`.
#[derive(Debug, Clone)]
pub struct Stitch {
    pub id: u32,
    pub stitch_type: StitchType,
    pub row: u32,
    pub connections: Vec<u32>,
}

/// Grid of stitches covering the surface, with the stitch ids of each row.
#[derive(Debug, Clone)]
pub struct StitchGrid {
    pub stitches: Vec<Stitch>,
    pub rows: Vec<Vec<u32>>,
}

/// Number of stitches in the rows before row `r`.
pub open spec fn row_start(rows: Seq<Vec<u32>>, r: int) -> int
    decreases r,
{
    if r <= 0 {
        0
    } else {
        row_start(rows, r - 1) + rows[r - 1].len()
    }
}

impl StitchGrid {
    /// Every id stored in a row names a stitch of the grid.
    pub open spec fn ids_in_range(&self) -> bool {
        forall|r: int, c: int|
            0 <= r < self.rows.len() && 0 <= c < self.rows[r].len() ==> (
            #[trigger] self.rows[r][c]) < self.stitches.len()
    }

    /// The rows partition the stitches: stitch ids run through the rows in
    /// order, so that every stitch belongs to exactly one place of one row,
    /// and every stitch records its own id and row.
    pub open spec fn laid_out_in_rows(&self) -> bool {
        &&& row_start(self.rows@, self.rows.len() as int) == self.stitches.len()
        &&& self.stitches.len() <= u32::MAX
        &&& self.rows.len() <= u32::MAX
        &&& forall|r: int, c: int|
            0 <= r < self.rows.len() && 0 <= c < self.rows[r].len() ==> (
            #[trigger] self.rows[r][c]) == row_start(self.rows@, r) + c
        &&& forall|r: int, c: int|
            0 <= r < self.rows.len() && 0 <= c < self.rows[r].len() ==> self.stitches[(
            #[trigger] self.rows[r][c]) as int].row == r
        &&& forall|id: int| 0 <= id < self.stitches.len() ==> (#[trigger] self.stitches[id]).id == id
    }
}

/// Row starts never decrease, and a place inside a row lies below the start
/// of every later row.
pub proof fn lemma_row_start_grows(rows: Seq<Vec<u32>>, r: int, s: int)
    requires
        0 <= r <= s <= rows.len(),
    ensures
        row_start(rows, r) <= row_start(rows, s),
        r < s ==> row_start(rows, r) + rows[r].len() <= row_start(rows, s),
        0 <= row_start(rows, r),
    decreases s - r, r,
{
    if r < s {
        lemma_row_start_grows(rows, r, s - 1);
    }
    if r > 0 {
        lemma_row_start_grows(rows, r - 1, r - 1);
    }
}

proof fn lemma_row_holds(rows: Seq<Vec<u32>>, id: int, upto: int)
    requires
        0 <= upto <= rows.len(),
        0 <= id < row_start(rows, upto),
    ensures
        exists|r: int|
            0 <= r < upto && #[trigger] row_start(rows, r) <= id < row_start(rows, r) + rows[r].len(),
    decreases upto,
{
    if upto > 0 {
        if id < row_start(rows, upto - 1) {
            lemma_row_holds(rows, id, upto - 1);
        } else {
            assert(row_start(rows, upto - 1) <= id < row_start(rows, upto - 1) + rows[upto
                - 1].len());
        }
    }
}

/// In a grid that is laid out in rows, the rows cover the stitches exactly
/// once: every stitch has a place in some row, and no other place holds it.
pub proof fn every_stitch_has_one_place(grid: StitchGrid, id: int)
    requires
        grid.laid_out_in_rows(),
        0 <= id < grid.stitches.len(),
    ensures
        exists|r: int, c: int|
            0 <= r < grid.rows.len() && 0 <= c < grid.rows[r].len() && #[trigger] grid.rows[r][c]
                == id,
        forall|r: int, c: int, s: int, d: int|
            0 <= r < grid.rows.len() && 0 <= c < grid.rows[r].len() && 0 <= s < grid.rows.len() && 0
                <= d < grid.rows[s].len() && #[trigger] grid.rows[r][c] == id
                && #[trigger] grid.rows[s][d] == id ==> r == s && c == d,
{
    lemma_row_holds(grid.rows@, id, grid.rows.len() as int);
    let r = choose|r: int|
        0 <= r < grid.rows.len() && #[trigger] row_start(grid.rows@, r) <= id < row_start(
            grid.rows@,
            r,
        ) + grid.rows[r].len();
    let c = id - row_start(grid.rows@, r);
    assert(grid.rows[r][c] == id);
    assert forall|r: int, c: int, s: int, d: int|
        0 <= r < grid.rows.len() && 0 <= c < grid.rows[r].len() && 0 <= s < grid.rows.len() && 0
            <= d < grid.rows[s].len() && #[trigger] grid.rows[r][c] == id
            && #[trigger] grid.rows[s][d] == id implies r == s && c == d by {
        if r < s {
            lemma_row_start_grows(grid.rows@, r, s);
        } else if s < r {
            lemma_row_start_grows(grid.rows@, s, r);
        }
    }
}

} // verus!
