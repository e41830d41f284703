//! Connections between neighbouring stitches of the grid.

use vstd::prelude::*;
use crate::stitch::StitchGrid;

verus! {

pub struct StitchConnectivity {
    _private: (),
}

/// Place in the row after row `r` that lies above place `c` of row `r`.
pub open spec fn place_above(rows: Seq<Vec<u32>>, r: int, c: int) -> int {
    (c * rows[r + 1].len()) / (rows[r].len() as int)
}

/// The connections that the stitch at place `c` of row `r` gains: the next
/// stitch of its row, if there is one, then the stitch above it in the next
/// row, if there is one.
pub open spec fn links(rows: Seq<Vec<u32>>, r: int, c: int) -> Seq<u32> {
    let along = if c + 1 < rows[r].len() {
        seq![rows[r][c + 1]]
    } else {
        Seq::empty()
    };
    let up = if r + 1 < rows.len() && place_above(rows, r, c) < rows[r + 1].len() {
        seq![rows[r + 1][place_above(rows, r, c)]]
    } else {
        Seq::empty()
    };
    along + up
}

/// The connections that stitch `id` gains from the places before place `c`
/// of row `r`, rows taken in order and each row from its first place on: the
/// links of every such place that holds the stitch.
pub open spec fn gathered(rows: Seq<Vec<u32>>, id: int, r: int, c: int) -> Seq<u32>
    decreases r, c,
{
    if r < 0 || c < 0 {
        Seq::empty()
    } else if c > 0 {
        gathered(rows, id, r, c - 1) + if rows[r][c - 1] == id {
            links(rows, r, c - 1)
        } else {
            Seq::empty()
        }
    } else if r > 0 {
        gathered(rows, id, r - 1, rows[r - 1].len() as int)
    } else {
        Seq::empty()
    }
}

/// State of the grid when the places before place `c` of row `r` have been
/// connected: every stitch has gained what it gathers from those places, and
/// nothing else differs from `base`.
pub open spec fn connected_upto(base: StitchGrid, now: StitchGrid, r: int, c: int) -> bool {
    &&& now.rows@ == base.rows@
    &&& now.stitches.len() == base.stitches.len()
    &&& forall|id: int|
        0 <= id < base.stitches.len() ==> {
            &&& (#[trigger] now.stitches[id]).stitch_type == base.stitches[id].stitch_type
            &&& now.stitches[id].id == base.stitches[id].id
            &&& now.stitches[id].row == base.stitches[id].row
            &&& now.stitches[id].connections@ == base.stitches[id].connections@ + gathered(
                base.rows@,
                id,
                r,
                c,
            )
        }
}

/// `after` is `before` with every stitch connected: each stitch has gained
/// the links of every place that holds it; nothing else differs.
pub open spec fn connected_from(before: StitchGrid, after: StitchGrid) -> bool {
    connected_upto(before, after, before.rows.len() as int, 0)
}

/// The stitch at place `c` of row `r` has gained the links of that place and
/// is otherwise as it was.
pub open spec fn one_connected(before: StitchGrid, after: StitchGrid, r: int, c: int) -> bool {
    let id = before.rows[r][c] as int;
    &&& after.stitches[id].connections@ == before.stitches[id].connections@ + links(
        before.rows@,
        r,
        c,
    )
    &&& after.stitches[id].stitch_type == before.stitches[id].stitch_type
    &&& after.stitches[id].id == before.stitches[id].id
    &&& after.stitches[id].row == before.stitches[id].row
}

proof fn lemma_gathered_before(rows: Seq<Vec<u32>>, id: int, place: (int, int), r: int, c: int)
    requires
        0 <= place.0 < rows.len(),
        0 <= place.1 < rows[place.0].len(),
        rows[place.0][place.1] == id,
        forall|s: int, d: int|
            0 <= s < rows.len() && 0 <= d < rows[s].len() && (s != place.0 || d != place.1)
                ==> #[trigger] rows[s][d] != id,
        0 <= r <= rows.len(),
        0 <= c,
        r < rows.len() ==> c <= rows[r].len(),
        r == rows.len() ==> c == 0,
    ensures
        gathered(rows, id, r, c) == if r > place.0 || (r == place.0 && c > place.1) {
            links(rows, place.0, place.1)
        } else {
            Seq::<u32>::empty()
        },
    decreases r, c,
{
    if c > 0 {
        lemma_gathered_before(rows, id, place, r, c - 1);
        let here = if rows[r][c - 1] == id {
            links(rows, r, c - 1)
        } else {
            Seq::empty()
        };
        assert(gathered(rows, id, r, c) == gathered(rows, id, r, c - 1) + here);
        if r == place.0 && c - 1 == place.1 {
            assert(Seq::<u32>::empty() + links(rows, r, c - 1) =~= links(rows, r, c - 1));
        } else {
            assert(rows[r][c - 1] != id);
            assert(gathered(rows, id, r, c - 1) + Seq::<u32>::empty() =~= gathered(
                rows,
                id,
                r,
                c - 1,
            ));
        }
    } else if r > 0 {
        lemma_gathered_before(rows, id, place, r - 1, rows[r - 1].len() as int);
    }
}

/// A stitch that lies at one place only gains exactly the links of that
/// place.
pub proof fn single_place_gathers_its_links(rows: Seq<Vec<u32>>, r: int, c: int)
    requires
        0 <= r < rows.len(),
        0 <= c < rows[r].len(),
        forall|s: int, d: int|
            0 <= s < rows.len() && 0 <= d < rows[s].len() && (s != r || d != c)
                ==> #[trigger] rows[s][d] != rows[r][c],
    ensures
        gathered(rows, rows[r][c] as int, rows.len() as int, 0) == links(rows, r, c),
{
    lemma_gathered_before(rows, rows[r][c] as int, (r, c), rows.len() as int, 0);
}

proof fn lemma_connection_step(base: StitchGrid, before: StitchGrid, after: StitchGrid, r: int, c: int)
    requires
        base.ids_in_range(),
        0 <= r < base.rows.len(),
        0 <= c < base.rows[r].len(),
        connected_upto(base, before, r, c),
        after.rows@ == before.rows@,
        after.stitches.len() == before.stitches.len(),
        forall|id: int|
            0 <= id < before.stitches.len() && id != before.rows[r][c] ==> #[trigger] after.stitches[id]
                == before.stitches[id],
        one_connected(before, after, r, c),
    ensures
        connected_upto(base, after, r, c + 1),
{
    let here = base.rows[r][c] as int;
    assert(base.rows[r][c] < base.stitches.len());
    assert forall|id: int| 0 <= id < base.stitches.len() implies {
        &&& (#[trigger] after.stitches[id]).stitch_type == base.stitches[id].stitch_type
        &&& after.stitches[id].id == base.stitches[id].id
        &&& after.stitches[id].row == base.stitches[id].row
        &&& after.stitches[id].connections@ == base.stitches[id].connections@ + gathered(
            base.rows@,
            id,
            r,
            c + 1,
        )
    } by {
        let so_far = gathered(base.rows@, id, r, c);
        assert(before.stitches[id].connections@ == base.stitches[id].connections@ + so_far);
        if id == here {
            assert(gathered(base.rows@, id, r, c + 1) == so_far + links(base.rows@, r, c));
            assert(base.stitches[id].connections@ + so_far + links(base.rows@, r, c)
                =~= base.stitches[id].connections@ + (so_far + links(base.rows@, r, c)));
        } else {
            assert(after.stitches[id] == before.stitches[id]);
            assert(gathered(base.rows@, id, r, c + 1) == so_far + Seq::<u32>::empty());
            assert(so_far + Seq::<u32>::empty() =~= so_far);
        }
    }
}

impl StitchConnectivity {
    pub fn new() -> Self {
        Self { _private: () }
    }

    /// Connects every stitch to the next stitch of its row and to the stitch
    /// above it in the next row.
    #[verifier::rlimit(40)]
    pub fn build_connections(&self, grid: &mut StitchGrid)
        requires
            old(grid).ids_in_range(),
        ensures
            connected_from(*old(grid), *final(grid)),
    {
        let ghost base = *grid;
        let row_count = grid.rows.len();
        let mut r: usize = 0;
        proof {
            assert forall|id: int| 0 <= id < base.stitches.len() implies 
            #[trigger] grid.stitches[id].connections@ == base.stitches[id].connections@ + gathered(
                base.rows@,
                id,
                0,
                0,
            ) by {
                assert(base.stitches[id].connections@ + Seq::<u32>::empty()
                    =~= base.stitches[id].connections@);
            }
        }
        while r < row_count
            invariant
                r <= row_count,
                row_count == base.rows.len(),
                base.ids_in_range(),
                connected_upto(base, *grid, r as int, 0),
            decreases row_count - r,
        {
            let len = grid.rows[r].len();
            let mut c: usize = 0;
            while c < len
                invariant
                    c <= len,
                    r < row_count,
                    row_count == base.rows.len(),
                    len == base.rows[r as int].len(),
                    base.ids_in_range(),
                    connected_upto(base, *grid, r as int, c as int),
                decreases len - c,
            {
                let ghost before = *grid;
                connect_one(grid, r, c);
                proof {
                    lemma_connection_step(base, before, *grid, r as int, c as int);
                }
                c += 1;
            }
            r += 1;
        }
    }
}

/// Connects the stitch at place `c` of row `r`.
fn connect_one(grid: &mut StitchGrid, r: usize, c: usize)
    requires
        old(grid).ids_in_range(),
        r < old(grid).rows.len(),
        c < old(grid).rows[r as int].len(),
    ensures
        final(grid).rows@ == old(grid).rows@,
        final(grid).stitches.len() == old(grid).stitches.len(),
        forall|id: int|
            0 <= id < old(grid).stitches.len() && id != old(grid).rows[r as int][c as int]
                ==> #[trigger] final(grid).stitches[id] == old(grid).stitches[id],
        one_connected(*old(grid), *final(grid), r as int, c as int),
{
    let ghost start = *grid;
    let len = grid.rows[r].len();
    let id = grid.rows[r][c] as usize;
    if c + 1 < len {
        let along = grid.rows[r][c + 1];
        grid.stitches[id].connections.push(along);
    }
    if r + 1 < grid.rows.len() {
        let next_len = grid.rows[r + 1].len();
        assert((c as int) * (next_len as int) <= 0xFFFF_FFFF_FFFF_FFFF * 0xFFFF_FFFF_FFFF_FFFF)
            by (nonlinear_arith)
            requires
                0 <= c <= 0xFFFF_FFFF_FFFF_FFFF,
                0 <= next_len <= 0xFFFF_FFFF_FFFF_FFFF,
        ;
        assert((c as int) * (next_len as int) >= 0) by (nonlinear_arith)
            requires
                0 <= c,
                0 <= next_len,
        ;
        let target = ((c as u128) * (next_len as u128)) / (len as u128);
        if target < next_len as u128 {
            let up = grid.rows[r + 1][target as usize];
            grid.stitches[id].connections.push(up);
        }
    }
    proof {
        assert(grid.stitches[id as int].connections@ =~= start.stitches[id as int].connections@
            + links(start.rows@, r as int, c as int));
    }
}

} // verus!
