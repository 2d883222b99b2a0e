//! The randomized lattice of linked cells.
//!
//! The lattice spans the canvas interior: one grid line per step of
//! spacing, skipping the first and last positions. Linking happens in two
//! passes. A random pass decides, for every cell, whether it links right
//! and whether it links down — never across the last column or row. A
//! mirroring pass then derives each cell's up link from its north
//! neighbor's down link, and its left link from its west neighbor's right
//! link, which enforces the symmetry invariant without redundant
//! randomness.

use vstd::prelude::*;
use crate::rng::RandomSource;

verus! {

/// The open connections of one cell to its four neighbors.
#[derive(Clone, Copy, Debug, PartialEq, Eq, Structural)]
pub struct LinkSet {
    pub up: bool,
    pub left: bool,
    pub right: bool,
    pub down: bool,
}

/// A lattice of linked cells, row-major.
pub struct Grid {
    pub rows: usize,
    pub cols: usize,
    pub cells: Vec<LinkSet>,
}

/// The lattice holds exactly `rows` by `cols` cells, within the sizes the
/// index arithmetic accepts.
pub open spec fn grid_wf(g: Grid) -> bool {
    &&& 1 <= g.rows <= 4096
    &&& 1 <= g.cols <= 4096
    &&& g.cells.len() == g.rows * g.cols
}

/// Whether `(r, c)` is a cell of the lattice.
pub open spec fn in_grid(g: Grid, r: int, c: int) -> bool {
    0 <= r < g.rows && 0 <= c < g.cols
}

/// The links of cell `(r, c)`.
pub open spec fn lk(g: Grid, r: int, c: int) -> LinkSet {
    g.cells@[r * g.cols + c]
}

/// Every up link mirrors the north neighbor's down link, every left link
/// the west neighbor's right link, and no link leaves the lattice.
pub open spec fn links_mirrored(g: Grid) -> bool {
    forall|r: int, c: int|
        in_grid(g, r, c) ==> {
            let cell = #[trigger] lk(g, r, c);
            &&& cell.up == (r > 0 && lk(g, r - 1, c).down)
            &&& cell.left == (c > 0 && lk(g, r, c - 1).right)
            &&& (r == g.rows - 1 ==> !cell.down)
            &&& (c == g.cols - 1 ==> !cell.right)
        }
}

/// The symmetry invariant: a cell links right exactly when its east
/// neighbor links left, and links down exactly when its south neighbor
/// links up — for every interior pair, whatever the random pass drew.
pub proof fn lemma_link_symmetry(g: Grid, r: int, c: int)
    requires
        links_mirrored(g),
        in_grid(g, r, c),
    ensures
        c + 1 < g.cols ==> lk(g, r, c).right == lk(g, r, c + 1).left,
        r + 1 < g.rows ==> lk(g, r, c).down == lk(g, r + 1, c).up,
{
    if c + 1 < g.cols {
        assert(in_grid(g, r, c + 1));
        assert(lk(g, r, c + 1).left == (c + 1 > 0 && lk(g, r, c + 1 - 1).right));
    }
    if r + 1 < g.rows {
        assert(in_grid(g, r + 1, c));
        assert(lk(g, r + 1, c).up == (r + 1 > 0 && lk(g, r + 1 - 1, c).down));
    }
}

/// A flat row-major index stays inside the lattice.
pub proof fn lemma_flat_index(r: int, c: int, rows: int, cols: int)
    requires
        0 <= r < rows,
        0 <= c < cols,
    ensures
        0 <= r * cols + c < rows * cols,
{
    assert(r * cols + c <= (rows - 1) * cols + c && (rows - 1) * cols + c < rows * cols
        && 0 <= r * cols) by (nonlinear_arith)
        requires
            0 <= r < rows,
            0 <= c < cols,
    ;
}

/// Flat row-major indexing is one-to-one on lattice cells.
pub proof fn lemma_flat_index_injective(r1: int, c1: int, r2: int, c2: int, cols: int)
    requires
        0 <= c1 < cols,
        0 <= c2 < cols,
        0 <= r1,
        0 <= r2,
        r1 * cols + c1 == r2 * cols + c2,
    ensures
        r1 == r2 && c1 == c2,
{
    assert(r1 == r2 && c1 == c2) by (nonlinear_arith)
        requires
            0 <= c1 < cols,
            0 <= c2 < cols,
            0 <= r1,
            0 <= r2,
            r1 * cols + c1 == r2 * cols + c2,
    ;
}

/// How many interior grid lines one canvas dimension of `size` pixels
/// offers at `step` spacing: one per step, first and last skipped.
pub open spec fn spec_line_count(size: int, step: int) -> int {
    (size - step - 1) / step
}

/// The lattice dimensions for a canvas: rows from the height, columns
/// from the width. Bounds of at most twice the step are rejected by the
/// precondition, so both counts are at least one.
pub fn grid_dims(width: u32, height: u32, step: u32) -> (dims: (usize, usize))
    requires
        1 <= step,
        2 * step < width <= 4096,
        2 * step < height <= 4096,
    ensures
        dims.0 == spec_line_count(height as int, step as int),
        dims.1 == spec_line_count(width as int, step as int),
        1 <= dims.0 <= 4096,
        1 <= dims.1 <= 4096,
{
    proof {
        assert((height - step - 1) as int / step as int >= 1
            && (height - step - 1) as int / step as int <= 4096
            && (width - step - 1) as int / step as int >= 1
            && (width - step - 1) as int / step as int <= 4096) by (nonlinear_arith)
            requires
                1 <= step,
                2 * step < width <= 4096,
                2 * step < height <= 4096,
        ;
    }
    let rows: u32 = (height - step - 1) / step;
    let cols: u32 = (width - step - 1) / step;
    (rows as usize, cols as usize)
}

/// The random pass never links out of the last column or row at `(r, c)`.
pub open spec fn seed_ok(seeds: Seq<(bool, bool)>, rows: int, cols: int, r: int, c: int) -> bool {
    &&& (c == cols - 1 ==> !seeds[r * cols + c].0)
    &&& (r == rows - 1 ==> !seeds[r * cols + c].1)
}

/// The expected links of cell `(r, c)`, given the random pass `seeds`
/// (right and down draws, row-major): the mirroring pass in one place.
pub open spec fn mirrored_of(seeds: Seq<(bool, bool)>, cols: int, r: int, c: int) -> LinkSet {
    LinkSet {
        up: r > 0 && seeds[(r - 1) * cols + c].1,
        left: c > 0 && seeds[r * cols + c - 1].0,
        right: seeds[r * cols + c].0,
        down: seeds[r * cols + c].1,
    }
}

/// Cell `(r, c)` of the mirroring pass agrees with the random pass.
pub open spec fn cell_built(
    cells: Seq<LinkSet>,
    seeds: Seq<(bool, bool)>,
    cols: int,
    r: int,
    c: int,
) -> bool {
    cells[r * cols + c] == mirrored_of(seeds, cols, r, c)
}

/// Builds the lattice: the random linking pass (a one-in-three draw for
/// each right and down link, none out of the last column or row), then
/// the mirroring pass. The result is well formed and mirrored for any
/// outcome of the draws.
pub fn build_links(rng: &mut RandomSource, rows: usize, cols: usize) -> (g: Grid)
    requires
        1 <= rows <= 4096,
        1 <= cols <= 4096,
    ensures
        g.rows == rows,
        g.cols == cols,
        grid_wf(g),
        links_mirrored(g),
{
    let mut seeds: Vec<(bool, bool)> = Vec::new();
    let mut r: usize = 0;
    while r < rows
        invariant
            r <= rows <= 4096,
            1 <= cols <= 4096,
            seeds@.len() == r * cols,
            forall|rr: int, cc: int|
                0 <= rr < r && 0 <= cc < cols ==> #[trigger] seed_ok(
                    seeds@,
                    rows as int,
                    cols as int,
                    rr,
                    cc,
                ),
        decreases rows - r,
    {
        let mut c: usize = 0;
        while c < cols
            invariant
                r < rows <= 4096,
                c <= cols <= 4096,
                seeds@.len() == r * cols + c,
                forall|rr: int, cc: int|
                    0 <= rr < r && 0 <= cc < cols ==> #[trigger] seed_ok(
                        seeds@,
                        rows as int,
                        cols as int,
                        rr,
                        cc,
                    ),
                forall|cc: int|
                    0 <= cc < c ==> #[trigger] seed_ok(
                        seeds@,
                        rows as int,
                        cols as int,
                        r as int,
                        cc,
                    ),
            decreases cols - c,
        {
            proof {
                lemma_flat_index(r as int, c as int, rows as int, cols as int);
                assert(rows * cols <= 16777216) by (nonlinear_arith)
                    requires
                        rows <= 4096,
                        cols <= 4096,
                ;
            }
            let link_right: bool = rng.below(3) < 1 && c + 1 < cols;
            let link_down: bool = rng.below(3) < 1 && r + 1 < rows;
            let ghost old_seeds = seeds@;
            seeds.push((link_right, link_down));
            proof {
                assert forall|rr: int, cc: int| 0 <= rr < r && 0 <= cc < cols implies
                    #[trigger] seed_ok(seeds@, rows as int, cols as int, rr, cc) by {
                    lemma_flat_index(rr, cc, r as int, cols as int);
                    assert(seeds@[rr * cols + cc] == old_seeds[rr * cols + cc]);
                    assert(seed_ok(old_seeds, rows as int, cols as int, rr, cc));
                }
                assert forall|cc: int| 0 <= cc < c + 1 implies #[trigger] seed_ok(
                    seeds@,
                    rows as int,
                    cols as int,
                    r as int,
                    cc,
                ) by {
                    if cc < c {
                        assert(seeds@[r as int * cols + cc] == old_seeds[r as int * cols + cc]);
                        assert(seed_ok(old_seeds, rows as int, cols as int, r as int, cc));
                    } else {
                        assert(seeds@[r as int * cols + cc] == (link_right, link_down));
                    }
                }
            }
            c = c + 1;
        }
        proof {
            assert(r * cols + cols == (r + 1) * cols) by (nonlinear_arith);
        }
        r = r + 1;
    }
    let ghost seeds_view = seeds@;
    let mut cells: Vec<LinkSet> = Vec::new();
    let mut r2: usize = 0;
    while r2 < rows
        invariant
            r2 <= rows <= 4096,
            1 <= cols <= 4096,
            seeds@ == seeds_view,
            seeds@.len() == rows * cols,
            cells@.len() == r2 * cols,
            forall|rr: int, cc: int|
                0 <= rr < rows && 0 <= cc < cols ==> #[trigger] seed_ok(
                    seeds_view,
                    rows as int,
                    cols as int,
                    rr,
                    cc,
                ),
            forall|rr: int, cc: int|
                0 <= rr < r2 && 0 <= cc < cols ==> #[trigger] cell_built(
                    cells@,
                    seeds_view,
                    cols as int,
                    rr,
                    cc,
                ),
        decreases rows - r2,
    {
        let mut c2: usize = 0;
        while c2 < cols
            invariant
                r2 < rows <= 4096,
                c2 <= cols <= 4096,
                seeds@ == seeds_view,
                seeds@.len() == rows * cols,
                cells@.len() == r2 * cols + c2,
                forall|rr: int, cc: int|
                    0 <= rr < r2 && 0 <= cc < cols ==> #[trigger] cell_built(
                        cells@,
                        seeds_view,
                        cols as int,
                        rr,
                        cc,
                    ),
                forall|cc: int|
                    0 <= cc < c2 ==> #[trigger] cell_built(
                        cells@,
                        seeds_view,
                        cols as int,
                        r2 as int,
                        cc,
                    ),
            decreases cols - c2,
        {
            proof {
                lemma_flat_index(r2 as int, c2 as int, rows as int, cols as int);
                if r2 > 0 {
                    lemma_flat_index(r2 as int - 1, c2 as int, rows as int, cols as int);
                }
                assert(rows * cols <= 16777216) by (nonlinear_arith)
                    requires
                        rows <= 4096,
                        cols <= 4096,
                ;
            }
            let k: usize = r2 * cols + c2;
            let up: bool = r2 > 0 && seeds[(r2 - 1) * cols + c2].1;
            let left: bool = c2 > 0 && seeds[r2 * cols + c2 - 1].0;
            let right: bool = seeds[k].0;
            let down: bool = seeds[k].1;
            let ghost old_cells = cells@;
            cells.push(LinkSet { up, left, right, down });
            proof {
                assert forall|rr: int, cc: int| 0 <= rr < r2 && 0 <= cc < cols implies
                    #[trigger] cell_built(cells@, seeds_view, cols as int, rr, cc) by {
                    lemma_flat_index(rr, cc, r2 as int, cols as int);
                    assert(cells@[rr * cols + cc] == old_cells[rr * cols + cc]);
                    assert(cell_built(old_cells, seeds_view, cols as int, rr, cc));
                }
                assert forall|cc: int| 0 <= cc < c2 + 1 implies #[trigger] cell_built(
                    cells@,
                    seeds_view,
                    cols as int,
                    r2 as int,
                    cc,
                ) by {
                    if cc < c2 {
                        assert(cells@[r2 as int * cols + cc] == old_cells[r2 as int * cols + cc]);
                        assert(cell_built(old_cells, seeds_view, cols as int, r2 as int, cc));
                    } else {
                        assert(cells@[r2 as int * cols + cc] == (LinkSet {
                            up,
                            left,
                            right,
                            down,
                        }));
                    }
                }
            }
            c2 = c2 + 1;
        }
        proof {
            assert(r2 * cols + cols == (r2 + 1) * cols) by (nonlinear_arith);
        }
        r2 = r2 + 1;
    }
    let g = Grid { rows, cols, cells };
    proof {
        assert forall|r: int, c: int| in_grid(g, r, c) implies {
            let cell = #[trigger] lk(g, r, c);
            &&& cell.up == (r > 0 && lk(g, r - 1, c).down)
            &&& cell.left == (c > 0 && lk(g, r, c - 1).right)
            &&& (r == g.rows - 1 ==> !cell.down)
            &&& (c == g.cols - 1 ==> !cell.right)
        } by {
            lemma_flat_index(r, c, rows as int, cols as int);
            assert(cell_built(g.cells@, seeds_view, cols as int, r, c));
            assert(seed_ok(seeds_view, rows as int, cols as int, r, c));
            if r > 0 {
                lemma_flat_index(r - 1, c, rows as int, cols as int);
                assert(cell_built(g.cells@, seeds_view, cols as int, r - 1, c));
            }
            if c > 0 {
                lemma_flat_index(r, c - 1, rows as int, cols as int);
                assert(cell_built(g.cells@, seeds_view, cols as int, r, c - 1));
                assert(r * cols + (c - 1) == r * cols + c - 1);
            }
        }
    }
    g
}

/// The pixel position of cell `(r, c)`: one step in from the canvas
/// border, one step per row and column.
pub fn cell_position(r: usize, c: usize, step: u32) -> (pos: (usize, usize))
    requires
        r < 4096,
        c < 4096,
        step <= 4096,
    ensures
        pos.0 == (c + 1) * step,
        pos.1 == (r + 1) * step,
{
    proof {
        assert((c + 1) * (step as int) <= 16781312 && (r + 1) * (step as int) <= 16781312int)
            by (nonlinear_arith)
            requires
                r < 4096,
                c < 4096,
                step <= 4096,
        ;
    }
    (((c + 1) as usize) * (step as usize), ((r + 1) as usize) * (step as usize))
}

} // verus!
