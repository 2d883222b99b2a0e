//! The squares mode: the full lattice build, from random linking to
//! clustered, positioned cell records ready for drawing.

use vstd::prelude::*;
use crate::rng::RandomSource;
use crate::grid::{
    Grid,
    LinkSet,
    grid_wf,
    in_grid,
    lk,
    links_mirrored,
    grid_dims,
    build_links,
    cell_position,
    spec_line_count,
    lemma_flat_index,
};
use crate::cluster::{assign_clusters, reachable, reach_set, idp, sizep};

verus! {

/// One lattice cell as handed to the renderer: its lattice and pixel
/// position, its open links, and its cluster's id and cell count.
#[derive(Clone, Copy, Debug, PartialEq, Eq, Structural)]
pub struct CellRecord {
    pub row: usize,
    pub col: usize,
    pub x: usize,
    pub y: usize,
    pub links: LinkSet,
    pub cluster_id: usize,
    pub cluster_size: usize,
}

/// The fully built squares scene.
pub struct SquaresScene {
    pub grid: Grid,
    pub ids: Vec<usize>,
    pub sizes: Vec<usize>,
    pub cells: Vec<CellRecord>,
    pub max_cluster_size: usize,
}

/// Record `i` of the assembled list describes cell `i` of the lattice
/// faithfully: position, links, cluster id and cluster size.
pub open spec fn cell_rec_ok(
    cell: CellRecord,
    g: Grid,
    ids: Seq<usize>,
    sizes: Seq<usize>,
    step: u32,
    i: int,
) -> bool {
    &&& in_grid(g, cell.row as int, cell.col as int)
    &&& i == cell.row * g.cols + cell.col
    &&& cell.links == lk(g, cell.row as int, cell.col as int)
    &&& cell.cluster_id == idp(ids, g.cols as int, (cell.row as int, cell.col as int))
    &&& cell.cluster_size == sizep(sizes, g.cols as int, (cell.row as int, cell.col as int))
    &&& cell.x == (cell.col + 1) * step
    &&& cell.y == (cell.row + 1) * step
}

/// The largest entry of a nonempty list.
pub fn max_of(values: &Vec<usize>) -> (r: usize)
    requires
        values@.len() >= 1,
    ensures
        exists|k: int| 0 <= k < values@.len() && values@[k] == r,
        forall|k: int| 0 <= k < values@.len() ==> #[trigger] values@[k] <= r,
{
    let mut best: usize = values[0];
    let mut k: usize = 1;
    while k < values.len()
        invariant
            values@.len() >= 1,
            1 <= k <= values@.len(),
            exists|j: int| 0 <= j < k && values@[j] == best,
            forall|j: int| 0 <= j < k ==> #[trigger] values@[j] <= best,
        decreases values@.len() - k,
    {
        if values[k] > best {
            best = values[k];
        }
        k = k + 1;
    }
    best
}

/// Joins the lattice, the cluster assignment and the pixel layout into
/// one record per cell, row-major.
pub fn assemble_cells(g: &Grid, ids: &Vec<usize>, sizes: &Vec<usize>, step: u32) -> (cells: Vec<
    CellRecord,
>)
    requires
        grid_wf(*g),
        ids@.len() == g.rows * g.cols,
        sizes@.len() == g.rows * g.cols,
        step <= 4096,
    ensures
        cells@.len() == g.rows * g.cols,
        forall|i: int|
            0 <= i < cells@.len() ==> cell_rec_ok(#[trigger] cells@[i], *g, ids@, sizes@, step, i),
{
    let mut cells: Vec<CellRecord> = Vec::new();
    let mut r: usize = 0;
    while r < g.rows
        invariant
            grid_wf(*g),
            ids@.len() == g.rows * g.cols,
            sizes@.len() == g.rows * g.cols,
            step <= 4096,
            r <= g.rows,
            cells@.len() == r * g.cols,
            forall|i: int|
                0 <= i < cells@.len() ==> cell_rec_ok(
                    #[trigger] cells@[i],
                    *g,
                    ids@,
                    sizes@,
                    step,
                    i,
                ),
        decreases g.rows - r,
    {
        let mut c: usize = 0;
        while c < g.cols
            invariant
                grid_wf(*g),
                ids@.len() == g.rows * g.cols,
                sizes@.len() == g.rows * g.cols,
                step <= 4096,
                r < g.rows,
                c <= g.cols,
                cells@.len() == r * g.cols + c,
                forall|i: int|
                    0 <= i < cells@.len() ==> cell_rec_ok(
                        #[trigger] cells@[i],
                        *g,
                        ids@,
                        sizes@,
                        step,
                        i,
                    ),
            decreases g.cols - c,
        {
            proof {
                lemma_flat_index(r as int, c as int, g.rows as int, g.cols as int);
                assert(g.rows * g.cols <= 16777216) by (nonlinear_arith)
                    requires
                        g.rows <= 4096,
                        g.cols <= 4096,
                ;
            }
            let k: usize = r * g.cols + c;
            let links: LinkSet = g.cells[k];
            let (x, y): (usize, usize) = cell_position(r, c, step);
            let rec = CellRecord {
                row: r,
                col: c,
                x,
                y,
                links,
                cluster_id: ids[k],
                cluster_size: sizes[k],
            };
            cells.push(rec);
            c = c + 1;
        }
        proof {
            assert(r * g.cols + g.cols == (r + 1) * g.cols) by (nonlinear_arith);
        }
        r = r + 1;
    }
    cells
}

/// Builds the whole squares scene: the lattice sized from the canvas,
/// the random linking and mirroring passes, the clustering pass, and the
/// per-cell records with the largest cluster size of the lattice.
pub fn create_squares(rng: &mut RandomSource, width: u32, height: u32, step: u32) -> (scene:
    SquaresScene)
    requires
        1 <= step,
        2 * step < width <= 4096,
        2 * step < height <= 4096,
    ensures
        grid_wf(scene.grid),
        links_mirrored(scene.grid),
        scene.grid.rows == spec_line_count(height as int, step as int),
        scene.grid.cols == spec_line_count(width as int, step as int),
        scene.ids@.len() == scene.grid.rows * scene.grid.cols,
        scene.sizes@.len() == scene.grid.rows * scene.grid.cols,
        forall|t: (int, int)|
            in_grid(scene.grid, t.0, t.1) ==> 1 <= #[trigger] idp(
                scene.ids@,
                scene.grid.cols as int,
                t,
            ),
        forall|p: (int, int), q: (int, int)|
            #![trigger idp(scene.ids@, scene.grid.cols as int, p), idp(scene.ids@, scene.grid.cols as int, q)]
            in_grid(scene.grid, p.0, p.1) && in_grid(scene.grid, q.0, q.1) ==> ((idp(
                scene.ids@,
                scene.grid.cols as int,
                p,
            ) == idp(scene.ids@, scene.grid.cols as int, q)) <==> reachable(scene.grid, p, q)),
        forall|t: (int, int)|
            #![trigger reach_set(scene.grid, t)]
            in_grid(scene.grid, t.0, t.1) ==> reach_set(scene.grid, t).finite() && sizep(
                scene.sizes@,
                scene.grid.cols as int,
                t,
            ) == reach_set(scene.grid, t).len(),
        scene.cells@.len() == scene.grid.rows * scene.grid.cols,
        forall|i: int|
            0 <= i < scene.cells@.len() ==> cell_rec_ok(
                #[trigger] scene.cells@[i],
                scene.grid,
                scene.ids@,
                scene.sizes@,
                step,
                i,
            ),
        exists|k: int|
            0 <= k < scene.sizes@.len() && scene.sizes@[k] == scene.max_cluster_size,
        forall|k: int|
            0 <= k < scene.sizes@.len() ==> #[trigger] scene.sizes@[k] <= scene.max_cluster_size,
{
    let (rows, cols): (usize, usize) = grid_dims(width, height, step);
    let g: Grid = build_links(rng, rows, cols);
    let (ids, sizes): (Vec<usize>, Vec<usize>) = assign_clusters(&g);
    let cells: Vec<CellRecord> = assemble_cells(&g, &ids, &sizes, step);
    proof {
        assert(g.rows * g.cols >= 1) by (nonlinear_arith)
            requires
                g.rows >= 1,
                g.cols >= 1,
        ;
    }
    let max_cluster_size: usize = max_of(&sizes);
    let ghost kw = choose|k: int| 0 <= k < sizes@.len() && sizes@[k] == max_cluster_size;
    let scene = SquaresScene { grid: g, ids, sizes, cells, max_cluster_size };
    proof {
        assert(0 <= kw < scene.sizes@.len() && scene.sizes@[kw] == scene.max_cluster_size);
    }
    scene
}

} // verus!
