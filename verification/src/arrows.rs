//! The field-arrow layer: one direction probe per lattice position, for
//! rendering the flow field itself.

use vstd::prelude::*;
use crate::geometry::Point;
use crate::flow::{FlowConfig, valid_config, spec_angle_at, angle_at};
use crate::grid::{grid_dims, spec_line_count, lemma_flat_index};
use crate::trig;

verus! {

/// One arrow: its lattice cell, its pixel position, and the field's
/// direction there in angle units.
#[derive(Clone, Copy, Debug, PartialEq, Eq, Structural)]
pub struct ArrowMark {
    pub row: usize,
    pub col: usize,
    pub x: usize,
    pub y: usize,
    pub angle: u64,
}

/// Arrow `i` of the row-major layer probes the field at its own lattice
/// position.
pub open spec fn arrow_ok(a: ArrowMark, cfg: FlowConfig, rows: int, cols: int, i: int) -> bool {
    &&& a.row < rows
    &&& a.col < cols
    &&& i == a.row * cols + a.col
    &&& a.x == (a.col + 1) * cfg.step
    &&& a.y == (a.row + 1) * cfg.step
    &&& a.angle == spec_angle_at(
        Point { x: (a.x * 1024) as i64, y: (a.y * 1024) as i64 },
        cfg,
    )
    &&& a.angle < trig::TURN
}

/// Probes the field at every lattice position, row-major: one arrow per
/// interior grid crossing.
pub fn arrows_scene(cfg: &FlowConfig) -> (r: Vec<ArrowMark>)
    requires
        valid_config(*cfg),
        2 * cfg.step < cfg.width,
        2 * cfg.step < cfg.height,
    ensures
        r@.len() == spec_line_count(cfg.height as int, cfg.step as int) * spec_line_count(
            cfg.width as int,
            cfg.step as int,
        ),
        forall|i: int|
            0 <= i < r@.len() ==> arrow_ok(
                #[trigger] r@[i],
                *cfg,
                spec_line_count(cfg.height as int, cfg.step as int),
                spec_line_count(cfg.width as int, cfg.step as int),
                i,
            ),
{
    let (rows, cols): (usize, usize) = grid_dims(cfg.width, cfg.height, cfg.step);
    let mut r: Vec<ArrowMark> = Vec::new();
    let mut row: usize = 0;
    while row < rows
        invariant
            valid_config(*cfg),
            1 <= rows <= 4096,
            1 <= cols <= 4096,
            rows == spec_line_count(cfg.height as int, cfg.step as int),
            cols == spec_line_count(cfg.width as int, cfg.step as int),
            row <= rows,
            r@.len() == row * cols,
            forall|i: int|
                0 <= i < r@.len() ==> arrow_ok(#[trigger] r@[i], *cfg, rows as int, cols as int, i),
        decreases rows - row,
    {
        let mut col: usize = 0;
        while col < cols
            invariant
                valid_config(*cfg),
                1 <= rows <= 4096,
                1 <= cols <= 4096,
                rows == spec_line_count(cfg.height as int, cfg.step as int),
                cols == spec_line_count(cfg.width as int, cfg.step as int),
                row < rows,
                col <= cols,
                r@.len() == row * cols + col,
                forall|i: int|
                    0 <= i < r@.len() ==> arrow_ok(
                        #[trigger] r@[i],
                        *cfg,
                        rows as int,
                        cols as int,
                        i,
                    ),
            decreases cols - col,
        {
            proof {
                lemma_flat_index(row as int, col as int, rows as int, cols as int);
                assert((col + 1) * cfg.step <= 16781312 && (row + 1) * cfg.step <= 16781312int)
                    by (nonlinear_arith)
                    requires
                        row < 4096,
                        col < 4096,
                        cfg.step <= 4096,
                ;
            }
            let x: usize = (col + 1) * (cfg.step as usize);
            let y: usize = (row + 1) * (cfg.step as usize);
            let p: Point = Point::from_pixels(x, y);
            let angle: u64 = angle_at(&p, cfg);
            r.push(ArrowMark { row, col, x, y, angle });
            col = col + 1;
        }
        proof {
            assert(row * cols + cols == (row + 1) * cols) by (nonlinear_arith);
        }
        row = row + 1;
    }
    r
}

} // verus!
