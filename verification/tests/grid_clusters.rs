use genny::cluster::assign_clusters;
use genny::grid::{build_links, grid_dims, Grid};
use genny::rng::RandomSource;
use genny::squares::create_squares;

#[test]
fn lattice_is_ten_by_ten_for_the_small_canvas() {
    let (rows, cols) = grid_dims(170, 170, 15);
    assert_eq!(rows, 10);
    assert_eq!(cols, 10);
}

#[test]
fn linking_pass_is_reproducible_with_a_fixed_seed() {
    let mut rng_a = RandomSource::from_seed(42);
    let mut rng_b = RandomSource::from_seed(42);
    let a = build_links(&mut rng_a, 10, 10);
    let b = build_links(&mut rng_b, 10, 10);
    assert_eq!(a.cells, b.cells);
    let mut rng_c = RandomSource::from_seed(43);
    let c = build_links(&mut rng_c, 10, 10);
    // a different seed draws different links (overwhelmingly likely for
    // a hundred cells; with these fixed seeds it does)
    assert_ne!(a.cells, c.cells);
}

fn at(g: &Grid, r: usize, c: usize) -> genny::grid::LinkSet {
    g.cells[r * g.cols + c]
}

#[test]
fn links_are_mirrored_for_any_seed() {
    for seed in [0u64, 1, 7, 1234567] {
        let mut rng = RandomSource::from_seed(seed);
        let g = build_links(&mut rng, 10, 10);
        for r in 0..g.rows {
            for c in 0..g.cols {
                let cell = at(&g, r, c);
                if c + 1 < g.cols {
                    assert_eq!(cell.right, at(&g, r, c + 1).left);
                } else {
                    assert!(!cell.right);
                }
                if r + 1 < g.rows {
                    assert_eq!(cell.down, at(&g, r + 1, c).up);
                } else {
                    assert!(!cell.down);
                }
                if r == 0 {
                    assert!(!cell.up);
                }
                if c == 0 {
                    assert!(!cell.left);
                }
            }
        }
    }
}

/// An independent reachability walk, for checking the clustering pass.
fn reachable_from(g: &Grid, sr: usize, sc: usize) -> Vec<(usize, usize)> {
    let mut seen = vec![false; g.rows * g.cols];
    let mut queue = vec![(sr, sc)];
    let mut out = Vec::new();
    seen[sr * g.cols + sc] = true;
    while let Some((r, c)) = queue.pop() {
        out.push((r, c));
        let cell = at(g, r, c);
        let mut nbrs: Vec<(usize, usize)> = Vec::new();
        if cell.right {
            nbrs.push((r, c + 1));
        }
        if cell.down {
            nbrs.push((r + 1, c));
        }
        if cell.up {
            nbrs.push((r - 1, c));
        }
        if cell.left {
            nbrs.push((r, c - 1));
        }
        for (nr, nc) in nbrs {
            if !seen[nr * g.cols + nc] {
                seen[nr * g.cols + nc] = true;
                queue.push((nr, nc));
            }
        }
    }
    out
}

#[test]
fn clusters_match_an_independent_reachability_walk() {
    for seed in [5u64, 99, 2024] {
        let mut rng = RandomSource::from_seed(seed);
        let g = build_links(&mut rng, 10, 10);
        let (ids, sizes) = assign_clusters(&g);
        assert_eq!(ids.len(), 100);
        assert_eq!(sizes.len(), 100);
        for r in 0..g.rows {
            for c in 0..g.cols {
                let comp = reachable_from(&g, r, c);
                let k = r * g.cols + c;
                assert!(ids[k] >= 1);
                // the recorded size is the cardinality of the reachable set
                assert_eq!(sizes[k], comp.len());
                // the cells sharing this id are exactly the reachable set
                for rr in 0..g.rows {
                    for cc in 0..g.cols {
                        let same_id = ids[rr * g.cols + cc] == ids[k];
                        let in_comp = comp.contains(&(rr, cc));
                        assert_eq!(same_id, in_comp);
                    }
                }
            }
        }
    }
}

#[test]
fn squares_scene_records_every_cell() {
    let mut rng = RandomSource::from_seed(11);
    let scene = create_squares(&mut rng, 170, 170, 15);
    assert_eq!(scene.grid.rows, 10);
    assert_eq!(scene.grid.cols, 10);
    assert_eq!(scene.cells.len(), 100);
    let mut max_seen = 0;
    for (i, cell) in scene.cells.iter().enumerate() {
        assert_eq!(i, cell.row * scene.grid.cols + cell.col);
        assert_eq!(cell.x, (cell.col + 1) * 15);
        assert_eq!(cell.y, (cell.row + 1) * 15);
        assert_eq!(cell.links, scene.grid.cells[i]);
        assert_eq!(cell.cluster_id, scene.ids[i]);
        assert_eq!(cell.cluster_size, scene.sizes[i]);
        assert!(cell.cluster_size >= 1);
        if cell.cluster_size > max_seen {
            max_seen = cell.cluster_size;
        }
    }
    assert_eq!(scene.max_cluster_size, max_seen);
}
