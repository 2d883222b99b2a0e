//! Connected components of the linked lattice.
//!
//! Two cells belong to one cluster exactly when a chain of open links
//! joins them. The clustering pass walks each component with an explicit
//! stack over an arena-indexed visited set — never native recursion — and
//! assigns every cell a cluster id and the component's cell count.
//!
//! The reachability theory here is spelled out from the links: a path is
//! a sequence of cells, each joined to the next by an open link recorded
//! on the earlier cell. On a mirrored lattice the relation is symmetric
//! and transitive, which is what makes "cluster" well defined at all.

use vstd::prelude::*;
use crate::grid::{
    LinkSet,
    Grid,
    grid_wf,
    in_grid,
    lk,
    links_mirrored,
    lemma_link_symmetry,
    lemma_flat_index,
    lemma_flat_index_injective,
};

verus! {

/// Cells `a` and `b` are lattice neighbors joined by an open link
/// recorded on `a`.
pub open spec fn adj(g: Grid, a: (int, int), b: (int, int)) -> bool {
    &&& in_grid(g, a.0, a.1)
    &&& in_grid(g, b.0, b.1)
    &&& {
        ||| (b == (a.0, a.1 + 1) && lk(g, a.0, a.1).right)
        ||| (b == (a.0 + 1, a.1) && lk(g, a.0, a.1).down)
        ||| (b == (a.0 - 1, a.1) && lk(g, a.0, a.1).up)
        ||| (b == (a.0, a.1 - 1) && lk(g, a.0, a.1).left)
    }
}

/// A chain of cells, each joined to the next by an open link.
pub open spec fn is_link_path(g: Grid, path: Seq<(int, int)>) -> bool {
    &&& path.len() >= 1
    &&& in_grid(g, path[0].0, path[0].1)
    &&& forall|k: int| 0 <= k < path.len() - 1 ==> #[trigger] adj(g, path[k], path[k + 1])
}

/// Cell `b` can be reached from cell `a` by following open links.
pub open spec fn reachable(g: Grid, a: (int, int), b: (int, int)) -> bool {
    exists|path: Seq<(int, int)>|
        #[trigger] is_link_path(g, path) && path.first() == a && path.last() == b
}

/// The cluster of `a`: everything reachable from it.
pub open spec fn reach_set(g: Grid, a: (int, int)) -> Set<(int, int)> {
    Set::new(|b: (int, int)| reachable(g, a, b))
}

/// On a mirrored lattice, neighborship does not depend on which end
/// recorded the link.
pub proof fn lemma_adj_symmetric(g: Grid, a: (int, int), b: (int, int))
    requires
        links_mirrored(g),
    ensures
        adj(g, a, b) == adj(g, b, a),
{
    if adj(g, a, b) {
        lemma_link_symmetry(g, a.0, a.1);
        lemma_link_symmetry(g, b.0, b.1);
        assert(lk(g, a.0, a.1).up == (a.0 > 0 && lk(g, a.0 - 1, a.1).down));
        assert(lk(g, a.0, a.1).left == (a.1 > 0 && lk(g, a.0, a.1 - 1).right));
    }
    if adj(g, b, a) {
        lemma_link_symmetry(g, a.0, a.1);
        lemma_link_symmetry(g, b.0, b.1);
        assert(lk(g, b.0, b.1).up == (b.0 > 0 && lk(g, b.0 - 1, b.1).down));
        assert(lk(g, b.0, b.1).left == (b.1 > 0 && lk(g, b.0, b.1 - 1).right));
    }
}

/// Every cell reaches itself.
pub proof fn lemma_reachable_refl(g: Grid, a: (int, int))
    requires
        in_grid(g, a.0, a.1),
    ensures
        reachable(g, a, a),
{
    let witness: Seq<(int, int)> = seq![a];
    assert(is_link_path(g, witness) && witness.first() == a && witness.last() == a);
}

/// Reach extends across one more open link.
pub proof fn lemma_reachable_step(g: Grid, a: (int, int), b: (int, int), c: (int, int))
    requires
        reachable(g, a, b),
        adj(g, b, c),
    ensures
        reachable(g, a, c),
{
    let path = choose|path: Seq<(int, int)>|
        #[trigger] is_link_path(g, path) && path.first() == a && path.last() == b;
    let longer = path.push(c);
    assert forall|k: int| 0 <= k < longer.len() - 1 implies #[trigger] adj(
        g,
        longer[k],
        longer[k + 1],
    ) by {
        if k < path.len() - 1 {
            assert(adj(g, path[k], path[k + 1]));
        } else {
            assert(longer[k] == b && longer[k + 1] == c);
        }
    }
    assert(is_link_path(g, longer) && longer.first() == a && longer.last() == c);
}

/// Reach extends along a whole path.
proof fn lemma_reachable_extend(g: Grid, a: (int, int), path: Seq<(int, int)>)
    requires
        is_link_path(g, path),
        reachable(g, a, path.first()),
    ensures
        reachable(g, a, path.last()),
    decreases path.len(),
{
    if path.len() > 1 {
        let prefix = path.drop_last();
        assert forall|k: int| 0 <= k < prefix.len() - 1 implies #[trigger] adj(
            g,
            prefix[k],
            prefix[k + 1],
        ) by {
            assert(adj(g, path[k], path[k + 1]));
        }
        lemma_reachable_extend(g, a, prefix);
        assert(adj(g, path[path.len() - 2], path[path.len() - 2 + 1]));
        lemma_reachable_step(g, a, prefix.last(), path.last());
    }
}

/// Reach is transitive.
pub proof fn lemma_reachable_trans(g: Grid, a: (int, int), b: (int, int), c: (int, int))
    requires
        reachable(g, a, b),
        reachable(g, b, c),
    ensures
        reachable(g, a, c),
{
    let path = choose|path: Seq<(int, int)>|
        #[trigger] is_link_path(g, path) && path.first() == b && path.last() == c;
    lemma_reachable_extend(g, a, path);
}

/// A path can be walked backwards on a mirrored lattice.
proof fn lemma_path_reverse(g: Grid, path: Seq<(int, int)>)
    requires
        links_mirrored(g),
        is_link_path(g, path),
    ensures
        reachable(g, path.last(), path.first()),
    decreases path.len(),
{
    if path.len() == 1 {
        lemma_reachable_refl(g, path.last());
    } else {
        let prefix = path.drop_last();
        assert forall|k: int| 0 <= k < prefix.len() - 1 implies #[trigger] adj(
            g,
            prefix[k],
            prefix[k + 1],
        ) by {
            assert(adj(g, path[k], path[k + 1]));
        }
        lemma_path_reverse(g, prefix);
        assert(adj(g, path[path.len() - 2], path[path.len() - 2 + 1]));
        lemma_adj_symmetric(g, path[path.len() - 2], path[path.len() - 1]);
        assert(in_grid(g, path.last().0, path.last().1));
        lemma_reachable_refl(g, path.last());
        lemma_reachable_step(g, path.last(), path.last(), prefix.last());
        lemma_reachable_trans(g, path.last(), prefix.last(), path.first());
    }
}

/// On a mirrored lattice, reach runs both ways.
pub proof fn lemma_reachable_symmetric(g: Grid, a: (int, int), b: (int, int))
    requires
        links_mirrored(g),
        reachable(g, a, b),
    ensures
        reachable(g, b, a),
{
    let path = choose|path: Seq<(int, int)>|
        #[trigger] is_link_path(g, path) && path.first() == a && path.last() == b;
    lemma_path_reverse(g, path);
}

/// A set that holds `s` and is closed under open links holds everything
/// reachable from `s`.
pub proof fn lemma_closed_set_contains_reachable(
    g: Grid,
    cset: Set<(int, int)>,
    s: (int, int),
    t: (int, int),
)
    requires
        forall|p: (int, int), q: (int, int)|
            cset.contains(p) && #[trigger] adj(g, p, q) ==> cset.contains(q),
        cset.contains(s),
        reachable(g, s, t),
    ensures
        cset.contains(t),
{
    let path = choose|path: Seq<(int, int)>|
        #[trigger] is_link_path(g, path) && path.first() == s && path.last() == t;
    lemma_path_in_closed_set(g, cset, path);
}

/// How many entries of the visited arena are set.
pub open spec fn count_true(s: Seq<bool>) -> int
    decreases s.len(),
{
    if s.len() == 0 {
        0
    } else {
        count_true(s.drop_last()) + if s.last() {
            1int
        } else {
            0int
        }
    }
}

/// The count of set entries never leaves `[0, len]`.
proof fn lemma_count_true_bounds(s: Seq<bool>)
    ensures
        0 <= count_true(s) <= s.len(),
    decreases s.len(),
{
    if s.len() > 0 {
        lemma_count_true_bounds(s.drop_last());
    }
}

/// Setting a clear entry raises the count by one.
proof fn lemma_count_true_update(s: Seq<bool>, i: int)
    requires
        0 <= i < s.len(),
        !s[i],
    ensures
        count_true(s.update(i, true)) == count_true(s) + 1,
    decreases s.len(),
{
    let t = s.update(i, true);
    if i == s.len() - 1 {
        assert(t.drop_last() =~= s.drop_last());
    } else {
        assert(t.drop_last() =~= s.drop_last().update(i, true));
        lemma_count_true_update(s.drop_last(), i);
    }
}

/// The visited mark of cell `(r, c)` in a row-major arena.
pub open spec fn vis(visited: Seq<bool>, cols: int, r: int, c: int) -> bool {
    visited[r * cols + c]
}

/// A cell, as the pair of mathematical coordinates.
pub open spec fn cell_of(p: (usize, usize)) -> (int, int) {
    (p.0 as int, p.1 as int)
}

/// Whether the list `v` holds cell `t`.
pub open spec fn mem(v: Seq<(usize, usize)>, t: (int, int)) -> bool {
    exists|i: int| 0 <= i < v.len() && cell_of(#[trigger] v[i]) == t
}

/// Every cell of a path whose start lies in a link-closed set lies in it.
proof fn lemma_path_in_closed_set(g: Grid, cset: Set<(int, int)>, path: Seq<(int, int)>)
    requires
        forall|p: (int, int), q: (int, int)|
            cset.contains(p) && #[trigger] adj(g, p, q) ==> cset.contains(q),
        is_link_path(g, path),
        cset.contains(path.first()),
    ensures
        cset.contains(path.last()),
    decreases path.len(),
{
    if path.len() > 1 {
        let prefix = path.drop_last();
        assert forall|k: int| 0 <= k < prefix.len() - 1 implies #[trigger] adj(
            g,
            prefix[k],
            prefix[k + 1],
        ) by {
            assert(adj(g, path[k], path[k + 1]));
        }
        lemma_path_in_closed_set(g, cset, prefix);
        assert(adj(g, path[path.len() - 2], path[path.len() - 2 + 1]));
    }
}

/// Appending an element adds exactly its cell to the membership.
proof fn lemma_mem_push(v: Seq<(usize, usize)>, e: (usize, usize), t: (int, int))
    ensures
        mem(v.push(e), t) == (mem(v, t) || cell_of(e) == t),
{
    if mem(v.push(e), t) {
        let i = choose|i: int| 0 <= i < v.push(e).len() && cell_of(v.push(e)[i]) == t;
        if i < v.len() {
            assert(cell_of(v[i]) == t);
        }
    }
    if mem(v, t) {
        let i = choose|i: int| 0 <= i < v.len() && cell_of(v[i]) == t;
        assert(cell_of(v.push(e)[i]) == t);
    }
    if cell_of(e) == t {
        assert(cell_of(v.push(e)[v.len() as int]) == t);
    }
}

/// Removing the last element removes exactly its cell's witness.
proof fn lemma_mem_drop_last(v: Seq<(usize, usize)>, t: (int, int))
    requires
        v.len() > 0,
    ensures
        mem(v, t) == (mem(v.drop_last(), t) || cell_of(v.last()) == t),
{
    if mem(v, t) {
        let i = choose|i: int| 0 <= i < v.len() && cell_of(v[i]) == t;
        if i < v.len() - 1 {
            assert(cell_of(v.drop_last()[i]) == t);
        }
    }
    if mem(v.drop_last(), t) {
        let i = choose|i: int| 0 <= i < v.drop_last().len() && cell_of(v.drop_last()[i]) == t;
        assert(cell_of(v[i]) == t);
    }
    if cell_of(v.last()) == t {
        assert(cell_of(v[v.len() - 1]) == t);
    }
}

/// Marks and stacks the cell `(nr, nc)` unless it is already marked,
/// keeping every bookkeeping fact of the flood walk: the marks are the
/// union of the marks before the walk, the collected cells, and the
/// stacked cells; the stack holds distinct, reachable cells; and a fresh
/// mark raises the mark count by exactly one.
fn try_visit(
    g: &Grid,
    nr: usize,
    nc: usize,
    visited: &mut Vec<bool>,
    stack: &mut Vec<(usize, usize)>,
    Ghost(s): Ghost<(int, int)>,
    Ghost(oldv): Ghost<Seq<bool>>,
    Ghost(compv): Ghost<Seq<(usize, usize)>>,
)
    requires
        grid_wf(*g),
        in_grid(*g, nr as int, nc as int),
        reachable(*g, s, (nr as int, nc as int)),
        old(visited)@.len() == g.rows * g.cols,
        oldv.len() == g.rows * g.cols,
        forall|r: int, c: int|
            in_grid(*g, r, c) ==> #[trigger] vis(old(visited)@, g.cols as int, r, c) == (vis(
                oldv,
                g.cols as int,
                r,
                c,
            ) || mem(compv, (r, c)) || mem(old(stack)@, (r, c))),
        forall|i: int|
            0 <= i < old(stack)@.len() ==> {
                let t = cell_of(#[trigger] old(stack)@[i]);
                in_grid(*g, t.0, t.1) && reachable(*g, s, t)
            },
        old(stack)@.no_duplicates(),
        forall|i: int, j: int|
            #![trigger compv[i], old(stack)@[j]]
            0 <= i < compv.len() && 0 <= j < old(stack)@.len() ==> compv[i] != old(stack)@[j],
    ensures
        final(visited)@.len() == old(visited)@.len(),
        vis(final(visited)@, g.cols as int, nr as int, nc as int),
        forall|r: int, c: int|
            in_grid(*g, r, c) ==> #[trigger] vis(final(visited)@, g.cols as int, r, c) == (vis(
                old(visited)@,
                g.cols as int,
                r,
                c,
            ) || (r, c) == (nr as int, nc as int)),
        forall|r: int, c: int|
            in_grid(*g, r, c) ==> #[trigger] vis(final(visited)@, g.cols as int, r, c) == (vis(
                oldv,
                g.cols as int,
                r,
                c,
            ) || mem(compv, (r, c)) || mem(final(stack)@, (r, c))),
        forall|i: int|
            0 <= i < final(stack)@.len() ==> {
                let t = cell_of(#[trigger] final(stack)@[i]);
                in_grid(*g, t.0, t.1) && reachable(*g, s, t)
            },
        final(stack)@.no_duplicates(),
        forall|i: int, j: int|
            #![trigger compv[i], final(stack)@[j]]
            0 <= i < compv.len() && 0 <= j < final(stack)@.len() ==> compv[i] != final(stack)@[j],
        vis(old(visited)@, g.cols as int, nr as int, nc as int) ==> final(visited)@ == old(
            visited,
        )@ && final(stack)@ == old(stack)@,
        !vis(old(visited)@, g.cols as int, nr as int, nc as int) ==> count_true(final(visited)@)
            == count_true(old(visited)@) + 1 && final(stack)@ == old(stack)@.push((nr, nc)),
{
    proof {
        lemma_flat_index(nr as int, nc as int, g.rows as int, g.cols as int);
        assert(g.rows * g.cols <= 16777216) by (nonlinear_arith)
            requires
                g.rows <= 4096,
                g.cols <= 4096,
        ;
    }
    let nidx: usize = nr * g.cols + nc;
    if !visited[nidx] {
        let ghost before = visited@;
        let ghost stack_before = stack@;
        visited.set(nidx, true);
        stack.push((nr, nc));
        proof {
            lemma_count_true_update(before, nidx as int);
            let n_cell = (nr as int, nc as int);
            assert forall|r: int, c: int| in_grid(*g, r, c) implies #[trigger] vis(
                visited@,
                g.cols as int,
                r,
                c,
            ) == (vis(before, g.cols as int, r, c) || (r, c) == n_cell) by {
                lemma_flat_index(r, c, g.rows as int, g.cols as int);
                if r * g.cols + c == nidx {
                    lemma_flat_index_injective(r, c, nr as int, nc as int, g.cols as int);
                }
            }
            assert forall|r: int, c: int| in_grid(*g, r, c) implies #[trigger] vis(
                visited@,
                g.cols as int,
                r,
                c,
            ) == (vis(oldv, g.cols as int, r, c) || mem(compv, (r, c)) || mem(
                stack@,
                (r, c),
            )) by {
                lemma_mem_push(stack_before, (nr, nc), (r, c));
                assert(vis(before, g.cols as int, r, c) == (vis(oldv, g.cols as int, r, c) || mem(
                    compv,
                    (r, c),
                ) || mem(stack_before, (r, c))));
            }
            assert forall|i: int| 0 <= i < stack@.len() implies {
                let t = cell_of(#[trigger] stack@[i]);
                in_grid(*g, t.0, t.1) && reachable(*g, s, t)
            } by {
                if i < stack_before.len() {
                    assert(stack@[i] == stack_before[i]);
                    assert(in_grid(*g, cell_of(stack_before[i]).0, cell_of(stack_before[i]).1)
                        && reachable(*g, s, cell_of(stack_before[i])));
                } else {
                    assert(stack@[i] == ((nr, nc)));
                }
            }
            assert(!vis(before, g.cols as int, nr as int, nc as int));
            assert(!mem(stack_before, (nr as int, nc as int)) && !mem(
                compv,
                (nr as int, nc as int),
            ));
            assert forall|i: int, j: int|
                0 <= i < stack@.len() && 0 <= j < stack@.len() && i != j implies stack@[i]
                != stack@[j] by {
                if i < stack_before.len() && j < stack_before.len() {
                } else if i < stack_before.len() {
                    if stack@[i] == stack@[j] {
                        assert(cell_of(stack_before[i]) == (nr as int, nc as int));
                        assert(mem(stack_before, (nr as int, nc as int)));
                    }
                } else if j < stack_before.len() {
                    if stack@[i] == stack@[j] {
                        assert(cell_of(stack_before[j]) == (nr as int, nc as int));
                        assert(mem(stack_before, (nr as int, nc as int)));
                    }
                }
            }
            assert forall|i: int, j: int|
                0 <= i < compv.len() && 0 <= j < stack@.len() implies compv[i] != stack@[j] by {
                if j < stack_before.len() {
                    assert(compv[i] != stack_before[j]);
                } else {
                    if compv[i] == stack@[j] {
                        assert(cell_of(compv[i]) == (nr as int, nc as int));
                        assert(mem(compv, (nr as int, nc as int)));
                    }
                }
            }
        }
    }
}

/// Collects the whole cluster of `(sr, sc)`: every cell reachable from
/// it through open links, each exactly once, and marks each in the
/// visited arena. No cell reachable from the start may be marked
/// already; afterwards the fresh marks are exactly the cluster.
pub fn flood_fill(
    g: &Grid,
    sr: usize,
    sc: usize,
    visited: &mut Vec<bool>,
) -> (comp: Vec<(usize, usize)>)
    requires
        grid_wf(*g),
        links_mirrored(*g),
        in_grid(*g, sr as int, sc as int),
        old(visited)@.len() == g.rows * g.cols,
        forall|t: (int, int)|
            #[trigger] reachable(*g, (sr as int, sc as int), t) ==> !vis(
                old(visited)@,
                g.cols as int,
                t.0,
                t.1,
            ),
    ensures
        final(visited)@.len() == old(visited)@.len(),
        comp@.len() >= 1,
        comp@.no_duplicates(),
        forall|i: int|
            0 <= i < comp@.len() ==> {
                let t = cell_of(#[trigger] comp@[i]);
                in_grid(*g, t.0, t.1) && reachable(*g, (sr as int, sc as int), t)
            },
        forall|t: (int, int)|
            #[trigger] reachable(*g, (sr as int, sc as int), t) ==> mem(comp@, t),
        forall|r: int, c: int|
            in_grid(*g, r, c) ==> #[trigger] vis(final(visited)@, g.cols as int, r, c) == (vis(
                old(visited)@,
                g.cols as int,
                r,
                c,
            ) || reachable(*g, (sr as int, sc as int), (r, c))),
{
    let ghost s = (sr as int, sc as int);
    let ghost oldv = visited@;
    proof {
        lemma_flat_index(sr as int, sc as int, g.rows as int, g.cols as int);
        assert(g.rows * g.cols <= 16777216) by (nonlinear_arith)
            requires
                g.rows <= 4096,
                g.cols <= 4096,
        ;
        lemma_reachable_refl(*g, s);
        lemma_count_true_bounds(oldv);
    }
    let sidx: usize = sr * g.cols + sc;
    let mut stack: Vec<(usize, usize)> = Vec::new();
    let mut comp: Vec<(usize, usize)> = Vec::new();
    visited.set(sidx, true);
    stack.push((sr, sc));
    proof {
        lemma_count_true_update(oldv, sidx as int);
        lemma_count_true_bounds(visited@);
        assert forall|r: int, c: int| in_grid(*g, r, c) implies #[trigger] vis(
            visited@,
            g.cols as int,
            r,
            c,
        ) == (vis(oldv, g.cols as int, r, c) || mem(comp@, (r, c)) || mem(stack@, (r, c))) by {
            lemma_flat_index(r, c, g.rows as int, g.cols as int);
            if r * g.cols + c == sidx {
                lemma_flat_index_injective(r, c, sr as int, sc as int, g.cols as int);
                assert(cell_of(stack@[0]) == (r, c));
            } else {
                if mem(stack@, (r, c)) {
                    let i = choose|i: int| 0 <= i < stack@.len() && cell_of(stack@[i]) == (r, c);
                    assert(stack@[i] == ((sr, sc)));
                }
            }
        }
        assert(cell_of(stack@[0]) == s);
    }
    while stack.len() > 0
        invariant
            grid_wf(*g),
            links_mirrored(*g),
            in_grid(*g, sr as int, sc as int),
            s == (sr as int, sc as int),
            visited@.len() == g.rows * g.cols,
            oldv.len() == g.rows * g.cols,
            0 <= count_true(visited@) <= visited@.len(),
            forall|t: (int, int)|
                #[trigger] reachable(*g, s, t) ==> !vis(oldv, g.cols as int, t.0, t.1),
            forall|r: int, c: int|
                in_grid(*g, r, c) ==> #[trigger] vis(visited@, g.cols as int, r, c) == (vis(
                    oldv,
                    g.cols as int,
                    r,
                    c,
                ) || mem(comp@, (r, c)) || mem(stack@, (r, c))),
            forall|i: int|
                0 <= i < stack@.len() ==> {
                    let t = cell_of(#[trigger] stack@[i]);
                    in_grid(*g, t.0, t.1) && reachable(*g, s, t)
                },
            forall|i: int|
                0 <= i < comp@.len() ==> {
                    let t = cell_of(#[trigger] comp@[i]);
                    in_grid(*g, t.0, t.1) && reachable(*g, s, t)
                },
            stack@.no_duplicates(),
            comp@.no_duplicates(),
            forall|i: int, j: int|
                #![trigger comp@[i], stack@[j]]
                0 <= i < comp@.len() && 0 <= j < stack@.len() ==> comp@[i] != stack@[j],
            mem(comp@, s) || mem(stack@, s),
            forall|i: int, q: (int, int)|
                0 <= i < comp@.len() && #[trigger] adj(*g, cell_of(comp@[i]), q) ==> vis(
                    visited@,
                    g.cols as int,
                    q.0,
                    q.1,
                ),
        decreases visited@.len() - count_true(visited@), stack@.len(),
    {
        let ghost stack_before = stack@;
        let ghost comp_before = comp@;
        let top: (usize, usize) = match stack.pop() {
            Option::Some(t) => t,
            Option::None => {
                proof {
                    assert(false);
                }
                (0, 0)
            },
        };
        let ghost top_cell = cell_of(top);
        proof {
            assert(stack@ =~= stack_before.drop_last());
            assert(cell_of(stack_before[stack_before.len() - 1]) == top_cell);
            assert(in_grid(*g, top_cell.0, top_cell.1) && reachable(*g, s, top_cell));
        }
        comp.push(top);
        proof {
            assert forall|r: int, c: int| in_grid(*g, r, c) implies #[trigger] vis(
                visited@,
                g.cols as int,
                r,
                c,
            ) == (vis(oldv, g.cols as int, r, c) || mem(comp@, (r, c)) || mem(
                stack@,
                (r, c),
            )) by {
                lemma_mem_drop_last(stack_before, (r, c));
                lemma_mem_push(comp_before, top, (r, c));
            }
            assert forall|i: int| 0 <= i < comp@.len() implies {
                let t = cell_of(#[trigger] comp@[i]);
                in_grid(*g, t.0, t.1) && reachable(*g, s, t)
            } by {
                if i < comp_before.len() {
                    assert(comp@[i] == comp_before[i]);
                    assert(in_grid(*g, cell_of(comp_before[i]).0, cell_of(comp_before[i]).1)
                        && reachable(*g, s, cell_of(comp_before[i])));
                } else {
                    assert(comp@[i] == top);
                }
            }
            assert forall|i: int, j: int|
                0 <= i < comp@.len() && 0 <= j < comp@.len() && i != j implies comp@[i]
                != comp@[j] by {
                if i < comp_before.len() && j == comp_before.len() {
                    assert(comp@[j] == stack_before[stack_before.len() - 1]);
                } else if j < comp_before.len() && i == comp_before.len() {
                    assert(comp@[i] == stack_before[stack_before.len() - 1]);
                }
            }
            assert forall|i: int, j: int|
                0 <= i < comp@.len() && 0 <= j < stack@.len() implies comp@[i] != stack@[j] by {
                assert(stack@[j] == stack_before[j]);
                if i < comp_before.len() {
                    assert(comp_before[i] != stack_before[j]);
                } else {
                    assert(comp@[i] == stack_before[stack_before.len() - 1]);
                }
            }
            assert(mem(comp@, s) || mem(stack@, s)) by {
                lemma_mem_drop_last(stack_before, s);
                lemma_mem_push(comp_before, top, s);
            }
        }
        proof {
            lemma_flat_index(top.0 as int, top.1 as int, g.rows as int, g.cols as int);
            assert(g.rows * g.cols <= 16777216) by (nonlinear_arith)
                requires
                    g.rows <= 4096,
                    g.cols <= 4096,
            ;
        }
        let cell: LinkSet = g.cells[top.0 * g.cols + top.1];
        proof {
            assert(cell == lk(*g, top_cell.0, top_cell.1));
        }
        let ghost v0 = visited@;
        let ghost stack_mid = stack@;
        if cell.right {
            proof {
                assert(adj(*g, top_cell, (top_cell.0, top_cell.1 + 1)));
                lemma_reachable_step(*g, s, top_cell, (top_cell.0, top_cell.1 + 1));
            }
            try_visit(g, top.0, top.1 + 1, visited, &mut stack, Ghost(s), Ghost(oldv),
                Ghost(comp@));
        }
        if cell.down {
            proof {
                assert(adj(*g, top_cell, (top_cell.0 + 1, top_cell.1)));
                lemma_reachable_step(*g, s, top_cell, (top_cell.0 + 1, top_cell.1));
            }
            try_visit(g, top.0 + 1, top.1, visited, &mut stack, Ghost(s), Ghost(oldv),
                Ghost(comp@));
        }
        if cell.up {
            proof {
                assert(adj(*g, top_cell, (top_cell.0 - 1, top_cell.1)));
                lemma_reachable_step(*g, s, top_cell, (top_cell.0 - 1, top_cell.1));
            }
            try_visit(g, top.0 - 1, top.1, visited, &mut stack, Ghost(s), Ghost(oldv),
                Ghost(comp@));
        }
        if cell.left {
            proof {
                assert(adj(*g, top_cell, (top_cell.0, top_cell.1 - 1)));
                lemma_reachable_step(*g, s, top_cell, (top_cell.0, top_cell.1 - 1));
            }
            try_visit(g, top.0, top.1 - 1, visited, &mut stack, Ghost(s), Ghost(oldv),
                Ghost(comp@));
        }
        proof {
            lemma_count_true_bounds(visited@);
            if !mem(comp@, s) {
                assert(mem(stack_mid, s));
                let wi = choose|wi: int| 0 <= wi < stack_mid.len() && cell_of(stack_mid[wi]) == s;
                assert(cell_of(stack@[wi]) == s);
                assert(mem(stack@, s));
            }
            assert forall|i: int, q: (int, int)|
                0 <= i < comp@.len() && #[trigger] adj(*g, cell_of(comp@[i]), q) implies vis(
                visited@,
                g.cols as int,
                q.0,
                q.1,
            ) by {
                if i < comp_before.len() {
                    assert(adj(*g, cell_of(comp_before[i]), q));
                    assert(vis(v0, g.cols as int, q.0, q.1));
                } else {
                    assert(cell_of(comp@[i]) == top_cell);
                    if q == (top_cell.0, top_cell.1 + 1) {
                        assert(vis(visited@, g.cols as int, q.0, q.1));
                    } else if q == (top_cell.0 + 1, top_cell.1) {
                        assert(vis(visited@, g.cols as int, q.0, q.1));
                    } else if q == (top_cell.0 - 1, top_cell.1) {
                        assert(vis(visited@, g.cols as int, q.0, q.1));
                    } else {
                        assert(q == (top_cell.0, top_cell.1 - 1));
                        assert(vis(visited@, g.cols as int, q.0, q.1));
                    }
                }
            }
        }
    }
    proof {
        let cset = Set::new(|t: (int, int)| mem(comp@, t));
        assert forall|p: (int, int), q: (int, int)|
            cset.contains(p) && #[trigger] adj(*g, p, q) implies cset.contains(q) by {
            let i = choose|i: int| 0 <= i < comp@.len() && cell_of(comp@[i]) == p;
            assert(adj(*g, cell_of(comp@[i]), q));
            assert(vis(visited@, g.cols as int, q.0, q.1));
            assert(reachable(*g, s, cell_of(comp@[i])));
            lemma_reachable_step(*g, s, p, q);
            assert(!vis(oldv, g.cols as int, q.0, q.1));
            assert(!mem(stack@, (q.0, q.1)));
            assert(mem(comp@, (q.0, q.1)));
            assert((q.0, q.1) == q);
        }
        assert(mem(comp@, s));
        assert(cset.contains(s));
        assert forall|t: (int, int)| #[trigger] reachable(*g, s, t) implies mem(comp@, t) by {
            lemma_closed_set_contains_reachable(*g, cset, s, t);
        }
        assert forall|r: int, c: int| in_grid(*g, r, c) implies #[trigger] vis(
            visited@,
            g.cols as int,
            r,
            c,
        ) == (vis(oldv, g.cols as int, r, c) || reachable(*g, s, (r, c))) by {
            if mem(comp@, (r, c)) {
                let i = choose|i: int| 0 <= i < comp@.len() && cell_of(comp@[i]) == ((r, c));
                assert(reachable(*g, s, cell_of(comp@[i])));
            }
            if !mem(comp@, (r, c)) && reachable(*g, s, (r, c)) {
                assert(mem(comp@, (r, c)));
            }
        }
        assert(comp@.len() >= 1) by {
            let i = choose|i: int| 0 <= i < comp@.len() && cell_of(comp@[i]) == s;
        }
    }
    comp
}

/// Whatever is reachable lies in the lattice.
proof fn lemma_reachable_in_grid(g: Grid, s: (int, int), t: (int, int))
    requires
        reachable(g, s, t),
    ensures
        in_grid(g, t.0, t.1),
{
    let path = choose|path: Seq<(int, int)>|
        #[trigger] is_link_path(g, path) && path.first() == s && path.last() == t;
    if path.len() > 1 {
        assert(adj(g, path[path.len() - 2], path[path.len() - 2 + 1]));
    }
}

/// The mark of cell `t` in a row-major arena, pair-shaped.
pub open spec fn marked(v: Seq<bool>, cols: int, t: (int, int)) -> bool {
    v[t.0 * cols + t.1]
}

/// The cluster id recorded for cell `t`.
pub open spec fn idp(v: Seq<usize>, cols: int, t: (int, int)) -> int {
    v[t.0 * cols + t.1] as int
}

/// The cluster size recorded for cell `t`.
pub open spec fn sizep(v: Seq<usize>, cols: int, t: (int, int)) -> int {
    v[t.0 * cols + t.1] as int
}

/// Cells that reach one another have the same cluster.
proof fn lemma_reach_set_same(g: Grid, s: (int, int), p: (int, int))
    requires
        links_mirrored(g),
        reachable(g, s, p),
    ensures
        reach_set(g, p) =~= reach_set(g, s),
{
    assert forall|t: (int, int)| reach_set(g, p).contains(t) implies reach_set(
        g,
        s,
    ).contains(t) by {
        lemma_reachable_trans(g, s, p, t);
    }
    assert forall|t: (int, int)| reach_set(g, s).contains(t) implies reach_set(
        g,
        p,
    ).contains(t) by {
        lemma_reachable_symmetric(g, s, p);
        lemma_reachable_trans(g, p, s, t);
    }
}

/// A duplicate-free enumeration of everything reachable from `s` counts
/// the cluster exactly.
proof fn lemma_comp_counts_cluster(g: Grid, s: (int, int), comp: Seq<(usize, usize)>)
    requires
        comp.no_duplicates(),
        forall|i: int| 0 <= i < comp.len() ==> reachable(g, s, cell_of(#[trigger] comp[i])),
        forall|t: (int, int)| #[trigger] reachable(g, s, t) ==> mem(comp, t),
    ensures
        reach_set(g, s).finite(),
        reach_set(g, s).len() == comp.len(),
{
    let mapped = comp.map(|i: int, p: (usize, usize)| cell_of(p));
    assert forall|i: int, j: int|
        0 <= i < mapped.len() && 0 <= j < mapped.len() && i != j implies mapped[i]
        != mapped[j] by {
        assert(comp[i] != comp[j]);
        assert(mapped[i] == cell_of(comp[i]) && mapped[j] == cell_of(comp[j]));
    }
    mapped.unique_seq_to_set();
    assert(mapped.to_set() =~= reach_set(g, s)) by {
        assert forall|t: (int, int)| mapped.to_set().contains(t) implies reach_set(
            g,
            s,
        ).contains(t) by {
            let i = choose|i: int| 0 <= i < mapped.len() && mapped[i] == t;
            assert(reachable(g, s, cell_of(comp[i])));
        }
        assert forall|t: (int, int)| reach_set(g, s).contains(t) implies mapped.to_set().contains(
            t,
        ) by {
            assert(mem(comp, t));
            let i = choose|i: int| 0 <= i < comp.len() && cell_of(comp[i]) == t;
            assert(mapped[i] == t);
            assert(mapped.contains(t));
        }
    }
}

/// Assigns every cell its cluster: walking the cells in row-major order,
/// each not yet clustered cell gets a fresh id, spread with the
/// component's cell count over everything reachable from it. Afterwards
/// two cells carry the same id exactly when open links join them, and
/// every cell's recorded size is the exact number of cells of its
/// cluster.
pub fn assign_clusters(g: &Grid) -> (out: (Vec<usize>, Vec<usize>))
    requires
        grid_wf(*g),
        links_mirrored(*g),
    ensures
        out.0@.len() == g.rows * g.cols,
        out.1@.len() == g.rows * g.cols,
        forall|t: (int, int)|
            in_grid(*g, t.0, t.1) ==> 1 <= #[trigger] idp(out.0@, g.cols as int, t),
        forall|p: (int, int), q: (int, int)|
            #![trigger idp(out.0@, g.cols as int, p), idp(out.0@, g.cols as int, q)]
            in_grid(*g, p.0, p.1) && in_grid(*g, q.0, q.1) ==> ((idp(out.0@, g.cols as int, p)
                == idp(out.0@, g.cols as int, q)) <==> reachable(*g, p, q)),
        forall|t: (int, int)|
            #![trigger reach_set(*g, t)]
            in_grid(*g, t.0, t.1) ==> reach_set(*g, t).finite() && sizep(
                out.1@,
                g.cols as int,
                t,
            ) == reach_set(*g, t).len(),
{
    proof {
        assert(g.rows * g.cols <= 16777216 && g.rows * g.cols >= 1) by (nonlinear_arith)
            requires
                1 <= g.rows <= 4096,
                1 <= g.cols <= 4096,
        ;
    }
    let n: usize = g.rows * g.cols;
    let ghost cols = g.cols as int;
    let mut visited: Vec<bool> = Vec::new();
    let mut ids: Vec<usize> = Vec::new();
    let mut sizes: Vec<usize> = Vec::new();
    let mut f: usize = 0;
    while f < n
        invariant
            visited@.len() == f,
            ids@.len() == f,
            sizes@.len() == f,
            f <= n,
            forall|k: int| 0 <= k < f ==> !(#[trigger] visited@[k]),
            forall|k: int| 0 <= k < f ==> (#[trigger] ids@[k]) == 0,
        decreases n - f,
    {
        visited.push(false);
        ids.push(0);
        sizes.push(0);
        f = f + 1;
    }
    proof {
        assert forall|t: (int, int)| in_grid(*g, t.0, t.1) implies !marked(visited@, cols, t)
            && idp(ids@, cols, t) == 0 by {
            lemma_flat_index(t.0, t.1, g.rows as int, g.cols as int);
        }
    }
    let mut next_id: usize = 1;
    let mut r: usize = 0;
    while r < g.rows
        invariant
            grid_wf(*g),
            links_mirrored(*g),
            cols == g.cols as int,
            r <= g.rows,
            n == g.rows * g.cols,
            n <= 16777216,
            visited@.len() == n,
            ids@.len() == n,
            sizes@.len() == n,
            1 <= next_id <= r * g.cols + 1,
            forall|t: (int, int)|
                in_grid(*g, t.0, t.1) ==> (#[trigger] marked(visited@, cols, t) <==> idp(
                    ids@,
                    cols,
                    t,
                ) >= 1),
            forall|t: (int, int)|
                in_grid(*g, t.0, t.1) && t.0 * cols + t.1 < r * cols ==> #[trigger] marked(
                    visited@,
                    cols,
                    t,
                ),
            forall|p: (int, int), q: (int, int)|
                marked(visited@, cols, p) && in_grid(*g, p.0, p.1) && #[trigger] reachable(
                    *g,
                    p,
                    q,
                ) ==> marked(visited@, cols, q),
            forall|t: (int, int)|
                in_grid(*g, t.0, t.1) && #[trigger] marked(visited@, cols, t) ==> 1 <= idp(
                    ids@,
                    cols,
                    t,
                ) < next_id,
            forall|p: (int, int), q: (int, int)|
                #![trigger idp(ids@, cols, p), idp(ids@, cols, q)]
                in_grid(*g, p.0, p.1) && in_grid(*g, q.0, q.1) && marked(visited@, cols, p)
                    && marked(visited@, cols, q) ==> ((idp(ids@, cols, p) == idp(ids@, cols, q))
                    <==> reachable(*g, p, q)),
            forall|t: (int, int)|
                in_grid(*g, t.0, t.1) && #[trigger] marked(visited@, cols, t) ==> reach_set(
                    *g,
                    t,
                ).finite() && sizep(sizes@, cols, t) == reach_set(*g, t).len(),
        decreases g.rows - r,
    {
        let mut c: usize = 0;
        while c < g.cols
            invariant
                grid_wf(*g),
                links_mirrored(*g),
                cols == g.cols as int,
                r < g.rows,
                c <= g.cols,
                n == g.rows * g.cols,
                n <= 16777216,
                visited@.len() == n,
                ids@.len() == n,
                sizes@.len() == n,
                1 <= next_id <= r * g.cols + c + 1,
                forall|t: (int, int)|
                    in_grid(*g, t.0, t.1) ==> (#[trigger] marked(visited@, cols, t) <==> idp(
                        ids@,
                        cols,
                        t,
                    ) >= 1),
                forall|t: (int, int)|
                    in_grid(*g, t.0, t.1) && t.0 * cols + t.1 < r * cols + c ==> #[trigger] marked(
                        visited@,
                        cols,
                        t,
                    ),
                forall|p: (int, int), q: (int, int)|
                    marked(visited@, cols, p) && in_grid(*g, p.0, p.1) && #[trigger] reachable(
                        *g,
                        p,
                        q,
                    ) ==> marked(visited@, cols, q),
                forall|t: (int, int)|
                    in_grid(*g, t.0, t.1) && #[trigger] marked(visited@, cols, t) ==> 1 <= idp(
                        ids@,
                        cols,
                        t,
                    ) < next_id,
                forall|p: (int, int), q: (int, int)|
                    #![trigger idp(ids@, cols, p), idp(ids@, cols, q)]
                    in_grid(*g, p.0, p.1) && in_grid(*g, q.0, q.1) && marked(visited@, cols, p)
                        && marked(visited@, cols, q) ==> ((idp(ids@, cols, p) == idp(
                        ids@,
                        cols,
                        q,
                    )) <==> reachable(*g, p, q)),
                forall|t: (int, int)|
                    in_grid(*g, t.0, t.1) && #[trigger] marked(visited@, cols, t) ==> reach_set(
                        *g,
                        t,
                    ).finite() && sizep(sizes@, cols, t) == reach_set(*g, t).len(),
            decreases g.cols - c,
        {
            proof {
                lemma_flat_index(r as int, c as int, g.rows as int, g.cols as int);
            }
            let k: usize = r * g.cols + c;
            let ghost s = (r as int, c as int);
            if !visited[k] {
                proof {
                    assert(!marked(visited@, cols, s));
                    assert forall|t: (int, int)| #[trigger] reachable(*g, s, t) implies !vis(
                        visited@,
                        cols,
                        t.0,
                        t.1,
                    ) by {
                        if vis(visited@, cols, t.0, t.1) {
                            lemma_reachable_in_grid(*g, s, t);
                            assert(marked(visited@, cols, t));
                            lemma_reachable_symmetric(*g, s, t);
                            assert(marked(visited@, cols, s));
                        }
                    }
                }
                let ghost vis_before = visited@;
                let ghost ids_before = ids@;
                let ghost sizes_before = sizes@;
                let comp: Vec<(usize, usize)> = flood_fill(g, r, c, &mut visited);
                proof {
                    lemma_comp_counts_cluster(*g, s, comp@);
                }
                let csize: usize = comp.len();
                let mut m: usize = 0;
                while m < comp.len()
                    invariant
                        grid_wf(*g),
                        cols == g.cols as int,
                        n == g.rows * g.cols,
                        n <= 16777216,
                        ids@.len() == n,
                        sizes@.len() == n,
                        m <= comp@.len(),
                        csize == comp@.len(),
                        next_id >= 1,
                        forall|i: int|
                            0 <= i < comp@.len() ==> {
                                let t = cell_of(#[trigger] comp@[i]);
                                in_grid(*g, t.0, t.1)
                            },
                        forall|t: (int, int)|
                            in_grid(*g, t.0, t.1) ==> #[trigger] idp(ids@, cols, t) == (if mem(
                                comp@.take(m as int),
                                t,
                            ) {
                                next_id as int
                            } else {
                                idp(ids_before, cols, t)
                            }),
                        forall|t: (int, int)|
                            in_grid(*g, t.0, t.1) ==> #[trigger] sizep(sizes@, cols, t) == (if mem(
                                comp@.take(m as int),
                                t,
                            ) {
                                csize as int
                            } else {
                                sizep(sizes_before, cols, t)
                            }),
                    decreases comp@.len() - m,
                {
                    let cellm: (usize, usize) = comp[m];
                    proof {
                        assert(in_grid(*g, cell_of(comp@[m as int]).0, cell_of(comp@[m as int]).1));
                        lemma_flat_index(cellm.0 as int, cellm.1 as int, g.rows as int,
                            g.cols as int);
                    }
                    let km: usize = cellm.0 * g.cols + cellm.1;
                    let ghost ids_mid = ids@;
                    let ghost sizes_mid = sizes@;
                    ids.set(km, next_id);
                    sizes.set(km, csize);
                    proof {
                        assert(comp@.take(m as int + 1) =~= comp@.take(m as int).push(
                            comp@[m as int],
                        ));
                        assert forall|t: (int, int)| in_grid(*g, t.0, t.1) implies #[trigger] idp(
                            ids@,
                            cols,
                            t,
                        ) == (if mem(comp@.take(m as int + 1), t) {
                            next_id as int
                        } else {
                            idp(ids_before, cols, t)
                        }) by {
                            lemma_flat_index(t.0, t.1, g.rows as int, g.cols as int);
                            lemma_mem_push(comp@.take(m as int), comp@[m as int], t);
                            if t.0 * cols + t.1 == km {
                                lemma_flat_index_injective(t.0, t.1, cellm.0 as int,
                                    cellm.1 as int, g.cols as int);
                                assert(t == cell_of(comp@[m as int]));
                            } else {
                                assert(idp(ids@, cols, t) == idp(ids_mid, cols, t));
                                if cell_of(comp@[m as int]) == t {
                                    assert(t.0 * cols + t.1 == km);
                                }
                            }
                        }
                        assert forall|t: (int, int)| in_grid(*g, t.0, t.1) implies
                            #[trigger] sizep(sizes@, cols, t) == (if mem(
                            comp@.take(m as int + 1),
                            t,
                        ) {
                            csize as int
                        } else {
                            sizep(sizes_before, cols, t)
                        }) by {
                            lemma_flat_index(t.0, t.1, g.rows as int, g.cols as int);
                            lemma_mem_push(comp@.take(m as int), comp@[m as int], t);
                            if t.0 * cols + t.1 == km {
                                lemma_flat_index_injective(t.0, t.1, cellm.0 as int,
                                    cellm.1 as int, g.cols as int);
                                assert(t == cell_of(comp@[m as int]));
                            } else {
                                assert(sizep(sizes@, cols, t) == sizep(sizes_mid, cols, t));
                                if cell_of(comp@[m as int]) == t {
                                    assert(t.0 * cols + t.1 == km);
                                }
                            }
                        }
                    }
                    m = m + 1;
                }
                proof {
                    assert(comp@.take(comp@.len() as int) =~= comp@);
                    let new_marked = visited@;
                    // A cell is freshly clustered exactly when it lies in the
                    // component of `s`.
                    assert forall|t: (int, int)| in_grid(*g, t.0, t.1) implies (#[trigger] marked(
                        new_marked,
                        cols,
                        t,
                    ) == (marked(vis_before, cols, t) || reachable(*g, s, t))) by {
                        assert(vis(new_marked, cols, t.0, t.1) == (vis(vis_before, cols, t.0, t.1)
                            || reachable(*g, s, (t.0, t.1))));
                        assert((t.0, t.1) == t);
                    }
                    assert forall|t: (int, int)| in_grid(*g, t.0, t.1) && reachable(*g, s, t)
                        implies mem(comp@, t) && reach_set(*g, t).finite() && reach_set(
                        *g,
                        t,
                    ).len() == csize by {
                        lemma_reach_set_same(*g, s, t);
                    }
                    // the fresh id marks exactly the component
                    assert forall|t: (int, int)| in_grid(*g, t.0, t.1) implies #[trigger] idp(
                        ids@,
                        cols,
                        t,
                    ) == (if reachable(*g, s, t) {
                        next_id as int
                    } else {
                        idp(ids_before, cols, t)
                    }) by {
                        if mem(comp@, t) {
                            let i = choose|i: int| 0 <= i < comp@.len() && cell_of(comp@[i]) == t;
                            assert(reachable(*g, s, cell_of(comp@[i])));
                        }
                    }
                    assert forall|t: (int, int)| in_grid(*g, t.0, t.1) implies #[trigger] sizep(
                        sizes@,
                        cols,
                        t,
                    ) == (if reachable(*g, s, t) {
                        csize as int
                    } else {
                        sizep(sizes_before, cols, t)
                    }) by {
                        if mem(comp@, t) {
                            let i = choose|i: int| 0 <= i < comp@.len() && cell_of(comp@[i]) == t;
                            assert(reachable(*g, s, cell_of(comp@[i])));
                        }
                    }
                    // closure of the new marks under reach
                    assert forall|p: (int, int), q: (int, int)|
                        marked(visited@, cols, p) && in_grid(*g, p.0, p.1) && #[trigger] reachable(
                        *g,
                        p,
                        q,
                    ) implies marked(visited@, cols, q) by {
                        lemma_reachable_in_grid(*g, p, q);
                        if marked(vis_before, cols, p) {
                            assert(marked(vis_before, cols, q));
                        } else {
                            assert(reachable(*g, s, p));
                            lemma_reachable_trans(*g, s, p, q);
                        }
                    }
                    // the pairwise id law for the enlarged marked set
                    assert forall|p: (int, int), q: (int, int)|
                        #![trigger idp(ids@, cols, p), idp(ids@, cols, q)]
                        in_grid(*g, p.0, p.1) && in_grid(*g, q.0, q.1) && marked(visited@, cols, p)
                            && marked(visited@, cols, q) implies ((idp(ids@, cols, p) == idp(
                        ids@,
                        cols,
                        q,
                    )) <==> reachable(*g, p, q)) by {
                        if reachable(*g, s, p) && reachable(*g, s, q) {
                            lemma_reachable_symmetric(*g, s, p);
                            lemma_reachable_trans(*g, p, s, q);
                        } else if reachable(*g, s, p) {
                            assert(idp(ids@, cols, p) == next_id as int);
                            assert(marked(vis_before, cols, q));
                            assert(idp(ids@, cols, q) == idp(ids_before, cols, q) < next_id);
                            if reachable(*g, p, q) {
                                lemma_reachable_trans(*g, s, p, q);
                            }
                        } else if reachable(*g, s, q) {
                            assert(marked(vis_before, cols, p));
                            assert(idp(ids@, cols, p) == idp(ids_before, cols, p) < next_id);
                            if reachable(*g, p, q) {
                                assert(marked(vis_before, cols, q));
                            }
                        } else {
                            assert(marked(vis_before, cols, p) && marked(vis_before, cols, q));
                            assert(idp(ids@, cols, p) == idp(ids_before, cols, p));
                            assert(idp(ids@, cols, q) == idp(ids_before, cols, q));
                        }
                    }
                }
                next_id = next_id + 1;
                proof {
                    lemma_reachable_refl(*g, s);
                    assert(marked(visited@, cols, s));
                }
            } else {
                proof {
                    assert(marked(visited@, cols, s));
                }
            }
            proof {
                assert forall|t: (int, int)|
                    in_grid(*g, t.0, t.1) && t.0 * cols + t.1 < r * cols + c + 1 implies marked(
                    visited@,
                    cols,
                    t,
                ) by {
                    lemma_flat_index(t.0, t.1, g.rows as int, g.cols as int);
                    if t.0 * cols + t.1 == r * cols + c {
                        lemma_flat_index_injective(t.0, t.1, r as int, c as int, cols);
                    }
                }
            }
            c = c + 1;
            proof {
                assert(r * cols + c <= r * cols + g.cols);
            }
        }
        proof {
            assert(r * cols + g.cols == (r + 1) * cols) by (nonlinear_arith)
                requires
                    cols == g.cols as int,
            ;
        }
        r = r + 1;
    }
    proof {
        assert forall|t: (int, int)| in_grid(*g, t.0, t.1) implies 1 <= #[trigger] idp(
            ids@,
            cols,
            t,
        ) by {
            lemma_flat_index(t.0, t.1, g.rows as int, g.cols as int);
            assert(marked(visited@, cols, t));
        }
        assert forall|t: (int, int)|
            #![trigger reach_set(*g, t)]
            in_grid(*g, t.0, t.1) implies reach_set(*g, t).finite() && sizep(sizes@, cols, t)
            == reach_set(*g, t).len() by {
            lemma_flat_index(t.0, t.1, g.rows as int, g.cols as int);
            assert(marked(visited@, cols, t));
        }
        assert forall|p: (int, int), q: (int, int)|
            #![trigger idp(ids@, cols, p), idp(ids@, cols, q)]
            in_grid(*g, p.0, p.1) && in_grid(*g, q.0, q.1) implies ((idp(ids@, cols, p) == idp(
            ids@,
            cols,
            q,
        )) <==> reachable(*g, p, q)) by {
            lemma_flat_index(p.0, p.1, g.rows as int, g.cols as int);
            lemma_flat_index(q.0, q.1, g.rows as int, g.cols as int);
            assert(marked(visited@, cols, p) && marked(visited@, cols, q));
        }
    }
    (ids, sizes)
}

} // verus!
