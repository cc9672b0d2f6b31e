use crate::grid::{
    find_neighbours, find_possible_tiles_given_neighbours, neighbour, neighbours_to_vec, opt_seq, Grid, Neighbours,
};
use crate::tiles::{opposite, Catalog, Side};
use vstd::prelude::*;

verus! {

/// The sum of `f` over the domains of one column.
pub open spec fn col_sum(col: Seq<Vec<usize>>, f: spec_fn(Seq<usize>) -> nat) -> nat
    decreases col.len(),
{
    if col.len() == 0 {
        0
    } else {
        col_sum(col.drop_last(), f) + f(col.last()@)
    }
}

/// The sum of `f` over the domains of all cells.
pub open spec fn grid_sum(cols: Seq<Vec<Vec<usize>>>, f: spec_fn(Seq<usize>) -> nat) -> nat
    decreases cols.len(),
{
    if cols.len() == 0 {
        0
    } else {
        grid_sum(cols.drop_last(), f) + col_sum(cols.last()@, f)
    }
}

/// One for a cell that is not collapsed yet.
pub open spec fn unsettled() -> spec_fn(Seq<usize>) -> nat {
    |d: Seq<usize>| if d.len() > 1 { 1nat } else { 0nat }
}

/// What is left to narrow in a domain: its size, plus one unless it is
/// the fallback alone (which no re-evaluation changes).
pub open spec fn slack(fb: usize) -> spec_fn(Seq<usize>) -> nat {
    |d: Seq<usize>| d.len() + if d == seq![fb] { 0nat } else { 1nat }
}

/// Each cell of `g` keeps at most as many candidates as in `g0`, all taken
/// from `g0`'s, unless it holds the fallback alone.
pub open spec fn shrunk_from(g0: &Grid, g: &Grid, fb: usize) -> bool {
    &&& g.width == g0.width
    &&& g.height == g0.height
    &&& forall|x: int, y: int| #[trigger]
        g.in_bounds(x, y) ==> {
            &&& g.dom(x, y).len() <= g0.dom(x, y).len()
            &&& (g.dom(x, y) == seq![fb] || forall|k: int|
                0 <= k < g.dom(x, y).len() ==> g0.dom(x, y).contains(#[trigger] g.dom(x, y)[k]))
        }
}

proof fn lemma_col_update(col: Seq<Vec<usize>>, j: int, v: Vec<usize>, f: spec_fn(Seq<usize>) -> nat)
    requires
        0 <= j < col.len(),
    ensures
        col_sum(col.update(j, v), f) + f(col[j]@) == col_sum(col, f) + f(v@),
    decreases col.len(),
{
    if j == col.len() - 1 {
        assert(col.update(j, v).drop_last() =~= col.drop_last());
    } else {
        assert(col.update(j, v).drop_last() =~= col.drop_last().update(j, v));
        lemma_col_update(col.drop_last(), j, v, f);
    }
}

proof fn lemma_grid_update(cols: Seq<Vec<Vec<usize>>>, i: int, c: Vec<Vec<usize>>, f: spec_fn(Seq<usize>) -> nat)
    requires
        0 <= i < cols.len(),
    ensures
        grid_sum(cols.update(i, c), f) + col_sum(cols[i]@, f) == grid_sum(cols, f) + col_sum(c@, f),
    decreases cols.len(),
{
    if i == cols.len() - 1 {
        assert(cols.update(i, c).drop_last() =~= cols.drop_last());
    } else {
        assert(cols.update(i, c).drop_last() =~= cols.drop_last().update(i, c));
        lemma_grid_update(cols.drop_last(), i, c, f);
    }
}

/// Replacing one domain changes a grid sum by the difference at that cell.
pub proof fn lemma_cell_update(
    cols: Seq<Vec<Vec<usize>>>,
    i: int,
    j: int,
    c: Vec<Vec<usize>>,
    f: spec_fn(Seq<usize>) -> nat,
)
    requires
        0 <= i < cols.len(),
        0 <= j < cols[i]@.len(),
        c@.len() == cols[i]@.len(),
        forall|k: int| 0 <= k < c@.len() && k != j ==> c@[k]@ == cols[i]@[k]@,
    ensures
        grid_sum(cols.update(i, c), f) + f(cols[i]@[j]@) == grid_sum(cols, f) + f(c@[j]@),
{
    lemma_grid_update(cols, i, c, f);
    lemma_col_update(cols[i]@, j, c@[j], f);
    lemma_col_ext(cols[i]@.update(j, c@[j]), c@, f);
}

proof fn lemma_col_ext(a: Seq<Vec<usize>>, b: Seq<Vec<usize>>, f: spec_fn(Seq<usize>) -> nat)
    requires
        a.len() == b.len(),
        forall|k: int| 0 <= k < a.len() ==> a[k]@ == b[k]@,
    ensures
        col_sum(a, f) == col_sum(b, f),
    decreases a.len(),
{
    if a.len() > 0 {
        lemma_col_ext(a.drop_last(), b.drop_last(), f);
    }
}

proof fn lemma_col_le(a: Seq<Vec<usize>>, b: Seq<Vec<usize>>, f: spec_fn(Seq<usize>) -> nat)
    requires
        a.len() == b.len(),
        forall|k: int| 0 <= k < a.len() ==> f(a[k]@) <= f(b[k]@),
    ensures
        col_sum(a, f) <= col_sum(b, f),
    decreases a.len(),
{
    if a.len() > 0 {
        lemma_col_le(a.drop_last(), b.drop_last(), f);
    }
}

/// A grid sum grows with `f` taken cell by cell.
pub proof fn lemma_grid_le(a: Seq<Vec<Vec<usize>>>, b: Seq<Vec<Vec<usize>>>, f: spec_fn(Seq<usize>) -> nat)
    requires
        a.len() == b.len(),
        forall|i: int| 0 <= i < a.len() ==> #[trigger] a[i]@.len() == b[i]@.len(),
        forall|i: int, j: int| 0 <= i < a.len() && 0 <= j < a[i]@.len() ==> f(#[trigger] a[i]@[j]@) <= f(b[i]@[j]@),
    ensures
        grid_sum(a, f) <= grid_sum(b, f),
    decreases a.len(),
{
    if a.len() > 0 {
        lemma_grid_le(a.drop_last(), b.drop_last(), f);
        let i = a.len() - 1;
        assert forall|j: int| 0 <= j < a[i]@.len() implies f(a[i]@[j]@) <= f(b[i]@[j]@) by {}
        lemma_col_le(a.last()@, b.last()@, f);
    }
}

proof fn lemma_filter_sub(s: Seq<usize>, p: spec_fn(usize) -> bool)
    ensures
        s.filter(p).len() <= s.len(),
        s.filter(p).len() == s.len() ==> s.filter(p) == s,
        forall|k: int| 0 <= k < s.filter(p).len() ==> s.contains(#[trigger] s.filter(p)[k]),
        forall|k: int| 0 <= k < s.filter(p).len() ==> p(#[trigger] s.filter(p)[k]),
    decreases s.len(),
{
    reveal(Seq::filter);
    if s.len() > 0 {
        lemma_filter_sub(s.drop_last(), p);
        let sub = s.drop_last().filter(p);
        assert forall|k: int| 0 <= k < s.filter(p).len() implies s.contains(#[trigger] s.filter(p)[k]) && p(
            s.filter(p)[k],
        ) by {
            if k < sub.len() {
                assert(s.filter(p)[k] == sub[k]);
                let m = choose|m: int| 0 <= m < s.drop_last().len() && s.drop_last()[m] == sub[k];
                assert(s[m] == sub[k]);
            } else {
                assert(s[s.len() - 1] == s.filter(p)[k]);
            }
        }
        if s.filter(p).len() == s.len() {
            assert(s.filter(p) =~= s);
        }
    }
}

/// Facts about one re-evaluation: it never grows a domain, keeps only
/// candidates it had unless it gives the fallback alone, and when it
/// changes the domain it lowers its slack.
pub proof fn lemma_narrowed(cat: &Catalog, g: &Grid, x: int, y: int)
    requires
        cat.wf(),
        g.wf(cat.tiles@.len()),
        g.in_bounds(x, y),
    ensures
        g.narrowed(cat, x, y).len() <= g.dom(x, y).len(),
        g.narrowed(cat, x, y).len() >= 1,
        g.narrowed(cat, x, y) == seq![cat.fallback] || forall|k: int|
            0 <= k < g.narrowed(cat, x, y).len() ==> g.dom(x, y).contains(#[trigger] g.narrowed(cat, x, y)[k]),
        forall|k: int|
            0 <= k < g.narrowed(cat, x, y).len() ==> #[trigger] g.narrowed(cat, x, y)[k] < cat.tiles@.len(),
        g.narrowed(cat, x, y) != g.dom(x, y) ==> (slack(cat.fallback))(g.narrowed(cat, x, y)) < (slack(
            cat.fallback,
        ))(g.dom(x, y)),
        g.narrowed(cat, x, y) == g.dom(x, y) && !g.degenerate(x, y) && g.filtered(cat, x, y).len() > 0
            ==> forall|k: int| 0 <= k < g.dom(x, y).len() ==> g.fits(cat, x, y, #[trigger] g.dom(x, y)[k]),
{
    let d = g.dom(x, y);
    lemma_filter_sub(d, g.fits_pred(cat, x, y));
    let n = g.narrowed(cat, x, y);
    if n == d && !g.degenerate(x, y) && g.filtered(cat, x, y).len() > 0 {
        assert forall|k: int| 0 <= k < d.len() implies g.fits(cat, x, y, #[trigger] d[k]) by {
            assert(g.filtered(cat, x, y)[k] == d[k]);
        }
    }
    if n != seq![cat.fallback] {
        assert forall|k: int| 0 <= k < n.len() implies #[trigger] n[k] < cat.tiles@.len() by {
            assert(d.contains(n[k]));
        }
    }
    if n != d && n != seq![cat.fallback] && d == seq![cat.fallback] {
        assert(n.len() == 1);
        assert(d.contains(n[0]));
        assert(n =~= seq![cat.fallback]);
    }
}

/// Every candidate of `(x, y)` fits the neighbour on side `s`.
pub open spec fn supported(g: &Grid, cat: &Catalog, x: int, y: int, s: Side) -> bool {
    forall|k: int| 0 <= k < g.dom(x, y).len() ==> g.fits_side(cat, x, y, #[trigger] g.dom(x, y)[k], s)
}

/// The pair of `(x, y)` and its neighbour on side `s` is settled: one of
/// them is still to be re-evaluated, one holds the fallback alone, both are
/// uncollapsed, or the candidates of one of them all fit the other.
pub open spec fn agrees(g: &Grid, cat: &Catalog, work: Seq<(usize, usize)>, x: int, y: int, s: Side) -> bool {
    match g.neighbour(x, y, s) {
        None => true,
        Some(p) => {
            ||| work.contains((x as usize, y as usize))
            ||| work.contains(p)
            ||| g.dom(x, y) == seq![cat.fallback]
            ||| g.dom(p.0 as int, p.1 as int) == seq![cat.fallback]
            ||| (g.dom(x, y).len() > 1 && g.dom(p.0 as int, p.1 as int).len() > 1)
            ||| supported(g, cat, x, y, s)
            ||| supported(g, cat, p.0 as int, p.1 as int, opposite(s))
        },
    }
}

/// Every neighbouring pair of cells agrees.
pub open spec fn consistent(g: &Grid, cat: &Catalog, work: Seq<(usize, usize)>) -> bool {
    forall|x: int, y: int, s: Side| g.in_bounds(x, y) ==> #[trigger] agrees(g, cat, work, x, y, s)
}

/// Two grids of one shape that differ at most at `(x, y)`.
pub open spec fn same_but(g: &Grid, h: &Grid, x: int, y: int) -> bool {
    &&& g.width == h.width
    &&& g.height == h.height
    &&& forall|a: int, b: int| #[trigger] h.in_bounds(a, b) && !(a == x && b == y) ==> h.dom(a, b) == g.dom(a, b)
}

/// A neighbour lies in the grid, is another cell, and has the first cell
/// as its neighbour on the opposite side.
pub proof fn lemma_neighbour_inverse(w: int, h: int, x: int, y: int, s: Side)
    requires
        0 <= x < w,
        0 <= y < h,
        w <= usize::MAX,
        h <= usize::MAX,
    ensures
        neighbour(w, h, x, y, s) matches Some(p) ==> {
            &&& 0 <= p.0 < w
            &&& 0 <= p.1 < h
            &&& !(p.0 == x && p.1 == y)
            &&& neighbour(w, h, p.0 as int, p.1 as int, opposite(s)) == Some((x as usize, y as usize))
        },
{
}

/// A neighbour that is there is in the list of present neighbours.
pub proof fn lemma_present_contains(nb: Neighbours, s: Side)
    ensures
        nb.side(s) matches Some(q) ==> nb.present().contains(q),
{
    let t = opt_seq_len(nb.top);
    let b = opt_seq_len(nb.bottom);
    let l = opt_seq_len(nb.left);
    match nb.side(s) {
        Some(q) => {
            let i = match s {
                Side::Top => 0,
                Side::Bottom => t,
                Side::Left => t + b,
                Side::Right => t + b + l,
            };
            assert(nb.present()[i] == q);
        },
        None => {},
    }
}

/// Every listed neighbour lies in the grid.
pub proof fn lemma_present_in_bounds(w: int, h: int, x: int, y: int, nb: Neighbours, q: (usize, usize))
    requires
        0 <= x < w,
        0 <= y < h,
        w <= usize::MAX,
        h <= usize::MAX,
        nb.top == neighbour(w, h, x, y, Side::Top),
        nb.bottom == neighbour(w, h, x, y, Side::Bottom),
        nb.left == neighbour(w, h, x, y, Side::Left),
        nb.right == neighbour(w, h, x, y, Side::Right),
        nb.present().contains(q),
    ensures
        0 <= q.0 < w,
        0 <= q.1 < h,
{
    let m = choose|m: int| 0 <= m < nb.present().len() && nb.present()[m] == q;
    assert(crate::grid::opt_seq(nb.top).len() <= 1);
}

spec fn opt_seq_len(o: Option<(usize, usize)>) -> int {
    if o is Some { 1 } else { 0 }
}

/// Whether a tile fits a side of `(x, y)` does not depend on the domain of
/// `(x, y)` itself.
proof fn lemma_fits_side_frame(cat: &Catalog, g: &Grid, h: &Grid, x: int, y: int, c: usize, s: Side)
    requires
        g.in_bounds(x, y),
        same_but(g, h, x, y),
    ensures
        g.fits_side(cat, x, y, c, s) == h.fits_side(cat, x, y, c, s),
{
    lemma_neighbour_inverse(g.width as int, g.height as int, x, y, s);
    if let Some(p) = g.neighbour(x, y, s) {
        assert(h.in_bounds(p.0 as int, p.1 as int));
        assert(h.dom(p.0 as int, p.1 as int) == g.dom(p.0 as int, p.1 as int));
    }
}

/// A re-evaluation of the last cell of the worklist keeps every pair
/// settled, whether or not it changed the cell.
proof fn lemma_step_consistent(
    cat: &Catalog,
    g: &Grid,
    h: &Grid,
    work: Seq<(usize, usize)>,
    work2: Seq<(usize, usize)>,
    x: int,
    y: int,
)
    requires
        cat.wf(),
        g.wf(cat.tiles@.len()),
        g.in_bounds(x, y),
        consistent(g, cat, work),
        work.len() > 0,
        work.last() == (x as usize, y as usize),
        same_but(g, h, x, y),
        h.dom(x, y) == g.narrowed(cat, x, y),
        forall|q: (usize, usize)| work.drop_last().contains(q) ==> work2.contains(q),
    ensures
        consistent(h, cat, work2),
{
    let fb = cat.fallback;
    let nd = g.narrowed(cat, x, y);
    lemma_filter_sub(g.dom(x, y), g.fits_pred(cat, x, y));
    assert forall|a: int, b: int, s: Side| h.in_bounds(a, b) implies #[trigger] agrees(h, cat, work2, a, b, s) by {
        lemma_neighbour_inverse(g.width as int, g.height as int, a, b, s);
        assert(g.in_bounds(a, b));
        assert(agrees(g, cat, work, a, b, s));
        match g.neighbour(a, b, s) {
            None => {},
            Some(p) => {
                let pa = p.0 as int;
                let pb = p.1 as int;
                if a == x && b == y {
                    if nd != seq![fb] {
                        assert forall|k: int| 0 <= k < h.dom(a, b).len() implies h.fits_side(
                            cat,
                            a,
                            b,
                            #[trigger] h.dom(a, b)[k],
                            s,
                        ) by {
                            assert((g.fits_pred(cat, x, y))(nd[k]));
                            lemma_fits_side_frame(cat, g, h, x, y, nd[k], s);
                        }
                        assert(supported(h, cat, a, b, s));
                    }
                } else if pa == x && pb == y {
                    lemma_neighbour_inverse(g.width as int, g.height as int, pa, pb, opposite(s));
                    if nd != seq![fb] {
                        assert forall|k: int| 0 <= k < h.dom(pa, pb).len() implies h.fits_side(
                            cat,
                            pa,
                            pb,
                            #[trigger] h.dom(pa, pb)[k],
                            opposite(s),
                        ) by {
                            assert((g.fits_pred(cat, x, y))(nd[k]));
                            lemma_fits_side_frame(cat, g, h, x, y, nd[k], opposite(s));
                        }
                        assert(supported(h, cat, pa, pb, opposite(s)));
                    }
                } else {
                    lemma_neighbour_inverse(g.width as int, g.height as int, pa, pb, opposite(s));
                    assert(h.dom(a, b) == g.dom(a, b));
                    assert(h.in_bounds(pa, pb));
                    assert(h.dom(pa, pb) == g.dom(pa, pb));
                    if work.contains((a as usize, b as usize)) {
                        let m = choose|m: int| 0 <= m < work.len() && work[m] == (a as usize, b as usize);
                        assert(work.drop_last()[m] == work[m]);
                    }
                    if work.contains(p) {
                        let m = choose|m: int| 0 <= m < work.len() && work[m] == p;
                        assert(work.drop_last()[m] == work[m]);
                    }
                    if supported(g, cat, a, b, s) {
                        assert forall|k: int| 0 <= k < h.dom(a, b).len() implies h.fits_side(
                            cat,
                            a,
                            b,
                            #[trigger] h.dom(a, b)[k],
                            s,
                        ) by {
                            assert(g.fits_side(cat, a, b, g.dom(a, b)[k], s));
                        }
                    }
                    if supported(g, cat, pa, pb, opposite(s)) {
                        assert forall|k: int| 0 <= k < h.dom(pa, pb).len() implies h.fits_side(
                            cat,
                            pa,
                            pb,
                            #[trigger] h.dom(pa, pb)[k],
                            opposite(s),
                        ) by {
                            assert(g.fits_side(cat, pa, pb, g.dom(pa, pb)[k], opposite(s)));
                        }
                    }
                }
            },
        }
    }
}

/// The in-bounds neighbours of `(x, y)`, top, bottom, left, right.
pub open spec fn neighbour_list(w: int, h: int, x: int, y: int) -> Seq<(usize, usize)> {
    opt_seq(neighbour(w, h, x, y, Side::Top)) + opt_seq(neighbour(w, h, x, y, Side::Bottom)) + opt_seq(
        neighbour(w, h, x, y, Side::Left),
    ) + opt_seq(neighbour(w, h, x, y, Side::Right))
}

/// One step of propagation from grid `g` with worklist `work` to `g2` with
/// `work2`: the last cell of the worklist is taken off and re-evaluated; if
/// its domain changes, it is replaced and the cell's neighbours are queued.
pub open spec fn step_rel(
    cat: &Catalog,
    g: &Grid,
    work: Seq<(usize, usize)>,
    g2: &Grid,
    work2: Seq<(usize, usize)>,
) -> bool {
    work.len() > 0 && {
        let x = work.last().0 as int;
        let y = work.last().1 as int;
        let nd = g.narrowed(cat, x, y);
        &&& g.in_bounds(x, y)
        &&& same_but(g, g2, x, y)
        &&& g2.dom(x, y) == nd
        &&& work2 == if nd == g.dom(x, y) {
            work.drop_last()
        } else {
            work.drop_last() + neighbour_list(g.width as int, g.height as int, x, y)
        }
    }
}

/// Step `i` of a propagation trace is a step of the process.
pub open spec fn trace_step(cat: &Catalog, gs: Seq<Grid>, ws: Seq<Seq<(usize, usize)>>, i: int) -> bool {
    step_rel(cat, &gs[i], ws[i], &gs[i + 1], ws[i + 1])
}

/// Propagation from `g` with worklist `work` ends in `g2`: a chain of
/// steps leads from the one to the other and empties the worklist.
pub open spec fn propagates(cat: &Catalog, g: &Grid, work: Seq<(usize, usize)>, g2: &Grid) -> bool {
    exists|gs: Seq<Grid>, ws: Seq<Seq<(usize, usize)>>|
        {
            &&& gs.len() == ws.len()
            &&& gs.len() >= 1
            &&& gs[0] == *g
            &&& ws[0] == work
            &&& gs.last() == *g2
            &&& ws.last().len() == 0
            &&& forall|i: int| 0 <= i < gs.len() - 1 ==> #[trigger] trace_step(cat, gs, ws, i)
        }
}

/// The grid is one cell wide or one cell tall.
pub open spec fn thin(g: &Grid) -> bool {
    g.width == 1 || g.height == 1
}

/// Next to every cell that holds the fallback alone, each neighbour holds
/// it too or is still queued.
pub open spec fn fb_spreads(g: &Grid, fb: usize, work: Seq<(usize, usize)>) -> bool {
    forall|x: int, y: int, s: Side|
        g.in_bounds(x, y) && #[trigger] g.neighbour(x, y, s) is Some && g.dom(x, y) == seq![fb] ==> {
            let p = g.neighbour(x, y, s)->Some_0;
            g.dom(p.0 as int, p.1 as int) == seq![fb] || work.contains(p)
        }
}

/// Re-evaluating a cell of a thin grid gives the fallback alone.
proof fn lemma_thin_narrowed(cat: &Catalog, g: &Grid, x: int, y: int)
    requires
        thin(g),
        g.in_bounds(x, y),
    ensures
        g.narrowed(cat, x, y) == seq![cat.fallback],
{
}

proof fn lemma_step_spreads(
    fb: usize,
    g: &Grid,
    h: &Grid,
    work: Seq<(usize, usize)>,
    work2: Seq<(usize, usize)>,
    x: int,
    y: int,
)
    requires
        g.in_bounds(x, y),
        fb_spreads(g, fb, work),
        work.len() > 0,
        work.last() == (x as usize, y as usize),
        same_but(g, h, x, y),
        h.dom(x, y) == seq![fb],
        forall|q: (usize, usize)| work.drop_last().contains(q) ==> work2.contains(q),
        g.dom(x, y) != seq![fb] ==> forall|s: Side|
            #[trigger] g.neighbour(x, y, s) is Some ==> work2.contains(g.neighbour(x, y, s)->Some_0),
    ensures
        fb_spreads(h, fb, work2),
{
    assert forall|a: int, b: int, s: Side|
        h.in_bounds(a, b) && #[trigger] h.neighbour(a, b, s) is Some && h.dom(a, b) == seq![fb] implies {
        let p = h.neighbour(a, b, s)->Some_0;
        h.dom(p.0 as int, p.1 as int) == seq![fb] || work2.contains(p)
    } by {
        lemma_neighbour_inverse(g.width as int, g.height as int, a, b, s);
        let p = h.neighbour(a, b, s)->Some_0;
        assert(g.neighbour(a, b, s) == Some(p));
        assert(h.in_bounds(p.0 as int, p.1 as int));
        if !(p.0 == x && p.1 == y) {
            if a == x && b == y && g.dom(x, y) != seq![fb] {
            } else {
                assert(g.in_bounds(a, b));
                assert(g.dom(a, b) == seq![fb]);
                assert(h.dom(p.0 as int, p.1 as int) == g.dom(p.0 as int, p.1 as int));
                if work.contains(p) {
                    let m = choose|m: int| 0 <= m < work.len() && work[m] == p;
                    assert(work.drop_last()[m] == work[m]);
                }
            }
        }
    }
}

/// Whether two domains hold the same candidates in the same order.
pub fn same_domain(a: &Vec<usize>, b: &Vec<usize>) -> (r: bool)
    ensures
        r == (a@ == b@),
{
    if a.len() != b.len() {
        return false;
    }
    let mut i: usize = 0;
    while i < a.len()
        invariant
            i <= a@.len(),
            a@.len() == b@.len(),
            forall|k: int| 0 <= k < i ==> a@[k] == b@[k],
        decreases a@.len() - i,
    {
        if a[i] != b[i] {
            return false;
        }
        i = i + 1;
    }
    assert(a@ =~= b@);
    true
}

/// Re-evaluates the cells of `work`, and the neighbours of every cell that
/// changes, until no cell changes any more.
pub fn propagate(cat: &Catalog, g: &mut Grid, work: Vec<(usize, usize)>)
    requires
        cat.wf(),
        old(g).wf(cat.tiles@.len()),
        forall|k: int| 0 <= k < work@.len() ==> old(g).in_bounds(#[trigger] work@[k].0 as int, work@[k].1 as int),
    ensures
        final(g).wf(cat.tiles@.len()),
        shrunk_from(old(g), final(g), cat.fallback),
        consistent(old(g), cat, work@) ==> consistent(final(g), cat, Seq::empty()),
        propagates(cat, old(g), work@, final(g)),
        thin(old(g)) && fb_spreads(old(g), cat.fallback, work@) ==> fb_spreads(final(g), cat.fallback, Seq::empty()),
        thin(old(g)) && work@.len() > 0 ==> final(g).dom(work@.last().0 as int, work@.last().1 as int) == seq![
            cat.fallback,
        ],
{
    let ghost spreads = thin(g) && fb_spreads(g, cat.fallback, work@);
    proof {
        if work@.len() > 0 {
            assert(g.in_bounds(work@[work@.len() - 1].0 as int, work@[work@.len() - 1].1 as int));
        }
    }
    let ghost mut popped = false;
    let ghost agreed = consistent(g, cat, work@);
    let ghost mut gs: Seq<Grid> = seq![*g];
    let ghost mut ws: Seq<Seq<(usize, usize)>> = seq![work@];
    let ghost g0 = *g;
    let ghost work0 = work@;
    let ghost n = cat.tiles@.len();
    let ghost fb = cat.fallback;
    let mut work = work;
    while work.len() > 0
        invariant
            cat.wf(),
            n == cat.tiles@.len(),
            fb == cat.fallback,
            g.wf(n),
            g0.wf(n),
            shrunk_from(&g0, g, fb),
            forall|k: int| 0 <= k < work@.len() ==> g.in_bounds(#[trigger] work@[k].0 as int, work@[k].1 as int),
            agreed ==> consistent(g, cat, work@),
            gs.len() == ws.len(),
            gs.len() >= 1,
            gs[0] == g0,
            ws[0] == work0,
            gs.last() == *g,
            ws.last() == work@,
            forall|i: int| 0 <= i < gs.len() - 1 ==> #[trigger] trace_step(cat, gs, ws, i),
            spreads ==> fb_spreads(g, fb, work@),
            spreads ==> thin(&g0),
            work0.len() > 0 ==> g0.in_bounds(work0.last().0 as int, work0.last().1 as int),
            !popped ==> work@ == work0,
            popped ==> work0.len() > 0 && thin(&g0) ==> g.dom(work0.last().0 as int, work0.last().1 as int) == seq![fb],
        decreases grid_sum(g.cells@, slack(fb)), work@.len(),
    {
        let ghost pending = work@;
        let ghost was_popped = popped;
        let ghost g_iter = *g;
        let (x, y) = work.pop().unwrap();
        proof {
            assert(pending.drop_last() =~= work@);
            assert(g.in_bounds(pending[pending.len() - 1].0 as int, pending[pending.len() - 1].1 as int));
        }
        let new = find_possible_tiles_given_neighbours(cat, g, x, y);
        proof {
            lemma_narrowed(cat, g, x as int, y as int);
            if thin(&g0) {
                lemma_thin_narrowed(cat, g, x as int, y as int);
            }
        }
        if same_domain(&new, &g.cells[x][y]) {
            proof {
                if agreed {
                    lemma_step_consistent(cat, g, g, pending, work@, x as int, y as int);
                }
                assert(step_rel(cat, g, pending, g, work@));
                if spreads {
                    lemma_step_spreads(fb, g, g, pending, work@, x as int, y as int);
                }
                popped = true;
                lemma_trace_push(cat, gs, ws, *g, work@);
                gs = gs.push(*g);
                ws = ws.push(work@);
            }
        } else {
            let ghost before = *g;
            g.cells[x][y] = new;
            proof {
                lemma_cell_update(before.cells@, x as int, y as int, g.cells@[x as int], slack(fb));
                assert forall|a: int, b: int| #[trigger] g.in_bounds(a, b) implies g.dom(a, b) == if a == x && b
                    == y {
                    before.narrowed(cat, x as int, y as int)
                } else {
                    before.dom(a, b)
                } by {}
                assert(g.shaped());
                let d = before.narrowed(cat, x as int, y as int);
                if d != seq![fb] && before.dom(x as int, y as int) == seq![fb] {
                    assert(d.len() == 1);
                    assert(before.dom(x as int, y as int).contains(d[0]));
                    assert(d =~= seq![fb]);
                }
                if d != seq![fb] {
                    assert forall|k: int| 0 <= k < d.len() implies g0.dom(x as int, y as int).contains(#[trigger] d[k]) by {
                        assert(before.dom(x as int, y as int).contains(d[k]));
                        let m = choose|m: int| 0 <= m < before.dom(x as int, y as int).len() && before.dom(x as int, y as int)[m] == d[k];
                        assert(g0.dom(x as int, y as int).contains(before.dom(x as int, y as int)[m]));
                    }
                }
                assert forall|a: int, b: int| #[trigger] g.in_bounds(a, b) implies {
                    &&& g.dom(a, b).len() >= 1
                    &&& forall|k: int| 0 <= k < g.dom(a, b).len() ==> g.dom(a, b)[k] < n
                } by {
                    if a == x && b == y {
                        assert(g.dom(a, b) == d);
                    } else {
                        assert(before.in_bounds(a, b));
                    }
                }
                assert forall|a: int, b: int| #[trigger] g.in_bounds(a, b) implies {
                    &&& g.dom(a, b).len() <= g0.dom(a, b).len()
                    &&& (g.dom(a, b) == seq![fb] || forall|k: int|
                        0 <= k < g.dom(a, b).len() ==> g0.dom(a, b).contains(#[trigger] g.dom(a, b)[k]))
                } by {
                    if a == x && b == y {
                        assert(g.dom(a, b) == d);
                    } else {
                        assert(before.in_bounds(a, b));
                    }
                }
            }
            let around = find_neighbours(g.width, g.height, x, y);
            let mut more = neighbours_to_vec(&around);
            let ghost rest = work@;
            let ghost more_v = more@;
            work.append(&mut more);
            proof {
                assert forall|q: (usize, usize)| pending.drop_last().contains(q) implies work@.contains(q) by {
                    let m = choose|m: int| 0 <= m < rest.len() && rest[m] == q;
                    assert(work@[m] == q);
                }
                assert forall|k: int| 0 <= k < work@.len() implies g.in_bounds(
                    #[trigger] work@[k].0 as int,
                    work@[k].1 as int,
                ) by {
                    if k >= rest.len() {
                        let q = work@[k];
                        assert(around.present().contains(q));
                        lemma_present_in_bounds(g.width as int, g.height as int, x as int, y as int, around, q);
                    }
                }
                if agreed {
                    lemma_step_consistent(cat, &before, g, pending, work@, x as int, y as int);
                }
                assert(around.present() =~= neighbour_list(g.width as int, g.height as int, x as int, y as int));
                assert(work@ =~= pending.drop_last() + neighbour_list(g.width as int, g.height as int, x as int, y as int));
                assert(step_rel(cat, &before, pending, g, work@));
                if spreads {
                    assert forall|s: Side| #[trigger] before.neighbour(x as int, y as int, s) is Some implies work@.contains(
                        before.neighbour(x as int, y as int, s)->Some_0,
                    ) by {
                        lemma_present_contains(around, s);
                        let q = before.neighbour(x as int, y as int, s)->Some_0;
                        let m = choose|m: int| 0 <= m < more_v.len() && more_v[m] == q;
                        assert(work@[rest.len() + m] == q);
                    }
                    lemma_step_spreads(fb, &before, g, pending, work@, x as int, y as int);
                }
                popped = true;
                lemma_trace_push(cat, gs, ws, *g, work@);
                gs = gs.push(*g);
                ws = ws.push(work@);
            }
        }
        proof {
            if work0.len() > 0 && thin(&g0) {
                lemma_thin_narrowed(cat, &g_iter, x as int, y as int);
                assert(g.dom(x as int, y as int) == seq![fb]);
                let f = work0.last();
                if !was_popped {
                    assert(f == (x, y));
                } else if !(f.0 == x && f.1 == y) {
                    assert(g.in_bounds(f.0 as int, f.1 as int));
                    assert(g.dom(f.0 as int, f.1 as int) == g_iter.dom(f.0 as int, f.1 as int));
                }
            }
        }
    }
    assert(work@ =~= Seq::<(usize, usize)>::empty());
    assert(propagates(cat, &g0, work0, g));
}

proof fn lemma_trace_push(
    cat: &Catalog,
    gs: Seq<Grid>,
    ws: Seq<Seq<(usize, usize)>>,
    g: Grid,
    w: Seq<(usize, usize)>,
)
    requires
        gs.len() == ws.len(),
        gs.len() >= 1,
        forall|i: int| 0 <= i < gs.len() - 1 ==> #[trigger] trace_step(cat, gs, ws, i),
        step_rel(cat, &gs.last(), ws.last(), &g, w),
    ensures
        forall|i: int| 0 <= i < gs.len() ==> #[trigger] trace_step(cat, gs.push(g), ws.push(w), i),
{
    assert forall|i: int| 0 <= i < gs.len() implies #[trigger] trace_step(cat, gs.push(g), ws.push(w), i) by {
        if i < gs.len() - 1 {
            assert(trace_step(cat, gs, ws, i));
        }
    }
}

} // verus!
