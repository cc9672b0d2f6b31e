use crate::collapse::{chosen, collapse_with, draw_bound, draw_weights, total};
use crate::grid::{find_neighbours, get_lowest_entropy_tile, lowest_at, neighbour, neighbours_to_vec, Grid};
use crate::propagate::{
    agrees, col_sum, consistent, fb_spreads, grid_sum, neighbour_list, propagates, thin, lemma_cell_update, lemma_grid_le, lemma_neighbour_inverse, propagate,
    same_but, shrunk_from, supported, unsettled,
};
use crate::catalog::{make_tile_indexes, standard_tiles, MAP_HEIGHT, MAP_WIDTH, STANDARD_FALLBACK};
use crate::tiles::{opposite, Catalog, Side, TileDef};
use rand::rngs::StdRng;
use vstd::prelude::*;

verus! {

#[verifier::external_type_specification]
#[verifier::external_body]
pub struct ExStdRng(StdRng);

/// Relies on rand's `Rng::random_range`: a draw from `0..bound` lies in
/// that range.  It panics on an empty range, which `requires` excludes.
#[verifier::external_body]
fn draw_below(rng: &mut StdRng, bound: u128) -> (r: u128)
    requires
        bound > 0,
    ensures
        r < bound,
{
    rand::Rng::random_range(rng, 0..bound)
}

/// Pins a non-empty domain to one candidate, drawn at random by the weights
/// of the candidates' kinds (uniformly when all of them weigh zero).
pub fn collapse(cat: &Catalog, d: &mut Vec<usize>, rng: &mut StdRng)
    requires
        old(d)@.len() > 0,
        forall|k: int| 0 <= k < old(d)@.len() ==> old(d)@[k] < cat.tiles@.len(),
    ensures
        exists|r: int|
            0 <= r < total(draw_weights(cat, old(d)@)) && final(d)@ == seq![
                old(d)@[chosen(draw_weights(cat, old(d)@), r)],
            ],
        final(d)@.len() == 1,
        old(d)@.contains(final(d)@[0]),
{
    let bound = draw_bound(cat, d);
    let r = draw_below(rng, bound);
    let ghost before = d@;
    collapse_with(cat, d, r);
    assert(before[chosen(draw_weights(cat, before), r as int)] == d@[0]);
}

/// A grid of `w` by `h` cells whose domains all hold every tile of a
/// catalog of `n` tiles, in catalog order.
pub fn full_grid(n: usize, w: usize, h: usize) -> (g: Grid)
    ensures
        g.width == w,
        g.height == h,
        g.shaped(),
        forall|x: int, y: int| #[trigger] g.in_bounds(x, y) ==> g.dom(x, y) == Seq::new(n as nat, |i: int| i as usize),
{
    let mut cells: Vec<Vec<Vec<usize>>> = Vec::new();
    let mut x: usize = 0;
    while x < w
        invariant
            x <= w,
            cells@.len() == x,
            forall|a: int| 0 <= a < x ==> #[trigger] cells@[a]@.len() == h,
            forall|a: int, b: int|
                0 <= a < x && 0 <= b < h ==> #[trigger] cells@[a]@[b]@ == Seq::new(n as nat, |i: int| i as usize),
        decreases w - x,
    {
        let mut col: Vec<Vec<usize>> = Vec::new();
        let mut y: usize = 0;
        while y < h
            invariant
                y <= h,
                col@.len() == y,
                forall|b: int| 0 <= b < y ==> #[trigger] col@[b]@ == Seq::new(n as nat, |i: int| i as usize),
            decreases h - y,
        {
            let mut d: Vec<usize> = Vec::new();
            let mut i: usize = 0;
            while i < n
                invariant
                    i <= n,
                    d@ =~= Seq::new(i as nat, |k: int| k as usize),
                decreases n - i,
            {
                d.push(i);
                i = i + 1;
            }
            col.push(d);
            y = y + 1;
        }
        cells.push(col);
        x = x + 1;
    }
    Grid { width: w, height: h, cells }
}

/// The neighbourhood of `(x, y)` is still to be re-evaluated.
pub open spec fn around_pending(g: &Grid, work: Seq<(usize, usize)>, x: int, y: int) -> bool {
    forall|s: Side| #[trigger] g.neighbour(x, y, s) is Some ==> work.contains(g.neighbour(x, y, s)->Some_0)
}

/// Every cell holds exactly one tile.
pub open spec fn solved(g: &Grid) -> bool {
    forall|x: int, y: int| #[trigger] g.in_bounds(x, y) ==> g.dom(x, y).len() == 1
}

/// Any two neighbouring cells of which neither holds the fallback tile
/// expose the same edge to each other.
pub open spec fn sound(g: &Grid, cat: &Catalog) -> bool {
    sound_in(g, cat.tiles@, cat.fallback)
}

/// `sound` over a table of tiles `tiles` with fallback position `fb`.
pub open spec fn sound_in(g: &Grid, tiles: Seq<TileDef>, fb: usize) -> bool {
    forall|x: int, y: int, s: Side| g.in_bounds(x, y) && #[trigger] g.neighbour(x, y, s) is Some ==> {
        let p = g.neighbour(x, y, s)->Some_0;
        g.dom(x, y)[0] != fb && g.dom(p.0 as int, p.1 as int)[0] != fb ==> tiles[g.dom(x, y)[0] as int].edge_spec(s)
            == tiles[g.dom(p.0 as int, p.1 as int)[0] as int].edge_spec(opposite(s))
    }
}

/// At most one unsettled cell per cell of the grid.
proof fn lemma_unsettled_bound(cols: Seq<Vec<Vec<usize>>>, h: int)
    requires
        h >= 0,
        forall|i: int| 0 <= i < cols.len() ==> #[trigger] cols[i]@.len() == h,
    ensures
        grid_sum(cols, unsettled()) <= cols.len() * h,
    decreases cols.len(),
{
    if cols.len() > 0 {
        lemma_unsettled_bound(cols.drop_last(), h);
        lemma_col_bound(cols.last()@);
        assert((cols.len() - 1) * h + h == cols.len() * h) by (nonlinear_arith);
    }
}

proof fn lemma_col_bound(col: Seq<Vec<usize>>)
    ensures
        col_sum(col, unsettled()) <= col.len(),
    decreases col.len(),
{
    if col.len() > 0 {
        lemma_col_bound(col.drop_last());
    }
}

/// Collapsing one cell keeps every pair settled once the cell's neighbours
/// are queued.
proof fn lemma_collapse_consistent(cat: &Catalog, g: &Grid, h: &Grid, work: Seq<(usize, usize)>, x: int, y: int)
    requires
        g.in_bounds(x, y),
        consistent(g, cat, Seq::empty()),
        same_but(g, h, x, y),
        around_pending(g, work, x, y),
    ensures
        consistent(h, cat, work),
{
    assert forall|a: int, b: int, s: Side| h.in_bounds(a, b) implies #[trigger] agrees(h, cat, work, a, b, s) by {
        lemma_neighbour_inverse(g.width as int, g.height as int, a, b, s);
        assert(g.in_bounds(a, b));
        assert(agrees(g, cat, Seq::empty(), a, b, s));
        match g.neighbour(a, b, s) {
            None => {},
            Some(p) => {
                let pa = p.0 as int;
                let pb = p.1 as int;
                if a == x && b == y {
                    assert(g.neighbour(x, y, s) is Some ==> work.contains(g.neighbour(x, y, s)->Some_0));
                } else if pa == x && pb == y {
                    lemma_neighbour_inverse(g.width as int, g.height as int, pa, pb, opposite(s));
                    assert(g.neighbour(x, y, opposite(s)) is Some ==> work.contains(g.neighbour(x, y, opposite(s))->Some_0));
                } else {
                    lemma_neighbour_inverse(g.width as int, g.height as int, pa, pb, opposite(s));
                    assert(h.in_bounds(pa, pb));
                    assert(h.dom(a, b) == g.dom(a, b));
                    assert(h.dom(pa, pb) == g.dom(pa, pb));
                    if supported(g, cat, a, b, s) {
                        assert forall|k: int| 0 <= k < h.dom(a, b).len() implies h.fits_side(
                            cat,
                            a,
                            b,
                            #[trigger] h.dom(a, b)[k],
                            s,
                        ) by {
                            assert(g.fits_side(cat, a, b, g.dom(a, b)[k], s));
                        }
                    }
                    if supported(g, cat, pa, pb, opposite(s)) {
                        assert forall|k: int| 0 <= k < h.dom(pa, pb).len() implies h.fits_side(
                            cat,
                            pa,
                            pb,
                            #[trigger] h.dom(pa, pb)[k],
                            opposite(s),
                        ) by {
                            assert(g.fits_side(cat, pa, pb, g.dom(pa, pb)[k], opposite(s)));
                        }
                    }
                }
            },
        }
    }
}

/// A solved grid whose pairs all agree, with nothing left to re-evaluate,
/// is sound.
proof fn lemma_sound(cat: &Catalog, g: &Grid)
    requires
        solved(g),
        consistent(g, cat, Seq::empty()),
    ensures
        sound(g, cat),
{
    assert forall|x: int, y: int, s: Side| g.in_bounds(x, y) && #[trigger] g.neighbour(x, y, s) is Some implies {
        let p = g.neighbour(x, y, s)->Some_0;
        g.dom(x, y)[0] != cat.fallback && g.dom(p.0 as int, p.1 as int)[0] != cat.fallback
            ==> cat.tiles@[g.dom(x, y)[0] as int].edge_spec(s) == cat.tiles@[g.dom(
            p.0 as int,
            p.1 as int,
        )[0] as int].edge_spec(opposite(s))
    } by {
        let p = g.neighbour(x, y, s)->Some_0;
        let pa = p.0 as int;
        let pb = p.1 as int;
        lemma_neighbour_inverse(g.width as int, g.height as int, x, y, s);
        lemma_neighbour_inverse(g.width as int, g.height as int, pa, pb, opposite(s));
        assert(agrees(g, cat, Seq::empty(), x, y, s));
        assert(g.in_bounds(pa, pb));
        let e = cat.tiles@[g.dom(x, y)[0] as int].edge_spec(s);
        let f = cat.tiles@[g.dom(pa, pb)[0] as int].edge_spec(opposite(s));
        if g.dom(x, y)[0] != cat.fallback && g.dom(pa, pb)[0] != cat.fallback {
            assert(g.dom(x, y) != seq![cat.fallback]);
            assert(g.dom(pa, pb) != seq![cat.fallback]);
            if supported(g, cat, x, y, s) {
                assert(g.fits_side(cat, x, y, g.dom(x, y)[0], s));
                let fc = crate::grid::facing(cat, g.dom(pa, pb), opposite(s));
                let m = choose|m: int| 0 <= m < fc.len() && fc[m] == e;
                assert(m == 0);
            } else {
                assert(supported(g, cat, pa, pb, opposite(s)));
                assert(g.fits_side(cat, pa, pb, g.dom(pa, pb)[0], opposite(s)));
                assert(opposite(opposite(s)) == s);
                let fc = crate::grid::facing(cat, g.dom(x, y), s);
                let m = choose|m: int| 0 <= m < fc.len() && fc[m] == f;
                assert(m == 0);
            }
        }
    }
}

/// One cycle from `g` to `g2` with draw `r`: the scan selects a cell, the
/// draw pins it to one candidate, and propagation from its neighbours
/// leads to `g2`.
pub open spec fn cycle_rel(cat: &Catalog, g: &Grid, r: int, g2: &Grid) -> bool {
    exists|p: (usize, usize), mid: Grid|
        {
            let d = g.dom(p.0 as int, p.1 as int);
            &&& lowest_at(g, p)
            &&& 0 <= r < total(draw_weights(cat, d))
            &&& #[trigger] same_but(g, &mid, p.0 as int, p.1 as int)
            &&& mid.dom(p.0 as int, p.1 as int) == seq![d[chosen(draw_weights(cat, d), r)]]
            &&& propagates(cat, &mid, neighbour_list(g.width as int, g.height as int, p.0 as int, p.1 as int), g2)
        }
}

/// Cycle `i` of a generation trace is a cycle of the process.
pub open spec fn cycle_step(cat: &Catalog, gs: Seq<Grid>, rs: Seq<int>, i: int) -> bool {
    cycle_rel(cat, &gs[i], rs[i], &gs[i + 1])
}

/// `g` is what `k` cycles give from the full `w` by `h` grid, after which
/// no cell is left uncollapsed.
pub open spec fn generated(cat: &Catalog, w: nat, h: nat, g: &Grid, k: nat) -> bool {
    exists|gs: Seq<Grid>, rs: Seq<int>|
        {
            &&& gs.len() == rs.len() + 1
            &&& rs.len() == k
            &&& gs[0].width == w
            &&& gs[0].height == h
            &&& forall|x: int, y: int| #[trigger]
                gs[0].in_bounds(x, y) ==> gs[0].dom(x, y) == Seq::new(cat.tiles@.len(), |i: int| i as usize)
            &&& forall|i: int| 0 <= i < k ==> #[trigger] cycle_step(cat, gs, rs, i)
            &&& gs.last() == *g
            &&& forall|x: int, y: int| #[trigger] g.in_bounds(x, y) ==> g.dom(x, y).len() <= 1
        }
}

/// On a thin grid where the fallback spreads to every neighbour, one
/// fallback cell makes every cell the fallback.
proof fn lemma_line_fb(g: &Grid, fb: usize, x0: int, y0: int, x1: int, y1: int)
    requires
        thin(g),
        g.in_bounds(x0, y0),
        g.in_bounds(x1, y1),
        g.dom(x0, y0) == seq![fb],
        fb_spreads(g, fb, Seq::empty()),
    ensures
        g.dom(x1, y1) == seq![fb],
    decreases (if x1 > x0 { x1 - x0 } else { x0 - x1 }) + (if y1 > y0 { y1 - y0 } else { y0 - y1 }),
{
    if x1 == x0 && y1 == y0 {
    } else if y1 > y0 {
        lemma_line_fb(g, fb, x0, y0, x1, y1 - 1);
        assert(g.neighbour(x1, y1 - 1, Side::Top) is Some);
    } else if y1 < y0 {
        lemma_line_fb(g, fb, x0, y0, x1, y1 + 1);
        assert(g.neighbour(x1, y1 + 1, Side::Bottom) is Some);
    } else if x1 > x0 {
        lemma_line_fb(g, fb, x0, y0, x1 - 1, y1);
        assert(g.neighbour(x1 - 1, y1, Side::Right) is Some);
    } else {
        lemma_line_fb(g, fb, x0, y0, x1 + 1, y1);
        assert(g.neighbour(x1 + 1, y1, Side::Left) is Some);
    }
}

/// The result of one generation: the solved grid and the number of
/// select-and-collapse cycles it took.
pub struct Generation {
    pub grid: Grid,
    pub cycles: usize,
}

/// Runs the generator on a `w` by `h` grid until every cell holds one tile.
pub fn run(cat: &Catalog, w: usize, h: usize, rng: &mut StdRng) -> (r: Generation)
    requires
        cat.wf(),
        w >= 1,
        h >= 1,
        w * h <= usize::MAX,
    ensures
        r.grid.width == w,
        r.grid.height == h,
        r.grid.wf(cat.tiles@.len()),
        solved(&r.grid),
        sound(&r.grid, cat),
        r.cycles <= w * h,
        generated(cat, w as nat, h as nat, &r.grid, r.cycles as nat),
        (w == 1 || h == 1) && w * h >= 2 ==> forall|x: int, y: int| #[trigger]
            r.grid.in_bounds(x, y) ==> r.grid.dom(x, y) == seq![cat.fallback],
{
    let ghost n = cat.tiles@.len();
    let ghost fb = cat.fallback;
    let mut g = full_grid(cat.tiles.len(), w, h);
    proof {
        assert forall|x: int, y: int, s: Side| g.in_bounds(x, y) implies #[trigger] agrees(
            &g,
            cat,
            Seq::empty(),
            x,
            y,
            s,
        ) by {
            lemma_neighbour_inverse(w as int, h as int, x, y, s);
            if let Some(p) = g.neighbour(x, y, s) {
                assert(g.in_bounds(p.0 as int, p.1 as int));
                if n == 1 {
                    assert(g.dom(x, y) =~= seq![fb]);
                }
            }
        }
        lemma_unsettled_bound(g.cells@, h as int);
    }
    let mut cycles: usize = 0;
    let ghost g_init = g;
    let ghost mut gs: Seq<Grid> = seq![g];
    let ghost mut rs: Seq<int> = Seq::empty();
    loop
        invariant
            cat.wf(),
            n == cat.tiles@.len(),
            fb == cat.fallback,
            g.width == w,
            g.height == h,
            g.wf(n),
            consistent(&g, cat, Seq::empty()),
            cycles + grid_sum(g.cells@, unsettled()) <= w * h,
            w * h <= usize::MAX,
            g_init.width == w,
            g_init.height == h,
            forall|x: int, y: int| #[trigger]
                g_init.in_bounds(x, y) ==> g_init.dom(x, y) == Seq::new(n, |i: int| i as usize),
            gs.len() == rs.len() + 1,
            rs.len() == cycles,
            gs[0] == g_init,
            gs.last() == g,
            forall|i: int| 0 <= i < rs.len() ==> #[trigger] cycle_step(cat, gs, rs, i),
            thin(&g) && w * h >= 2 && cycles >= 1 ==> forall|a: int, b: int| #[trigger]
                g.in_bounds(a, b) ==> g.dom(a, b) == seq![fb],
        decreases grid_sum(g.cells@, unsettled()),
    {
        let (x, y) = match get_lowest_entropy_tile(&g) {
            Some(p) => p,
            None => {
                proof {
                    assert forall|x: int, y: int| #[trigger] g.in_bounds(x, y) implies g.dom(x, y).len() == 1 by {}
                    lemma_sound(cat, &g);
                    assert(generated(cat, w as nat, h as nat, &g, cycles as nat));
                    if thin(&g) && w * h >= 2 && cycles == 0 {
                        assert(g.dom(0, 0).len() <= 1);
                        assert forall|a: int, b: int| #[trigger] g.in_bounds(a, b) implies g.dom(a, b) == seq![fb] by {
                            assert(g.dom(a, b) =~= seq![fb]);
                        }
                    }
                }
                return Generation { grid: g, cycles };
            },
        };
        let ghost before = g;
        collapse(cat, &mut g.cells[x][y], rng);
        proof {
            lemma_cell_update(before.cells@, x as int, y as int, g.cells@[x as int], unsettled());
            assert forall|a: int, b: int| #[trigger] g.in_bounds(a, b) && !(a == x && b == y) implies g.dom(a, b)
                == before.dom(a, b) by {}
            assert(g.shaped());
            assert forall|a: int, b: int| #[trigger] g.in_bounds(a, b) implies {
                &&& g.dom(a, b).len() >= 1
                &&& forall|k: int| 0 <= k < g.dom(a, b).len() ==> g.dom(a, b)[k] < n
            } by {
                assert(before.in_bounds(a, b));
                if a == x && b == y {
                    let m = choose|m: int| 0 <= m < before.dom(a, b).len() && before.dom(a, b)[m] == g.dom(a, b)[0];
                }
            }
            assert((unsettled())(g.dom(x as int, y as int)) == 0);
            assert((unsettled())(before.dom(x as int, y as int)) == 1);
            assert(g.cells@ =~= before.cells@.update(x as int, g.cells@[x as int]));
            assert(grid_sum(g.cells@, unsettled()) + 1 == grid_sum(before.cells@, unsettled()));
        }
        cycles = cycles + 1;
        let around = find_neighbours(w, h, x, y);
        let work = neighbours_to_vec(&around);
        proof {
            assert forall|s: Side| #[trigger] before.neighbour(x as int, y as int, s) is Some implies work@.contains(
                before.neighbour(x as int, y as int, s)->Some_0,
            ) by {
                crate::propagate::lemma_present_contains(around, s);
            }
            lemma_collapse_consistent(cat, &before, &g, work@, x as int, y as int);
            assert forall|k: int| 0 <= k < work@.len() implies g.in_bounds(
                #[trigger] work@[k].0 as int,
                work@[k].1 as int,
            ) by {
                crate::propagate::lemma_present_in_bounds(
                    w as int,
                    h as int,
                    x as int,
                    y as int,
                    around,
                    work@[k],
                );
            }
        }
        let ghost mid = g;
        proof {
            if thin(&g) && w * h >= 2 {
                assert(cycles == 1);
                assert(before == g_init);
                assert forall|a: int, b: int, s: Side|
                    g.in_bounds(a, b) && #[trigger] g.neighbour(a, b, s) is Some && g.dom(a, b) == seq![fb] implies {
                    let p = g.neighbour(a, b, s)->Some_0;
                    g.dom(p.0 as int, p.1 as int) == seq![fb] || work@.contains(p)
                } by {
                    if !(a == x && b == y) {
                        assert(before.in_bounds(a, b));
                        assert(g.dom(a, b).len() == n);
                    } else {
                        crate::propagate::lemma_present_contains(around, s);
                    }
                }
                assert(fb_spreads(&g, fb, work@));
                if w == 1 {
                    if y + 1 < h {
                        assert(around.top is Some);
                    } else {
                        assert(around.bottom is Some);
                    }
                } else {
                    if x + 1 < w {
                        assert(around.right is Some);
                    } else {
                        assert(around.left is Some);
                    }
                }
                assert(work@.len() > 0);
            }
        }
        propagate(cat, &mut g, work);
        proof {
            if thin(&g) && w * h >= 2 {
                let f = work@.last();
                assert forall|a: int, b: int| #[trigger] g.in_bounds(a, b) implies g.dom(a, b) == seq![fb] by {
                    lemma_line_fb(&g, fb, f.0 as int, f.1 as int, a, b);
                }
            }
        }
        proof {
            let d = before.dom(x as int, y as int);
            let r = choose|r: int|
                0 <= r < total(draw_weights(cat, d)) && mid.dom(x as int, y as int) == seq![
                    d[chosen(draw_weights(cat, d), r)],
                ];
            assert(around.present() =~= neighbour_list(w as int, h as int, x as int, y as int));
            assert(same_but(&before, &mid, x as int, y as int));
            assert(cycle_rel(cat, &before, r, &g));
            assert forall|i: int| 0 <= i < rs.len() + 1 implies #[trigger] cycle_step(cat, gs.push(g), rs.push(r), i) by {
                if i < rs.len() {
                    assert(cycle_step(cat, gs, rs, i));
                }
            }
            gs = gs.push(g);
            rs = rs.push(r);
            assert forall|i: int, j: int|
                0 <= i < g.cells@.len() && 0 <= j < g.cells@[i]@.len() implies (unsettled())(
                #[trigger] g.cells@[i]@[j]@,
            ) <= (unsettled())(mid.cells@[i]@[j]@) by {
                assert(g.in_bounds(i, j));
            }
            lemma_grid_le(g.cells@, mid.cells@, unsettled());
        }
    }
}

/// `m` lists, as `m[x][y]`, the atlas id of the one tile of each cell of `g`.
pub open spec fn ids_of(cat: &Catalog, g: &Grid, m: Seq<Vec<usize>>) -> bool {
    &&& m.len() == g.width
    &&& forall|x: int| 0 <= x < g.width ==> #[trigger] m[x]@.len() == g.height
    &&& forall|x: int, y: int| #[trigger] g.in_bounds(x, y) ==> m[x]@[y] == cat.tiles@[g.dom(x, y)[0] as int].id
}

/// The atlas ids of a solved grid, as `m[x][y]`.
pub fn tile_ids(cat: &Catalog, g: &Grid) -> (m: Vec<Vec<usize>>)
    requires
        g.wf(cat.tiles@.len()),
        solved(g),
    ensures
        ids_of(cat, g, m@),
{
    let mut m: Vec<Vec<usize>> = Vec::new();
    let mut x: usize = 0;
    while x < g.width
        invariant
            g.wf(cat.tiles@.len()),
            x <= g.width,
            m@.len() == x,
            forall|a: int| 0 <= a < x ==> #[trigger] m@[a]@.len() == g.height,
            forall|a: int, b: int|
                #[trigger] g.in_bounds(a, b) && a < x ==> m@[a]@[b] == cat.tiles@[g.dom(a, b)[0] as int].id,
        decreases g.width - x,
    {
        let col = &g.cells[x];
        let mut ids: Vec<usize> = Vec::new();
        let mut y: usize = 0;
        while y < g.height
            invariant
                g.wf(cat.tiles@.len()),
                x < g.width,
                col@ == g.cells@[x as int]@,
                y <= g.height,
                ids@.len() == y,
                forall|b: int| 0 <= b < y ==> ids@[b] == cat.tiles@[g.dom(x as int, b)[0] as int].id,
            decreases g.height - y,
        {
            assert(g.in_bounds(x as int, y as int));
            ids.push(cat.id_at(col[y][0]));
            y = y + 1;
        }
        m.push(ids);
        x = x + 1;
    }
    m
}

/// Generates a `w` by `h` map of atlas ids from catalog `cat`.
pub fn generate(cat: &Catalog, w: usize, h: usize, rng: &mut StdRng) -> (m: Vec<Vec<usize>>)
    requires
        cat.wf(),
        w >= 1,
        h >= 1,
        w * h <= usize::MAX,
    ensures
        m@.len() == w,
        forall|x: int| 0 <= x < w ==> #[trigger] m@[x]@.len() == h,
        exists|g: Grid, k: nat|
            {
                &&& g.width == w
                &&& g.height == h
                &&& g.wf(cat.tiles@.len())
                &&& solved(&g)
                &&& sound(&g, cat)
                &&& k <= w * h
                &&& #[trigger] generated(cat, w as nat, h as nat, &g, k)
                &&& ids_of(cat, &g, m@)
            },
        (w == 1 || h == 1) && w * h >= 2 ==> forall|x: int, y: int|
            0 <= x < w && 0 <= y < h ==> #[trigger] m@[x]@[y] == cat.tiles@[cat.fallback as int].id,
{
    let r = run(cat, w, h, rng);
    let m = tile_ids(cat, &r.grid);
    proof {
        if (w == 1 || h == 1) && w * h >= 2 {
            assert forall|x: int, y: int| 0 <= x < w && 0 <= y < h implies #[trigger] m@[x]@[y]
                == cat.tiles@[cat.fallback as int].id by {
                assert(r.grid.in_bounds(x, y));
            }
        }
    }
    assert(ids_of(cat, &r.grid, m@));
    assert(generated(cat, w as nat, h as nat, &r.grid, r.cycles as nat));
    m
}

/// Generates a map of the default size from the standard catalog.
pub fn generate_map(rng: &mut StdRng) -> (m: Vec<Vec<usize>>)
    ensures
        m@.len() == MAP_WIDTH,
        forall|x: int| 0 <= x < MAP_WIDTH ==> #[trigger] m@[x]@.len() == MAP_HEIGHT,
        exists|cat: Catalog, g: Grid, k: nat|
            {
                &&& cat.tiles@ == standard_tiles()
                &&& cat.fallback == STANDARD_FALLBACK
                &&& #[trigger] generated(&cat, MAP_WIDTH as nat, MAP_HEIGHT as nat, &g, k)
                &&& k <= MAP_WIDTH * MAP_HEIGHT
                &&& g.width == MAP_WIDTH
                &&& g.height == MAP_HEIGHT
                &&& g.wf(standard_tiles().len())
                &&& solved(&g)
                &&& sound_in(&g, standard_tiles(), STANDARD_FALLBACK)
                &&& forall|x: int, y: int| #[trigger]
                    g.in_bounds(x, y) ==> m@[x]@[y] == standard_tiles()[g.dom(x, y)[0] as int].id
            },
{
    let cat = make_tile_indexes();
    let m = generate(&cat, MAP_WIDTH, MAP_HEIGHT, rng);
    proof {
        let (g, k) = choose|g: Grid, k: nat|
            {
                &&& g.width == MAP_WIDTH
                &&& g.height == MAP_HEIGHT
                &&& g.wf(cat.tiles@.len())
                &&& solved(&g)
                &&& sound(&g, &cat)
                &&& k <= MAP_WIDTH * MAP_HEIGHT
                &&& #[trigger] generated(&cat, MAP_WIDTH as nat, MAP_HEIGHT as nat, &g, k)
                &&& ids_of(&cat, &g, m@)
            };
        assert(generated(&cat, MAP_WIDTH as nat, MAP_HEIGHT as nat, &g, k));
    }
    m
}

} // verus!
