use crate::tiles::{edges_match, Catalog, Edge, Side, TileDef};
use vstd::prelude::*;

verus! {

/// The constraint grid: one domain (a list of candidate catalog positions)
/// per cell, indexed as `cells[x][y]` with `x < width` and `y < height`.
pub struct Grid {
    pub width: usize,
    pub height: usize,
    pub cells: Vec<Vec<Vec<usize>>>,
}

/// The four in-bounds neighbours of a cell; `top` is at `y + 1`.
pub struct Neighbours {
    pub top: Option<(usize, usize)>,
    pub bottom: Option<(usize, usize)>,
    pub left: Option<(usize, usize)>,
    pub right: Option<(usize, usize)>,
}

/// The neighbour of `(x, y)` on side `s` in a `w` by `h` grid, if any.
pub open spec fn neighbour(w: int, h: int, x: int, y: int, s: Side) -> Option<(usize, usize)> {
    match s {
        Side::Top => if y + 1 < h { Some((x as usize, (y + 1) as usize)) } else { None },
        Side::Bottom => if y > 0 { Some((x as usize, (y - 1) as usize)) } else { None },
        Side::Left => if x > 0 { Some(((x - 1) as usize, y as usize)) } else { None },
        Side::Right => if x + 1 < w { Some(((x + 1) as usize, y as usize)) } else { None },
    }
}

pub open spec fn opt_seq(o: Option<(usize, usize)>) -> Seq<(usize, usize)> {
    match o {
        Some(p) => seq![p],
        None => Seq::empty(),
    }
}

impl Neighbours {
    /// The neighbour on side `s`.
    pub open spec fn side(&self, s: Side) -> Option<(usize, usize)> {
        match s {
            Side::Top => self.top,
            Side::Bottom => self.bottom,
            Side::Left => self.left,
            Side::Right => self.right,
        }
    }

    /// The present neighbours in the order top, bottom, left, right.
    pub open spec fn present(&self) -> Seq<(usize, usize)> {
        opt_seq(self.top) + opt_seq(self.bottom) + opt_seq(self.left) + opt_seq(self.right)
    }
}

/// The in-bounds neighbours of `(x, y)` in a `w` by `h` grid.
pub fn find_neighbours(w: usize, h: usize, x: usize, y: usize) -> (r: Neighbours)
    requires
        x < w,
        y < h,
    ensures
        r.top == neighbour(w as int, h as int, x as int, y as int, Side::Top),
        r.bottom == neighbour(w as int, h as int, x as int, y as int, Side::Bottom),
        r.left == neighbour(w as int, h as int, x as int, y as int, Side::Left),
        r.right == neighbour(w as int, h as int, x as int, y as int, Side::Right),
{
    Neighbours {
        top: if y < h - 1 { Some((x, y + 1)) } else { None },
        bottom: if y > 0 { Some((x, y - 1)) } else { None },
        left: if x > 0 { Some((x - 1, y)) } else { None },
        right: if x < w - 1 { Some((x + 1, y)) } else { None },
    }
}

/// The present neighbours as a list, top, bottom, left, right.
pub fn neighbours_to_vec(n: &Neighbours) -> (r: Vec<(usize, usize)>)
    ensures
        r@ == n.present(),
{
    let mut r: Vec<(usize, usize)> = Vec::new();
    if let Some(p) = n.top {
        r.push(p);
    }
    if let Some(p) = n.bottom {
        r.push(p);
    }
    if let Some(p) = n.left {
        r.push(p);
    }
    if let Some(p) = n.right {
        r.push(p);
    }
    assert(r@ =~= n.present());
    r
}

/// The edges that the tiles of domain `d` expose on side `s`, in order.
pub open spec fn facing(cat: &Catalog, d: Seq<usize>, s: Side) -> Seq<Edge> {
    d.map_values(|t: usize| cat.tiles@[t as int].edge_spec(s))
}

impl Grid {
    pub open spec fn dom(&self, x: int, y: int) -> Seq<usize> {
        self.cells@[x]@[y]@
    }

    pub open spec fn in_bounds(&self, x: int, y: int) -> bool {
        0 <= x < self.width && 0 <= y < self.height
    }

    pub open spec fn neighbour(&self, x: int, y: int, s: Side) -> Option<(usize, usize)> {
        neighbour(self.width as int, self.height as int, x, y, s)
    }

    /// `cells` has the declared dimensions.
    pub open spec fn shaped(&self) -> bool {
        &&& self.cells@.len() == self.width
        &&& forall|x: int| 0 <= x < self.width ==> #[trigger] self.cells@[x]@.len() == self.height
    }

    /// Every domain is non-empty and names tiles of a catalog of `n` tiles.
    pub open spec fn wf(&self, n: nat) -> bool {
        &&& self.shaped()
        &&& forall|x: int, y: int| #[trigger]
            self.in_bounds(x, y) ==> {
                &&& self.dom(x, y).len() >= 1
                &&& forall|k: int| 0 <= k < self.dom(x, y).len() ==> self.dom(x, y)[k] < n
            }
    }

    /// Whether tile `c` placed at `(x, y)` meets some candidate of the
    /// neighbour on side `s`; a missing neighbour imposes nothing.
    pub open spec fn fits_side(&self, cat: &Catalog, x: int, y: int, c: usize, s: Side) -> bool {
        match self.neighbour(x, y, s) {
            None => true,
            Some(p) => facing(cat, self.dom(p.0 as int, p.1 as int), crate::tiles::opposite(s)).contains(
                cat.tiles@[c as int].edge_spec(s),
            ),
        }
    }

    pub open spec fn fits(&self, cat: &Catalog, x: int, y: int, c: usize) -> bool {
        &&& self.fits_side(cat, x, y, c, Side::Top)
        &&& self.fits_side(cat, x, y, c, Side::Bottom)
        &&& self.fits_side(cat, x, y, c, Side::Left)
        &&& self.fits_side(cat, x, y, c, Side::Right)
    }

    pub open spec fn fits_pred(&self, cat: &Catalog, x: int, y: int) -> spec_fn(usize) -> bool {
        |c: usize| self.fits(cat, x, y, c)
    }

    /// A whole axis of the cell has no neighbour.
    pub open spec fn degenerate(&self, x: int, y: int) -> bool {
        (self.neighbour(x, y, Side::Top) is None && self.neighbour(x, y, Side::Bottom) is None)
            || (self.neighbour(x, y, Side::Left) is None && self.neighbour(x, y, Side::Right) is None)
    }

    /// The candidates of `(x, y)` that fit all its neighbours, in order.
    pub open spec fn filtered(&self, cat: &Catalog, x: int, y: int) -> Seq<usize> {
        self.dom(x, y).filter(self.fits_pred(cat, x, y))
    }

    /// The domain that re-evaluating `(x, y)` gives: the fitting candidates,
    /// or the fallback alone on a degenerate cell or when none fits.
    pub open spec fn narrowed(&self, cat: &Catalog, x: int, y: int) -> Seq<usize> {
        if self.degenerate(x, y) || self.filtered(cat, x, y).len() == 0 {
            seq![cat.fallback]
        } else {
            self.filtered(cat, x, y)
        }
    }
}

/// The edges the tiles of `d` expose on side `s`.
pub fn facing_edges(cat: &Catalog, d: &Vec<usize>, s: Side) -> (r: Vec<Edge>)
    requires
        forall|k: int| 0 <= k < d@.len() ==> d@[k] < cat.tiles@.len(),
    ensures
        r@ == facing(cat, d@, s),
{
    let mut r: Vec<Edge> = Vec::new();
    let mut i: usize = 0;
    while i < d.len()
        invariant
            i <= d@.len(),
            forall|k: int| 0 <= k < d@.len() ==> d@[k] < cat.tiles@.len(),
            r@ =~= facing(cat, d@.subrange(0, i as int), s),
        decreases d@.len() - i,
    {
        r.push(cat.tiles[d[i]].edge(s));
        i = i + 1;
        assert(r@ =~= facing(cat, d@.subrange(0, i as int), s));
    }
    assert(d@.subrange(0, d@.len() as int) =~= d@);
    r
}

/// Whether `e` is among `v`.
pub fn contains_edge(v: &Vec<Edge>, e: Edge) -> (r: bool)
    ensures
        r == v@.contains(e),
{
    let mut i: usize = 0;
    while i < v.len()
        invariant
            i <= v@.len(),
            forall|k: int| 0 <= k < i ==> v@[k] != e,
        decreases v@.len() - i,
    {
        if edges_match(v[i], e) {
            return true;
        }
        i = i + 1;
    }
    false
}

/// The facing edges of the neighbour on side `s`, or `None` when there is
/// no neighbour there.
fn side_edges(cat: &Catalog, g: &Grid, n: Option<(usize, usize)>, s: Side) -> (r: Option<Vec<Edge>>)
    requires
        g.wf(cat.tiles@.len()),
        n matches Some(p) ==> g.in_bounds(p.0 as int, p.1 as int),
    ensures
        r is None <==> n is None,
        r matches Some(v) ==> (n matches Some(p) && v@ == facing(cat, g.dom(p.0 as int, p.1 as int), s)),
{
    match n {
        None => None,
        Some((a, b)) => Some(facing_edges(cat, &g.cells[a][b], s)),
    }
}

/// Whether tile `t` meets the neighbour whose facing edges are `v`.
fn meets(v: &Option<Vec<Edge>>, t: &TileDef, s: Side) -> (r: bool)
    ensures
        r == match v {
            None => true,
            Some(v) => v@.contains(t.edge_spec(s)),
        },
{
    match v {
        None => true,
        Some(v) => contains_edge(v, t.edge(s)),
    }
}

/// Re-evaluates cell `(x, y)` against the current domains of its neighbours.
pub fn find_possible_tiles_given_neighbours(cat: &Catalog, g: &Grid, x: usize, y: usize) -> (r: Vec<usize>)
    requires
        cat.wf(),
        g.wf(cat.tiles@.len()),
        g.in_bounds(x as int, y as int),
    ensures
        r@ == g.narrowed(cat, x as int, y as int),
{
    let n = find_neighbours(g.width, g.height, x, y);
    let top = side_edges(cat, g, n.top, Side::Bottom);
    let bottom = side_edges(cat, g, n.bottom, Side::Top);
    let left = side_edges(cat, g, n.left, Side::Right);
    let right = side_edges(cat, g, n.right, Side::Left);
    if (top.is_none() && bottom.is_none()) || (left.is_none() && right.is_none()) {
        return vec![cat.fallback];
    }
    let d = &g.cells[x][y];
    let ghost pred = g.fits_pred(cat, x as int, y as int);
    let mut out: Vec<usize> = Vec::new();
    let mut i: usize = 0;
    while i < d.len()
        invariant
            i <= d@.len(),
            d@ == g.dom(x as int, y as int),
            g.wf(cat.tiles@.len()),
            g.in_bounds(x as int, y as int),
            pred == g.fits_pred(cat, x as int, y as int),
            top matches Some(v) ==> v@ == facing(cat, g.dom(x as int, y + 1), Side::Bottom),
            top is None <==> g.neighbour(x as int, y as int, Side::Top) is None,
            bottom matches Some(v) ==> v@ == facing(cat, g.dom(x as int, y - 1), Side::Top),
            bottom is None <==> g.neighbour(x as int, y as int, Side::Bottom) is None,
            left matches Some(v) ==> v@ == facing(cat, g.dom(x - 1, y as int), Side::Right),
            left is None <==> g.neighbour(x as int, y as int, Side::Left) is None,
            right matches Some(v) ==> v@ == facing(cat, g.dom(x + 1, y as int), Side::Left),
            right is None <==> g.neighbour(x as int, y as int, Side::Right) is None,
            out@ == d@.subrange(0, i as int).filter(pred),
        decreases d@.len() - i,
    {
        let c = d[i];
        let t = &cat.tiles[c];
        let ok = meets(&top, t, Side::Top) && meets(&bottom, t, Side::Bottom) && meets(&left, t, Side::Left)
            && meets(&right, t, Side::Right);
        proof {
            assert(ok == pred(c));
            reveal(Seq::filter);
            assert(d@.subrange(0, i + 1).drop_last() =~= d@.subrange(0, i as int));
        }
        if ok {
            out.push(c);
        }
        i = i + 1;
    }
    assert(d@.subrange(0, d@.len() as int) =~= d@);
    if out.len() == 0 {
        vec![cat.fallback]
    } else {
        out
    }
}

/// `(a, b)` comes before `(x, y)` in the scan order: by `x`, then by `y`.
pub open spec fn scanned_before(a: int, b: int, x: int, y: int) -> bool {
    a < x || (a == x && b < y)
}

/// `p` is an uncollapsed cell of smallest domain, and no uncollapsed cell
/// before it in scan order has a domain as small.
pub open spec fn lowest_at(g: &Grid, p: (usize, usize)) -> bool {
    &&& g.in_bounds(p.0 as int, p.1 as int)
    &&& g.dom(p.0 as int, p.1 as int).len() > 1
    &&& forall|a: int, b: int|
        g.in_bounds(a, b) && #[trigger] g.dom(a, b).len() > 1 ==> g.dom(p.0 as int, p.1 as int).len() <= g.dom(
            a,
            b,
        ).len()
    &&& forall|a: int, b: int|
        g.in_bounds(a, b) && scanned_before(a, b, p.0 as int, p.1 as int) && #[trigger] g.dom(a, b).len() > 1
            ==> g.dom(p.0 as int, p.1 as int).len() < g.dom(a, b).len()
}

/// The uncollapsed cell (domain larger than one) of smallest domain, the
/// first in scan order among equals; `None` when every cell is collapsed.
pub fn get_lowest_entropy_tile(g: &Grid) -> (r: Option<(usize, usize)>)
    requires
        g.shaped(),
    ensures
        r is None <==> (forall|a: int, b: int| g.in_bounds(a, b) ==> #[trigger] g.dom(a, b).len() <= 1),
        r matches Some(p) ==> lowest_at(g, p),
{
    let mut best: Option<(usize, usize)> = None;
    let mut lowest: usize = 0;
    let mut x: usize = 0;
    while x < g.cells.len()
        invariant
            g.shaped(),
            x <= g.width,
            best is None ==> forall|a: int, b: int|
                g.in_bounds(a, b) && a < x ==> #[trigger] g.dom(a, b).len() <= 1,
            best matches Some(p) ==> {
                &&& g.in_bounds(p.0 as int, p.1 as int)
                &&& p.0 < x
                &&& lowest == g.dom(p.0 as int, p.1 as int).len()
                &&& lowest > 1
                &&& forall|a: int, b: int|
                    g.in_bounds(a, b) && a < x && #[trigger] g.dom(a, b).len() > 1 ==> lowest <= g.dom(a, b).len()
                &&& forall|a: int, b: int|
                    g.in_bounds(a, b) && scanned_before(a, b, p.0 as int, p.1 as int) && #[trigger] g.dom(a, b).len()
                        > 1 ==> lowest < g.dom(a, b).len()
            },
        decreases g.width - x,
    {
        let col = &g.cells[x];
        let mut y: usize = 0;
        while y < col.len()
            invariant
                g.shaped(),
                x < g.width,
                y <= g.height,
                col@ == g.cells@[x as int]@,
                    best is None ==> forall|a: int, b: int|
                    g.in_bounds(a, b) && scanned_before(a, b, x as int, y as int) ==> #[trigger] g.dom(a, b).len() <= 1,
                best matches Some(p) ==> {
                    &&& g.in_bounds(p.0 as int, p.1 as int)
                    &&& scanned_before(p.0 as int, p.1 as int, x as int, y as int)
                    &&& lowest == g.dom(p.0 as int, p.1 as int).len()
                    &&& lowest > 1
                    &&& forall|a: int, b: int|
                        g.in_bounds(a, b) && scanned_before(a, b, x as int, y as int) && #[trigger] g.dom(a, b).len()
                            > 1 ==> lowest <= g.dom(a, b).len()
                    &&& forall|a: int, b: int|
                        g.in_bounds(a, b) && scanned_before(a, b, p.0 as int, p.1 as int) && #[trigger] g.dom(
                            a,
                            b,
                        ).len() > 1 ==> lowest < g.dom(a, b).len()
                },
            decreases g.height - y,
        {
            let entropy = col[y].len();
            if entropy > 1 && (best.is_none() || entropy < lowest) {
                lowest = entropy;
                best = Some((x, y));
            }
            y = y + 1;
        }
        x = x + 1;
    }
    best
}

} // verus!
