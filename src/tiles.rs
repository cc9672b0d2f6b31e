use vstd::prelude::*;

verus! {

/// Terrain category of a tile; it decides how often the tile is drawn.
#[derive(Clone, Copy, Debug, PartialEq, Eq, Structural)]
pub enum TileKind {
    Water,
    Grass,
    Forest,
    Road,
    Crossroad,
    Roadturn,
    Roadend,
}

/// The two half-edge colours along one side of a tile.
#[derive(Clone, Copy, Debug, PartialEq, Eq, Structural)]
pub struct Edge(pub TileKind, pub TileKind);

/// One side of a tile.
#[derive(Clone, Copy, Debug, PartialEq, Eq, Structural)]
pub enum Side {
    Top,
    Bottom,
    Left,
    Right,
}

/// A catalog entry: its atlas id, its kind and the edges it exposes.
#[derive(Clone, Copy, Debug, PartialEq, Eq, Structural)]
pub struct TileDef {
    pub id: usize,
    pub kind: TileKind,
    pub top: Edge,
    pub bottom: Edge,
    pub left: Edge,
    pub right: Edge,
}

/// The side of a neighbour that faces `s`.
pub open spec fn opposite(s: Side) -> Side {
    match s {
        Side::Top => Side::Bottom,
        Side::Bottom => Side::Top,
        Side::Left => Side::Right,
        Side::Right => Side::Left,
    }
}

impl TileDef {
    pub open spec fn edge_spec(self, s: Side) -> Edge {
        match s {
            Side::Top => self.top,
            Side::Bottom => self.bottom,
            Side::Left => self.left,
            Side::Right => self.right,
        }
    }

    /// The edge this tile exposes on side `s`.
    pub fn edge(&self, s: Side) -> (r: Edge)
        ensures
            r == self.edge_spec(s),
    {
        match s {
            Side::Top => self.top,
            Side::Bottom => self.bottom,
            Side::Left => self.left,
            Side::Right => self.right,
        }
    }
}

/// Sampling weight of each kind when a cell is collapsed.
pub open spec fn kind_weight(k: TileKind) -> u64 {
    match k {
        TileKind::Road => 5,
        TileKind::Crossroad => 0,
        TileKind::Roadend => 0,
        _ => 1,
    }
}

/// Executable form of `kind_weight`.
pub fn weight(k: TileKind) -> (r: u64)
    ensures
        r == kind_weight(k),
{
    match k {
        TileKind::Water => 1,
        TileKind::Grass => 1,
        TileKind::Forest => 1,
        TileKind::Road => 5,
        TileKind::Crossroad => 0,
        TileKind::Roadturn => 1,
        TileKind::Roadend => 0,
    }
}

/// Whether two edges are the same pair of colours.
pub fn edges_match(a: Edge, b: Edge) -> (r: bool)
    ensures
        r == (a == b),
{
    a == b
}

/// No two tiles of `tiles` share an id.
pub open spec fn ids_unique(tiles: Seq<TileDef>) -> bool {
    forall|a: int, b: int| 0 <= a < b < tiles.len() ==> tiles[a].id != tiles[b].id
}

/// An immutable table of tile definitions.  Cells of a grid refer to tiles
/// by their position in `tiles`; `fallback` is the position of the tile that
/// replaces a cell's candidates when no candidate fits its neighbours.
pub struct Catalog {
    pub tiles: Vec<TileDef>,
    pub fallback: usize,
}

impl Catalog {
    pub open spec fn wf(&self) -> bool {
        self.fallback < self.tiles@.len()
    }

    /// Builds a catalog whose fallback is the tile with id `fallback_id`;
    /// `None` when two tiles share an id or no tile has that id.
    pub fn new(tiles: Vec<TileDef>, fallback_id: usize) -> (r: Option<Catalog>)
        ensures
            r is None <==> (!ids_unique(tiles@) || forall|k: int| 0 <= k < tiles@.len() ==> tiles@[k].id != fallback_id),
            r matches Some(c) ==> {
                &&& c.wf()
                &&& c.tiles@ == tiles@
                &&& c.tiles@[c.fallback as int].id == fallback_id
            },
    {
        let mut i: usize = 0;
        while i < tiles.len()
            invariant
                i <= tiles@.len(),
                forall|a: int, b: int| 0 <= a < b < tiles@.len() && a < i ==> tiles@[a].id != tiles@[b].id,
            decreases tiles@.len() - i,
        {
            let mut j: usize = i + 1;
            while j < tiles.len()
                invariant
                    i < tiles@.len(),
                    i < j <= tiles@.len(),
                    forall|a: int, b: int| 0 <= a < b < tiles@.len() && a < i ==> tiles@[a].id != tiles@[b].id,
                    forall|b: int| i < b < j ==> tiles@[i as int].id != tiles@[b].id,
                decreases tiles@.len() - j,
            {
                if tiles[i].id == tiles[j].id {
                    return None;
                }
                j = j + 1;
            }
            i = i + 1;
        }
        let mut k: usize = 0;
        while k < tiles.len()
            invariant
                k <= tiles@.len(),
                ids_unique(tiles@),
                forall|a: int| 0 <= a < k ==> tiles@[a].id != fallback_id,
            decreases tiles@.len() - k,
        {
            if tiles[k].id == fallback_id {
                return Some(Catalog { tiles, fallback: k });
            }
            k = k + 1;
        }
        None
    }

    /// The atlas id of the tile at position `k`.
    pub fn id_at(&self, k: usize) -> (r: usize)
        requires
            k < self.tiles@.len(),
        ensures
            r == self.tiles@[k as int].id,
    {
        self.tiles[k].id
    }
}

} // verus!
