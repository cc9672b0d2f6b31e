use crate::tiles::{Catalog, Edge, TileDef, TileKind};
use vstd::prelude::*;

verus! {

/// Position of the fallback tile (atlas id 50, open water) in the standard
/// catalog.
pub const STANDARD_FALLBACK: usize = 38;

/// Default grid width.
pub const MAP_WIDTH: usize = 50;

/// Default grid height.
pub const MAP_HEIGHT: usize = 50;

/// The definitions of the standard catalog, in catalog order.
pub open spec fn standard_tiles() -> Seq<TileDef> {
    seq![
        TileDef { id: 0, kind: TileKind::Forest, top: Edge(TileKind::Grass, TileKind::Grass), bottom: Edge(TileKind::Grass, TileKind::Forest), left: Edge(TileKind::Grass, TileKind::Grass), right: Edge(TileKind::Grass, TileKind::Forest) },
        TileDef { id: 1, kind: TileKind::Forest, top: Edge(TileKind::Grass, TileKind::Grass), bottom: Edge(TileKind::Forest, TileKind::Forest), left: Edge(TileKind::Grass, TileKind::Forest), right: Edge(TileKind::Grass, TileKind::Forest) },
        TileDef { id: 2, kind: TileKind::Forest, top: Edge(TileKind::Grass, TileKind::Grass), bottom: Edge(TileKind::Forest, TileKind::Grass), left: Edge(TileKind::Grass, TileKind::Forest), right: Edge(TileKind::Grass, TileKind::Grass) },
        TileDef { id: 10, kind: TileKind::Forest, top: Edge(TileKind::Grass, TileKind::Forest), bottom: Edge(TileKind::Grass, TileKind::Forest), left: Edge(TileKind::Grass, TileKind::Grass), right: Edge(TileKind::Forest, TileKind::Forest) },
        TileDef { id: 11, kind: TileKind::Forest, top: Edge(TileKind::Forest, TileKind::Forest), bottom: Edge(TileKind::Forest, TileKind::Forest), left: Edge(TileKind::Forest, TileKind::Forest), right: Edge(TileKind::Forest, TileKind::Forest) },
        TileDef { id: 12, kind: TileKind::Forest, top: Edge(TileKind::Forest, TileKind::Grass), bottom: Edge(TileKind::Forest, TileKind::Grass), left: Edge(TileKind::Forest, TileKind::Forest), right: Edge(TileKind::Grass, TileKind::Grass) },
        TileDef { id: 20, kind: TileKind::Forest, top: Edge(TileKind::Grass, TileKind::Forest), bottom: Edge(TileKind::Grass, TileKind::Grass), left: Edge(TileKind::Grass, TileKind::Grass), right: Edge(TileKind::Forest, TileKind::Grass) },
        TileDef { id: 21, kind: TileKind::Forest, top: Edge(TileKind::Forest, TileKind::Forest), bottom: Edge(TileKind::Grass, TileKind::Grass), left: Edge(TileKind::Grass, TileKind::Forest), right: Edge(TileKind::Grass, TileKind::Forest) },
        TileDef { id: 22, kind: TileKind::Forest, top: Edge(TileKind::Forest, TileKind::Grass), bottom: Edge(TileKind::Grass, TileKind::Grass), left: Edge(TileKind::Forest, TileKind::Grass), right: Edge(TileKind::Grass, TileKind::Grass) },
        TileDef { id: 3, kind: TileKind::Water, top: Edge(TileKind::Grass, TileKind::Grass), bottom: Edge(TileKind::Grass, TileKind::Water), left: Edge(TileKind::Grass, TileKind::Grass), right: Edge(TileKind::Grass, TileKind::Water) },
        TileDef { id: 4, kind: TileKind::Water, top: Edge(TileKind::Grass, TileKind::Grass), bottom: Edge(TileKind::Water, TileKind::Water), left: Edge(TileKind::Grass, TileKind::Water), right: Edge(TileKind::Grass, TileKind::Water) },
        TileDef { id: 5, kind: TileKind::Water, top: Edge(TileKind::Grass, TileKind::Grass), bottom: Edge(TileKind::Water, TileKind::Grass), left: Edge(TileKind::Grass, TileKind::Water), right: Edge(TileKind::Grass, TileKind::Grass) },
        TileDef { id: 13, kind: TileKind::Water, top: Edge(TileKind::Grass, TileKind::Water), bottom: Edge(TileKind::Grass, TileKind::Water), left: Edge(TileKind::Grass, TileKind::Grass), right: Edge(TileKind::Water, TileKind::Water) },
        TileDef { id: 14, kind: TileKind::Water, top: Edge(TileKind::Water, TileKind::Water), bottom: Edge(TileKind::Water, TileKind::Water), left: Edge(TileKind::Water, TileKind::Water), right: Edge(TileKind::Water, TileKind::Water) },
        TileDef { id: 15, kind: TileKind::Water, top: Edge(TileKind::Water, TileKind::Grass), bottom: Edge(TileKind::Water, TileKind::Grass), left: Edge(TileKind::Water, TileKind::Water), right: Edge(TileKind::Grass, TileKind::Grass) },
        TileDef { id: 23, kind: TileKind::Water, top: Edge(TileKind::Grass, TileKind::Water), bottom: Edge(TileKind::Grass, TileKind::Grass), left: Edge(TileKind::Grass, TileKind::Grass), right: Edge(TileKind::Water, TileKind::Grass) },
        TileDef { id: 24, kind: TileKind::Water, top: Edge(TileKind::Water, TileKind::Water), bottom: Edge(TileKind::Grass, TileKind::Grass), left: Edge(TileKind::Grass, TileKind::Water), right: Edge(TileKind::Grass, TileKind::Water) },
        TileDef { id: 25, kind: TileKind::Water, top: Edge(TileKind::Water, TileKind::Grass), bottom: Edge(TileKind::Grass, TileKind::Grass), left: Edge(TileKind::Water, TileKind::Grass), right: Edge(TileKind::Grass, TileKind::Grass) },
        TileDef { id: 30, kind: TileKind::Forest, top: Edge(TileKind::Forest, TileKind::Forest), bottom: Edge(TileKind::Forest, TileKind::Grass), left: Edge(TileKind::Forest, TileKind::Forest), right: Edge(TileKind::Forest, TileKind::Grass) },
        TileDef { id: 31, kind: TileKind::Forest, top: Edge(TileKind::Forest, TileKind::Forest), bottom: Edge(TileKind::Grass, TileKind::Forest), left: Edge(TileKind::Forest, TileKind::Grass), right: Edge(TileKind::Forest, TileKind::Forest) },
        TileDef { id: 40, kind: TileKind::Forest, top: Edge(TileKind::Forest, TileKind::Grass), bottom: Edge(TileKind::Forest, TileKind::Forest), left: Edge(TileKind::Forest, TileKind::Forest), right: Edge(TileKind::Grass, TileKind::Forest) },
        TileDef { id: 41, kind: TileKind::Forest, top: Edge(TileKind::Grass, TileKind::Forest), bottom: Edge(TileKind::Forest, TileKind::Forest), left: Edge(TileKind::Grass, TileKind::Forest), right: Edge(TileKind::Forest, TileKind::Forest) },
        TileDef { id: 70, kind: TileKind::Grass, top: Edge(TileKind::Grass, TileKind::Grass), bottom: Edge(TileKind::Grass, TileKind::Grass), left: Edge(TileKind::Grass, TileKind::Grass), right: Edge(TileKind::Grass, TileKind::Grass) },
        TileDef { id: 32, kind: TileKind::Roadturn, top: Edge(TileKind::Grass, TileKind::Grass), bottom: Edge(TileKind::Road, TileKind::Road), left: Edge(TileKind::Grass, TileKind::Grass), right: Edge(TileKind::Road, TileKind::Road) },
        TileDef { id: 33, kind: TileKind::Crossroad, top: Edge(TileKind::Grass, TileKind::Grass), bottom: Edge(TileKind::Road, TileKind::Road), left: Edge(TileKind::Road, TileKind::Road), right: Edge(TileKind::Road, TileKind::Road) },
        TileDef { id: 34, kind: TileKind::Roadturn, top: Edge(TileKind::Grass, TileKind::Grass), bottom: Edge(TileKind::Road, TileKind::Road), left: Edge(TileKind::Road, TileKind::Road), right: Edge(TileKind::Grass, TileKind::Grass) },
        TileDef { id: 42, kind: TileKind::Crossroad, top: Edge(TileKind::Road, TileKind::Road), bottom: Edge(TileKind::Road, TileKind::Road), left: Edge(TileKind::Grass, TileKind::Grass), right: Edge(TileKind::Road, TileKind::Road) },
        TileDef { id: 43, kind: TileKind::Crossroad, top: Edge(TileKind::Road, TileKind::Road), bottom: Edge(TileKind::Road, TileKind::Road), left: Edge(TileKind::Road, TileKind::Road), right: Edge(TileKind::Road, TileKind::Road) },
        TileDef { id: 44, kind: TileKind::Crossroad, top: Edge(TileKind::Road, TileKind::Road), bottom: Edge(TileKind::Road, TileKind::Road), left: Edge(TileKind::Road, TileKind::Road), right: Edge(TileKind::Grass, TileKind::Grass) },
        TileDef { id: 52, kind: TileKind::Roadturn, top: Edge(TileKind::Road, TileKind::Road), bottom: Edge(TileKind::Grass, TileKind::Grass), left: Edge(TileKind::Grass, TileKind::Grass), right: Edge(TileKind::Road, TileKind::Road) },
        TileDef { id: 53, kind: TileKind::Crossroad, top: Edge(TileKind::Road, TileKind::Road), bottom: Edge(TileKind::Grass, TileKind::Grass), left: Edge(TileKind::Road, TileKind::Road), right: Edge(TileKind::Road, TileKind::Road) },
        TileDef { id: 54, kind: TileKind::Roadturn, top: Edge(TileKind::Road, TileKind::Road), bottom: Edge(TileKind::Grass, TileKind::Grass), left: Edge(TileKind::Road, TileKind::Road), right: Edge(TileKind::Grass, TileKind::Grass) },
        TileDef { id: 35, kind: TileKind::Road, top: Edge(TileKind::Grass, TileKind::Grass), bottom: Edge(TileKind::Grass, TileKind::Grass), left: Edge(TileKind::Road, TileKind::Road), right: Edge(TileKind::Road, TileKind::Road) },
        TileDef { id: 36, kind: TileKind::Road, top: Edge(TileKind::Road, TileKind::Road), bottom: Edge(TileKind::Road, TileKind::Road), left: Edge(TileKind::Grass, TileKind::Grass), right: Edge(TileKind::Grass, TileKind::Grass) },
        TileDef { id: 45, kind: TileKind::Roadend, top: Edge(TileKind::Grass, TileKind::Grass), bottom: Edge(TileKind::Grass, TileKind::Grass), left: Edge(TileKind::Road, TileKind::Road), right: Edge(TileKind::Grass, TileKind::Grass) },
        TileDef { id: 46, kind: TileKind::Roadend, top: Edge(TileKind::Grass, TileKind::Grass), bottom: Edge(TileKind::Road, TileKind::Road), left: Edge(TileKind::Grass, TileKind::Grass), right: Edge(TileKind::Grass, TileKind::Grass) },
        TileDef { id: 55, kind: TileKind::Roadend, top: Edge(TileKind::Grass, TileKind::Grass), bottom: Edge(TileKind::Grass, TileKind::Grass), left: Edge(TileKind::Grass, TileKind::Grass), right: Edge(TileKind::Road, TileKind::Road) },
        TileDef { id: 56, kind: TileKind::Roadend, top: Edge(TileKind::Road, TileKind::Road), bottom: Edge(TileKind::Grass, TileKind::Grass), left: Edge(TileKind::Grass, TileKind::Grass), right: Edge(TileKind::Grass, TileKind::Grass) },
        TileDef { id: 50, kind: TileKind::Water, top: Edge(TileKind::Water, TileKind::Water), bottom: Edge(TileKind::Water, TileKind::Grass), left: Edge(TileKind::Water, TileKind::Water), right: Edge(TileKind::Water, TileKind::Grass) },
        TileDef { id: 51, kind: TileKind::Water, top: Edge(TileKind::Water, TileKind::Water), bottom: Edge(TileKind::Grass, TileKind::Water), left: Edge(TileKind::Water, TileKind::Grass), right: Edge(TileKind::Water, TileKind::Water) },
        TileDef { id: 60, kind: TileKind::Water, top: Edge(TileKind::Water, TileKind::Grass), bottom: Edge(TileKind::Water, TileKind::Water), left: Edge(TileKind::Water, TileKind::Water), right: Edge(TileKind::Grass, TileKind::Water) },
        TileDef { id: 61, kind: TileKind::Water, top: Edge(TileKind::Grass, TileKind::Water), bottom: Edge(TileKind::Water, TileKind::Water), left: Edge(TileKind::Grass, TileKind::Water), right: Edge(TileKind::Water, TileKind::Water) },
    ]
}

/// A tile definition; the edges are given as (first, second) half colours.
fn def(id: usize, kind: TileKind, top: Edge, bottom: Edge, left: Edge, right: Edge) -> (r: TileDef)
    ensures
        r == (TileDef { id, kind, top, bottom, left, right }),
{
    TileDef { id, kind, top, bottom, left, right }
}

/// The standard catalog of terrain tiles, keyed by their index in a 10 by 10
/// texture atlas.  Its fallback is the open-water tile.
pub fn make_tile_indexes() -> (c: Catalog)
    ensures
        c.wf(),
        c.tiles@.len() == 42,
        c.tiles@ == standard_tiles(),
        c.fallback == STANDARD_FALLBACK,
        c.tiles@[c.fallback as int].id == 50,
{
    let tiles: Vec<TileDef> = vec![
        def(
            0,
            TileKind::Forest,
            Edge(TileKind::Grass, TileKind::Grass),
            Edge(TileKind::Grass, TileKind::Forest),
            Edge(TileKind::Grass, TileKind::Grass),
            Edge(TileKind::Grass, TileKind::Forest),
        ),
        def(
            1,
            TileKind::Forest,
            Edge(TileKind::Grass, TileKind::Grass),
            Edge(TileKind::Forest, TileKind::Forest),
            Edge(TileKind::Grass, TileKind::Forest),
            Edge(TileKind::Grass, TileKind::Forest),
        ),
        def(
            2,
            TileKind::Forest,
            Edge(TileKind::Grass, TileKind::Grass),
            Edge(TileKind::Forest, TileKind::Grass),
            Edge(TileKind::Grass, TileKind::Forest),
            Edge(TileKind::Grass, TileKind::Grass),
        ),
        def(
            10,
            TileKind::Forest,
            Edge(TileKind::Grass, TileKind::Forest),
            Edge(TileKind::Grass, TileKind::Forest),
            Edge(TileKind::Grass, TileKind::Grass),
            Edge(TileKind::Forest, TileKind::Forest),
        ),
        def(
            11,
            TileKind::Forest,
            Edge(TileKind::Forest, TileKind::Forest),
            Edge(TileKind::Forest, TileKind::Forest),
            Edge(TileKind::Forest, TileKind::Forest),
            Edge(TileKind::Forest, TileKind::Forest),
        ),
        def(
            12,
            TileKind::Forest,
            Edge(TileKind::Forest, TileKind::Grass),
            Edge(TileKind::Forest, TileKind::Grass),
            Edge(TileKind::Forest, TileKind::Forest),
            Edge(TileKind::Grass, TileKind::Grass),
        ),
        def(
            20,
            TileKind::Forest,
            Edge(TileKind::Grass, TileKind::Forest),
            Edge(TileKind::Grass, TileKind::Grass),
            Edge(TileKind::Grass, TileKind::Grass),
            Edge(TileKind::Forest, TileKind::Grass),
        ),
        def(
            21,
            TileKind::Forest,
            Edge(TileKind::Forest, TileKind::Forest),
            Edge(TileKind::Grass, TileKind::Grass),
            Edge(TileKind::Grass, TileKind::Forest),
            Edge(TileKind::Grass, TileKind::Forest),
        ),
        def(
            22,
            TileKind::Forest,
            Edge(TileKind::Forest, TileKind::Grass),
            Edge(TileKind::Grass, TileKind::Grass),
            Edge(TileKind::Forest, TileKind::Grass),
            Edge(TileKind::Grass, TileKind::Grass),
        ),
        def(
            3,
            TileKind::Water,
            Edge(TileKind::Grass, TileKind::Grass),
            Edge(TileKind::Grass, TileKind::Water),
            Edge(TileKind::Grass, TileKind::Grass),
            Edge(TileKind::Grass, TileKind::Water),
        ),
        def(
            4,
            TileKind::Water,
            Edge(TileKind::Grass, TileKind::Grass),
            Edge(TileKind::Water, TileKind::Water),
            Edge(TileKind::Grass, TileKind::Water),
            Edge(TileKind::Grass, TileKind::Water),
        ),
        def(
            5,
            TileKind::Water,
            Edge(TileKind::Grass, TileKind::Grass),
            Edge(TileKind::Water, TileKind::Grass),
            Edge(TileKind::Grass, TileKind::Water),
            Edge(TileKind::Grass, TileKind::Grass),
        ),
        def(
            13,
            TileKind::Water,
            Edge(TileKind::Grass, TileKind::Water),
            Edge(TileKind::Grass, TileKind::Water),
            Edge(TileKind::Grass, TileKind::Grass),
            Edge(TileKind::Water, TileKind::Water),
        ),
        def(
            14,
            TileKind::Water,
            Edge(TileKind::Water, TileKind::Water),
            Edge(TileKind::Water, TileKind::Water),
            Edge(TileKind::Water, TileKind::Water),
            Edge(TileKind::Water, TileKind::Water),
        ),
        def(
            15,
            TileKind::Water,
            Edge(TileKind::Water, TileKind::Grass),
            Edge(TileKind::Water, TileKind::Grass),
            Edge(TileKind::Water, TileKind::Water),
            Edge(TileKind::Grass, TileKind::Grass),
        ),
        def(
            23,
            TileKind::Water,
            Edge(TileKind::Grass, TileKind::Water),
            Edge(TileKind::Grass, TileKind::Grass),
            Edge(TileKind::Grass, TileKind::Grass),
            Edge(TileKind::Water, TileKind::Grass),
        ),
        def(
            24,
            TileKind::Water,
            Edge(TileKind::Water, TileKind::Water),
            Edge(TileKind::Grass, TileKind::Grass),
            Edge(TileKind::Grass, TileKind::Water),
            Edge(TileKind::Grass, TileKind::Water),
        ),
        def(
            25,
            TileKind::Water,
            Edge(TileKind::Water, TileKind::Grass),
            Edge(TileKind::Grass, TileKind::Grass),
            Edge(TileKind::Water, TileKind::Grass),
            Edge(TileKind::Grass, TileKind::Grass),
        ),
        def(
            30,
            TileKind::Forest,
            Edge(TileKind::Forest, TileKind::Forest),
            Edge(TileKind::Forest, TileKind::Grass),
            Edge(TileKind::Forest, TileKind::Forest),
            Edge(TileKind::Forest, TileKind::Grass),
        ),
        def(
            31,
            TileKind::Forest,
            Edge(TileKind::Forest, TileKind::Forest),
            Edge(TileKind::Grass, TileKind::Forest),
            Edge(TileKind::Forest, TileKind::Grass),
            Edge(TileKind::Forest, TileKind::Forest),
        ),
        def(
            40,
            TileKind::Forest,
            Edge(TileKind::Forest, TileKind::Grass),
            Edge(TileKind::Forest, TileKind::Forest),
            Edge(TileKind::Forest, TileKind::Forest),
            Edge(TileKind::Grass, TileKind::Forest),
        ),
        def(
            41,
            TileKind::Forest,
            Edge(TileKind::Grass, TileKind::Forest),
            Edge(TileKind::Forest, TileKind::Forest),
            Edge(TileKind::Grass, TileKind::Forest),
            Edge(TileKind::Forest, TileKind::Forest),
        ),
        def(
            70,
            TileKind::Grass,
            Edge(TileKind::Grass, TileKind::Grass),
            Edge(TileKind::Grass, TileKind::Grass),
            Edge(TileKind::Grass, TileKind::Grass),
            Edge(TileKind::Grass, TileKind::Grass),
        ),
        def(
            32,
            TileKind::Roadturn,
            Edge(TileKind::Grass, TileKind::Grass),
            Edge(TileKind::Road, TileKind::Road),
            Edge(TileKind::Grass, TileKind::Grass),
            Edge(TileKind::Road, TileKind::Road),
        ),
        def(
            33,
            TileKind::Crossroad,
            Edge(TileKind::Grass, TileKind::Grass),
            Edge(TileKind::Road, TileKind::Road),
            Edge(TileKind::Road, TileKind::Road),
            Edge(TileKind::Road, TileKind::Road),
        ),
        def(
            34,
            TileKind::Roadturn,
            Edge(TileKind::Grass, TileKind::Grass),
            Edge(TileKind::Road, TileKind::Road),
            Edge(TileKind::Road, TileKind::Road),
            Edge(TileKind::Grass, TileKind::Grass),
        ),
        def(
            42,
            TileKind::Crossroad,
            Edge(TileKind::Road, TileKind::Road),
            Edge(TileKind::Road, TileKind::Road),
            Edge(TileKind::Grass, TileKind::Grass),
            Edge(TileKind::Road, TileKind::Road),
        ),
        def(
            43,
            TileKind::Crossroad,
            Edge(TileKind::Road, TileKind::Road),
            Edge(TileKind::Road, TileKind::Road),
            Edge(TileKind::Road, TileKind::Road),
            Edge(TileKind::Road, TileKind::Road),
        ),
        def(
            44,
            TileKind::Crossroad,
            Edge(TileKind::Road, TileKind::Road),
            Edge(TileKind::Road, TileKind::Road),
            Edge(TileKind::Road, TileKind::Road),
            Edge(TileKind::Grass, TileKind::Grass),
        ),
        def(
            52,
            TileKind::Roadturn,
            Edge(TileKind::Road, TileKind::Road),
            Edge(TileKind::Grass, TileKind::Grass),
            Edge(TileKind::Grass, TileKind::Grass),
            Edge(TileKind::Road, TileKind::Road),
        ),
        def(
            53,
            TileKind::Crossroad,
            Edge(TileKind::Road, TileKind::Road),
            Edge(TileKind::Grass, TileKind::Grass),
            Edge(TileKind::Road, TileKind::Road),
            Edge(TileKind::Road, TileKind::Road),
        ),
        def(
            54,
            TileKind::Roadturn,
            Edge(TileKind::Road, TileKind::Road),
            Edge(TileKind::Grass, TileKind::Grass),
            Edge(TileKind::Road, TileKind::Road),
            Edge(TileKind::Grass, TileKind::Grass),
        ),
        def(
            35,
            TileKind::Road,
            Edge(TileKind::Grass, TileKind::Grass),
            Edge(TileKind::Grass, TileKind::Grass),
            Edge(TileKind::Road, TileKind::Road),
            Edge(TileKind::Road, TileKind::Road),
        ),
        def(
            36,
            TileKind::Road,
            Edge(TileKind::Road, TileKind::Road),
            Edge(TileKind::Road, TileKind::Road),
            Edge(TileKind::Grass, TileKind::Grass),
            Edge(TileKind::Grass, TileKind::Grass),
        ),
        def(
            45,
            TileKind::Roadend,
            Edge(TileKind::Grass, TileKind::Grass),
            Edge(TileKind::Grass, TileKind::Grass),
            Edge(TileKind::Road, TileKind::Road),
            Edge(TileKind::Grass, TileKind::Grass),
        ),
        def(
            46,
            TileKind::Roadend,
            Edge(TileKind::Grass, TileKind::Grass),
            Edge(TileKind::Road, TileKind::Road),
            Edge(TileKind::Grass, TileKind::Grass),
            Edge(TileKind::Grass, TileKind::Grass),
        ),
        def(
            55,
            TileKind::Roadend,
            Edge(TileKind::Grass, TileKind::Grass),
            Edge(TileKind::Grass, TileKind::Grass),
            Edge(TileKind::Grass, TileKind::Grass),
            Edge(TileKind::Road, TileKind::Road),
        ),
        def(
            56,
            TileKind::Roadend,
            Edge(TileKind::Road, TileKind::Road),
            Edge(TileKind::Grass, TileKind::Grass),
            Edge(TileKind::Grass, TileKind::Grass),
            Edge(TileKind::Grass, TileKind::Grass),
        ),
        def(
            50,
            TileKind::Water,
            Edge(TileKind::Water, TileKind::Water),
            Edge(TileKind::Water, TileKind::Grass),
            Edge(TileKind::Water, TileKind::Water),
            Edge(TileKind::Water, TileKind::Grass),
        ),
        def(
            51,
            TileKind::Water,
            Edge(TileKind::Water, TileKind::Water),
            Edge(TileKind::Grass, TileKind::Water),
            Edge(TileKind::Water, TileKind::Grass),
            Edge(TileKind::Water, TileKind::Water),
        ),
        def(
            60,
            TileKind::Water,
            Edge(TileKind::Water, TileKind::Grass),
            Edge(TileKind::Water, TileKind::Water),
            Edge(TileKind::Water, TileKind::Water),
            Edge(TileKind::Grass, TileKind::Water),
        ),
        def(
            61,
            TileKind::Water,
            Edge(TileKind::Grass, TileKind::Water),
            Edge(TileKind::Water, TileKind::Water),
            Edge(TileKind::Grass, TileKind::Water),
            Edge(TileKind::Water, TileKind::Water),
        ),
    ];
    assert(tiles@ =~= standard_tiles());
    Catalog { tiles, fallback: STANDARD_FALLBACK }
}

} // verus!
