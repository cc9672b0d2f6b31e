use wfc_map::collapse::{draw_bound, pick_weighted, total_weight};
use wfc_map::grid::{
    find_neighbours, find_possible_tiles_given_neighbours, get_lowest_entropy_tile, neighbours_to_vec,
};
use wfc_map::generator::full_grid;
use wfc_map::propagate::{propagate, same_domain};
use wfc_map::tiles::{edges_match, weight};
use wfc_map::{make_tile_indexes, Catalog, Edge, Grid, Side, TileDef, TileKind, STANDARD_FALLBACK};
use TileKind::{Crossroad, Forest, Grass, Road, Roadend, Roadturn, Water};

fn uniform(id: usize, kind: TileKind, e: Edge) -> TileDef {
    TileDef { id, kind, top: e, bottom: e, left: e, right: e }
}

/// Two tiles: A's right edge meets B's left edge; each meets itself
/// vertically; nothing else fits.
fn pair_catalog(b_kind: TileKind) -> Catalog {
    let a = TileDef {
        id: 7,
        kind: Grass,
        top: Edge(Grass, Grass),
        bottom: Edge(Grass, Grass),
        left: Edge(Water, Water),
        right: Edge(Road, Road),
    };
    let b = TileDef {
        id: 9,
        kind: b_kind,
        top: Edge(Forest, Forest),
        bottom: Edge(Forest, Forest),
        left: Edge(Road, Road),
        right: Edge(Forest, Grass),
    };
    Catalog::new(vec![a, b], 7).unwrap()
}

#[test]
fn weights_by_kind() {
    assert_eq!(weight(Water), 1);
    assert_eq!(weight(Grass), 1);
    assert_eq!(weight(Forest), 1);
    assert_eq!(weight(Road), 5);
    assert_eq!(weight(Roadturn), 1);
    assert_eq!(weight(Crossroad), 0);
    assert_eq!(weight(Roadend), 0);
}

#[test]
fn edges_compare_both_halves_in_order() {
    assert!(edges_match(Edge(Grass, Water), Edge(Grass, Water)));
    assert!(!edges_match(Edge(Grass, Water), Edge(Water, Grass)));
}

#[test]
fn tile_edge_by_side() {
    let t = TileDef {
        id: 1,
        kind: Forest,
        top: Edge(Grass, Grass),
        bottom: Edge(Grass, Forest),
        left: Edge(Forest, Forest),
        right: Edge(Water, Grass),
    };
    assert_eq!(t.edge(Side::Top), Edge(Grass, Grass));
    assert_eq!(t.edge(Side::Bottom), Edge(Grass, Forest));
    assert_eq!(t.edge(Side::Left), Edge(Forest, Forest));
    assert_eq!(t.edge(Side::Right), Edge(Water, Grass));
}

#[test]
fn standard_catalog_shape() {
    let c = make_tile_indexes();
    assert_eq!(c.tiles.len(), 42);
    assert_eq!(c.fallback, STANDARD_FALLBACK);
    assert_eq!(c.tiles[c.fallback].id, 50);
    assert_eq!(c.tiles[c.fallback].kind, Water);
    assert_eq!(c.tiles[c.fallback].top, Edge(Water, Water));
    assert_eq!(c.tiles[c.fallback].bottom, Edge(Water, Grass));
    assert_eq!(c.tiles[c.fallback].left, Edge(Water, Water));
    assert_eq!(c.tiles[c.fallback].right, Edge(Water, Grass));
    assert!(Catalog::new(c.tiles.clone(), 50).is_some());
    assert_eq!(c.id_at(0), 0);
    assert_eq!(c.id_at(41), 61);
    let mut ids: Vec<usize> = c.tiles.iter().map(|t| t.id).collect();
    ids.sort();
    ids.dedup();
    assert_eq!(ids.len(), 42);
}

#[test]
fn catalog_new_finds_fallback() {
    let tiles = vec![uniform(3, Grass, Edge(Grass, Grass)), uniform(5, Water, Edge(Water, Water))];
    let c = Catalog::new(tiles.clone(), 5).unwrap();
    assert_eq!(c.fallback, 1);
    assert_eq!(c.tiles, tiles);
    assert!(Catalog::new(tiles, 4).is_none());
    assert!(Catalog::new(vec![], 0).is_none());
    let repeated = vec![uniform(3, Grass, Edge(Grass, Grass)), uniform(3, Water, Edge(Water, Water))];
    assert!(Catalog::new(repeated, 3).is_none());
}

#[test]
fn neighbours_inside_and_at_edges() {
    let n = find_neighbours(3, 4, 1, 2);
    assert_eq!(n.top, Some((1, 3)));
    assert_eq!(n.bottom, Some((1, 1)));
    assert_eq!(n.left, Some((0, 2)));
    assert_eq!(n.right, Some((2, 2)));
    assert_eq!(neighbours_to_vec(&n), vec![(1, 3), (1, 1), (0, 2), (2, 2)]);
    let corner = find_neighbours(3, 4, 0, 0);
    assert_eq!(corner.top, Some((0, 1)));
    assert_eq!(corner.bottom, None);
    assert_eq!(corner.left, None);
    assert_eq!(corner.right, Some((1, 0)));
    assert_eq!(neighbours_to_vec(&corner), vec![(0, 1), (1, 0)]);
    let single = find_neighbours(1, 1, 0, 0);
    assert!(neighbours_to_vec(&single).is_empty());
}

#[test]
fn full_grid_holds_every_tile() {
    let g = full_grid(3, 2, 4);
    assert_eq!(g.width, 2);
    assert_eq!(g.height, 4);
    assert_eq!(g.cells.len(), 2);
    for col in &g.cells {
        assert_eq!(col.len(), 4);
        for d in col {
            assert_eq!(d, &vec![0, 1, 2]);
        }
    }
}

#[test]
fn lowest_entropy_picks_smallest_then_first() {
    let mut g = full_grid(4, 3, 3);
    assert_eq!(get_lowest_entropy_tile(&g), Some((0, 0)));
    g.cells[2][1] = vec![0, 1];
    g.cells[1][2] = vec![2, 3];
    g.cells[0][0] = vec![3];
    assert_eq!(get_lowest_entropy_tile(&g), Some((1, 2)));
    for x in 0..3 {
        for y in 0..3 {
            g.cells[x][y] = vec![x];
        }
    }
    assert_eq!(get_lowest_entropy_tile(&g), None);
}

#[test]
fn narrowing_keeps_fitting_candidates() {
    let c = pair_catalog(Grass);
    let mut g = full_grid(2, 2, 2);
    // Left of (1, 0) now only offers A's right edge, which only B meets.
    g.cells[0][0] = vec![0];
    assert_eq!(find_possible_tiles_given_neighbours(&c, &g, 1, 0), vec![1]);
    // Above (0, 0) both tiles are still possible; only A meets A's top.
    assert_eq!(find_possible_tiles_given_neighbours(&c, &g, 0, 1), vec![0]);
    // At (1, 1) the open left neighbour offers A's and B's right edges;
    // A's left edge is neither, so only B fits.
    assert_eq!(find_possible_tiles_given_neighbours(&c, &g, 1, 1), vec![1]);
}

#[test]
fn narrowing_contradiction_gives_fallback() {
    let c = pair_catalog(Grass);
    let mut g = full_grid(2, 2, 2);
    // B at (0, 0): no tile has B's right edge on its left.
    g.cells[0][0] = vec![1];
    assert_eq!(find_possible_tiles_given_neighbours(&c, &g, 1, 0), vec![c.fallback]);
}

#[test]
fn narrowing_degenerate_axis_gives_fallback() {
    let c = pair_catalog(Grass);
    let g = full_grid(2, 3, 1);
    assert_eq!(find_possible_tiles_given_neighbours(&c, &g, 1, 0), vec![c.fallback]);
    let tall = full_grid(2, 1, 3);
    assert_eq!(find_possible_tiles_given_neighbours(&c, &tall, 0, 1), vec![c.fallback]);
}

#[test]
fn propagation_settles_the_pair_grid() {
    let c = pair_catalog(Grass);
    let mut g = full_grid(2, 2, 2);
    g.cells[0][0] = vec![0];
    propagate(&c, &mut g, vec![(0, 1), (1, 0)]);
    assert_eq!(g.cells[0][0], vec![0]);
    assert_eq!(g.cells[0][1], vec![0]);
    assert_eq!(g.cells[1][0], vec![1]);
    assert_eq!(g.cells[1][1], vec![1]);
}

#[test]
fn propagation_only_shrinks_domains() {
    let c = make_tile_indexes();
    let n = c.tiles.len();
    let mut g = full_grid(n, 6, 5);
    g.cells[2][2] = vec![4];
    let before: Grid = Grid { width: g.width, height: g.height, cells: g.cells.clone() };
    propagate(&c, &mut g, vec![(2, 3), (2, 1), (1, 2), (3, 2)]);
    for x in 0..6 {
        for y in 0..5 {
            let now = &g.cells[x][y];
            let was = &before.cells[x][y];
            assert!(!now.is_empty());
            assert!(now.len() <= was.len());
            assert!(*now == vec![c.fallback] || now.iter().all(|t| was.contains(t)));
        }
    }
}

#[test]
fn same_domain_compares_in_order() {
    assert!(same_domain(&vec![1, 2], &vec![1, 2]));
    assert!(!same_domain(&vec![1, 2], &vec![2, 1]));
    assert!(!same_domain(&vec![1], &vec![1, 2]));
    assert!(same_domain(&vec![], &vec![]));
}

#[test]
fn total_weight_sums() {
    assert_eq!(total_weight(&vec![]), 0);
    assert_eq!(total_weight(&vec![1, 5, 0, 1]), 7);
    assert_eq!(total_weight(&vec![u64::MAX, u64::MAX]), 2 * (u64::MAX as u128));
}

#[test]
fn pick_walks_running_sum() {
    let ws = vec![1, 5, 0, 1];
    assert_eq!(pick_weighted(&ws, 0), 0);
    assert_eq!(pick_weighted(&ws, 1), 1);
    assert_eq!(pick_weighted(&ws, 5), 1);
    assert_eq!(pick_weighted(&ws, 6), 3);
    let zero_first = vec![0, 0, 2];
    assert_eq!(pick_weighted(&zero_first, 0), 2);
    assert_eq!(pick_weighted(&zero_first, 1), 2);
}

#[test]
fn draw_bound_by_kind_or_uniform() {
    let tiles = vec![
        uniform(0, Road, Edge(Road, Road)),
        uniform(1, Grass, Edge(Grass, Grass)),
        uniform(2, Crossroad, Edge(Road, Road)),
        uniform(3, Roadend, Edge(Road, Grass)),
    ];
    let c = Catalog::new(tiles, 1).unwrap();
    assert_eq!(draw_bound(&c, &vec![0, 1, 2, 3]), 6);
    assert_eq!(draw_bound(&c, &vec![2, 3]), 2);
    assert_eq!(draw_bound(&c, &vec![3]), 1);
}

fn pos(c: &Catalog, id: usize) -> usize {
    c.tiles.iter().position(|t| t.id == id).unwrap()
}

#[test]
fn zero_weight_candidate_never_drawn_from_standard() {
    let c = make_tile_indexes();
    let (cross, road) = (pos(&c, 33), pos(&c, 35));
    assert_eq!(c.tiles[cross].kind, Crossroad);
    assert_eq!(c.tiles[road].kind, Road);
    assert_eq!(draw_bound(&c, &vec![cross, road]), 5);
    for r in 0..5u128 {
        let mut d = vec![cross, road];
        wfc_map::collapse::collapse_with(&c, &mut d, r);
        assert_eq!(d, vec![road]);
    }
}

#[test]
fn water_tile_filtered_among_grass() {
    let c = make_tile_indexes();
    let (grass, water) = (pos(&c, 70), pos(&c, 14));
    let mut g = full_grid(c.tiles.len(), 50, 50);
    for x in 0..50 {
        for y in 0..50 {
            g.cells[x][y] = vec![grass];
        }
    }
    g.cells[1][1] = vec![water, grass];
    assert_eq!(find_possible_tiles_given_neighbours(&c, &g, 1, 1), vec![grass]);
    g.cells[1][1] = vec![water];
    let repaired = find_possible_tiles_given_neighbours(&c, &g, 1, 1);
    assert_eq!(repaired, vec![c.fallback]);
    assert_eq!(c.id_at(repaired[0]), 50);
}
