use rand::rngs::StdRng;
use rand::SeedableRng;
use wfc_map::collapse::collapse_with;
use wfc_map::{
    collapse, generate, generate_map, make_tile_indexes, run, Catalog, Edge, Side, TileDef, TileKind, MAP_HEIGHT,
    MAP_WIDTH,
};
use TileKind::{Crossroad, Forest, Grass, Road, Roadend, Water};

fn uniform(id: usize, kind: TileKind, e: Edge) -> TileDef {
    TileDef { id, kind, top: e, bottom: e, left: e, right: e }
}

fn tile_by_id(c: &Catalog, id: usize) -> TileDef {
    *c.tiles.iter().find(|t| t.id == id).unwrap()
}

/// Checks that every neighbouring pair of non-fallback cells shares its edge.
fn assert_sound(c: &Catalog, m: &Vec<Vec<usize>>) {
    let fb = c.tiles[c.fallback].id;
    for x in 0..m.len() {
        for y in 0..m[x].len() {
            let here = m[x][y];
            if here == fb {
                continue;
            }
            let t = tile_by_id(c, here);
            if x + 1 < m.len() && m[x + 1][y] != fb {
                assert_eq!(t.edge(Side::Right), tile_by_id(c, m[x + 1][y]).edge(Side::Left));
            }
            if y + 1 < m[x].len() && m[x][y + 1] != fb {
                assert_eq!(t.edge(Side::Top), tile_by_id(c, m[x][y + 1]).edge(Side::Bottom));
            }
        }
    }
}

#[test]
fn default_map_is_complete() {
    let c = make_tile_indexes();
    let mut rng = StdRng::seed_from_u64(1);
    let m = generate_map(&mut rng);
    assert_eq!(m.len(), MAP_WIDTH);
    for col in &m {
        assert_eq!(col.len(), MAP_HEIGHT);
        for id in col {
            assert!(c.tiles.iter().any(|t| t.id == *id));
        }
    }
    assert_sound(&c, &m);
}

#[test]
fn odd_sizes_are_complete_and_sound() {
    let c = make_tile_indexes();
    for (w, h, seed) in [(1, 7, 3), (7, 1, 4), (3, 5, 5), (12, 9, 6), (2, 2, 7)] {
        let mut rng = StdRng::seed_from_u64(seed);
        let m = generate(&c, w, h, &mut rng);
        assert_eq!(m.len(), w);
        for col in &m {
            assert_eq!(col.len(), h);
            for id in col {
                assert!(c.tiles.iter().any(|t| t.id == *id));
            }
        }
        assert_sound(&c, &m);
    }
}

#[test]
fn one_wide_grids_end_as_fallback() {
    let c = make_tile_indexes();
    for (w, h, seed) in [(1, 4, 11), (5, 1, 12), (1, 2, 13)] {
        let mut rng = StdRng::seed_from_u64(seed);
        let m = generate(&c, w, h, &mut rng);
        // A cell with no neighbour along a whole axis re-evaluates to the
        // fallback; every cell is re-evaluated, the first collapsed one too
        // once its neighbour has changed.
        assert!(m.iter().all(|col| col.iter().all(|id| *id == 50)));
    }
}

#[test]
fn same_seed_same_map() {
    let c = make_tile_indexes();
    let mut a = StdRng::seed_from_u64(42);
    let mut b = StdRng::seed_from_u64(42);
    assert_eq!(generate(&c, 20, 15, &mut a), generate(&c, 20, 15, &mut b));
    let mut d = StdRng::seed_from_u64(42);
    let mut e = StdRng::seed_from_u64(42);
    assert_eq!(generate_map(&mut d), generate_map(&mut e));
}

#[test]
fn cycles_within_cell_count() {
    let c = make_tile_indexes();
    for (w, h) in [(1, 1), (4, 3), (10, 10), (1, 6)] {
        let mut rng = StdRng::seed_from_u64((w * 100 + h) as u64);
        let r = run(&c, w, h, &mut rng);
        assert!(r.cycles >= 1);
        assert!(r.cycles <= w * h);
        for col in &r.grid.cells {
            for d in col {
                assert_eq!(d.len(), 1);
            }
        }
    }
}

#[test]
fn single_cell_grid() {
    let c = make_tile_indexes();
    for seed in 0..20 {
        let mut rng = StdRng::seed_from_u64(seed);
        let m = generate(&c, 1, 1, &mut rng);
        assert_eq!(m.len(), 1);
        assert_eq!(m[0].len(), 1);
        let t = tile_by_id(&c, m[0][0]);
        // Only tiles of positive weight can be drawn.
        assert!(t.kind != Crossroad && t.kind != TileKind::Roadend);
    }
}

#[test]
fn two_by_two_pair_catalog_bands() {
    // A meets B on its right; each meets itself vertically; nothing else
    // fits.  B never wins a draw, so the first cell is A and the rest
    // follows by propagation alone.
    let a = TileDef {
        id: 7,
        kind: Grass,
        top: Edge(Grass, Grass),
        bottom: Edge(Grass, Grass),
        left: Edge(Water, Water),
        right: Edge(Road, Road),
    };
    let b = TileDef {
        id: 9,
        kind: Roadend,
        top: Edge(Forest, Forest),
        bottom: Edge(Forest, Forest),
        left: Edge(Road, Road),
        right: Edge(Forest, Grass),
    };
    let c = Catalog::new(vec![a, b], 7).unwrap();
    for seed in 0..10 {
        let mut rng = StdRng::seed_from_u64(seed);
        let r = run(&c, 2, 2, &mut rng);
        assert_eq!(r.cycles, 1);
        let m = generate(&c, 2, 2, &mut rng);
        assert_eq!(m, vec![vec![7, 7], vec![9, 9]]);
    }
}

#[test]
fn zero_weight_domain_draws_uniformly() {
    let tiles = vec![
        uniform(0, Crossroad, Edge(Road, Road)),
        uniform(1, Roadend, Edge(Road, Grass)),
        uniform(2, Water, Edge(Water, Water)),
    ];
    let c = Catalog::new(tiles, 2).unwrap();
    let mut seen = [0usize; 2];
    let mut rng = StdRng::seed_from_u64(9);
    for _ in 0..400 {
        let mut d = vec![0, 1];
        collapse(&c, &mut d, &mut rng);
        assert_eq!(d.len(), 1);
        seen[d[0]] += 1;
    }
    assert!(seen[0] > 100 && seen[1] > 100);
    let mut d = vec![0, 1];
    collapse_with(&c, &mut d, 1);
    assert_eq!(d, vec![1]);
    let mut d = vec![0, 1];
    collapse_with(&c, &mut d, 0);
    assert_eq!(d, vec![0]);
    // A whole grid of zero-weight tiles still completes.
    let only_zero = Catalog::new(vec![uniform(4, Crossroad, Edge(Road, Road)), uniform(5, Roadend, Edge(Road, Road))], 4)
        .unwrap();
    let m = generate(&only_zero, 3, 3, &mut rng);
    assert_eq!(m.len(), 3);
    assert!(m.iter().all(|col| col.len() == 3 && col.iter().all(|id| *id == 4 || *id == 5)));
}

#[test]
fn collapse_follows_weights() {
    let tiles = vec![
        uniform(0, Grass, Edge(Grass, Grass)),
        uniform(1, Road, Edge(Road, Road)),
        uniform(2, Crossroad, Edge(Road, Road)),
    ];
    let c = Catalog::new(tiles, 0).unwrap();
    let mut counts = [0usize; 3];
    let mut rng = StdRng::seed_from_u64(2024);
    let n = 60000;
    for _ in 0..n {
        let mut d = vec![0, 1, 2];
        collapse(&c, &mut d, &mut rng);
        assert_eq!(d.len(), 1);
        counts[d[0]] += 1;
    }
    assert_eq!(counts[2], 0);
    let ratio = counts[1] as f64 / counts[0] as f64;
    assert!(ratio > 4.6 && ratio < 5.4, "ratio {}", ratio);
}

#[test]
fn collapse_with_exact_draws() {
    let tiles = vec![
        uniform(0, Grass, Edge(Grass, Grass)),
        uniform(1, Road, Edge(Road, Road)),
        uniform(2, Crossroad, Edge(Road, Road)),
        uniform(3, Forest, Edge(Forest, Forest)),
    ];
    let c = Catalog::new(tiles, 0).unwrap();
    let expect = [(0u128, 0usize), (1, 1), (5, 1), (6, 3)];
    for (r, k) in expect {
        let mut d = vec![0, 1, 2, 3];
        collapse_with(&c, &mut d, r);
        assert_eq!(d, vec![k]);
    }
}
