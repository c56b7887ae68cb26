use hydro::droplet::{step_droplet, Config, Droplet};
use hydro::erosion::{rand_pos, Erosion};
use hydro::fixed::{isqrt, SCALE};
use hydro::grid::{normalized_coord, unroll, Elevation};
use hydro::source::Source;

fn test_config() -> Config {
    // evaporation 0.05, inertia 0.1, min slope 0, capacity 800,
    // deposition 0.1, erosion 0.01, on a 3x3 grid.
    Config {
        size: 3,
        evaporation: 3277,
        inertia: 6554,
        min_slope: 0,
        capacity: 52428800,
        deposition: 6554,
        erosion: 655,
    }
}

fn corner_grid() -> Elevation {
    // A flat 3x3 grid except one corner at height 1.0.
    Elevation { data: vec![65536, 0, 0, 0, 0, 0, 0, 0, 0], size: 3 }
}

#[test]
fn projection_clamps_both_axes() {
    // Far negative coordinates land in column and row zero.
    assert_eq!(unroll(-100000, -1, 4), 0);
    // Coordinates at or beyond the far edge land in the last column / row.
    assert_eq!(unroll(5 * 65536, 2 * 65536, 4), 3 + 2 * 4);
    assert_eq!(unroll(4 * 65536, 100 * 65536, 4), 3 + 3 * 4);
    // Interior coordinates truncate toward zero.
    assert_eq!(unroll(98304, 65536, 4), 1 + 1 * 4);
    // Every projection lies inside the flat array.
    for x in [-70000i64, -1, 0, 1, 65535, 65536, 262143, 262144, 900000] {
        for y in [-70000i64, -1, 0, 1, 65535, 65536, 262143, 262144, 900000] {
            assert!(unroll(x, y, 4) < 16);
        }
    }
}

#[test]
fn gradient_defined_on_every_cell() {
    let e = Elevation { data: vec![0, 65536, 131072, 196608], size: 2 };
    // The 2x2 window shifts off the rightmost column and bottom row, so the
    // last cell reads the same window as the first.
    let g3 = e.grad(3);
    assert_eq!(g3, ((65536 - 0) / 2 + (196608 - 131072) / 2, (131072 - 0) / 2 + (196608 - 65536)
        / 2));
    for i in 0..4 {
        e.grad(i);
    }
    // A larger grid: every index is in bounds.
    let big = Elevation { data: vec![0; 25], size: 5 };
    for i in 0..25 {
        assert_eq!(big.grad(i), (0, 0));
    }
}

#[test]
fn deposit_conserves_mass_interior() {
    let mut e = Elevation { data: vec![0; 16], size: 4 };
    // Deposit 20 units at the center of cell (1, 1).
    e.add(98304, 98304, 20);
    // Weights: corners 20/20 = 1, edges 20/10 = 2, center the remainder 8.
    let expect = vec![1, 2, 1, 0, 2, 8, 2, 0, 1, 2, 1, 0, 0, 0, 0, 0];
    assert_eq!(e.data, expect);
    let total: i64 = e.data.iter().sum();
    assert_eq!(total, 20);
}

#[test]
fn deposit_concentrates_at_clamped_edges() {
    let mut e = Elevation { data: vec![0; 9], size: 3 };
    // Deposit at the corner cell: clamped neighbors fold onto the grid and
    // the full amount still lands somewhere on it.
    e.add(32768, 32768, 6554);
    assert_eq!(e.data[0], 4263);
    assert_eq!(e.data[1], 982);
    assert_eq!(e.data[3], 982);
    assert_eq!(e.data[4], 327);
    let total: i64 = e.data.iter().sum();
    assert_eq!(total, 6554);
}

#[test]
fn withdrawal_conserves_mass_too() {
    let mut e = Elevation { data: vec![100; 16], size: 4 };
    e.add(98304, 98304, -20);
    let total: i64 = e.data.iter().sum();
    assert_eq!(total, 1600 - 20);
}

#[test]
fn source_flow_matches_rate_exactly() {
    // flux 0.01 of a droplet per tick.
    let mut s = Source::new(0, 0, 655);
    let mut emitted: u64 = 0;
    for _ in 0..200 {
        emitted += s.flow();
        assert!(0 <= s.stock && s.stock < SCALE);
    }
    // floor(655 * 200 / 65536) = 1 whole droplet over 200 ticks.
    assert_eq!(emitted, 1);
    assert_eq!(s.stock, 655 * 200 - 65536);
    // A two-droplets-per-tick source emits exactly two per tick.
    let mut fast = Source::new(0, 0, 2 * SCALE);
    for _ in 0..5 {
        assert_eq!(fast.flow(), 2);
        assert_eq!(fast.stock, 0);
    }
}

#[test]
fn erosion_step_moves_downhill_from_the_high_corner() {
    let mut e = corner_grid();
    let cfg = test_config();
    // A fresh droplet at the center of the high corner cell.
    let mut d = Droplet::new(32768, 32768);
    step_droplet(&mut e, &mut d, &cfg);
    // The gradient pulls diagonally toward the flat interior; the unit step
    // crosses into cell (1, 1).
    assert_eq!((d.dx, d.dy), (46341, 46341));
    assert_eq!((d.px, d.py), (79109, 79109));
    assert_eq!(unroll(d.px, d.py, 3), 4);
    // The height drop is the full corner height, gained as velocity.
    assert_eq!(d.vel, 65536);
    // At rest the droplet had no carrying capacity, so nothing moved yet.
    assert_eq!(d.sediment, 0);
    assert_eq!(e.data, corner_grid().data);
    // At full unit velocity this variant's evaporation factor is one.
    assert_eq!(d.water, 65536);
}

#[test]
fn overloaded_droplet_deposits_at_its_old_cell() {
    let mut e = corner_grid();
    let cfg = test_config();
    // A resting droplet already carrying a full unit of sediment.
    let mut d = Droplet { px: 32768, py: 32768, dx: 0, dy: 0, vel: 0, water: 65536, sediment: 65536 };
    step_droplet(&mut e, &mut d, &cfg);
    // Deposition rate 0.1 of the overload.
    assert_eq!(d.sediment, 65536 - 6554);
    // The deposit lands around the old cell, mass conserved on the grid.
    assert_eq!(e.data[0], 65536 + 4263);
    assert_eq!(e.data[1], 982);
    assert_eq!(e.data[3], 982);
    assert_eq!(e.data[4], 327);
    let total: i64 = e.data.iter().sum();
    assert_eq!(total, 65536 + 6554);
}

#[test]
fn erosion_never_exceeds_height_drop() {
    let mut e = corner_grid();
    let cfg = test_config();
    // A fast, light droplet on the high corner: huge capacity, so the
    // erosion amount is limited by the height drop alone.
    let mut d = Droplet { px: 32768, py: 32768, dx: 0, dy: 0, vel: 65536, water: 65536, sediment: 0 };
    let before: i64 = e.data.iter().sum();
    step_droplet(&mut e, &mut d, &cfg);
    assert!(d.sediment <= 65536);
    let after: i64 = e.data.iter().sum();
    // What left the grid is exactly what the droplet picked up, and no more
    // than the height drop.
    assert_eq!(before - after, d.sediment);
    assert!(before - after <= 65536);
}

#[test]
fn water_never_increases_and_dry_droplets_despawn() {
    let cfg = test_config();
    let mut sim = Erosion {
        cfg,
        elev: Elevation { data: vec![0; 9], size: 3 },
        droplets: vec![
            Droplet::new(32768, 32768),
            // An almost-dry droplet: gone after the tick.
            Droplet { px: 32768, py: 32768, dx: 0, dy: 0, vel: 0, water: 1, sediment: 0 },
        ],
        sources: vec![],
        rain_per_tick: 0,
    };
    let mut waters: Vec<i64> = sim.droplets.iter().map(|d| d.water).collect();
    for _ in 0..50 {
        sim.tick();
        for d in sim.droplets.iter() {
            assert!(d.water >= 1);
            assert!(d.water <= 65536);
        }
        if sim.droplets.len() == waters.len() {
            for (d, w) in sim.droplets.iter().zip(waters.iter()) {
                assert!(d.water <= *w);
            }
        }
        waters = sim.droplets.iter().map(|d| d.water).collect();
    }
    // On a flat grid the resting droplets evaporate at the full rate and
    // eventually despawn; the almost-dry one goes on the first tick.
    assert!(sim.droplets.len() <= 1);
}

#[test]
fn rain_spawns_fresh_droplets_on_the_grid() {
    let cfg = test_config();
    let mut sim = Erosion {
        cfg,
        elev: Elevation { data: vec![0; 9], size: 3 },
        droplets: vec![],
        sources: vec![],
        rain_per_tick: 5,
    };
    sim.rain();
    assert_eq!(sim.droplets.len(), 5);
    for d in sim.droplets.iter() {
        assert!(0 <= d.px && d.px < 3 * 65536);
        assert!(0 <= d.py && d.py < 3 * 65536);
        assert_eq!(d.water, 65536);
        assert_eq!(d.vel, 0);
        assert_eq!(d.sediment, 0);
    }
}

#[test]
fn springs_spawn_droplets_at_their_position() {
    let cfg = test_config();
    let mut sim = Erosion {
        cfg,
        elev: Elevation { data: vec![0; 9], size: 3 },
        droplets: vec![],
        sources: vec![Source::new(98304, 32768, 3 * 65536 / 2)],
        rain_per_tick: 0,
    };
    sim.flows();
    // 1.5 droplets per tick: one whole droplet now, half carried over.
    assert_eq!(sim.droplets.len(), 1);
    assert_eq!(sim.sources[0].stock, 32768);
    assert_eq!((sim.droplets[0].px, sim.droplets[0].py), (98304, 32768));
    sim.flows();
    // The carried half tops up to two whole droplets.
    assert_eq!(sim.droplets.len(), 3);
    assert_eq!(sim.sources[0].stock, 0);
}

#[test]
fn tick_spawns_rain_and_spring_flow_then_steps_everything() {
    let cfg = test_config();
    let mut sim = Erosion {
        cfg,
        elev: Elevation { data: vec![0; 9], size: 3 },
        droplets: vec![],
        sources: vec![Source::new(98304, 32768, 65536)],
        rain_per_tick: 2,
    };
    sim.tick();
    // Two raindrops plus one whole spring emission, all stepped once and
    // all still wet enough to survive the first tick.
    assert_eq!(sim.droplets.len(), 3);
    assert_eq!(sim.sources[0].stock, 0);
    for d in sim.droplets.iter() {
        // One step from a resting start on a flat grid: full evaporation
        // share, no sediment exchange.
        assert_eq!(d.water, 62259);
        assert_eq!(d.sediment, 0);
    }
    let mass: i64 = sim.elev.data.iter().sum();
    assert_eq!(mass, 0);
}

#[test]
fn invalid_configuration_is_refused_at_startup() {
    let mut cfg = test_config();
    cfg.size = 0;
    let r = Erosion::new(cfg, &vec![], 0, 655, 19661, 5);
    assert!(r.is_none());
    let mut cfg2 = test_config();
    cfg2.erosion = -1;
    let r2 = Erosion::new(cfg2, &vec![0; 9], 0, 655, 19661, 5);
    assert!(r2.is_none());
    // A negative flux is refused too.
    let r3 = Erosion::new(test_config(), &vec![0; 9], 0, -1, 19661, 5);
    assert!(r3.is_none());
}

#[test]
fn generation_carves_an_island_falloff() {
    // With flat zero noise the terrain is the radial falloff plus the
    // half-unit bias alone.
    let e = Elevation::new(2, &vec![0, 0, 0, 0]);
    assert_eq!(e.data, vec![-59913, -32768, -32768, 32768]);
}

#[test]
fn sources_sit_only_above_the_height_threshold() {
    let cfg = test_config();
    // Flat zero noise on a 3x3 grid keeps every height at or below 0.5, so
    // a threshold of 1.0 leaves no spring at all.
    let sim = Erosion::new(cfg, &vec![0; 9], 400, 655, 65536, 5).unwrap();
    assert_eq!(sim.sources.len(), 0);
    assert_eq!(sim.droplets.len(), 0);
}

#[test]
fn seeded_generation_is_bit_identical_across_runs() {
    // Sample the seeded fractal noise field exactly as the host does, twice,
    // and generate twice: the heightmaps must agree bit for bit.
    let size: usize = 4;
    let seed: u32 = 12345;
    let first = sample_field(seed, size);
    let second = sample_field(seed, size);
    assert_eq!(first, second);
    let e1 = Elevation::new(size, &first);
    let e2 = Elevation::new(size, &second);
    assert_eq!(e1.data, e2.data);
}

fn sample_field(seed: u32, size: usize) -> Vec<i64> {
    let sampler = noise::Fbm::<noise::Perlin>::new(seed);
    let mut out: Vec<i64> = Vec::with_capacity(size * size);
    for i in 0..size * size {
        let u = normalized_coord(i % size, size);
        let v = normalized_coord(i / size, size);
        let s = noise::NoiseFn::get(&sampler, [u as f64 / 65536.0, v as f64 / 65536.0]);
        out.push((s * 65536.0) as i64);
    }
    out
}

#[test]
fn random_positions_stay_on_the_grid() {
    for _ in 0..100 {
        let p = rand_pos(7);
        assert!(0 <= p.0 && p.0 < 7 * 65536);
        assert!(0 <= p.1 && p.1 < 7 * 65536);
    }
}

#[test]
fn integer_square_root_is_exact() {
    assert_eq!(isqrt(0), 0);
    assert_eq!(isqrt(1), 1);
    assert_eq!(isqrt(2), 1);
    assert_eq!(isqrt(4294967296), 65536);
    assert_eq!(isqrt(2147483648), 46340);
    for n in 0u128..200 {
        let r = isqrt(n) as u128;
        assert!(r * r <= n && n < (r + 1) * (r + 1));
    }
}
