//! Droplets and the per-tick erosion step: a droplet turns toward the
//! downhill gradient, moves one unit step, exchanges sediment with the
//! terrain against its carrying capacity, and loses water to evaporation.
//!
//! Of the two parameter variants attested for this algorithm, this module
//! implements the velocity-weighted one: the inertia weight is scaled by the
//! droplet's current velocity, erosion is gated on the new cell lying at or
//! above the implicit sea level, and evaporation weakens as the droplet
//! speeds up.

use vstd::prelude::*;
use vstd::arithmetic::div_mod::lemma_div_pos_is_pos;
use crate::fixed::{
    SCALE, HMAX, QMAX, PMAX, MAX_SIZE, tdiv, spec_cap, cap, spec_isqrt, isqrt,
    lemma_isqrt_bounds, lemma_isqrt_ge, lemma_isqrt_lt, lemma_tdiv_bound,
    lemma_scaled_fraction_le,
};
use crate::grid::{
    Elevation, spec_unroll, spec_grad, spec_deposit, total, lemma_deposit_conserves_mass, unroll,
};

verus! {

/// The simulation's tuning constants; rates are fixed-point fractions of
/// one. An invalid configuration is rejected before the first tick.
pub struct Config {
    pub size: usize,
    pub evaporation: i64,
    pub inertia: i64,
    pub min_slope: i64,
    pub capacity: i64,
    pub deposition: i64,
    pub erosion: i64,
}

impl Config {
    /// Ranges under which every tick is free of numerical surprises.
    pub open spec fn wf(&self) -> bool {
        &&& 2 <= self.size <= MAX_SIZE
        &&& 0 <= self.evaporation <= SCALE
        &&& 0 <= self.inertia <= SCALE
        &&& 0 <= self.min_slope <= QMAX
        &&& 0 <= self.capacity <= QMAX
        &&& 0 <= self.deposition <= SCALE
        &&& 0 <= self.erosion <= SCALE
    }

    /// Check the configuration: simulation with a non-square grid or rates
    /// out of range cannot produce a meaningful terrain and is refused at
    /// startup.
    pub fn valid(&self) -> (b: bool)
        ensures
            b == self.wf(),
    {
        2 <= self.size && self.size <= MAX_SIZE && 0 <= self.evaporation && self.evaporation
            <= SCALE && 0 <= self.inertia && self.inertia <= SCALE && 0 <= self.min_slope
            && self.min_slope <= QMAX && 0 <= self.capacity && self.capacity <= QMAX && 0
            <= self.deposition && self.deposition <= SCALE && 0 <= self.erosion && self.erosion
            <= SCALE
    }
}

/// A transient water parcel flowing over the terrain.
#[derive(Clone, Copy)]
pub struct Droplet {
    pub px: i64,
    pub py: i64,
    pub dx: i64,
    pub dy: i64,
    pub vel: i64,
    pub water: i64,
    pub sediment: i64,
}

impl Droplet {
    /// The droplet's invariant: position within the supported extent, a
    /// direction within the unit box, and nonnegative bounded velocity,
    /// water and sediment.
    pub open spec fn wf(&self) -> bool {
        &&& -PMAX <= self.px <= PMAX
        &&& -PMAX <= self.py <= PMAX
        &&& -SCALE <= self.dx <= SCALE
        &&& -SCALE <= self.dy <= SCALE
        &&& 0 <= self.vel <= QMAX
        &&& 0 <= self.water <= SCALE
        &&& 0 <= self.sediment <= QMAX
    }

    /// A fresh droplet: a full unit of water, at rest, carrying nothing.
    pub fn new(px: i64, py: i64) -> (d: Droplet)
        requires
            -PMAX <= px <= PMAX,
            -PMAX <= py <= PMAX,
        ensures
            d.wf(),
            d == (Droplet { px, py, dx: 0, dy: 0, vel: 0, water: SCALE, sediment: 0 }),
    {
        Droplet { px, py, dx: 0, dy: 0, vel: 0, water: SCALE, sediment: 0 }
    }
}

/// The inertia weight of the current direction: the configured inertia
/// scaled by the droplet's velocity.
pub open spec fn spec_weight(d: Droplet, cfg: Config) -> int {
    cfg.inertia * d.vel / (SCALE as int)
}

/// The unnormalized new direction: the old direction weighted by inertia
/// against the downhill pull of the gradient.
pub open spec fn spec_raw_dir(data: Seq<i64>, size: int, d: Droplet, cfg: Config) -> (int, int) {
    let g = spec_grad(data, size, spec_unroll(d.px as int, d.py as int, size));
    let w = spec_weight(d, cfg);
    (
        tdiv(d.dx * w - g.0 * (SCALE - w), SCALE as int),
        tdiv(d.dy * w - g.1 * (SCALE - w), SCALE as int),
    )
}

/// The new flow direction, normalized to the unit box; a degenerate zero
/// vector leaves the previous direction unchanged rather than propagating
/// an undefined normalization.
pub open spec fn spec_new_dir(data: Seq<i64>, size: int, d: Droplet, cfg: Config) -> (int, int) {
    let r = spec_raw_dir(data, size, d, cfg);
    let len = spec_isqrt(r.0 * r.0 + r.1 * r.1);
    if len == 0 {
        (d.dx as int, d.dy as int)
    } else {
        (tdiv(r.0 * SCALE, len), tdiv(r.1 * SCALE, len))
    }
}

/// The sediment capacity surplus: how much more sediment the droplet could
/// carry at its slope, velocity and water volume, minus its current load.
pub open spec fn spec_capacity_diff(hdif: int, d: Droplet, cfg: Config) -> int {
    let slope = if hdif >= cfg.min_slope {
        hdif
    } else {
        cfg.min_slope as int
    };
    ((slope * d.vel / (SCALE as int)) * d.water / (SCALE as int)) * cfg.capacity / (SCALE as int)
        - d.sediment
}

/// The sediment drawn from the terrain in the erosion branch: the rated
/// share of the capacity surplus, never more than the height drop, capped
/// so the droplet's load stays within its bound, and never more than the
/// droplet could give back. What the grid loses is exactly what the droplet
/// gains, so the exchange conserves mass whenever the grid has headroom.
pub open spec fn spec_erode_amount(cdif: int, hdif: int, sed: int, cfg: Config) -> int {
    let e1 = cdif * cfg.erosion / (SCALE as int);
    let raw = if e1 <= hdif {
        e1
    } else {
        hdif
    };
    let capped = if raw <= QMAX - sed {
        raw
    } else {
        QMAX - sed
    };
    if capped >= -sed {
        capped
    } else {
        -sed
    }
}

/// The sediment given back to the terrain in the deposition branch: the
/// rated share of the overload.
pub open spec fn spec_deposit_amount(cdif: int, cfg: Config) -> int {
    (-cdif) * cfg.deposition / (SCALE as int)
}

/// The velocity after a step: energy gained from the drop, floored at
/// rest, capped at the velocity bound.
pub open spec fn spec_new_velocity(vel: int, hdif: int) -> int {
    let v2 = vel * vel + hdif * SCALE;
    if v2 <= 0 {
        0
    } else if spec_isqrt(v2) <= QMAX {
        spec_isqrt(v2)
    } else {
        QMAX as int
    }
}

/// The water after a step: evaporation removes a rate share that weakens
/// as the droplet speeds up; the factor is clamped to keep water
/// non-increasing and nonnegative.
pub open spec fn spec_new_water(water: int, nvel: int, cfg: Config) -> int {
    let t = tdiv(cfg.evaporation * (SCALE - nvel), SCALE as int);
    let f0 = SCALE - t;
    let f = if f0 < 0 {
        0
    } else if f0 > SCALE {
        SCALE as int
    } else {
        f0
    };
    water * f / (SCALE as int)
}

/// One whole erosion step of a single droplet against the terrain: the new
/// droplet state and the new heightmap.
pub open spec fn spec_step(data: Seq<i64>, size: int, d: Droplet, cfg: Config) -> (
    Droplet,
    Seq<i64>,
) {
    let nd = spec_new_dir(data, size, d, cfg);
    let npx = spec_cap(d.px + nd.0, PMAX as int);
    let npy = spec_cap(d.py + nd.1, PMAX as int);
    let hold = data[spec_unroll(d.px as int, d.py as int, size)];
    let hnew = data[spec_unroll(npx, npy, size)];
    let hdif = hold - hnew;
    let cdif = spec_capacity_diff(hdif, d, cfg);
    let sed_grid: (int, Seq<i64>) = if cdif < 0 {
        let amount = spec_deposit_amount(cdif, cfg);
        (d.sediment - amount, spec_deposit(data, size, d.px as int, d.py as int, amount))
    } else if hnew >= 0 {
        let amt = spec_erode_amount(cdif, hdif, d.sediment as int, cfg);
        (d.sediment + amt, spec_deposit(data, size, d.px as int, d.py as int, -amt))
    } else {
        (d.sediment as int, data)
    };
    let nvel = spec_new_velocity(d.vel as int, hdif);
    let nwater = spec_new_water(d.water as int, nvel, cfg);
    (
        Droplet {
            px: npx as i64,
            py: npy as i64,
            dx: nd.0 as i64,
            dy: nd.1 as i64,
            vel: nvel as i64,
            water: nwater as i64,
            sediment: sed_grid.0 as i64,
        },
        sed_grid.1,
    )
}

/// Erosion bound: in a downhill step the erosion branch never draws more
/// height out of the terrain than the height drop itself.
pub proof fn lemma_erosion_bound(cdif: int, hdif: int, sed: int, cfg: Config)
    requires
        cfg.wf(),
        0 <= hdif,
        0 <= sed,
    ensures
        spec_erode_amount(cdif, hdif, sed, cfg) <= hdif,
{
}

/// Mass conservation of one step: under grid headroom, whatever sediment
/// the droplet gains the terrain loses, and the other way around — the sum
/// of all heights plus the droplet's carried load is unchanged by a step.
pub proof fn lemma_step_conserves_mass(data: Seq<i64>, size: int, d: Droplet, cfg: Config)
    requires
        2 <= size <= MAX_SIZE,
        data.len() == size * size,
        d.wf(),
        cfg.wf(),
        forall|i: int| 0 <= i < data.len() ==> -(HMAX - QMAX) <= #[trigger] data[i] <= HMAX
            - QMAX,
    ensures
        total(spec_step(data, size, d, cfg).1) + spec_step(data, size, d, cfg).0.sediment
            == total(data) + d.sediment,
{
    let nd = spec_new_dir(data, size, d, cfg);
    let npx = spec_cap(d.px + nd.0, PMAX as int);
    let npy = spec_cap(d.py + nd.1, PMAX as int);
    let hold = data[spec_unroll(d.px as int, d.py as int, size)];
    let hnew = data[spec_unroll(npx, npy, size)];
    let hdif = hold - hnew;
    let cdif = spec_capacity_diff(hdif, d, cfg);
    let slope = if hdif >= cfg.min_slope {
        hdif
    } else {
        cfg.min_slope as int
    };
    let t1 = slope * d.vel / (SCALE as int);
    let t2 = t1 * d.water / (SCALE as int);
    let ct = t2 * cfg.capacity / (SCALE as int);
    assert(slope * d.vel >= 0) by (nonlinear_arith)
        requires
            slope >= 0,
            d.vel >= 0,
    ;
    lemma_div_pos_is_pos(slope * d.vel, SCALE as int);
    assert(t1 * d.water >= 0) by (nonlinear_arith)
        requires
            t1 >= 0,
            d.water >= 0,
    ;
    lemma_div_pos_is_pos(t1 * d.water, SCALE as int);
    assert(t2 * cfg.capacity >= 0) by (nonlinear_arith)
        requires
            t2 >= 0,
            cfg.capacity >= 0,
    ;
    lemma_div_pos_is_pos(t2 * cfg.capacity, SCALE as int);
    assert(cdif == ct - d.sediment);
    if cdif < 0 {
        let amount = spec_deposit_amount(cdif, cfg);
        lemma_scaled_fraction_le(-cdif, cfg.deposition as int, SCALE as int);
        assert(0 <= amount <= QMAX);
        lemma_deposit_conserves_mass(data, size, d.px as int, d.py as int, amount);
    } else if hnew >= 0 {
        let amt = spec_erode_amount(cdif, hdif, d.sediment as int, cfg);
        assert(-QMAX <= -amt <= QMAX);
        lemma_deposit_conserves_mass(data, size, d.px as int, d.py as int, -amt);
    }
}

/// Advance one droplet one step along the terrain, eroding or depositing
/// at its old cell, and updating its direction, position, velocity and
/// water exactly as `spec_step` states. Water never increases.
#[verifier::rlimit(100)]
pub fn step_droplet(elev: &mut Elevation, d: &mut Droplet, cfg: &Config)
    requires
        old(elev).wf(),
        old(d).wf(),
        cfg.wf(),
        old(elev).size == cfg.size,
    ensures
        final(elev).wf(),
        final(d).wf(),
        final(elev).size == old(elev).size,
        *final(d) == spec_step(old(elev).data@, old(elev).size as int, *old(d), *cfg).0,
        final(elev).data@ == spec_step(old(elev).data@, old(elev).size as int, *old(d), *cfg).1,
        final(d).water <= old(d).water,
{
    let ghost data0 = elev.data@;
    let ghost sz = elev.size as int;
    let size = elev.size;
    let gi = unroll(d.px, d.py, size);
    let g = elev.grad(gi);
    let gx = g.0;
    let gy = g.1;

    // New direction.
    proof {
        assert(0 <= (cfg.inertia as int) * (d.vel as int) <= 0x1_0000_0000_0000) by (
        nonlinear_arith)
            requires
                0 <= cfg.inertia as int <= 0x10000,
                0 <= d.vel as int <= 0x1_0000_0000,
        ;
        lemma_tdiv_bound((cfg.inertia as int) * (d.vel as int), SCALE as int, 0x1_0000_0000);
    }
    let w: i64 = cfg.inertia * d.vel / SCALE;
    proof {
        assert(-0x1_0000_0000_0000 <= (d.dx as int) * (w as int) <= 0x1_0000_0000_0000) by (
        nonlinear_arith)
            requires
                -0x10000 <= d.dx as int <= 0x10000,
                0 <= w as int <= 0x1_0000_0000,
        ;
        assert(-0x1_0000_0000_0000 <= (d.dy as int) * (w as int) <= 0x1_0000_0000_0000) by (
        nonlinear_arith)
            requires
                -0x10000 <= d.dy as int <= 0x10000,
                0 <= w as int <= 0x1_0000_0000,
        ;
        assert(-0x200_0000_0000 * 0x1_0000_0000 <= (gx as int) * (SCALE - w as int)
            <= 0x200_0000_0000 * 0x1_0000_0000) by (nonlinear_arith)
            requires
                -0x200_0000_0000 <= gx as int <= 0x200_0000_0000,
                -0x1_0000_0000 <= SCALE - w as int <= 0x1_0000_0000,
        ;
        assert(-0x200_0000_0000 * 0x1_0000_0000 <= (gy as int) * (SCALE - w as int)
            <= 0x200_0000_0000 * 0x1_0000_0000) by (nonlinear_arith)
            requires
                -0x200_0000_0000 <= gy as int <= 0x200_0000_0000,
                -0x1_0000_0000 <= SCALE - w as int <= 0x1_0000_0000,
        ;
    }
    let rxn: i128 = (d.dx as i128) * (w as i128) - (gx as i128) * ((SCALE - w) as i128);
    let ryn: i128 = (d.dy as i128) * (w as i128) - (gy as i128) * ((SCALE - w) as i128);
    proof {
        lemma_tdiv_bound(rxn as int, SCALE as int, 0x400_0000_0000_0000);
        lemma_tdiv_bound(ryn as int, SCALE as int, 0x400_0000_0000_0000);
    }
    let rx: i128 = rxn / (SCALE as i128);
    let ry: i128 = ryn / (SCALE as i128);
    proof {
        assert(0 <= (rx as int) * (rx as int) <= 0x400_0000_0000_0000 * 0x400_0000_0000_0000
            && 0 <= (ry as int) * (ry as int) <= 0x400_0000_0000_0000 * 0x400_0000_0000_0000)
            by (nonlinear_arith)
            requires
                -0x400_0000_0000_0000 <= rx as int <= 0x400_0000_0000_0000,
                -0x400_0000_0000_0000 <= ry as int <= 0x400_0000_0000_0000,
        ;
    }
    let n2: u128 = (rx * rx + ry * ry) as u128;
    let len_u: u64 = isqrt(n2);
    let (ndx, ndy): (i64, i64) = if len_u == 0 {
        (d.dx, d.dy)
    } else {
        proof {
            lemma_isqrt_bounds(n2 as int);
            assert((rx as int) * (rx as int) <= n2 as int && (ry as int) * (ry as int)
                <= n2 as int) by (nonlinear_arith)
                requires
                    n2 as int == (rx as int) * (rx as int) + (ry as int) * (ry as int),
            ;
            if rx >= 0 {
                lemma_isqrt_ge(n2 as int, rx as int);
            } else {
                assert((-rx as int) * (-rx as int) == (rx as int) * (rx as int)) by (
                nonlinear_arith);
                lemma_isqrt_ge(n2 as int, -rx as int);
            }
            if ry >= 0 {
                lemma_isqrt_ge(n2 as int, ry as int);
            } else {
                assert((-ry as int) * (-ry as int) == (ry as int) * (ry as int)) by (
                nonlinear_arith);
                lemma_isqrt_ge(n2 as int, -ry as int);
            }
            assert(-(len_u as int) * SCALE <= (rx as int) * SCALE <= (len_u as int) * SCALE
                && -(len_u as int) * SCALE <= (ry as int) * SCALE <= (len_u as int) * SCALE)
                by (nonlinear_arith)
                requires
                    -(len_u as int) <= rx as int <= len_u as int,
                    -(len_u as int) <= ry as int <= len_u as int,
            ;
            lemma_tdiv_bound((rx as int) * SCALE, len_u as int, SCALE as int);
            lemma_tdiv_bound((ry as int) * SCALE, len_u as int, SCALE as int);
        }
        (((rx * (SCALE as i128)) / (len_u as i128)) as i64, ((ry * (SCALE as i128)) / (
        len_u as i128)) as i64)
    };

    // New position, one unit step at most, clamped to the supported extent.
    let npx: i64 = cap((d.px + ndx) as i128, PMAX);
    let npy: i64 = cap((d.py + ndy) as i128, PMAX);

    // Height drop from the old cell to the new cell.
    let hold = elev.height_at(d.px, d.py);
    let hnew = elev.height_at(npx, npy);
    let hdif: i64 = hold - hnew;

    // Sediment capacity balance.
    let slope: i64 = if hdif >= cfg.min_slope {
        hdif
    } else {
        cfg.min_slope
    };
    proof {
        assert(0 <= (slope as int) * (d.vel as int) <= 0x400_0000_0000 * 0x1_0000_0000) by (
        nonlinear_arith)
            requires
                0 <= slope as int <= 0x400_0000_0000,
                0 <= d.vel as int <= 0x1_0000_0000,
        ;
        lemma_tdiv_bound(
            (slope as int) * (d.vel as int),
            SCALE as int,
            0x400_0000_0000int * 0x1_0000_0000 / 0x10000,
        );
        lemma_div_pos_is_pos((slope as int) * (d.vel as int), SCALE as int);
    }
    let t1: i128 = (slope as i128) * (d.vel as i128) / (SCALE as i128);
    proof {
        assert(0 <= (t1 as int) * (d.water as int) <= 0x400_0000_0000_0000 * 0x10000) by (
        nonlinear_arith)
            requires
                0 <= t1 as int <= 0x400_0000_0000_0000,
                0 <= d.water as int <= 0x10000,
        ;
        lemma_tdiv_bound((t1 as int) * (d.water as int), SCALE as int, 0x400_0000_0000_0000);
        lemma_div_pos_is_pos((t1 as int) * (d.water as int), SCALE as int);
    }
    let t2: i128 = t1 * (d.water as i128) / (SCALE as i128);
    proof {
        assert(0 <= (t2 as int) * (cfg.capacity as int) <= 0x400_0000_0000_0000 * 0x1_0000_0000)
            by (nonlinear_arith)
            requires
                0 <= t2 as int <= 0x400_0000_0000_0000,
                0 <= cfg.capacity as int <= 0x1_0000_0000,
        ;
        lemma_tdiv_bound(
            (t2 as int) * (cfg.capacity as int),
            SCALE as int,
            0x400_0000_0000_0000int * 0x1_0000_0000 / 0x10000,
        );
        lemma_div_pos_is_pos((t2 as int) * (cfg.capacity as int), SCALE as int);
    }
    let ct: i128 = t2 * (cfg.capacity as i128) / (SCALE as i128);
    let cdif: i128 = ct - (d.sediment as i128);

    if cdif < 0 {
        // Overloaded: give a rated share of the overload back to the old cell.
        let neg: i128 = -cdif;
        proof {
            lemma_scaled_fraction_le(neg as int, cfg.deposition as int, SCALE as int);
        }
        let amount: i64 = ((neg * (cfg.deposition as i128)) / (SCALE as i128)) as i64;
        d.sediment = d.sediment - amount;
        elev.add(d.px, d.py, amount);
    } else if hnew >= 0 {
        // Above sea level with spare capacity: draw sediment from the old cell.
        proof {
            assert(0 <= (ct as int) * (cfg.erosion as int)
                <= 0x400_0000_0000_0000 * 0x1_0000_0000 / 0x10000 * 0x10000) by (
            nonlinear_arith)
                requires
                    0 <= ct as int <= 0x400_0000_0000_0000 * 0x1_0000_0000 / 0x10000,
                    0 <= cfg.erosion as int <= 0x10000,
            ;
            assert(0 <= (cdif as int) * (cfg.erosion as int) <= (ct as int) * (
            cfg.erosion as int)) by (nonlinear_arith)
                requires
                    0 <= cdif as int <= ct as int,
                    0 <= cfg.erosion as int,
            ;
            lemma_tdiv_bound(
                (cdif as int) * (cfg.erosion as int),
                SCALE as int,
                0x400_0000_0000_0000int * 0x1_0000_0000 / 0x10000,
            );
            lemma_div_pos_is_pos((cdif as int) * (cfg.erosion as int), SCALE as int);
        }
        let e1: i128 = (cdif * (cfg.erosion as i128)) / (SCALE as i128);
        let raw: i128 = if e1 <= (hdif as i128) {
            e1
        } else {
            hdif as i128
        };
        let capq: i128 = if raw <= (QMAX - d.sediment) as i128 {
            raw
        } else {
            (QMAX - d.sediment) as i128
        };
        let amt: i64 = if capq >= -(d.sediment as i128) {
            capq as i64
        } else {
            -d.sediment
        };
        d.sediment = d.sediment + amt;
        elev.add(d.px, d.py, -amt);
    }

    // Velocity gained from the descent, never negative, capped.
    proof {
        assert(0 <= (d.vel as int) * (d.vel as int) <= 0x1_0000_0000 * 0x1_0000_0000) by (
        nonlinear_arith)
            requires
                0 <= d.vel as int <= 0x1_0000_0000,
        ;
        assert(-0x400_0000_0000 * 0x10000 <= (hdif as int) * (SCALE as int)
            <= 0x400_0000_0000 * 0x10000) by (nonlinear_arith)
            requires
                -0x400_0000_0000 <= hdif as int <= 0x400_0000_0000,
        ;
    }
    let v2: i128 = (d.vel as i128) * (d.vel as i128) + (hdif as i128) * (SCALE as i128);
    let nvel: i64 = if v2 <= 0 {
        0
    } else {
        proof {
            lemma_isqrt_lt(v2 as int, 0x4_0000_0000);
        }
        let r = isqrt(v2 as u128);
        if r > (QMAX as u64) {
            QMAX
        } else {
            r as i64
        }
    };

    // Evaporation, clamped so water never increases.
    proof {
        assert(-0x10000 * 0x1_0000_0000 <= (cfg.evaporation as int) * (SCALE - nvel as int)
            <= 0x10000 * 0x1_0000_0000) by (nonlinear_arith)
            requires
                0 <= cfg.evaporation as int <= 0x10000,
                -0x1_0000_0000 <= SCALE - nvel as int <= 0x1_0000_0000,
        ;
        lemma_tdiv_bound(
            (cfg.evaporation as int) * (SCALE - nvel as int),
            SCALE as int,
            0x1_0000_0000,
        );
    }
    let tt: i128 = ((cfg.evaporation as i128) * ((SCALE - nvel) as i128)) / (SCALE as i128);
    let f0: i128 = (SCALE as i128) - tt;
    let f: i64 = if f0 < 0 {
        0
    } else if f0 > (SCALE as i128) {
        SCALE
    } else {
        f0 as i64
    };
    proof {
        lemma_scaled_fraction_le(d.water as int, f as int, SCALE as int);
    }
    let nwater: i64 = d.water * f / SCALE;

    d.px = npx;
    d.py = npy;
    d.dx = ndx;
    d.dy = ndy;
    d.vel = nvel;
    d.water = nwater;
}

} // verus!
