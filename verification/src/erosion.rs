//! The per-tick orchestrator: rain and springs spawn droplets, every live
//! droplet takes one erosion step against the shared grid in strict order,
//! and droplets whose water has evaporated leave the pool.

use vstd::prelude::*;
use vstd::pervasive::VecAdditionalExecFns;
use crate::fixed::{SCALE, MAX_SIZE, PMAX, WATER_EPSILON};
use crate::grid::{Elevation, spec_generate, spec_unroll};
use crate::droplet::{Config, Droplet, spec_step, step_droplet};
use crate::source::{Source, FLUX_MAX};

verus! {

/// A uniformly random position on the grid, in fixed point.
pub fn rand_pos(size: usize) -> (p: (i64, i64))
    requires
        2 <= size <= MAX_SIZE,
    ensures
        0 <= p.0 < (size as int) * SCALE,
        0 <= p.1 < (size as int) * SCALE,
{
    let rx: u16 = rand::random();
    let ry: u16 = rand::random();
    proof {
        assert(0 <= (rx as int) * (size as int) && (rx as int) * (size as int) < (size as int)
            * SCALE && (rx as int) * (size as int) <= 0x10000 * 0x8000) by (nonlinear_arith)
            requires
                0 <= (rx as int) < 0x10000,
                2 <= (size as int) <= 0x8000,
        ;
        assert(0 <= (ry as int) * (size as int) && (ry as int) * (size as int) < (size as int)
            * SCALE && (ry as int) * (size as int) <= 0x10000 * 0x8000) by (nonlinear_arith)
            requires
                0 <= (ry as int) < 0x10000,
                2 <= (size as int) <= 0x8000,
        ;
    }
    ((rx as i64) * (size as i64), (ry as i64) * (size as i64))
}

/// The whole simulation: the configuration, the shared elevation grid, the
/// droplet pool and the springs.
pub struct Erosion {
    pub cfg: Config,
    pub elev: Elevation,
    pub droplets: Vec<Droplet>,
    pub sources: Vec<Source>,
    pub rain_per_tick: usize,
}

/// The droplet pool and heightmap after the first `k` droplets took their
/// step, in order, each against the grid as the previous one left it.
pub open spec fn spec_run(data: Seq<i64>, size: int, ds: Seq<Droplet>, cfg: Config, k: nat) -> (
    Seq<Droplet>,
    Seq<i64>,
)
    decreases k,
{
    if k == 0 {
        (Seq::<Droplet>::empty(), data)
    } else {
        let prev = spec_run(data, size, ds, cfg, (k - 1) as nat);
        let st = spec_step(prev.1, size, ds[k - 1], cfg);
        (prev.0.push(st.0), st.1)
    }
}

/// The droplets of the pool that keep enough water to survive the tick,
/// in order.
pub open spec fn spec_survivors(ds: Seq<Droplet>, k: nat) -> Seq<Droplet>
    decreases k,
{
    if k == 0 {
        Seq::<Droplet>::empty()
    } else {
        let prev = spec_survivors(ds, (k - 1) as nat);
        if ds[k - 1].water >= WATER_EPSILON {
            prev.push(ds[k - 1])
        } else {
            prev
        }
    }
}

/// A fresh droplet at a spring's position: a full unit of water, at rest,
/// carrying nothing.
pub open spec fn spec_fresh_at(s: Source) -> Droplet {
    Droplet { px: s.px, py: s.py, dx: 0, dy: 0, vel: 0, water: SCALE, sediment: 0 }
}

/// The droplets the first `k` springs spawn in one tick, in order: each
/// spring emits one fresh droplet at its own position per whole unit in its
/// accumulator once this tick's flow has joined it.
pub open spec fn spec_flow_spawns(ss: Seq<Source>, k: nat) -> Seq<Droplet>
    decreases k,
{
    if k == 0 {
        Seq::<Droplet>::empty()
    } else {
        spec_flow_spawns(ss, (k - 1) as nat) + Seq::new(
            ((ss[k - 1].stock + ss[k - 1].flux) / (SCALE as int)) as nat,
            |j: int| spec_fresh_at(ss[k - 1]),
        )
    }
}

/// The spawn phase of one tick: first `rain` fresh droplets somewhere on
/// the grid (their positions are random draws), then every spring's
/// emissions, in spring order.
pub open spec fn spec_tick_spawns(spawned: Seq<Droplet>, rain: int, ss: Seq<Source>, size: int) -> bool {
    &&& spawned.len() == rain + spec_flow_spawns(ss, ss.len() as nat).len()
    &&& forall|j: int|
        0 <= j < rain ==> {
            let d = #[trigger] spawned[j];
            &&& 0 <= d.px < size * SCALE
            &&& 0 <= d.py < size * SCALE
            &&& d.dx == 0 && d.dy == 0 && d.vel == 0 && d.water == SCALE && d.sediment == 0
        }
    &&& spawned.skip(rain) == spec_flow_spawns(ss, ss.len() as nat)
}

/// The springs that a sequence of candidate draws yields, in draw order:
/// one spring per candidate whose cell lies strictly above the threshold.
pub open spec fn spec_placed(
    draws: Seq<(i64, i64)>,
    data: Seq<i64>,
    size: int,
    flux: i64,
    min_h: i64,
    k: nat,
) -> Seq<Source>
    decreases k,
{
    if k == 0 {
        Seq::<Source>::empty()
    } else {
        let prev = spec_placed(draws, data, size, flux, min_h, (k - 1) as nat);
        let p = draws[k - 1];
        if data[spec_unroll(p.0 as int, p.1 as int, size)] > min_h {
            prev.push(Source { px: p.0, py: p.1, flux, stock: 0 })
        } else {
            prev
        }
    }
}

/// Placement is settled by the candidate draws alone: the springs are
/// exactly the above-threshold entries, in draw order, of `attempts`
/// in-grid random candidate positions.
pub open spec fn spec_sources_from_draws(
    draws: Seq<(i64, i64)>,
    sources: Seq<Source>,
    data: Seq<i64>,
    size: int,
    flux: i64,
    min_h: i64,
    attempts: int,
) -> bool {
    &&& draws.len() == attempts
    &&& forall|j: int|
        0 <= j < draws.len() ==> 0 <= (#[trigger] draws[j]).0 < size * SCALE && 0 <= draws[j].1
            < size * SCALE
    &&& sources == spec_placed(draws, data, size, flux, min_h, draws.len())
}

/// Placement reads only the first `k` draws.
proof fn lemma_placed_prefix(
    d1: Seq<(i64, i64)>,
    d2: Seq<(i64, i64)>,
    data: Seq<i64>,
    size: int,
    flux: i64,
    min_h: i64,
    k: nat,
)
    requires
        k <= d1.len(),
        k <= d2.len(),
        forall|j: int| 0 <= j < k ==> d1[j] == d2[j],
    ensures
        spec_placed(d1, data, size, flux, min_h, k) == spec_placed(d2, data, size, flux, min_h, k),
    decreases k,
{
    if k > 0 {
        lemma_placed_prefix(d1, d2, data, size, flux, min_h, (k - 1) as nat);
    }
}

impl Erosion {
    /// The simulation invariant: a valid configuration, a matching grid,
    /// and well-formed droplets and springs.
    pub open spec fn wf(&self) -> bool {
        &&& self.cfg.wf()
        &&& self.elev.wf()
        &&& self.elev.size == self.cfg.size
        &&& forall|i: int| 0 <= i < self.droplets@.len() ==> (#[trigger] self.droplets@[i]).wf()
        &&& forall|i: int| 0 <= i < self.sources@.len() ==> (#[trigger] self.sources@[i]).wf()
    }

    /// Set up a simulation: generate the terrain from the noise samples,
    /// then try `source_attempts` random positions and keep each as a
    /// spring only where the terrain lies above `min_source_height` —
    /// mountain springs. An out-of-range configuration or flux is refused
    /// before the first tick.
    pub fn new(
        cfg: Config,
        samples: &Vec<i64>,
        source_attempts: usize,
        source_flux: i64,
        min_source_height: i64,
        rain_per_tick: usize,
    ) -> (r: Option<Erosion>)
        requires
            samples@.len() == cfg.size * cfg.size,
        ensures
            r is Some <==> (cfg.wf() && 0 <= source_flux <= FLUX_MAX),
            r is Some ==> {
                let e = r->Some_0;
                &&& e.wf()
                &&& e.cfg == cfg
                &&& e.rain_per_tick == rain_per_tick
                &&& e.elev.size == cfg.size
                &&& e.elev.data@ == spec_generate(cfg.size as int, samples@)
                &&& e.droplets@.len() == 0
                &&& e.sources@.len() <= source_attempts
                &&& forall|i: int| 0 <= i < e.sources@.len() ==> {
                    let s = #[trigger] e.sources@[i];
                    &&& s.flux == source_flux
                    &&& s.stock == 0
                    &&& e.elev.data@[spec_unroll(s.px as int, s.py as int, cfg.size as int)]
                        > min_source_height
                }
                &&& exists|draws: Seq<(i64, i64)>|
                    #[trigger] spec_sources_from_draws(
                        draws,
                        e.sources@,
                        e.elev.data@,
                        cfg.size as int,
                        source_flux,
                        min_source_height,
                        source_attempts as int,
                    )
            },
    {
        if !cfg.valid() || source_flux < 0 || source_flux > FLUX_MAX {
            return None;
        }
        let elev = Elevation::new(cfg.size, samples);
        let mut sources: Vec<Source> = Vec::new();
        let ghost mut draws: Seq<(i64, i64)> = Seq::<(i64, i64)>::empty();
        let mut a: usize = 0;
        while a < source_attempts
            invariant
                cfg.wf(),
                0 <= source_flux <= FLUX_MAX,
                elev.wf(),
                elev.size == cfg.size,
                a <= source_attempts,
                sources@.len() <= a,
                draws.len() == a,
                forall|j: int|
                    0 <= j < draws.len() ==> 0 <= (#[trigger] draws[j]).0 < (cfg.size as int)
                        * SCALE && 0 <= draws[j].1 < (cfg.size as int) * SCALE,
                sources@ == spec_placed(
                    draws,
                    elev.data@,
                    cfg.size as int,
                    source_flux,
                    min_source_height,
                    a as nat,
                ),
                forall|i: int| 0 <= i < sources@.len() ==> (#[trigger] sources@[i]).wf(),
                forall|i: int| 0 <= i < sources@.len() ==> {
                    let s = #[trigger] sources@[i];
                    &&& s.flux == source_flux
                    &&& s.stock == 0
                    &&& elev.data@[spec_unroll(s.px as int, s.py as int, cfg.size as int)]
                        > min_source_height
                },
            decreases source_attempts - a,
        {
            let p = rand_pos(cfg.size);
            let ghost olddraws = draws;
            proof {
                draws = draws.push((p.0, p.1));
                lemma_placed_prefix(
                    olddraws,
                    draws,
                    elev.data@,
                    cfg.size as int,
                    source_flux,
                    min_source_height,
                    a as nat,
                );
            }
            if elev.height_at(p.0, p.1) > min_source_height {
                sources.push(Source::new(p.0, p.1, source_flux));
            }
            a = a + 1;
        }
        let ghost placed = sources@;
        let ghost field = elev.data@;
        let e = Erosion { cfg, elev, droplets: Vec::new(), sources, rain_per_tick };
        proof {
            assert(e.sources@ == placed && e.elev.data@ == field);
            assert(spec_sources_from_draws(
                draws,
                e.sources@,
                e.elev.data@,
                cfg.size as int,
                source_flux,
                min_source_height,
                source_attempts as int,
            ));
        }
        Some(e)
    }

    /// Spawn this tick's rain: `rain_per_tick` fresh droplets at uniformly
    /// random positions on the grid.
    pub fn rain(&mut self)
        requires
            old(self).wf(),
        ensures
            final(self).wf(),
            final(self).cfg == old(self).cfg,
            final(self).elev == old(self).elev,
            final(self).sources == old(self).sources,
            final(self).rain_per_tick == old(self).rain_per_tick,
            final(self).droplets@.len() == old(self).droplets@.len() + old(self).rain_per_tick,
            forall|i: int| 0 <= i < old(self).droplets@.len() ==> final(self).droplets@[i]
                == old(self).droplets@[i],
            forall|i: int|
                old(self).droplets@.len() <= i < final(self).droplets@.len() ==> {
                    let d = #[trigger] final(self).droplets@[i];
                    &&& 0 <= d.px < (old(self).cfg.size as int) * SCALE
                    &&& 0 <= d.py < (old(self).cfg.size as int) * SCALE
                    &&& d.dx == 0 && d.dy == 0 && d.vel == 0 && d.water == SCALE && d.sediment
                        == 0
                },
    {
        let mut k: usize = 0;
        let n = self.rain_per_tick;
        let ghost ds0 = self.droplets@;
        while k < n
            invariant
                old(self).wf(),
                self.cfg == old(self).cfg,
                self.elev == old(self).elev,
                self.sources == old(self).sources,
                self.rain_per_tick == old(self).rain_per_tick,
                n == self.rain_per_tick,
                ds0 == old(self).droplets@,
                k <= n,
                self.droplets@.len() == ds0.len() + k,
                forall|i: int| 0 <= i < self.droplets@.len() ==> (
                #[trigger] self.droplets@[i]).wf(),
                forall|i: int| 0 <= i < ds0.len() ==> self.droplets@[i] == ds0[i],
                forall|i: int|
                    ds0.len() <= i < self.droplets@.len() ==> {
                        let d = #[trigger] self.droplets@[i];
                        &&& 0 <= d.px < (self.cfg.size as int) * SCALE
                        &&& 0 <= d.py < (self.cfg.size as int) * SCALE
                        &&& d.dx == 0 && d.dy == 0 && d.vel == 0 && d.water == SCALE
                            && d.sediment == 0
                    },
            decreases n - k,
        {
            let p = rand_pos(self.cfg.size);
            proof {
                assert((self.cfg.size as int) * SCALE <= PMAX) by (nonlinear_arith)
                    requires
                        2 <= (self.cfg.size as int) <= 0x8000,
                ;
            }
            self.droplets.push(Droplet::new(p.0, p.1));
            k = k + 1;
        }
    }

    /// Run every spring's flow for one tick: each accumulates its rate and
    /// spawns one fresh droplet at its own position per whole unit in the
    /// accumulator.
    pub fn flows(&mut self)
        requires
            old(self).wf(),
        ensures
            final(self).wf(),
            final(self).cfg == old(self).cfg,
            final(self).elev == old(self).elev,
            final(self).rain_per_tick == old(self).rain_per_tick,
            final(self).sources@.len() == old(self).sources@.len(),
            forall|i: int|
                0 <= i < old(self).sources@.len() ==> {
                    let s0 = old(self).sources@[i];
                    let s1 = #[trigger] final(self).sources@[i];
                    &&& s1.px == s0.px && s1.py == s0.py && s1.flux == s0.flux
                    &&& s1.stock == (s0.stock + s0.flux) % (SCALE as int)
                },
            final(self).droplets@ == old(self).droplets@ + spec_flow_spawns(
                old(self).sources@,
                old(self).sources@.len() as nat,
            ),
    {
        let ghost ds0 = self.droplets@;
        let ghost ss0 = self.sources@;
        let n = self.sources.len();
        let mut i: usize = 0;
        while i < n
            invariant
                old(self).wf(),
                self.cfg == old(self).cfg,
                self.elev == old(self).elev,
                self.rain_per_tick == old(self).rain_per_tick,
                ds0 == old(self).droplets@,
                ss0 == old(self).sources@,
                n == self.sources@.len(),
                n == ss0.len(),
                i <= n,
                forall|j: int| i <= j < n ==> self.sources@[j] == ss0[j],
                forall|j: int|
                    0 <= j < i ==> {
                        let s0 = ss0[j];
                        let s1 = #[trigger] self.sources@[j];
                        &&& s1.px == s0.px && s1.py == s0.py && s1.flux == s0.flux
                        &&& s1.stock == (s0.stock + s0.flux) % (SCALE as int)
                        &&& s1.wf()
                    },
                self.droplets@ == ds0 + spec_flow_spawns(ss0, i as nat),
                forall|j: int| 0 <= j < self.droplets@.len() ==> (
                #[trigger] self.droplets@[j]).wf(),
            decreases n - i,
        {
            let mut src = self.sources[i];
            proof {
                assert(src == ss0[i as int]);
                assert(old(self).sources@[i as int].wf());
            }
            let drops = src.flow();
            self.sources.set(i, src);
            let mut t: u64 = 0;
            while t < drops
                invariant
                    old(self).wf(),
                    self.cfg == old(self).cfg,
                    self.elev == old(self).elev,
                    self.rain_per_tick == old(self).rain_per_tick,
                    ds0 == old(self).droplets@,
                    ss0 == old(self).sources@,
                    n == self.sources@.len(),
                    n == ss0.len(),
                    i < n,
                    forall|j: int| i < j < n ==> self.sources@[j] == ss0[j],
                    forall|j: int|
                        0 <= j <= i ==> {
                            let s0 = ss0[j];
                            let s1 = #[trigger] self.sources@[j];
                            &&& s1.px == s0.px && s1.py == s0.py && s1.flux == s0.flux
                            &&& s1.stock == (s0.stock + s0.flux) % (SCALE as int)
                            &&& s1.wf()
                        },
                    src.px == ss0[i as int].px && src.py == ss0[i as int].py,
                    src.wf(),
                    t <= drops,
                    drops == (ss0[i as int].stock + ss0[i as int].flux) / (SCALE as int),
                    self.droplets@ == ds0 + spec_flow_spawns(ss0, i as nat) + Seq::new(
                        t as nat,
                        |j: int| spec_fresh_at(ss0[i as int]),
                    ),
                    forall|j: int| 0 <= j < self.droplets@.len() ==> (
                    #[trigger] self.droplets@[j]).wf(),
                decreases drops - t,
            {
                self.droplets.push(Droplet::new(src.px, src.py));
                proof {
                    assert(self.droplets@.last() == spec_fresh_at(ss0[i as int]));
                    assert(self.droplets@ =~= ds0 + spec_flow_spawns(ss0, i as nat) + Seq::new(
                        (t + 1) as nat,
                        |j: int| spec_fresh_at(ss0[i as int]),
                    ));
                }
                t = t + 1;
            }
            proof {
                assert(spec_flow_spawns(ss0, (i + 1) as nat) == spec_flow_spawns(ss0, i as nat)
                    + Seq::new(
                    ((ss0[i as int].stock + ss0[i as int].flux) / (SCALE as int)) as nat,
                    |j: int| spec_fresh_at(ss0[i as int]),
                ));
                assert(self.droplets@ =~= ds0 + spec_flow_spawns(ss0, (i + 1) as nat));
            }
            i = i + 1;
        }
    }

    /// One erosion pass: every live droplet takes one step, in pool order,
    /// each against the heightmap as the previous droplet left it.
    pub fn hydrolic_erosion(&mut self)
        requires
            old(self).wf(),
        ensures
            final(self).wf(),
            final(self).cfg == old(self).cfg,
            final(self).sources == old(self).sources,
            final(self).rain_per_tick == old(self).rain_per_tick,
            final(self).elev.size == old(self).elev.size,
            final(self).droplets@ == spec_run(
                old(self).elev.data@,
                old(self).elev.size as int,
                old(self).droplets@,
                old(self).cfg,
                old(self).droplets@.len() as nat,
            ).0,
            final(self).elev.data@ == spec_run(
                old(self).elev.data@,
                old(self).elev.size as int,
                old(self).droplets@,
                old(self).cfg,
                old(self).droplets@.len() as nat,
            ).1,
            final(self).droplets@.len() == old(self).droplets@.len(),
            forall|i: int| 0 <= i < final(self).droplets@.len() ==> (
            #[trigger] final(self).droplets@[i]).water <= old(self).droplets@[i].water,
    {
        let ghost data0 = self.elev.data@;
        let ghost ds0 = self.droplets@;
        let ghost sz = self.elev.size as int;
        let ghost cfg0 = self.cfg;
        let n = self.droplets.len();
        let mut i: usize = 0;
        while i < n
            invariant
                old(self).wf(),
                self.cfg == old(self).cfg,
                self.sources == old(self).sources,
                self.rain_per_tick == old(self).rain_per_tick,
                data0 == old(self).elev.data@,
                ds0 == old(self).droplets@,
                sz == old(self).elev.size as int,
                cfg0 == old(self).cfg,
                self.elev.wf(),
                self.elev.size == old(self).elev.size,
                n == ds0.len(),
                self.droplets@.len() == n,
                i <= n,
                forall|j: int| i <= j < n ==> self.droplets@[j] == ds0[j],
                self.droplets@.take(i as int) == spec_run(data0, sz, ds0, cfg0, i as nat).0,
                self.elev.data@ == spec_run(data0, sz, ds0, cfg0, i as nat).1,
                forall|j: int| 0 <= j < i ==> (#[trigger] self.droplets@[j]).wf(),
                forall|j: int| 0 <= j < i ==> (#[trigger] self.droplets@[j]).water
                    <= ds0[j].water,
            decreases n - i,
        {
            let mut dd = self.droplets[i];
            proof {
                assert(dd == ds0[i as int]);
                assert(old(self).droplets@[i as int].wf());
            }
            step_droplet(&mut self.elev, &mut dd, &self.cfg);
            let ghost predrops = self.droplets@;
            self.droplets.set(i, dd);
            proof {
                assert(self.droplets@.take(i as int) =~= predrops.take(i as int));
                assert(self.droplets@.take(i + 1) =~= predrops.take(i as int).push(dd));
                assert(spec_run(data0, sz, ds0, cfg0, (i + 1) as nat).0 == spec_run(
                    data0,
                    sz,
                    ds0,
                    cfg0,
                    i as nat,
                ).0.push(spec_step(spec_run(data0, sz, ds0, cfg0, i as nat).1, sz, ds0[i as int], cfg0).0));
            }
            i = i + 1;
        }
        proof {
            assert(self.droplets@.take(n as int) =~= self.droplets@);
        }
    }

    /// Remove every droplet whose water has fallen below the evaporation
    /// threshold, keeping the order of the rest.
    pub fn evaporation(&mut self)
        requires
            old(self).wf(),
        ensures
            final(self).wf(),
            final(self).cfg == old(self).cfg,
            final(self).elev == old(self).elev,
            final(self).sources == old(self).sources,
            final(self).rain_per_tick == old(self).rain_per_tick,
            final(self).droplets@ == spec_survivors(
                old(self).droplets@,
                old(self).droplets@.len() as nat,
            ),
            forall|i: int| 0 <= i < final(self).droplets@.len() ==> (
            #[trigger] final(self).droplets@[i]).water >= WATER_EPSILON,
    {
        let ghost ds0 = self.droplets@;
        let n = self.droplets.len();
        let mut kept: Vec<Droplet> = Vec::new();
        let mut i: usize = 0;
        while i < n
            invariant
                old(self).wf(),
                self.cfg == old(self).cfg,
                self.elev == old(self).elev,
                self.sources == old(self).sources,
                self.rain_per_tick == old(self).rain_per_tick,
                self.droplets@ == ds0,
                n == ds0.len(),
                i <= n,
                kept@ == spec_survivors(ds0, i as nat),
                forall|j: int| 0 <= j < kept@.len() ==> (#[trigger] kept@[j]).water
                    >= WATER_EPSILON,
                forall|j: int| 0 <= j < kept@.len() ==> (#[trigger] kept@[j]).wf(),
            decreases n - i,
        {
            let d = self.droplets[i];
            if d.water >= WATER_EPSILON {
                kept.push(d);
            }
            i = i + 1;
        }
        self.droplets = kept;
    }

    /// One full simulation tick: spawn rain and spring flow, run the
    /// erosion pass over every droplet in strict order, then drop the
    /// droplets whose water is exhausted. The new pool and heightmap are
    /// exactly the erosion pass and the survivor filter applied to the old
    /// pool extended by the spawned droplets — only the rain positions are
    /// random draws. After a tick no droplet in the pool is below the water
    /// threshold, and the springs have advanced their accumulators by
    /// exactly their rate.
    pub fn tick(&mut self)
        requires
            old(self).wf(),
        ensures
            final(self).wf(),
            final(self).cfg == old(self).cfg,
            final(self).rain_per_tick == old(self).rain_per_tick,
            final(self).elev.size == old(self).elev.size,
            final(self).sources@.len() == old(self).sources@.len(),
            forall|i: int|
                0 <= i < old(self).sources@.len() ==> {
                    let s0 = old(self).sources@[i];
                    let s1 = #[trigger] final(self).sources@[i];
                    &&& s1.px == s0.px && s1.py == s0.py && s1.flux == s0.flux
                    &&& s1.stock == (s0.stock + s0.flux) % (SCALE as int)
                },
            forall|i: int| 0 <= i < final(self).droplets@.len() ==> (
            #[trigger] final(self).droplets@[i]).water >= WATER_EPSILON,
            exists|spawned: Seq<Droplet>|
                {
                    &&& #[trigger] spec_tick_spawns(
                        spawned,
                        old(self).rain_per_tick as int,
                        old(self).sources@,
                        old(self).cfg.size as int,
                    )
                    &&& final(self).droplets@ == spec_survivors(
                        spec_run(
                            old(self).elev.data@,
                            old(self).elev.size as int,
                            old(self).droplets@ + spawned,
                            old(self).cfg,
                            (old(self).droplets@ + spawned).len(),
                        ).0,
                        (old(self).droplets@ + spawned).len(),
                    )
                    &&& final(self).elev.data@ == spec_run(
                        old(self).elev.data@,
                        old(self).elev.size as int,
                        old(self).droplets@ + spawned,
                        old(self).cfg,
                        (old(self).droplets@ + spawned).len(),
                    ).1
                },
    {
        let ghost ds0 = self.droplets@;
        let ghost data0 = self.elev.data@;
        let ghost ss0 = self.sources@;
        let ghost cfg0 = self.cfg;
        let ghost sz = self.elev.size as int;
        let ghost rain_n = self.rain_per_tick as int;
        self.rain();
        let ghost afterrain = self.droplets@;
        let ghost rained = afterrain.skip(ds0.len() as int);
        self.flows();
        let ghost fs = spec_flow_spawns(ss0, ss0.len() as nat);
        let ghost spawned = rained + fs;
        let ghost pool = ds0 + spawned;
        proof {
            assert(afterrain =~= ds0 + rained);
            assert(self.droplets@ =~= pool);
            assert(spawned.skip(rain_n) =~= fs);
            assert forall|j: int| 0 <= j < rain_n implies {
                let d = #[trigger] spawned[j];
                &&& 0 <= d.px < (cfg0.size as int) * SCALE
                &&& 0 <= d.py < (cfg0.size as int) * SCALE
                &&& d.dx == 0 && d.dy == 0 && d.vel == 0 && d.water == SCALE && d.sediment == 0
            } by {
                assert(spawned[j] == rained[j]);
                assert(rained[j] == afterrain[ds0.len() + j]);
            }
            assert(spec_tick_spawns(spawned, rain_n, ss0, cfg0.size as int));
        }
        self.hydrolic_erosion();
        proof {
            assert(self.droplets@ == spec_run(data0, sz, pool, cfg0, pool.len()).0);
            assert(self.droplets@.len() == pool.len());
            assert(self.elev.data@ == spec_run(data0, sz, pool, cfg0, pool.len()).1);
        }
        self.evaporation();
        proof {
            assert(self.droplets@ == spec_survivors(
                spec_run(data0, sz, pool, cfg0, pool.len()).0,
                pool.len(),
            ));
        }
    }
}

} // verus!
