//! Springs: persistent emission points that accumulate fractional flow and
//! periodically emit droplets.

use vstd::prelude::*;
use vstd::arithmetic::div_mod::{
    lemma_fundamental_div_mod,
    lemma_fundamental_div_mod_converse,
    lemma_mod_pos_bound,
};
use crate::fixed::{SCALE, PMAX};

verus! {

/// Largest supported emission rate, `FLUX_MAX / SCALE` droplets per tick.
pub const FLUX_MAX: i64 = 0x1_0000_0000;

/// A spring: a fixed position and emission rate, with the fractional flow
/// not yet realized as a whole droplet carried between ticks.
#[derive(Clone, Copy)]
pub struct Source {
    pub px: i64,
    pub py: i64,
    pub flux: i64,
    pub stock: i64,
}

impl Source {
    /// The spring's invariant: position on the supported extent, a
    /// nonnegative bounded rate, and an accumulator below one droplet.
    pub open spec fn wf(&self) -> bool {
        &&& -PMAX <= self.px <= PMAX
        &&& -PMAX <= self.py <= PMAX
        &&& 0 <= self.flux <= FLUX_MAX
        &&& 0 <= self.stock < SCALE
    }

    /// A new spring with an empty accumulator.
    pub fn new(px: i64, py: i64, flux: i64) -> (s: Source)
        requires
            -PMAX <= px <= PMAX,
            -PMAX <= py <= PMAX,
            0 <= flux <= FLUX_MAX,
        ensures
            s.wf(),
            s == (Source { px, py, flux, stock: 0 }),
    {
        Source { px, py, flux, stock: 0 }
    }

    /// One tick of flow: the rate joins the accumulator, whole droplets
    /// leave it, and the fraction below one droplet is carried over.
    pub fn flow(&mut self) -> (drops: u64)
        requires
            old(self).wf(),
        ensures
            final(self).wf(),
            final(self).px == old(self).px,
            final(self).py == old(self).py,
            final(self).flux == old(self).flux,
            final(self).stock == (old(self).stock + old(self).flux) % (SCALE as int),
            drops == (old(self).stock + old(self).flux) / (SCALE as int),
            SCALE * drops + final(self).stock == old(self).stock + old(self).flux,
    {
        let pool = self.stock + self.flux;
        let drops = pool / SCALE;
        self.stock = pool % SCALE;
        proof {
            lemma_fundamental_div_mod(pool as int, SCALE as int);
        }
        drops as u64
    }
}

/// The accumulator after `t` ticks of flow from an empty start.
pub open spec fn spec_stock_after(flux: int, t: nat) -> int
    decreases t,
{
    if t == 0 {
        0
    } else {
        (spec_stock_after(flux, (t - 1) as nat) + flux) % (SCALE as int)
    }
}

/// The whole droplets emitted over `t` ticks of flow from an empty start.
pub open spec fn spec_emitted(flux: int, t: nat) -> int
    decreases t,
{
    if t == 0 {
        0
    } else {
        spec_emitted(flux, (t - 1) as nat) + (spec_stock_after(flux, (t - 1) as nat) + flux) / (
        SCALE as int)
    }
}

/// Source flow accuracy: over `t` ticks a spring with rate `flux` emits
/// exactly `floor(flux * t / SCALE)` droplets — the accumulator absorbs the
/// remainder and stays below one droplet, so the average emission rate
/// converges to `flux / SCALE` droplets per tick.
pub proof fn lemma_source_flow_accuracy(flux: int, t: nat)
    requires
        0 <= flux,
    ensures
        0 <= spec_stock_after(flux, t) < SCALE,
        SCALE * spec_emitted(flux, t) + spec_stock_after(flux, t) == flux * t,
        spec_emitted(flux, t) == flux * t / (SCALE as int),
    decreases t,
{
    if t == 0 {
    } else {
        lemma_source_flow_accuracy(flux, (t - 1) as nat);
        let prev = spec_stock_after(flux, (t - 1) as nat);
        lemma_fundamental_div_mod(prev + flux, SCALE as int);
        lemma_mod_pos_bound(prev + flux, SCALE as int);
        assert(flux * (t as int) == flux * ((t - 1) as int) + flux) by (nonlinear_arith);
    }
    let em = spec_emitted(flux, t);
    let st = spec_stock_after(flux, t);
    assert(flux * t == em * SCALE + st) by (nonlinear_arith)
        requires
            SCALE * em + st == flux * t,
    ;
    lemma_fundamental_div_mod_converse(flux * t, SCALE as int, em, st);
}

} // verus!
