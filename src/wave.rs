//! The wave animation: a shared phase accumulator, advanced once per frame,
//! and the angles whose sines give each animated voxel's vertical offset.
//!
//! Angles are measured in ticks: `FULL_TURN` ticks make one full turn of
//! 2π radians. An animated voxel with amplitude `a` stands at height
//! `a / 2 * Σ sin(angle * 2π / FULL_TURN)` over the angles of `sine_angles`.
use vstd::prelude::*;
use vstd::arithmetic::div_mod::{lemma_add_mod_noop_right, lemma_small_mod};

use crate::grid::{Fraction, Point2, WaveVoxel, WaveVoxelAnimation};

verus! {

/// The number of ticks in one full turn.
pub const FULL_TURN: u64 = 4294967296;

/// The shared phase of the wave animation, in ticks, always within one turn.
#[derive(Clone, Copy, Debug, PartialEq, Eq, Structural)]
pub struct WaveState {
    pub phase: u64,
}

impl WaveState {
    pub open spec fn well_formed(self) -> bool {
        self.phase < FULL_TURN
    }

    /// The phase at rest.
    pub fn new() -> (r: WaveState)
        ensures
            r.phase == 0,
            r.well_formed(),
    {
        WaveState { phase: 0 }
    }

    /// One frame: the phase moves on by `step` ticks (speed times the
    /// frame's duration), wrapped into one turn.
    pub fn advance(&mut self, step: u64)
        requires
            old(self).well_formed(),
        ensures
            final(self).well_formed(),
            final(self).phase as int == (old(self).phase + step) % (FULL_TURN as int),
    {
        let ghost p = self.phase as int;
        proof {
            lemma_add_mod_noop_right(p, step as int, FULL_TURN as int);
        }
        self.phase = (self.phase + step % FULL_TURN) % FULL_TURN;
    }
}

/// The phase after `n` frames of `step` ticks each, from rest.
pub open spec fn phase_after(step: nat, n: nat) -> nat
    decreases n,
{
    if n == 0 {
        0
    } else {
        (phase_after(step, (n - 1) as nat) + step) % (FULL_TURN as nat)
    }
}

/// Run for `n` frames with a constant step, the accumulator holds
/// `n * step` wrapped into one turn; before the first wrap it is exactly
/// `n * step`, so it grows by `step` each frame until then.
pub proof fn lemma_phase_after_frames(step: nat, n: nat)
    ensures
        phase_after(step, n) == (n * step) % (FULL_TURN as nat),
        n * step < FULL_TURN ==> phase_after(step, n) == n * step,
        phase_after(step, n) < FULL_TURN,
    decreases n,
{
    if n > 0 {
        let m = (n - 1) as nat;
        lemma_phase_after_frames(step, m);
        let prev = phase_after(step, m);
        assert(prev == (m * step) % (FULL_TURN as nat));
        assert(m * step + step == n * step) by (nonlinear_arith)
            requires
                m == n - 1,
        ;
        lemma_add_mod_noop_right(step as int, (m * step) as int, FULL_TURN as int);
        assert(phase_after(step, n) == (prev + step) % (FULL_TURN as nat));
    } else {
        assert(n * step == 0) by (nonlinear_arith)
            requires
                n == 0,
        ;
    }
    if n * step < FULL_TURN {
        lemma_small_mod(n * step, FULL_TURN as nat);
    }
}

/// `(phase + floor(tiling * num / den))` wrapped into one turn.
pub open spec fn wrapped_angle(phase: nat, tiling: nat, num: int, den: int) -> u64 {
    ((phase + (tiling * num) / den) % (FULL_TURN as int)) as u64
}

/// The angles of the sines whose sum, times half the amplitude, is the
/// voxel's height: one for a ripple, over `u + v`; two for a wave, over `u`
/// and over `v`. `tiling` is in ticks per unit of grid coordinate.
pub open spec fn sine_angles_model(phase: nat, tiling: nat, v: WaveVoxel) -> Seq<u64> {
    let u = v.grid_position_2d.x;
    let w = v.grid_position_2d.y;
    match v.animation {
        WaveVoxelAnimation::Ripple => seq![
            wrapped_angle(phase, tiling, u.num * w.den + w.num * u.den, u.den * w.den),
        ],
        WaveVoxelAnimation::Wave => seq![
            wrapped_angle(phase, tiling, u.num as int, u.den as int),
            wrapped_angle(phase, tiling, w.num as int, w.den as int),
        ],
    }
}

/// What `sine_angles` asks of its arguments: grid coordinates in `[0, 1]`,
/// and products that fit in 128 bits.
pub open spec fn angles_computable(tiling: nat, v: WaveVoxel) -> bool {
    let u = v.grid_position_2d.x;
    let w = v.grid_position_2d.y;
    &&& u.well_formed() && u.in_unit()
    &&& w.well_formed() && w.in_unit()
    &&& 2 * (tiling + 1) * u.den * w.den <= u128::MAX
}

fn angle_of(phase: u64, tiling: u64, num: u128, den: u128) -> (r: u64)
    requires
        phase < FULL_TURN,
        den > 0,
        tiling * num <= u128::MAX,
    ensures
        r == wrapped_angle(phase as nat, tiling as nat, num as int, den as int),
{
    let t = (tiling as u128) * num / den;
    proof {
        lemma_add_mod_noop_right(phase as int, t as int, FULL_TURN as int);
    }
    ((phase as u128 + t % (FULL_TURN as u128)) % (FULL_TURN as u128)) as u64
}

/// The sine angles of an animated voxel at the current phase.
pub fn sine_angles(state: &WaveState, tiling: u64, v: &WaveVoxel) -> (r: Vec<u64>)
    requires
        state.well_formed(),
        angles_computable(tiling as nat, *v),
    ensures
        r@ == sine_angles_model(state.phase as nat, tiling as nat, *v),
{
    let u = v.grid_position_2d.x;
    let w = v.grid_position_2d.y;
    let un = u.num as u128;
    let wn = w.num as u128;
    assert(un * w.den <= u.den * w.den) by (nonlinear_arith)
        requires
            un <= u.den,
    ;
    assert(wn * u.den <= u.den * w.den) by (nonlinear_arith)
        requires
            wn <= w.den,
    ;
    assert(tiling * (2 * (u.den * w.den)) <= u128::MAX) by (nonlinear_arith)
        requires
            2 * (tiling + 1) * u.den * w.den <= u128::MAX,
    ;
    assert(2 * (u.den * w.den) <= u128::MAX) by (nonlinear_arith)
        requires
            2 * (tiling + 1) * u.den * w.den <= u128::MAX,
    ;
    assert(u.den * w.den > 0) by (nonlinear_arith)
        requires
            u.den > 0,
            w.den > 0,
    ;
    let mut r: Vec<u64> = Vec::new();
    match v.animation {
        WaveVoxelAnimation::Ripple => {
            let num = un * w.den + wn * u.den;
            assert(tiling * num <= tiling * (2 * (u.den * w.den))) by (nonlinear_arith)
                requires
                    num <= 2 * (u.den * w.den),
            ;
            r.push(angle_of(state.phase, tiling, num, u.den * w.den));
        },
        WaveVoxelAnimation::Wave => {
            assert(tiling * un <= tiling * (2 * (u.den * w.den))) by (nonlinear_arith)
                requires
                    un <= u.den,
                    w.den >= 1,
            ;
            assert(tiling * wn <= tiling * (2 * (u.den * w.den))) by (nonlinear_arith)
                requires
                    wn <= w.den,
                    u.den >= 1,
            ;
            r.push(angle_of(state.phase, tiling, un, u.den));
            r.push(angle_of(state.phase, tiling, wn, w.den));
        },
    }
    assert(r@ =~= sine_angles_model(state.phase as nat, tiling as nat, *v));
    r
}

/// At phase 0 with tiling 0 a ripple's sine angle is 0 wherever the voxel
/// stands, so the ripple lies flat.
pub proof fn lemma_ripple_flat_at_rest(p: Point2)
    requires
        p.x.well_formed(),
        p.y.well_formed(),
    ensures
        sine_angles_model(0, 0, WaveVoxel { animation: WaveVoxelAnimation::Ripple, grid_position_2d: p })
            == seq![0u64],
{
    let v = WaveVoxel { animation: WaveVoxelAnimation::Ripple, grid_position_2d: p };
    assert(p.x.den * p.y.den > 0) by (nonlinear_arith)
        requires
            p.x.den > 0,
            p.y.den > 0,
    ;
    assert(sine_angles_model(0, 0, v) =~= seq![0u64]);
}

} // verus!
