//! The palettes and frame indices of an animation.
//!
//! Frame `i` uses palette channel `start + (i mod modulus) * step`, for each
//! channel with its own start, step and modulus. The complex parameter of
//! frame `i` is `start + i * step` and is computed by the caller from the
//! frame index.

use crate::palette::Color;
use vstd::arithmetic::mul::lemma_mul_inequality;
use vstd::prelude::*;

verus! {

/// One frame of an animation: its position and its palette.
#[derive(Clone, Copy, Debug, PartialEq, Eq, Structural)]
pub struct Frame {
    pub index: u32,
    pub palette: Color,
}

/// Why a trajectory was refused.
#[derive(Clone, Copy, Debug, PartialEq, Eq, Structural)]
pub enum TrajectoryError {
    /// A channel's modulus is 0.
    ZeroModulus,
    /// A channel's largest value, `start + (modulus - 1) * step`, exceeds
    /// `u32::MAX`.
    ChannelOverflow,
}

/// Channel value of frame `i`.
pub open spec fn channel_at(start: nat, step: nat, modulus: nat, i: nat) -> nat {
    start + (i % modulus) * step
}

/// The largest value a channel takes.
pub open spec fn channel_peak(start: nat, step: nat, modulus: nat) -> int {
    start + (modulus - 1) * step
}

/// A channel whose modulus is positive and whose values fit in `u32`.
pub open spec fn channel_ok(start: u32, step: u32, modulus: u32) -> bool {
    modulus > 0 && channel_peak(start as nat, step as nat, modulus as nat) <= u32::MAX
}

/// The sequence of frames of an animation.
#[derive(Clone, Copy, Debug, PartialEq, Eq, Structural)]
pub struct Trajectory {
    pub frame_count: u32,
    pub palette_start: Color,
    pub palette_step: Color,
    pub palette_modulus: Color,
}

fn channel_fits(start: u32, step: u32, modulus: u32) -> (r: bool)
    requires
        modulus > 0,
    ensures
        r == (channel_peak(start as nat, step as nat, modulus as nat) <= u32::MAX),
{
    let m: u64 = (modulus - 1) as u64;
    assert(m * (step as nat) <= 0xffff_ffffu64 * 0xffff_ffffu64) by (nonlinear_arith)
        requires
            m <= 0xffff_ffffu64,
            step <= 0xffff_ffffu32,
    ;
    let span: u64 = m * (step as u64);
    span <= (u32::MAX - start) as u64
}

fn channel_value(start: u32, step: u32, modulus: u32, i: u32) -> (r: u32)
    requires
        channel_ok(start, step, modulus),
    ensures
        r == channel_at(start as nat, step as nat, modulus as nat, i as nat),
{
    let k = i % modulus;
    proof {
        lemma_mul_inequality(k as int, (modulus - 1) as int, step as int);
    }
    start + k * step
}

impl Trajectory {
    pub open spec fn wf(&self) -> bool {
        &&& channel_ok(self.palette_start.r, self.palette_step.r, self.palette_modulus.r)
        &&& channel_ok(self.palette_start.g, self.palette_step.g, self.palette_modulus.g)
        &&& channel_ok(self.palette_start.b, self.palette_step.b, self.palette_modulus.b)
    }

    /// The palette of frame `i`.
    pub open spec fn palette_spec(&self, i: nat) -> Color {
        Color {
            r: channel_at(
                self.palette_start.r as nat,
                self.palette_step.r as nat,
                self.palette_modulus.r as nat,
                i,
            ) as u32,
            g: channel_at(
                self.palette_start.g as nat,
                self.palette_step.g as nat,
                self.palette_modulus.g as nat,
                i,
            ) as u32,
            b: channel_at(
                self.palette_start.b as nat,
                self.palette_step.b as nat,
                self.palette_modulus.b as nat,
                i,
            ) as u32,
        }
    }

    /// Checks that every modulus is positive and that every channel value
    /// fits in `u32`.
    pub fn new(frame_count: u32, palette_start: Color, palette_step: Color, palette_modulus: Color) -> (r:
        Result<Trajectory, TrajectoryError>)
        ensures
            (palette_modulus.r == 0 || palette_modulus.g == 0 || palette_modulus.b == 0) ==> r
                == Err::<Trajectory, TrajectoryError>(TrajectoryError::ZeroModulus),
            (palette_modulus.r > 0 && palette_modulus.g > 0 && palette_modulus.b > 0) ==> (r
                == Err::<Trajectory, TrajectoryError>(TrajectoryError::ChannelOverflow) <==> !(
            Trajectory { frame_count, palette_start, palette_step, palette_modulus }).wf()),
            r is Ok <==> (Trajectory { frame_count, palette_start, palette_step, palette_modulus }).wf(),
            r matches Ok(t) ==> t == (Trajectory {
                frame_count,
                palette_start,
                palette_step,
                palette_modulus,
            }),
    {
        if palette_modulus.r == 0 || palette_modulus.g == 0 || palette_modulus.b == 0 {
            return Err(TrajectoryError::ZeroModulus);
        }
        if !channel_fits(palette_start.r, palette_step.r, palette_modulus.r) || !channel_fits(
            palette_start.g,
            palette_step.g,
            palette_modulus.g,
        ) || !channel_fits(palette_start.b, palette_step.b, palette_modulus.b) {
            return Err(TrajectoryError::ChannelOverflow);
        }
        Ok(Trajectory { frame_count, palette_start, palette_step, palette_modulus })
    }

    /// The palette of frame `i`.
    pub fn palette_at(&self, i: u32) -> (c: Color)
        requires
            self.wf(),
        ensures
            c == self.palette_spec(i as nat),
    {
        Color {
            r: channel_value(self.palette_start.r, self.palette_step.r, self.palette_modulus.r, i),
            g: channel_value(self.palette_start.g, self.palette_step.g, self.palette_modulus.g, i),
            b: channel_value(self.palette_start.b, self.palette_step.b, self.palette_modulus.b, i),
        }
    }

    /// Every frame, in order: exactly `frame_count` of them, frame `i` at
    /// position `i` with the palette of frame `i`.
    pub fn frames(&self) -> (r: Vec<Frame>)
        requires
            self.wf(),
        ensures
            r.len() == self.frame_count,
            forall|i: int|
                0 <= i < r.len() ==> #[trigger] r@[i] == (Frame {
                    index: i as u32,
                    palette: self.palette_spec(i as nat),
                }),
    {
        let mut r: Vec<Frame> = Vec::new();
        let mut i: u32 = 0;
        while i < self.frame_count
            invariant
                self.wf(),
                i <= self.frame_count,
                r.len() == i,
                forall|j: int|
                    0 <= j < i ==> #[trigger] r@[j] == (Frame {
                        index: j as u32,
                        palette: self.palette_spec(j as nat),
                    }),
            decreases self.frame_count - i,
        {
            let palette = self.palette_at(i);
            r.push(Frame { index: i, palette });
            i = i + 1;
        }
        r
    }
}

/// The first frame uses the starting palette, and the palette repeats with
/// each channel's modulus: frames `i` and `i + modulus` of a channel agree
/// on it.
pub proof fn lemma_palette_cycle(t: Trajectory, i: nat)
    requires
        t.wf(),
    ensures
        t.palette_spec(0) == t.palette_start,
        t.palette_spec(i).r == t.palette_spec((i + t.palette_modulus.r) as nat).r,
        t.palette_spec(i).g == t.palette_spec((i + t.palette_modulus.g) as nat).g,
        t.palette_spec(i).b == t.palette_spec((i + t.palette_modulus.b) as nat).b,
{
    vstd::arithmetic::div_mod::lemma_small_mod(0, t.palette_modulus.r as nat);
    vstd::arithmetic::div_mod::lemma_small_mod(0, t.palette_modulus.g as nat);
    vstd::arithmetic::div_mod::lemma_small_mod(0, t.palette_modulus.b as nat);
    vstd::arithmetic::div_mod::lemma_mod_add_multiples_vanish(i as int, t.palette_modulus.r as int);
    vstd::arithmetic::div_mod::lemma_mod_add_multiples_vanish(i as int, t.palette_modulus.g as int);
    vstd::arithmetic::div_mod::lemma_mod_add_multiples_vanish(i as int, t.palette_modulus.b as int);
}

} // verus!
