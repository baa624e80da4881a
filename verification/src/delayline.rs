//! Delay-line bookkeeping: the integer state of a power-of-two circular
//! buffer (write head, clamped delay, wrapped read head), the delay a
//! path distance asks for, and the distance gain.
//!
//! The sample store itself and its fractional, air-absorbed read are
//! floating point and live with the host application; everything that
//! decides *where* the heads stand and *how long* a delay is, is here
//! and exact.

use vstd::prelude::*;
use vstd::arithmetic::div_mod::lemma_fundamental_div_mod_converse_mod;
use crate::geom::Room;

verus! {

/// Speed of sound used throughout, in millimetres per second.
pub const SPEED_OF_SOUND_MM_PER_S: u64 = 343_000;

/// `n` is a power of two.
pub open spec fn is_pow2(n: int) -> bool
    decreases n,
{
    if n <= 0 {
        false
    } else if n == 1 {
        true
    } else {
        n % 2 == 0 && is_pow2(n / 2)
    }
}

/// The smallest power of two that holds at least `n` slots.
pub fn next_pow_of_2(n: usize) -> (r: usize)
    requires
        n <= 0x4000_0000,
    ensures
        is_pow2(r as int),
        r >= n,
        r >= 1,
        n >= 1 ==> r < 2 * n,
        n == 0 ==> r == 1,
        r < 0x8000_0000,
{
    let mut p: usize = 1;
    while p < n
        invariant
            is_pow2(p as int),
            n <= 0x4000_0000,
            p >= 1,
            n >= 1 ==> p < 2 * n,
            n == 0 ==> p == 1,
            p < 0x8000_0000,
        decreases 2 * n - p,
    {
        proof {
            assert(is_pow2(2 * p as int)) by {
                assert((2 * p as int) / 2 == p as int);
            };
        }
        p = p * 2;
    }
    p
}

/// Integer state of one circular delay buffer: a power-of-two capacity,
/// a write head that advances one slot per sample, and a read head that
/// trails the write head by the configured delay.
#[derive(Debug, Clone, Copy, PartialEq, Eq, Structural)]
pub struct CircularDelayBuffer {
    pub capacity: usize,
    pub write_pos: usize,
    pub delay_samples: usize,
}

impl CircularDelayBuffer {
    pub open spec fn wf(self) -> bool {
        &&& is_pow2(self.capacity as int)
        &&& self.capacity < 0x8000_0000
        &&& self.write_pos < self.capacity
        &&& self.delay_samples <= self.capacity
    }

    /// A buffer of at least `length` slots, rounded up to the smallest
    /// power of two that holds them, with the heads together (zero
    /// delay).
    pub fn new(length: usize) -> (r: CircularDelayBuffer)
        requires
            length <= 0x4000_0000,
        ensures
            r.wf(),
            r.capacity >= length,
            length >= 1 ==> r.capacity < 2 * length,
            length == 0 ==> r.capacity == 1,
            r.write_pos == 0,
            r.delay_samples == 0,
    {
        let capacity = next_pow_of_2(length);
        proof {
            lemma_pow2_positive(capacity as int);
        }
        CircularDelayBuffer { capacity, write_pos: 0, delay_samples: 0 }
    }

    /// Set the read head from a target delay in samples.  A request of
    /// up to the full capacity is honoured — the read-before-write ring
    /// can trail the write head by exactly its length — and only a
    /// request greater than the capacity is clamped, to one slot less
    /// than the capacity.
    pub fn set_delay_time_samples(&mut self, delay: usize)
        requires
            old(self).wf(),
        ensures
            final(self).wf(),
            final(self).capacity == old(self).capacity,
            final(self).write_pos == old(self).write_pos,
            final(self).delay_samples == if delay > old(self).capacity {
                old(self).capacity - 1
            } else {
                delay as int
            },
            final(self).delay_samples <= delay,
    {
        proof {
            lemma_pow2_positive(self.capacity as int);
        }
        if delay > self.capacity {
            self.delay_samples = self.capacity - 1;
        } else {
            self.delay_samples = delay;
        }
    }

    /// Advance the write head by one written sample, wrapping at the
    /// capacity.
    pub fn advance(&mut self)
        requires
            old(self).wf(),
        ensures
            final(self).wf(),
            final(self).capacity == old(self).capacity,
            final(self).delay_samples == old(self).delay_samples,
            final(self).write_pos == (old(self).write_pos + 1) % old(self).capacity as int,
    {
        proof {
            if old(self).write_pos + 1 == old(self).capacity {
                lemma_fundamental_div_mod_converse_mod(
                    old(self).write_pos + 1,
                    old(self).capacity as int,
                    1,
                    0,
                );
            } else {
                lemma_fundamental_div_mod_converse_mod(
                    old(self).write_pos + 1,
                    old(self).capacity as int,
                    0,
                    old(self).write_pos + 1,
                );
            }
        }
        if self.write_pos + 1 == self.capacity {
            self.write_pos = 0;
        } else {
            self.write_pos = self.write_pos + 1;
        }
    }

    /// Slot the read head stands on: the write head minus the delay,
    /// wrapped into the buffer.
    pub fn read_index(&self) -> (r: usize)
        requires
            self.wf(),
        ensures
            r < self.capacity,
            r == (self.write_pos + self.capacity - self.delay_samples) % self.capacity as int,
    {
        proof {
            lemma_pow2_positive(self.capacity as int);
        }
        (self.write_pos + self.capacity - self.delay_samples) % self.capacity
    }
}

pub proof fn lemma_pow2_positive(n: int)
    requires
        is_pow2(n),
    ensures
        n >= 1,
{
}

/// Delay in whole samples that a path of `dist_mm` millimetres asks
/// for: the distance over the speed of sound, scaled by the sample rate
/// and rounded up — the sample where the first energy of an impulse
/// appears at the listener.
pub fn delay_samples_for_distance(dist_mm: u64, sample_rate: u64, c_mm_per_s: u64) -> (d: u64)
    requires
        1 <= c_mm_per_s <= 0x4000_0000,
        dist_mm <= 0x10_0000_0000,
        sample_rate <= 0x10_0000,
    ensures
        d == (dist_mm * sample_rate + c_mm_per_s - 1) as int / c_mm_per_s as int,
        c_mm_per_s as int * d >= dist_mm * sample_rate,
        dist_mm == 0 ==> d == 0,
{
    proof {
        assert(dist_mm * sample_rate <= 0x10_0000_0000 * 0x10_0000) by (nonlinear_arith)
            requires
                0 <= dist_mm <= 0x10_0000_0000,
                0 <= sample_rate <= 0x10_0000,
        ;
    }
    let num = dist_mm * sample_rate;
    let d = (num + (c_mm_per_s - 1)) / c_mm_per_s;
    proof {
        let c = c_mm_per_s as int;
        let n = num as int;
        assert(c * ((n + c - 1) / c) >= n) by (nonlinear_arith)
            requires
                c >= 1,
                n >= 0,
        ;
        if n == 0 {
            assert((c - 1) / c == 0) by (nonlinear_arith)
                requires
                    c >= 1,
            ;
        }
    }
    d
}

/// Slots an image-source delay line must hold: the delay of the whole
/// room diagonal, the longest path a stored source can stand for.
pub fn ism_delayline_length(room: &Room, sample_rate: u64, c_mm_per_s: u64) -> (n: u64)
    requires
        room.wf(),
        1 <= c_mm_per_s <= 0x4000_0000,
        1 <= sample_rate <= 0x10_0000,
    ensures
        n == (crate::geom::dist_spec(
            room.dimension,
            crate::geom::Vec3 { x: 0i64, y: 0i64, z: 0i64 },
        ) * sample_rate + c_mm_per_s - 1) / c_mm_per_s as int,
        c_mm_per_s as int * n >= crate::geom::dist_spec(
            room.dimension,
            crate::geom::Vec3 { x: 0i64, y: 0i64, z: 0i64 },
        ) * sample_rate,
{
    let diag = room.diagonal();
    delay_samples_for_distance(diag as u64, sample_rate, c_mm_per_s)
}

/// Q16 fixed-point carrier of the distance gain `1 / max(d, eps)` with
/// `d` in metres: `65_536_000 / max(dist_mm, eps_mm)`.  A source on the
/// listener saturates at the ceiling the epsilon sets instead of
/// diverging.
pub fn distance_gain_q16(dist_mm: u64, eps_mm: u64) -> (g: u64)
    requires
        eps_mm >= 1,
    ensures
        g == 65_536_000 as int / (if dist_mm >= eps_mm {
            dist_mm as int
        } else {
            eps_mm as int
        }),
        dist_mm == 0 ==> g == 65_536_000 as int / eps_mm as int,
        dist_mm <= eps_mm ==> g == 65_536_000 as int / eps_mm as int,
{
    if dist_mm >= eps_mm {
        65_536_000u64 / dist_mm
    } else {
        65_536_000u64 / eps_mm
    }
}

} // verus!
