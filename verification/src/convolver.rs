//! The partitioned-convolution schedule of the spatializer.
//!
//! The convolver keeps a ring of the last `n_segments` frequency-domain
//! input blocks and, for each filter segment `s`, multiplies it with
//! the input block written `s` buffers ago.  The complex arithmetic is
//! floating point and lives with the host application; the ring indices
//! that decide *which* block meets *which* segment are exact and live
//! here.

use vstd::prelude::*;
use vstd::arithmetic::div_mod::lemma_fundamental_div_mod_converse_mod;

verus! {

/// Ring schedule of one partitioned convolver: the block size, the
/// number of stored input segments, and the ring index of the newest
/// one.
#[derive(Debug, Clone, Copy, PartialEq, Eq, Structural)]
pub struct Spatializer {
    pub n_points: usize,
    pub n_segments_total: usize,
    pub index: usize,
}

impl Spatializer {
    pub open spec fn wf(self) -> bool {
        &&& 1 <= self.n_segments_total <= 0x4000_0000
        &&& self.index < self.n_segments_total
        &&& 1 <= self.n_points <= 0x4000_0000
    }

    /// A fresh schedule for `blocksize`-sample buffers and a filter of
    /// `n_segments` partitions.
    pub fn new(blocksize: usize, n_segments: usize) -> (r: Spatializer)
        requires
            1 <= blocksize <= 0x4000_0000,
            1 <= n_segments <= 0x4000_0000,
        ensures
            r.wf(),
            r.n_points == blocksize,
            r.n_segments_total == n_segments,
            r.index == 0,
    {
        Spatializer { n_points: blocksize, n_segments_total: n_segments, index: 0 }
    }

    /// A new input block arrives: the ring index steps forward by one,
    /// wrapping over the segment count.
    pub fn advance_segment(&mut self)
        requires
            old(self).wf(),
        ensures
            final(self).wf(),
            final(self).n_points == old(self).n_points,
            final(self).n_segments_total == old(self).n_segments_total,
            final(self).index == (old(self).index + 1) % old(self).n_segments_total as int,
    {
        proof {
            if old(self).index + 1 == old(self).n_segments_total {
                lemma_fundamental_div_mod_converse_mod(
                    old(self).index + 1,
                    old(self).n_segments_total as int,
                    1,
                    0,
                );
            } else {
                lemma_fundamental_div_mod_converse_mod(
                    old(self).index + 1,
                    old(self).n_segments_total as int,
                    0,
                    old(self).index + 1,
                );
            }
        }
        if self.index + 1 == self.n_segments_total {
            self.index = 0;
        } else {
            self.index = self.index + 1;
        }
    }

    /// Ring slot of the input block written `segment` buffers ago: the
    /// newest slot walked backwards by `segment`, wrapped over the
    /// ring.  Segment zero meets the newest block.
    pub fn history_index(&self, segment: usize) -> (h: usize)
        requires
            self.wf(),
            segment < self.n_segments_total,
        ensures
            h < self.n_segments_total,
            h == (self.index + self.n_segments_total - segment) % self.n_segments_total as int,
            segment == 0 ==> h == self.index,
    {
        let v = self.index + self.n_segments_total - segment;
        proof {
            if v >= self.n_segments_total {
                lemma_fundamental_div_mod_converse_mod(
                    v as int,
                    self.n_segments_total as int,
                    1,
                    v - self.n_segments_total,
                );
            } else {
                lemma_fundamental_div_mod_converse_mod(
                    v as int,
                    self.n_segments_total as int,
                    0,
                    v as int,
                );
            }
        }
        if v >= self.n_segments_total {
            v - self.n_segments_total
        } else {
            v
        }
    }
}

/// The ring schedule never makes two filter segments share a stored
/// block: within one buffer, distinct segments meet distinct slots.
pub proof fn lemma_history_injective(sp: Spatializer, s1: int, s2: int)
    requires
        sp.wf(),
        0 <= s1 < sp.n_segments_total,
        0 <= s2 < sp.n_segments_total,
        s1 != s2,
    ensures
        (sp.index + sp.n_segments_total - s1) % sp.n_segments_total as int != (sp.index
            + sp.n_segments_total - s2) % sp.n_segments_total as int,
{
    let n = sp.n_segments_total as int;
    let v1 = sp.index + n - s1;
    let v2 = sp.index + n - s2;
    if v1 >= n {
        lemma_fundamental_div_mod_converse_mod(v1, n, 1, v1 - n);
    } else {
        lemma_fundamental_div_mod_converse_mod(v1, n, 0, v1);
    }
    if v2 >= n {
        lemma_fundamental_div_mod_converse_mod(v2, n, 1, v2 - n);
    } else {
        lemma_fundamental_div_mod_converse_mod(v2, n, 0, v2);
    }
}

} // verus!
