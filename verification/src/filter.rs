//! Filter bookkeeping: the filter kinds and the exact segmentation
//! arithmetic of the partitioned frequency-domain filters.
//!
//! A time-domain response of `n` taps is cut into `ceil(n / block)`
//! segments of `block` samples, each zero-padded to twice the block and
//! transformed; the spectra themselves are floating point and live with
//! the host application.

use vstd::prelude::*;

verus! {

/// What a stereo filter is used for in the renderer.
#[derive(Debug, Clone, Copy, PartialEq, Eq, Structural)]
pub enum BinauralFilterType {
    DirectSound,
    EarlyReflection,
    LateReverberation,
}

/// What a mono filter is used for.
#[derive(Debug, Clone, Copy, PartialEq, Eq, Structural)]
pub enum MonoFilterType {
    SourceDirectivity,
}

/// Where scene updates come from.
#[derive(Debug, Clone, Copy, PartialEq, Eq, Structural)]
pub enum ControlType {
    GAMEPAD,
    OSC,
    AUTO,
    NONE,
}

/// Number of partitions a filter of `data_t_length` taps occupies with
/// `buffer_size`-sample blocks: the tap count over the block size,
/// rounded up, and at least one even for an empty response.
pub fn segment_count(data_t_length: usize, buffer_size: usize) -> (n: usize)
    requires
        1 <= buffer_size,
        data_t_length + buffer_size <= usize::MAX,
    ensures
        n == if data_t_length == 0 {
            1int
        } else {
            (data_t_length + buffer_size - 1) as int / buffer_size as int
        },
        n >= 1,
        n * buffer_size >= data_t_length,
{
    if data_t_length == 0 {
        1
    } else {
        let n = (data_t_length + (buffer_size - 1)) / buffer_size;
        proof {
            let c = buffer_size as int;
            let l = data_t_length as int;
            assert(((l + c - 1) / c) * c >= l && (l + c - 1) / c >= 1) by (nonlinear_arith)
                requires
                    c >= 1,
                    l >= 1,
            ;
        }
        n
    }
}

/// Samples the segmented, padded filter holds: full blocks covering
/// every tap.
pub fn padded_filter_length(n_segments: usize, buffer_size: usize) -> (l: usize)
    requires
        n_segments * buffer_size <= usize::MAX,
    ensures
        l == n_segments * buffer_size,
{
    n_segments * buffer_size
}

/// Complex bins of one real-input spectrum: half the transform length
/// plus the shared bin.
pub fn spectrum_bins(fft_length: usize) -> (b: usize)
    requires
        fft_length < usize::MAX,
    ensures
        b == fft_length as int / 2 + 1,
{
    fft_length / 2 + 1
}

} // verus!
