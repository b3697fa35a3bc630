use crate::util::{ceiln, floorn};
use vstd::prelude::*;

verus! {

/// Why a convolution could not be planned.
#[derive(Clone, Copy, Debug, PartialEq, Eq, Structural)]
pub enum ConvolutionError {
    /// The filter has no taps.
    EmptyFilter,
    /// The filter has an even number of taps, so it has no centre.
    EvenFilter,
    /// The axis is not longer than the filter's radius, so a mirrored tap
    /// would still fall outside it.
    GridTooSmall,
}

/// The position that a tap at `t` reads on an axis of `len` samples: `t`
/// itself inside `[0, len)`, `-t` before it, `len - (t - len + 1)` after it.
pub open spec fn mirror(t: int, len: int) -> int {
    if t < 0 {
        -t
    } else if t >= len {
        len - (t - len + 1)
    } else {
        t
    }
}

/// The error, if any, of planning a filter of `filter_len` taps on an axis
/// of `len` samples.
pub open spec fn taps_error(filter_len: int, len: int) -> Option<ConvolutionError> {
    if filter_len == 0 {
        Some(ConvolutionError::EmptyFilter)
    } else if filter_len % 2 == 0 {
        Some(ConvolutionError::EvenFilter)
    } else if filter_len / 2 >= len {
        Some(ConvolutionError::GridTooSmall)
    } else {
        None
    }
}

/// `taps[p][k]` is the position that tap `k` of a filter of `filter_len` taps
/// centred on `p` reads on an axis of `len` samples.
pub open spec fn is_tap_plan(taps: Seq<Vec<usize>>, filter_len: int, len: int) -> bool {
    &&& taps.len() == len
    &&& forall|p: int| 0 <= p < len ==> (#[trigger] taps[p])@.len() == filter_len
    &&& forall|p: int, k: int|
        0 <= p < len && 0 <= k < filter_len ==> #[trigger] taps[p]@[k] == mirror(p - filter_len / 2 + k, len)
}

/// The positions read by the taps centred on `p` when some fall outside
/// the axis: each mirrored back into it.
fn convolution_edge_taps(filter_len: usize, len: usize, p: usize) -> (r: Vec<usize>)
    requires
        filter_len % 2 == 1,
        filter_len / 2 < len,
        p < len,
    ensures
        r@.len() == filter_len,
        forall|k: int| 0 <= k < filter_len ==> #[trigger] r@[k] == mirror(p - filter_len / 2 + k, len as int),
{
    let radius = filter_len / 2;
    let mut r: Vec<usize> = Vec::new();
    let mut k: usize = 0;
    while k < filter_len
        invariant
            filter_len % 2 == 1,
            radius == filter_len / 2,
            radius < len,
            p < len,
            k <= filter_len,
            r@.len() == k,
            forall|m: int| 0 <= m < k ==> #[trigger] r@[m] == mirror(p - radius + m, len as int),
        decreases filter_len - k,
    {
        // Handle edges by mirroring.
        let tap: usize = if k < radius && p < radius - k {
            radius - k - p
        } else if k < radius {
            p - (radius - k)
        } else if p >= len - (k - radius) {
            (len - 1) - (p - (len - (k - radius)))
        } else {
            p + (k - radius)
        };
        r.push(tap);
        k += 1;
    }
    r
}

/// The positions read by the taps centred on `p` when all fall inside the axis.
fn convolution_inner_taps(filter_len: usize, p: usize) -> (r: Vec<usize>)
    requires
        filter_len / 2 <= p,
        p + filter_len / 2 <= usize::MAX,
    ensures
        r@.len() == filter_len,
        forall|k: int| 0 <= k < filter_len ==> #[trigger] r@[k] == p - filter_len / 2 + k,
{
    let radius = filter_len / 2;
    let mut r: Vec<usize> = Vec::new();
    let mut k: usize = 0;
    while k < filter_len
        invariant
            radius == filter_len / 2,
            radius <= p,
            p + radius <= usize::MAX,
            k <= filter_len,
            r@.len() == k,
            forall|m: int| 0 <= m < k ==> #[trigger] r@[m] == p - radius + m,
        decreases filter_len - k,
    {
        r.push(p - radius + k);
        k += 1;
    }
    r
}

/// The tap plan of one pass of a separable convolution with a symmetric
/// filter of `filter_len` taps along an axis of `len` samples: for each
/// output position, the input position each tap reads. A leading and a
/// trailing band mirror the taps that fall outside the axis; the band
/// between reads them directly.
pub fn convolution_taps(filter_len: usize, len: usize) -> (r: Result<Vec<Vec<usize>>, ConvolutionError>)
    ensures
        match taps_error(filter_len as int, len as int) {
            Some(e) => r == Err::<Vec<Vec<usize>>, ConvolutionError>(e),
            None => r is Ok && is_tap_plan(r->Ok_0@, filter_len as int, len as int),
        },
{
    if filter_len == 0 {
        return Err(ConvolutionError::EmptyFilter);
    }
    if filter_len % 2 == 0 {
        return Err(ConvolutionError::EvenFilter);
    }
    let radius = filter_len / 2;
    if radius >= len {
        return Err(ConvolutionError::GridTooSmall);
    }
    let borders_top = ceiln(radius, 1);
    let borders_bottom = floorn(len - (filter_len - radius), 1);
    let mut taps: Vec<Vec<usize>> = Vec::new();
    let mut p: usize = 0;
    while p < len
        invariant
            filter_len % 2 == 1,
            radius == filter_len / 2,
            radius < len,
            borders_top == radius,
            borders_bottom == len - radius - 1,
            p <= len,
            taps@.len() == p,
            forall|q: int| 0 <= q < p ==> (#[trigger] taps@[q])@.len() == filter_len,
            forall|q: int, k: int|
                0 <= q < p && 0 <= k < filter_len ==> #[trigger] taps@[q]@[k] == mirror(
                    q - radius + k,
                    len as int,
                ),
        decreases len - p,
    {
        let row = if borders_top <= p && p < borders_bottom {
            convolution_inner_taps(filter_len, p)
        } else {
            convolution_edge_taps(filter_len, len, p)
        };
        taps.push(row);
        p += 1;
    }
    Ok(taps)
}

/// Every position of a tap plan lies on the axis.
pub proof fn lemma_taps_in_range(taps: Seq<Vec<usize>>, filter_len: int, len: int)
    requires
        taps_error(filter_len, len) is None,
        is_tap_plan(taps, filter_len, len),
    ensures
        forall|p: int, k: int| 0 <= p < len && 0 <= k < filter_len ==> 0 <= #[trigger] taps[p]@[k] < len,
{
}

/// A symmetric filter reads positions symmetric about its centre: away from
/// the edges, tap `k` and tap `filter_len - 1 - k` read positions equally far
/// before and after `p`.
pub proof fn lemma_taps_symmetric(taps: Seq<Vec<usize>>, filter_len: int, len: int, p: int, k: int)
    requires
        taps_error(filter_len, len) is None,
        is_tap_plan(taps, filter_len, len),
        filter_len / 2 <= p < len - filter_len / 2,
        0 <= k < filter_len,
    ensures
        taps[p]@[k] - p == p - taps[p]@[filter_len - 1 - k],
{
}

/// Away from the edges no tap is mirrored, so an impulse at `c` reaches the
/// output at `p` through the single tap `c - p + filter_len / 2`: a pass over
/// an impulse lays the filter's own coefficients around it.
pub proof fn lemma_interior_impulse_response(taps: Seq<Vec<usize>>, filter_len: int, len: int, p: int, c: int)
    requires
        taps_error(filter_len, len) is None,
        is_tap_plan(taps, filter_len, len),
        filter_len / 2 <= p < len - filter_len / 2,
        0 <= c < len,
    ensures
        forall|k: int| 0 <= k < filter_len ==> (#[trigger] taps[p]@[k] == c <==> k == c - p + filter_len / 2),
{
}

} // verus!
