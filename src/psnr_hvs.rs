use crate::dct::{block8, bounded_by, fdct8x8, od_bin_fdct8x8, FDCT8X8_INPUT_MAX};
use crate::frame::{FrameInfo, MetricsError, PlaneData};
use vstd::prelude::*;

verus! {

/// Blocks start every `HVS_STEP` samples along each axis, so neighbouring
/// 8x8 blocks share a row or a column.
pub const HVS_STEP: usize = 7;

/// A sample read as a signed 16-bit value: values from `0x8000` up wrap to negative.
pub open spec fn sample_i16(v: u16) -> int {
    if v < 0x8000 {
        v as int
    } else {
        v - 0x10000
    }
}

/// The 8x8 window of a plane's samples whose top-left sample is at column `x`, row `y`.
pub open spec fn window8(data: Seq<u16>, width: int, x: int, y: int) -> Seq<int> {
    Seq::new(64, |n: int| sample_i16(data[(y + n / 8) * width + x + n % 8]))
}

/// The values of `s` as integers.
pub open spec fn as_ints(s: Seq<i32>) -> Seq<int> {
    Seq::new(s.len(), |n: int| s[n] as int)
}

/// The sum of the values of `s`.
pub open spec fn sum(s: Seq<int>) -> int
    decreases s.len(),
{
    if s.len() == 0 {
        0
    } else {
        sum(s.drop_last()) + s.last()
    }
}

/// The sum of the squares of the values of `s`.
pub open spec fn sum_sq(s: Seq<int>) -> int
    decreases s.len(),
{
    if s.len() == 0 {
        0
    } else {
        sum_sq(s.drop_last()) + s.last() * s.last()
    }
}

/// `n * Σ v² - (Σ v)²` over the `n` values of `s`: `n` times the sum of the
/// squared distances of the values from their mean.
pub open spec fn scaled_spread(s: Seq<int>) -> int {
    s.len() * sum_sq(s) - sum(s) * sum(s)
}

/// Quadrant `q` of a row-major 8x8 block, row-major: rows from `4 * (q % 2)`,
/// columns from `4 * (q / 2)`.
pub open spec fn quadrant(w: Seq<int>, q: int) -> Seq<int> {
    Seq::new(16, |k: int| w[((q % 2) * 4 + k / 4) * 8 + (q / 2) * 4 + k % 4])
}

/// The scaled spreads of the four quadrants, summed.
pub open spec fn quadrant_spread(w: Seq<int>) -> int {
    scaled_spread(quadrant(w, 0)) + scaled_spread(quadrant(w, 1)) + scaled_spread(quadrant(w, 2))
        + scaled_spread(quadrant(w, 3))
}

/// The integer quantities the masking metric draws from one 8x8 window.
///
/// The masking threshold of the window scales with the mean of the
/// quadrants' sample variances over the window's sample variance. With
/// `D = 64 * Σv² - (Σv)²` over the window and `D_q = 16 * Σv² - (Σv)²` over
/// quadrant `q`, that ratio is `63 * Σ D_q / (15 * D)`: the numerator is
/// `quadrant_variance`, the denominator `global_variance`.
pub struct BlockAnalysis {
    /// The 2-D transform of the window, row-major by vertical frequency.
    pub coeffs: [i32; 64],
    pub quadrant_variance: i64,
    pub global_variance: i64,
}

impl BlockAnalysis {
    /// `self` holds the quantities of the window `w`.
    pub open spec fn describes(&self, w: Seq<int>) -> bool {
        &&& forall|n: int| 0 <= n < 64 ==> self.coeffs@[n] as int == #[trigger] fdct8x8(w)[n]
        &&& self.global_variance == 15 * scaled_spread(w)
        &&& self.quadrant_variance == 63 * quadrant_spread(w)
    }
}

proof fn lemma_take_last(s: Seq<int>, i: int)
    requires
        0 <= i < s.len(),
    ensures
        sum(s.take(i + 1)) == sum(s.take(i)) + s[i],
        sum_sq(s.take(i + 1)) == sum_sq(s.take(i)) + s[i] * s[i],
{
    assert(s.take(i + 1).drop_last() =~= s.take(i));
}

/// The sum and the sum of squares of at most 64 values of magnitude at most `2^15`.
fn moments(v: &[i32]) -> (r: (i64, i64))
    requires
        v@.len() <= 64,
        forall|n: int| 0 <= n < v@.len() ==> -0x8000 <= #[trigger] v@[n] <= 0x8000,
    ensures
        r.0 == sum(as_ints(v@)),
        r.1 == sum_sq(as_ints(v@)),
        -0x20_0000 <= r.0 <= 0x20_0000,
        0 <= r.1 <= 0x10_0000_0000,
{
    let ghost s = as_ints(v@);
    let mut total: i64 = 0;
    let mut squares: i64 = 0;
    let mut i: usize = 0;
    while i < v.len()
        invariant
            s == as_ints(v@),
            v@.len() <= 64,
            forall|n: int| 0 <= n < v@.len() ==> -0x8000 <= #[trigger] v@[n] <= 0x8000,
            i <= v@.len(),
            total == sum(s.take(i as int)),
            squares == sum_sq(s.take(i as int)),
            -0x8000 * i <= total <= 0x8000 * i,
            0 <= squares <= 0x4000_0000 * i,
        decreases v@.len() - i,
    {
        let x = v[i] as i64;
        proof {
            lemma_take_last(s, i as int);
            assert(0 <= x * x <= 0x4000_0000) by (nonlinear_arith)
                requires
                    -0x8000 <= x <= 0x8000,
            ;
        }
        total += x;
        squares += x * x;
        i += 1;
    }
    assert(s.take(v@.len() as int) =~= s);
    (total, squares)
}

/// `n * squares - total * total`, for the moments of `n <= 64` values.
fn spread(n: i64, total: i64, squares: i64) -> (r: i64)
    requires
        0 <= n <= 64,
        -0x20_0000 <= total <= 0x20_0000,
        0 <= squares <= 0x10_0000_0000,
    ensures
        r == n * squares - total * total,
        -0x400_0000_0000 <= r <= 0x400_0000_0000,
{
    proof {
        assert(0 <= total * total <= 0x400_0000_0000) by (nonlinear_arith)
            requires
                -0x20_0000 <= total <= 0x20_0000,
        ;
        assert(0 <= n * squares <= 0x400_0000_0000) by (nonlinear_arith)
            requires
                0 <= n <= 64,
                0 <= squares <= 0x10_0000_0000,
        ;
    }
    n * squares - total * total
}

/// A sample of a plane, read as a signed 16-bit value.
fn read_sample(v: u16) -> (r: i32)
    ensures
        r == sample_i16(v),
{
    #[verifier::truncate]
    let s = v as i16;
    proof {
        assert((v < 0x8000u16 ==> (s as i32) == v as i32) && (v >= 0x8000u16 ==> (s as i32) + 0x10000
            == v as i32)) by (bit_vector)
            requires
                s == v as i16,
        ;
    }
    s as i32
}

/// The integer quantities of the 8x8 window of `plane` whose top-left sample
/// is at column `x`, row `y`.
pub fn analyze_block(plane: &PlaneData, x: usize, y: usize) -> (r: BlockAnalysis)
    requires
        plane.wf(),
        x + 8 <= plane.width,
        y + 8 <= plane.height,
    ensures
        r.describes(window8(plane.data@, plane.width as int, x as int, y as int)),
{
    let ghost w = window8(plane.data@, plane.width as int, x as int, y as int);
    let width = plane.width;
    let len = plane.data.len();
    let mut blk = [0i32; 64];
    let mut i: usize = 0;
    while i < 8
        invariant
            plane.wf(),
            len == plane.data@.len(),
            width == plane.width,
            x + 8 <= plane.width,
            y + 8 <= plane.height,
            w == window8(plane.data@, plane.width as int, x as int, y as int),
            i <= 8,
            forall|n: int| 0 <= n < 8 * i ==> blk@[n] as int == #[trigger] w[n],
        decreases 8 - i,
    {
        proof {
            assert((y + i) * width + width <= plane.height * width) by (nonlinear_arith)
                requires
                    y + i < plane.height,
            ;
            assert(plane.height * width == width * plane.height) by (nonlinear_arith);
        }
        let row = (y + i) * width;
        let mut j: usize = 0;
        while j < 8
            invariant
                plane.wf(),
                width == plane.width,
                x + 8 <= plane.width,
                y + 8 <= plane.height,
                w == window8(plane.data@, plane.width as int, x as int, y as int),
                i < 8,
                j <= 8,
                row == (y + i) * width,
                len == plane.data@.len(),
                row + width <= plane.data@.len(),
                forall|n: int| 0 <= n < 8 * i + j ==> blk@[n] as int == #[trigger] w[n],
            decreases 8 - j,
        {
            proof {
                let n = 8 * i + j;
                assert(n / 8 == i && n % 8 == j);
            }
            blk[8 * i + j] = read_sample(plane.data[row + x + j]);
            j += 1;
        }
        i += 1;
    }
    assert(as_ints(blk@) =~= w);
    assert(block8(blk@, 8) =~= w);
    assert forall|n: int| 0 <= n < 64 implies -0x8000 <= #[trigger] blk@[n] <= 0x8000 by {
        assert(blk@[n] as int == w[n]);
    }
    let (total, squares) = moments(&blk);
    let global_variance = 15 * spread(64, total, squares);
    let mut quadrants: i64 = 0;
    let mut q: usize = 0;
    while q < 4
        invariant
            w == window8(plane.data@, plane.width as int, x as int, y as int),
            forall|n: int| 0 <= n < 64 ==> blk@[n] as int == #[trigger] w[n],
            forall|n: int| 0 <= n < 64 ==> -0x8000 <= #[trigger] blk@[n] <= 0x8000,
            q <= 4,
            quadrants == (if q > 0 { scaled_spread(quadrant(w, 0)) } else { 0 }) + (if q > 1 {
                scaled_spread(quadrant(w, 1))
            } else {
                0
            }) + (if q > 2 { scaled_spread(quadrant(w, 2)) } else { 0 }) + (if q > 3 {
                scaled_spread(quadrant(w, 3))
            } else {
                0
            }),
            -0x400_0000_0000 * q <= quadrants <= 0x400_0000_0000 * q,
        decreases 4 - q,
    {
        let mut part = [0i32; 16];
        let mut k: usize = 0;
        while k < 16
            invariant
                w == window8(plane.data@, plane.width as int, x as int, y as int),
                forall|n: int| 0 <= n < 64 ==> blk@[n] as int == #[trigger] w[n],
                forall|n: int| 0 <= n < 64 ==> -0x8000 <= #[trigger] blk@[n] <= 0x8000,
                q < 4,
                k <= 16,
                forall|m: int| 0 <= m < k ==> part@[m] as int == #[trigger] quadrant(w, q as int)[m],
                forall|m: int| 0 <= m < k ==> -0x8000 <= #[trigger] part@[m] <= 0x8000,
            decreases 16 - k,
        {
            let src = ((q % 2) * 4 + k / 4) * 8 + (q / 2) * 4 + k % 4;
            part[k] = blk[src];
            k += 1;
        }
        assert(as_ints(part@) =~= quadrant(w, q as int));
        let (t, s) = moments(&part);
        quadrants += spread(16, t, s);
        q += 1;
    }
    let quadrant_variance = 63 * quadrants;
    od_bin_fdct8x8(&mut blk, 8);
    proof {
        assert forall|n: int| 0 <= n < 64 implies blk@[n] as int == #[trigger] fdct8x8(w)[n] by {
            let i = n / 8;
            let j = n % 8;
            assert(blk@[i * 8 + j] == blk@[n]);
        }
    }
    BlockAnalysis { coeffs: blk, quadrant_variance, global_variance }
}

/// The analyses of both planes' windows at one block position.
pub struct BlockPair {
    /// Column of the windows' top-left sample.
    pub x: usize,
    /// Row of the windows' top-left sample.
    pub y: usize,
    pub first: BlockAnalysis,
    pub second: BlockAnalysis,
}

/// How many blocks fit along an axis of `len` samples: they start at
/// `0, 7, 14, ...`, below `len - 7`.
pub open spec fn hvs_block_count(len: int) -> int {
    (len - 1) / 7
}

/// `rows[r][c]` is the pair of windows of `plane1` and `plane2` at column
/// `7 * c`, row `7 * r`, for every block position of the planes.
pub open spec fn describes_blocks(rows: Seq<Vec<BlockPair>>, plane1: PlaneData, plane2: PlaneData) -> bool {
    &&& rows.len() == hvs_block_count(plane1.height as int)
    &&& forall|r: int|
        0 <= r < rows.len() ==> (#[trigger] rows[r])@.len() == hvs_block_count(plane1.width as int)
    &&& forall|r: int, c: int|
        0 <= r < rows.len() && 0 <= c < hvs_block_count(plane1.width as int) ==> {
            let b = #[trigger] rows[r]@[c];
            &&& b.x == 7 * c
            &&& b.y == 7 * r
            &&& b.first.describes(window8(plane1.data@, plane1.width as int, 7 * c, 7 * r))
            &&& b.second.describes(window8(plane2.data@, plane2.width as int, 7 * c, 7 * r))
        }
}

/// The analyses of every pair of 8x8 windows of two planes of the same size,
/// by rows of blocks; blocks start every seven samples along each axis.
pub fn plane_hvs_blocks(plane1: &PlaneData, plane2: &PlaneData) -> (r: Vec<Vec<BlockPair>>)
    requires
        plane1.wf(),
        plane2.wf(),
        plane1.width == plane2.width,
        plane1.height == plane2.height,
        plane1.width >= 8,
        plane1.height >= 8,
    ensures
        describes_blocks(r@, *plane1, *plane2),
{
    let width = plane1.width;
    let height = plane1.height;
    let mut rows: Vec<Vec<BlockPair>> = Vec::new();
    let mut y: usize = 0;
    while y < height - HVS_STEP
        invariant
            plane1.wf(),
            plane2.wf(),
            width == plane1.width == plane2.width,
            height == plane1.height == plane2.height,
            width >= 8,
            height >= 8,
            y == 7 * rows@.len(),
            rows@.len() <= hvs_block_count(height as int),
            y < height,
            forall|r: int| 0 <= r < rows@.len() ==> (#[trigger] rows@[r])@.len() == hvs_block_count(width as int),
            forall|r: int, c: int|
                0 <= r < rows@.len() && 0 <= c < hvs_block_count(width as int) ==> {
                    let b = #[trigger] rows@[r]@[c];
                    &&& b.x == 7 * c
                    &&& b.y == 7 * r
                    &&& b.first.describes(window8(plane1.data@, width as int, 7 * c, 7 * r))
                    &&& b.second.describes(window8(plane2.data@, width as int, 7 * c, 7 * r))
                },
        decreases height - y,
    {
        let mut row: Vec<BlockPair> = Vec::new();
        let mut x: usize = 0;
        while x < width - HVS_STEP
            invariant
                plane1.wf(),
                plane2.wf(),
                width == plane1.width == plane2.width,
                height == plane1.height == plane2.height,
                width >= 8,
                y + 8 <= height,
                x == 7 * row@.len(),
                row@.len() <= hvs_block_count(width as int),
                x < width,
                forall|c: int|
                    0 <= c < row@.len() ==> {
                        let b = #[trigger] row@[c];
                        &&& b.x == 7 * c
                        &&& b.y == y
                        &&& b.first.describes(window8(plane1.data@, width as int, 7 * c, y as int))
                        &&& b.second.describes(window8(plane2.data@, width as int, 7 * c, y as int))
                    },
            decreases width - x,
        {
            let first = analyze_block(plane1, x, y);
            let second = analyze_block(plane2, x, y);
            row.push(BlockPair { x, y, first, second });
            x += HVS_STEP;
        }
        rows.push(row);
        y += HVS_STEP;
    }
    rows
}

/// The block analyses of the three planes of a pair of frames, and the bit
/// depth that normalizes the errors drawn from them.
pub struct HvsFrameBlocks {
    pub y: Vec<Vec<BlockPair>>,
    pub u: Vec<Vec<BlockPair>>,
    pub v: Vec<Vec<BlockPair>>,
    pub bit_depth: usize,
}

/// Every plane of the frame holds at least one 8x8 block.
pub open spec fn planes_hold_a_block(frame: &FrameInfo) -> bool {
    forall|p: int| 0 <= p < 3 ==> (#[trigger] frame.planes@[p]).width >= 8 && frame.planes@[p].height >= 8
}

/// The block analyses of each plane of two frames, from which the masking
/// metric's error is accumulated. Fails on a malformed frame, on frames that
/// cannot be compared, and on planes smaller than one block.
pub fn calculate_frame_psnr_hvs(frame1: &FrameInfo, frame2: &FrameInfo) -> (r: Result<HvsFrameBlocks, MetricsError>)
    ensures
        !frame1.wf() || !frame2.wf() ==> r == Err::<HvsFrameBlocks, MetricsError>(MetricsError::MalformedInput),
        frame1.wf() && frame2.wf() && frame1.comparison(frame2) is Err ==> r is Err && r->Err_0 == frame1.comparison(frame2)->Err_0,
        frame1.wf() && frame2.wf() && frame1.comparison(frame2) is Ok ==> (r is Ok <==> planes_hold_a_block(frame1)),
        frame1.wf() && frame2.wf() && frame1.comparison(frame2) is Ok && !planes_hold_a_block(frame1) ==> r == Err::<HvsFrameBlocks, MetricsError>(MetricsError::PlaneTooSmall),
        r is Ok ==> {
            let blocks = r->Ok_0;
            &&& blocks.bit_depth == frame1.bit_depth
            &&& describes_blocks(blocks.y@, frame1.planes@[0], frame2.planes@[0])
            &&& describes_blocks(blocks.u@, frame1.planes@[1], frame2.planes@[1])
            &&& describes_blocks(blocks.v@, frame1.planes@[2], frame2.planes@[2])
        },
{
    if !frame1.is_well_formed() || !frame2.is_well_formed() {
        return Err(MetricsError::MalformedInput);
    }
    match frame1.can_compare(frame2) {
        Err(e) => {
            return Err(e);
        },
        Ok(()) => {},
    }
    let mut p: usize = 0;
    while p < 3
        invariant
            frame1.wf(),
            frame2.wf(),
            frame1.comparison(frame2) == Ok::<(), MetricsError>(()),
            p <= 3,
            forall|q: int| 0 <= q < p ==> (#[trigger] frame1.planes@[q]).width >= 8 && frame1.planes@[q].height >= 8,
        decreases 3 - p,
    {
        if frame1.planes[p].width < 8 || frame1.planes[p].height < 8 {
            return Err(MetricsError::PlaneTooSmall);
        }
        p += 1;
    }
    proof {
        assert(frame1.same_plane_size(frame2, 0));
        assert(frame1.same_plane_size(frame2, 1));
        assert(frame1.same_plane_size(frame2, 2));
        assert(frame1.planes@[0].wf() && frame1.planes@[1].wf() && frame1.planes@[2].wf());
        assert(frame2.planes@[0].wf() && frame2.planes@[1].wf() && frame2.planes@[2].wf());
    }
    let y = plane_hvs_blocks(&frame1.planes[0], &frame2.planes[0]);
    let u = plane_hvs_blocks(&frame1.planes[1], &frame2.planes[1]);
    let v = plane_hvs_blocks(&frame1.planes[2], &frame2.planes[2]);
    Ok(HvsFrameBlocks { y, u, v, bit_depth: frame1.bit_depth })
}

/// Comparing a plane with itself: at every block both analyses hold the same
/// coefficients and statistics, so every coefficient difference, from which
/// the masking metric draws its error, is zero.
pub proof fn lemma_identical_planes_agree(rows: Seq<Vec<BlockPair>>, plane: PlaneData)
    requires
        describes_blocks(rows, plane, plane),
    ensures
        forall|r: int, c: int|
            0 <= r < rows.len() && 0 <= c < hvs_block_count(plane.width as int) ==> {
                let b = #[trigger] rows[r]@[c];
                &&& b.first.coeffs@ == b.second.coeffs@
                &&& b.first.global_variance == b.second.global_variance
                &&& b.first.quadrant_variance == b.second.quadrant_variance
            },
{
    assert forall|r: int, c: int|
        0 <= r < rows.len() && 0 <= c < hvs_block_count(plane.width as int) implies {
            let b = #[trigger] rows[r]@[c];
            &&& b.first.coeffs@ == b.second.coeffs@
            &&& b.first.global_variance == b.second.global_variance
            &&& b.first.quadrant_variance == b.second.quadrant_variance
        } by {
        let b = rows[r]@[c];
        let w = window8(plane.data@, plane.width as int, 7 * c, 7 * r);
        assert(b.first.describes(w) && b.second.describes(w));
        assert forall|n: int| 0 <= n < 64 implies b.first.coeffs@[n] == b.second.coeffs@[n] by {
            assert(b.first.coeffs@[n] as int == fdct8x8(w)[n]);
            assert(b.second.coeffs@[n] as int == fdct8x8(w)[n]);
        }
        assert(b.first.coeffs@ =~= b.second.coeffs@);
    }
}

/// What the caller of a video comparison does next.
#[derive(Clone, Copy, Debug, PartialEq, Eq, Structural)]
pub enum VideoStep {
    /// Read one more frame from each video and measure the pair.
    ReadFrames,
    /// Stop reading and aggregate the measured frames.
    Finish,
}

/// The progress of a comparison of two videos, frame by frame: up to
/// `frame_limit` pairs (no limit when `None`), stopping at the end of the
/// shorter video.
pub struct VideoProgress {
    pub frame_limit: Option<usize>,
    pub frames_done: usize,
}

impl VideoProgress {
    /// Whether another pair of frames is wanted.
    pub open spec fn wants_more(&self) -> bool {
        &&& self.frames_done < usize::MAX
        &&& match self.frame_limit {
            Some(limit) => limit > self.frames_done,
            None => true,
        }
    }

    /// A comparison that has measured nothing yet.
    pub fn new(frame_limit: Option<usize>) -> (r: VideoProgress)
        ensures
            r.frame_limit == frame_limit,
            r.frames_done == 0,
    {
        VideoProgress { frame_limit, frames_done: 0 }
    }

    /// The next step, given whether a frame could be read from each video
    /// (`None` before the first read of a step).
    pub fn next_step(&mut self, frames_read: Option<bool>) -> (r: VideoStep)
        ensures
            final(self).frame_limit == old(self).frame_limit,
            frames_read == Some(true) && old(self).wants_more() ==> final(self).frames_done == old(self).frames_done + 1,
            !(frames_read == Some(true) && old(self).wants_more()) ==> final(self).frames_done == old(self).frames_done,
            r == if frames_read == Some(false) || !final(self).wants_more() {
                VideoStep::Finish
            } else {
                VideoStep::ReadFrames
            },
    {
        let wanted = self.wants_frame();
        if let Some(both) = frames_read {
            if !both {
                return VideoStep::Finish;
            }
            if wanted {
                self.frames_done = self.frames_done + 1;
            }
        }
        if self.wants_frame() {
            VideoStep::ReadFrames
        } else {
            VideoStep::Finish
        }
    }

    /// Whether another pair of frames is wanted.
    pub fn wants_frame(&self) -> (r: bool)
        ensures
            r == self.wants_more(),
    {
        if self.frames_done == usize::MAX {
            return false;
        }
        match self.frame_limit {
            Some(limit) => limit > self.frames_done,
            None => true,
        }
    }

    /// The number of measured pairs, or an error when there was none.
    pub fn finish(&self) -> (r: Result<usize, MetricsError>)
        ensures
            r == if self.frames_done == 0 {
                Err::<usize, MetricsError>(MetricsError::NoFrames)
            } else {
                Ok(self.frames_done)
            },
    {
        if self.frames_done == 0 {
            Err(MetricsError::NoFrames)
        } else {
            Ok(self.frames_done)
        }
    }
}

} // verus!
