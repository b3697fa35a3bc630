use vstd::prelude::*;

verus! {

/// How the chroma planes of a frame are subsampled.
#[derive(Clone, Copy, Debug, PartialEq, Eq, Structural)]
pub enum ChromaSampling {
    /// Both chroma planes at half width and half height.
    Cs420,
    /// Both chroma planes at half width.
    Cs422,
    /// Chroma planes at full resolution.
    Cs444,
    /// Luma only.
    Cs400,
}

/// Why two frames could not be measured against each other.
#[derive(Clone, Copy, Debug, PartialEq, Eq, Structural)]
pub enum MetricsError {
    /// The frames were stored with different bit depths.
    BitDepthMismatch,
    /// A plane of one frame differs in size from the same plane of the other.
    ResolutionMismatch,
    /// The frames use different chroma subsampling.
    ChromaSamplingMismatch,
    /// A frame does not hold three planes whose sample counts match their sizes.
    MalformedInput,
    /// A plane is smaller than one 8x8 block.
    PlaneTooSmall,
    /// No pair of frames could be read.
    NoFrames,
}

/// One plane of samples, row-major, `width * height` of them.
pub struct PlaneData {
    pub width: usize,
    pub height: usize,
    pub data: Vec<u16>,
}

impl PlaneData {
    /// The sample count matches the size.
    pub open spec fn wf(&self) -> bool {
        self.data@.len() == self.width * self.height
    }
}

/// A decoded frame: three planes (luma, then two chroma planes), the bit
/// depth of their samples and how the chroma planes are subsampled.
pub struct FrameInfo {
    pub planes: Vec<PlaneData>,
    pub bit_depth: usize,
    pub chroma_sampling: ChromaSampling,
}

impl FrameInfo {
    /// Three planes, each well formed.
    pub open spec fn wf(&self) -> bool {
        &&& self.planes@.len() == 3
        &&& forall|p: int| 0 <= p < 3 ==> (#[trigger] self.planes@[p]).wf()
    }

    /// Plane `p` of both frames has the same size.
    pub open spec fn same_plane_size(&self, other: &FrameInfo, p: int) -> bool {
        &&& self.planes@[p].width == other.planes@[p].width
        &&& self.planes@[p].height == other.planes@[p].height
    }

    /// Every plane of both frames has the same size.
    pub open spec fn same_size(&self, other: &FrameInfo) -> bool {
        forall|p: int| 0 <= p < 3 ==> #[trigger] self.same_plane_size(other, p)
    }

    /// Whether the frame holds three planes whose sample counts match their sizes.
    pub fn is_well_formed(&self) -> (r: bool)
        ensures
            r == self.wf(),
    {
        if self.planes.len() != 3 {
            return false;
        }
        let mut p: usize = 0;
        while p < 3
            invariant
                self.planes@.len() == 3,
                p <= 3,
                forall|q: int| 0 <= q < p ==> (#[trigger] self.planes@[q]).wf(),
            decreases 3 - p,
        {
            let plane = &self.planes[p];
            let len = plane.data.len();
            match plane.width.checked_mul(plane.height) {
                Some(n) => {
                    if n != len {
                        return false;
                    }
                },
                None => {
                    return false;
                },
            }
            p += 1;
        }
        true
    }

    /// Same bit depth, then same plane sizes, then same chroma subsampling:
    /// the first of these that fails gives the error.
    pub open spec fn comparison(&self, other: &FrameInfo) -> Result<(), MetricsError> {
        if self.bit_depth != other.bit_depth {
            Err(MetricsError::BitDepthMismatch)
        } else if !self.same_size(other) {
            Err(MetricsError::ResolutionMismatch)
        } else if self.chroma_sampling != other.chroma_sampling {
            Err(MetricsError::ChromaSamplingMismatch)
        } else {
            Ok(())
        }
    }

    /// Whether the two frames can be measured against each other (see [`FrameInfo::comparison`]).
    pub fn can_compare(&self, other: &FrameInfo) -> (r: Result<(), MetricsError>)
        requires
            self.wf(),
            other.wf(),
        ensures
            r == self.comparison(other),
    {
        if self.bit_depth != other.bit_depth {
            return Err(MetricsError::BitDepthMismatch);
        }
        let mut p: usize = 0;
        while p < 3
            invariant
                self.planes@.len() == 3,
                other.planes@.len() == 3,
                p <= 3,
                forall|q: int| 0 <= q < p ==> #[trigger] self.same_plane_size(other, q),
                self.bit_depth == other.bit_depth,
            decreases 3 - p,
        {
            if self.planes[p].width != other.planes[p].width
                || self.planes[p].height != other.planes[p].height {
                assert(!self.same_plane_size(other, p as int));
                assert(!self.same_size(other));
                assert(self.bit_depth == other.bit_depth);
                return Err(MetricsError::ResolutionMismatch);
            }
            p += 1;
        }
        assert(self.same_size(other));
        if self.chroma_sampling != other.chroma_sampling {
            return Err(MetricsError::ChromaSamplingMismatch);
        }
        Ok(())
    }
}

} // verus!
