use av_metrics::frame::{ChromaSampling, FrameInfo, MetricsError, PlaneData};
use av_metrics::psnr_hvs::{analyze_block, calculate_frame_psnr_hvs, plane_hvs_blocks, VideoProgress, VideoStep, HVS_STEP};

fn plane(width: usize, height: usize, f: impl Fn(usize, usize) -> u16) -> PlaneData {
    let mut data = Vec::with_capacity(width * height);
    for r in 0..height {
        for c in 0..width {
            data.push(f(r, c));
        }
    }
    PlaneData { width, height, data }
}

fn frame(width: usize, height: usize, bit_depth: usize, f: impl Fn(usize, usize) -> u16 + Copy) -> FrameInfo {
    FrameInfo {
        planes: vec![plane(width, height, f), plane(width / 2, height / 2, f), plane(width / 2, height / 2, f)],
        bit_depth,
        chroma_sampling: ChromaSampling::Cs420,
    }
}

#[test]
fn block_analysis_of_a_ramp() {
    let p = plane(8, 8, |r, c| (r * 8 + c) as u16);
    let a = analyze_block(&p, 0, 0);
    assert_eq!(a.global_variance, 20966400);
    assert_eq!(a.quadrant_variance, 5241600);
    assert_eq!(a.coeffs[0], 252);
    assert_eq!(a.coeffs[8], -147);
}

#[test]
fn block_analysis_reads_the_window_at_its_origin() {
    let p = plane(10, 9, |r, c| (3 * r + c) as u16);
    let a = analyze_block(&p, 1, 1);
    assert_eq!(a.global_variance, 3225600);
    assert_eq!(a.quadrant_variance, 806400);
    assert_eq!(&a.coeffs[..10], &[140, -18, 0, -1, -1, -1, 0, 0, -57, 0]);
}

#[test]
fn block_analysis_of_a_flat_window() {
    let p = plane(8, 8, |_, _| 512);
    let a = analyze_block(&p, 0, 0);
    assert_eq!(a.global_variance, 0);
    assert_eq!(a.quadrant_variance, 0);
    assert_eq!(a.coeffs[0], 4096);
    assert!(a.coeffs[1..].iter().all(|&c| c == 0));
}

#[test]
fn samples_from_0x8000_wrap_to_negative() {
    let p = plane(8, 8, |_, _| 0xffff);
    let a = analyze_block(&p, 0, 0);
    assert_eq!(a.coeffs[0], -8);
}

#[test]
fn blocks_start_every_seven_samples() {
    assert_eq!(HVS_STEP, 7);
    let p = plane(15, 8, |r, c| (r + c) as u16);
    let rows = plane_hvs_blocks(&p, &p);
    assert_eq!(rows.len(), 1);
    assert_eq!(rows[0].len(), 2);
    assert_eq!((rows[0][1].x, rows[0][1].y), (7, 0));
    let p = plane(14, 22, |r, c| (r * c) as u16);
    let rows = plane_hvs_blocks(&p, &p);
    assert_eq!(rows.len(), 3);
    assert_eq!(rows[2][0].y, 14);
    assert_eq!(rows[0].len(), 1);
}

#[test]
fn identical_frames_give_identical_analyses() {
    let f = frame(32, 24, 8, |r, c| ((r * 7 + c * 13) % 256) as u16);
    let blocks = calculate_frame_psnr_hvs(&f, &f).unwrap();
    assert_eq!(blocks.bit_depth, 8);
    for plane in [&blocks.y, &blocks.u, &blocks.v] {
        for row in plane.iter() {
            for b in row.iter() {
                assert_eq!(b.first.coeffs, b.second.coeffs);
                assert_eq!(b.first.global_variance, b.second.global_variance);
            }
        }
    }
    assert_eq!(blocks.y.len(), 3);
    assert_eq!(blocks.y[0].len(), 4);
    assert_eq!(blocks.u.len(), 1);
}

#[test]
fn different_frames_give_different_coefficients() {
    let f = frame(16, 16, 8, |r, c| (r * 16 + c) as u16);
    let g = frame(16, 16, 8, |r, c| (r * 16 + c + 3) as u16);
    let blocks = calculate_frame_psnr_hvs(&f, &g).unwrap();
    let b = &blocks.y[0][0];
    let changed: Vec<(usize, i32)> = (0..64)
        .filter(|&n| b.first.coeffs[n] != b.second.coeffs[n])
        .map(|n| (n, b.second.coeffs[n] - b.first.coeffs[n]))
        .collect();
    // A uniform offset moves the DC coefficient; rounding in the lifting
    // steps moves two others by one.
    assert_eq!(changed, vec![(0, 25), (2, 1), (7, 1)]);
}

#[test]
fn frames_that_cannot_be_compared_are_rejected() {
    let f = frame(16, 16, 8, |_, _| 1);
    let deeper = frame(16, 16, 10, |_, _| 1);
    assert_eq!(calculate_frame_psnr_hvs(&f, &deeper).err(), Some(MetricsError::BitDepthMismatch));
    let wider = frame(24, 16, 8, |_, _| 1);
    assert_eq!(calculate_frame_psnr_hvs(&f, &wider).err(), Some(MetricsError::ResolutionMismatch));
    let mut other = frame(16, 16, 8, |_, _| 1);
    other.chroma_sampling = ChromaSampling::Cs444;
    assert_eq!(calculate_frame_psnr_hvs(&f, &other).err(), Some(MetricsError::ChromaSamplingMismatch));
    let mut broken = frame(16, 16, 8, |_, _| 1);
    broken.planes[1].data.pop();
    assert_eq!(calculate_frame_psnr_hvs(&f, &broken).err(), Some(MetricsError::MalformedInput));
    let small = frame(14, 14, 8, |_, _| 1);
    assert_eq!(calculate_frame_psnr_hvs(&small, &small).err(), Some(MetricsError::PlaneTooSmall));
}

#[test]
fn can_compare_checks_depth_then_size_then_sampling() {
    let f = frame(16, 16, 8, |_, _| 1);
    let mut g = frame(24, 16, 10, |_, _| 1);
    g.chroma_sampling = ChromaSampling::Cs422;
    assert_eq!(f.can_compare(&g), Err(MetricsError::BitDepthMismatch));
    assert_eq!(f.can_compare(&f), Ok(()));
    assert!(f.is_well_formed());
    let mut h = frame(16, 16, 8, |_, _| 1);
    h.planes.pop();
    assert!(!h.is_well_formed());
}

#[test]
fn video_progress_stops_at_the_limit() {
    let mut p = VideoProgress::new(Some(2));
    assert_eq!(p.next_step(None), VideoStep::ReadFrames);
    assert_eq!(p.next_step(Some(true)), VideoStep::ReadFrames);
    assert_eq!(p.next_step(Some(true)), VideoStep::Finish);
    assert_eq!(p.finish(), Ok(2));
}

#[test]
fn video_progress_stops_at_the_end_of_a_video() {
    let mut p = VideoProgress::new(None);
    assert!(p.wants_frame());
    assert_eq!(p.next_step(Some(true)), VideoStep::ReadFrames);
    assert_eq!(p.next_step(Some(false)), VideoStep::Finish);
    assert_eq!(p.finish(), Ok(1));
    let mut q = VideoProgress::new(None);
    assert_eq!(q.next_step(Some(false)), VideoStep::Finish);
    assert_eq!(q.finish(), Err(MetricsError::NoFrames));
    let mut z = VideoProgress::new(Some(0));
    assert_eq!(z.next_step(None), VideoStep::Finish);
}
