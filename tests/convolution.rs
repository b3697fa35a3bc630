use av_metrics::convolution::{convolution_taps, ConvolutionError};

#[test]
fn taps_mirror_at_both_edges() {
    let taps = convolution_taps(5, 8).unwrap();
    assert_eq!(taps.len(), 8);
    assert_eq!(taps[0], vec![2, 1, 0, 1, 2]);
    assert_eq!(taps[1], vec![1, 0, 1, 2, 3]);
    assert_eq!(taps[2], vec![0, 1, 2, 3, 4]);
    assert_eq!(taps[5], vec![3, 4, 5, 6, 7]);
    assert_eq!(taps[6], vec![4, 5, 6, 7, 7]);
    assert_eq!(taps[7], vec![5, 6, 7, 7, 6]);
}

#[test]
fn taps_reject_bad_filters_and_small_grids() {
    assert_eq!(convolution_taps(0, 8), Err(ConvolutionError::EmptyFilter));
    assert_eq!(convolution_taps(4, 8), Err(ConvolutionError::EvenFilter));
    assert_eq!(convolution_taps(5, 2), Err(ConvolutionError::GridTooSmall));
    assert_eq!(convolution_taps(5, 3).unwrap()[0], vec![2, 1, 0, 1, 2]);
    assert_eq!(convolution_taps(1, 1).unwrap(), vec![vec![0]]);
}

fn convolve(filter: &[f32], src: &[f32], width: usize, height: usize) -> Vec<f32> {
    let vt = convolution_taps(filter.len(), height).unwrap();
    let ht = convolution_taps(filter.len(), width).unwrap();
    let mut tmp = vec![0f32; width * height];
    for i in 0..height {
        for j in 0..width {
            tmp[i * width + j] = (0..filter.len()).map(|k| filter[k] * src[vt[i][k] * width + j]).sum();
        }
    }
    let mut dst = vec![0f32; width * height];
    for i in 0..height {
        for j in 0..width {
            dst[i * width + j] = (0..filter.len()).map(|k| filter[k] * tmp[i * width + ht[j][k]]).sum();
        }
    }
    dst
}

#[test]
fn edge_mirroring_reads_reflected_samples() {
    // A 5-tap box filter on an 8x8 grid that is 1 at (0, 0) and 0 elsewhere.
    let filter = [1f32; 5];
    let mut src = vec![0f32; 64];
    src[0] = 1.0;
    let dst = convolve(&filter, &src, 8, 8);
    // Vertically, row 0 reads rows 2, 1, 0, 1, 2: the impulse once.
    // Row 1 reads rows 1, 0, 1, 2, 3: once. Row 2 reads 0..4: once.
    // With zero padding or wrapping the corner would differ from this count.
    assert_eq!(dst[0], 1.0);
    assert_eq!(dst[1], 1.0);
    assert_eq!(dst[2], 1.0);
    assert_eq!(dst[3], 0.0);
    assert_eq!(dst[8], 1.0);
    assert_eq!(dst[63], 0.0);
    // An impulse at the far corner is read twice by the last row's taps (7, 7).
    let mut far = vec![0f32; 64];
    far[63] = 1.0;
    let d = convolve(&filter, &far, 8, 8);
    assert_eq!(d[63], 4.0);
    assert_eq!(d[62], 4.0);
    assert_eq!(d[61], 2.0);
}

#[test]
fn convolving_an_impulse_twice_spreads_the_filter() {
    // Away from the edges the first pass reproduces the filter around the impulse.
    let filter = [0.054488685f32, 0.244201342, 0.402619947, 0.244201342, 0.054488685];
    let (w, h) = (16usize, 16usize);
    let mut src = vec![0f32; w * h];
    src[8 * w + 8] = 1.0;
    let once = convolve(&filter, &src, w, h);
    for di in 0..5 {
        for dj in 0..5 {
            let v = once[(6 + di) * w + 6 + dj];
            assert!((v - filter[di] * filter[dj]).abs() < 1e-6);
        }
    }
    let twice = convolve(&filter, &once, w, h);
    let sum: f32 = twice.iter().sum();
    assert!((sum - 1.0).abs() < 1e-4);
    assert!((twice[8 * w + 7] - twice[8 * w + 9]).abs() < 1e-6);
    assert!((twice[7 * w + 8] - twice[9 * w + 8]).abs() < 1e-6);
}
