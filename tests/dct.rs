use av_metrics::dct::{od_bin_fdct8, od_bin_fdct8x8, od_dct_rshift};

#[test]
fn rshift_divides_toward_zero() {
    assert_eq!(od_dct_rshift(5, 1), 2);
    assert_eq!(od_dct_rshift(-5, 1), -2);
    assert_eq!(od_dct_rshift(-1, 1), 0);
    assert_eq!(od_dct_rshift(7, 2), 1);
    assert_eq!(od_dct_rshift(-7, 2), -1);
    assert_eq!(od_dct_rshift(-8, 2), -2);
}

#[test]
fn fdct8_of_an_impulse() {
    let x: Vec<i64> = vec![100, 0, 0, 0, 0, 0, 0, 0];
    let mut y = vec![0i64; 8];
    od_bin_fdct8(&mut y, 0, &x, 0, 1);
    assert_eq!(y, vec![36, 49, 46, 42, 35, 28, 19, 10]);
}

#[test]
fn fdct8_reads_with_a_stride_and_writes_at_an_offset() {
    let mut x = vec![0i64; 3 + 7 * 2 + 1];
    let ramp = [1i64, 2, 3, 4, 5, 6, 7, 8];
    for (k, v) in ramp.iter().enumerate() {
        x[3 + 2 * k] = *v;
    }
    let mut y = vec![-1i64; 12];
    od_bin_fdct8(&mut y, 2, &x, 3, 2);
    assert_eq!(&y[2..10], &[12, -7, -1, 0, -1, 0, 0, 0]);
    assert_eq!(y[0], -1);
    assert_eq!(y[1], -1);
    assert_eq!(y[10], -1);
    assert_eq!(y[11], -1);
}

#[test]
fn fdct8_of_alternating_signs() {
    let x: Vec<i64> = vec![-3, 5, -7, 9, -11, 13, -15, 17];
    let mut y = vec![0i64; 8];
    od_bin_fdct8(&mut y, 0, &x, 0, 1);
    assert_eq!(y, vec![3, -5, 4, -6, 6, -9, 10, -25]);
}

#[test]
fn fdct8x8_of_a_flat_block_is_all_dc() {
    let mut data = vec![100i32; 64];
    od_bin_fdct8x8(&mut data, 8);
    assert_eq!(data[0], 800);
    assert!(data[1..].iter().all(|&c| c == 0));
}

#[test]
fn fdct8x8_of_a_ramp() {
    let mut data: Vec<i32> = (0..64).collect();
    od_bin_fdct8x8(&mut data, 8);
    let mut expected = vec![0i32; 64];
    expected[0] = 252;
    expected[1] = -18;
    expected[2] = -1;
    expected[3] = -1;
    expected[5] = -1;
    expected[8] = -147;
    expected[24] = -14;
    expected[40] = -6;
    assert_eq!(data, expected);
}

#[test]
fn fdct8x8_leaves_samples_outside_the_block() {
    let mut data = vec![7i32; 10 * 7 + 8 + 5];
    for i in 0..8 {
        for j in 0..8 {
            data[i * 10 + j] = (i * 8 + j) as i32;
        }
    }
    od_bin_fdct8x8(&mut data, 10);
    assert_eq!(data[0], 252);
    assert_eq!(data[10], -147);
    assert_eq!(data[8], 7);
    assert_eq!(data[9], 7);
    assert_eq!(data[78], 7);
    assert_eq!(data[82], 7);
}
