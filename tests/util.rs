use av_metrics::util::{align_ceil, align_floor, ceiln, floorn, MAX_ALIGN};

#[test]
fn floorn_rounds_down_to_a_multiple() {
    assert_eq!(floorn(10, 4), 8);
    assert_eq!(floorn(12, 4), 12);
    assert_eq!(floorn(3, 8), 0);
}

#[test]
fn ceiln_rounds_up_to_a_multiple() {
    assert_eq!(ceiln(10, 4), 12);
    assert_eq!(ceiln(12, 4), 12);
    assert_eq!(ceiln(0, 8), 0);
    assert_eq!(ceiln(2, 1), 2);
}

#[test]
fn alignment_uses_thirty_two_bytes() {
    assert_eq!(MAX_ALIGN, 32);
    assert_eq!(align_floor(70), 64);
    assert_eq!(align_floor(64), 64);
    assert_eq!(align_ceil(70), 96);
    assert_eq!(align_ceil(64), 64);
    assert_eq!(align_ceil(0), 0);
}
