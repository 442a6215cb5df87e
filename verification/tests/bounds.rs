use voltic::direct::{VOL_MAX, VOL_MIN};

#[test]
fn vol_min_vol_max_constants_unchanged() {
    assert_eq!(f64::from_bits(VOL_MIN), 0.01);
    assert_eq!(f64::from_bits(VOL_MAX), 5.0);
}
