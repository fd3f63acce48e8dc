use goodix_info::feature::{FeatureError, GF3258_PIXELS, GF3258_WIDTH};
use goodix_info::feature::validity::{
    GF3258_A8200_CELLS, GF3258_A8200_HEIGHT, GF3258_A8200_WIDTH, GF3258_BD720_BOX_RADIUS,
    GF3258_BD720_BOX_RECIP_Q16, GF3258_BD720_MODE7_KERNEL, GF3258_BD720_THRESHOLD,
    gf3258_a8200_quarter_validity, gf3258_bd720_box15_q16, gf3258_bd720_validity,
};

#[test]
fn bd720_static_constants_match_vendor_records() {
    assert_eq!(
        GF3258_BD720_MODE7_KERNEL,
        [3_571, 16_004, 26_386, 16_004, 3_571]
    );
    assert_eq!(GF3258_BD720_MODE7_KERNEL.iter().sum::<i32>(), 65_536);
    assert_eq!(GF3258_BD720_BOX_RADIUS, 7);
    assert_eq!(GF3258_BD720_BOX_RECIP_Q16, 291);
    assert_eq!(GF3258_BD720_THRESHOLD, 110);
}

#[test]
fn bd720_constant_image_has_zero_validity() {
    let image = vec![127u8; GF3258_PIXELS];
    let result = gf3258_bd720_validity(&image).unwrap();
    assert!(result.mask_u8.iter().all(|&value| value == 0));
    assert_eq!(result.selected_pixels, 0);
    assert_eq!(result.coverage_q16, 0);
}

#[test]
fn bd720_box_filter_preserves_vendor_q16_reciprocal_truncation() {
    let strength = vec![225u16; GF3258_PIXELS];
    let filtered = gf3258_bd720_box15_q16(&strength);

    // Vendor uses (sum * floor(65536/225)) >> 16, not sum/225.
    // 15*15*225 = 50625; (50625*291)>>16 = 224.
    assert!(filtered.iter().all(|&value| value == 224));
}

#[test]
fn bd720_rejects_bad_source_length() {
    let short = vec![0u8; GF3258_PIXELS - 1];
    assert!(matches!(
        gf3258_bd720_validity(&short),
        Err(FeatureError::UnexpectedPixelCount { .. })
    ));
}

#[test]
fn a8200_all_zero_and_all_one_masks_are_exact() {
    let zeros = vec![0u8; GF3258_PIXELS];
    let zero_q = gf3258_a8200_quarter_validity(&zeros).unwrap();
    assert!(zero_q.iter().all(|&v| v == 0));

    let ones = vec![1u8; GF3258_PIXELS];
    let one_q = gf3258_a8200_quarter_validity(&ones).unwrap();
    assert!(one_q.iter().all(|&v| v == 1));
}

#[test]
fn a8200_binary_threshold_accepts_exactly_eight_of_sixteen() {
    let mut seven = vec![0u8; GF3258_PIXELS];
    for i in 0..7 {
        let y = i / 4;
        let x = i % 4;
        seven[y * GF3258_WIDTH + x] = 1;
    }
    assert_eq!(gf3258_a8200_quarter_validity(&seven).unwrap()[0], 0);

    seven[GF3258_WIDTH + 3] = 1;
    assert_eq!(gf3258_a8200_quarter_validity(&seven).unwrap()[0], 1);
}

#[test]
fn a8200_output_geometry_is_20_by_16() {
    assert_eq!(GF3258_A8200_WIDTH, 20);
    assert_eq!(GF3258_A8200_HEIGHT, 16);
    assert_eq!(GF3258_A8200_CELLS, 320);
}
