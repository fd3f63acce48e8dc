use goodix_info::feature::{GF3258_HEIGHT, GF3258_PIXELS, GF3258_WIDTH};
use goodix_info::feature::quality::{gf3258_capture_quality, gf3258_class4_percent};
use goodix_info::feature::validity::{
    gf3258_bd720_coverage_q16_with_threshold, gf3258_bd720_validity,
};

#[test]
fn threshold_110_duplicate_matches_existing_bd720() {
    let mut source = vec![0u8; GF3258_PIXELS];
    for y in 0..GF3258_HEIGHT {
        for x in 0..GF3258_WIDTH {
            source[y * GF3258_WIDTH + x] = ((x * 17 + y * 31) & 0xff) as u8;
        }
    }

    let canonical = gf3258_bd720_validity(&source).unwrap();
    let coverage = gf3258_bd720_coverage_q16_with_threshold(&source, 110).unwrap();
    assert_eq!(coverage, canonical.coverage_q16 as i32);
}

#[test]
fn class4_is_four_contiguous_high_neighbors() {
    let mut source = vec![0u8; GF3258_PIXELS];
    let mut mask = vec![0u8; GF3258_PIXELS];
    let x = 20usize;
    let y = 20usize;
    let index = y * GF3258_WIDTH + x;
    mask[index] = 0xff;
    source[index] = 100;

    for (nx, ny) in [(x - 1, y - 1), (x, y - 1), (x + 1, y - 1), (x + 1, y)] {
        source[ny * GF3258_WIDTH + nx] = 110;
    }

    assert_eq!(gf3258_class4_percent(&source, &mask), 100);
}

#[test]
fn all_white_image_has_zero_quality_and_coverage() {
    let source = vec![0xffu8; GF3258_PIXELS];
    let quality = gf3258_capture_quality(&source).unwrap();
    assert_eq!(quality.raw_quality, 0);
    assert_eq!(quality.quality, 0);
    assert_eq!(quality.coverage, 0);
    assert_eq!(quality.mask_coverage_q16, 0);
    assert_eq!(quality.coverage_q16, 0);
    assert_eq!(quality.class4_percent, Some(0));
    assert!(quality.raw_quality_rejected());
    assert!(!quality.accepted_for_enrollment());
}
