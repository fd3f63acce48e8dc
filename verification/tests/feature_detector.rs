use goodix_info::feature::GF3258_PIXELS;
use goodix_info::feature::detector::{
    GAUSS_300, GAUSS_301, GAUSS_302, GAUSS_303, GAUSS_304, GAUSS_305, GAUSS_306, GAUSS_307,
    GAUSS_308, Gf3258ScaleSpace, RefinementOutcome, exp2_q16, q12_round_sample,
};

#[test]
fn recovered_kernel_records_are_exact() {
    assert_eq!(GAUSS_300.iter().sum::<i32>(), 65536);
    assert_eq!(GAUSS_301.iter().sum::<i32>(), 65536);
    assert_eq!(GAUSS_302.iter().sum::<i32>(), 65536);
    assert_eq!(GAUSS_303.iter().sum::<i32>(), 65536);
    assert_eq!(GAUSS_304.iter().sum::<i32>(), 65537);
    assert_eq!(GAUSS_305.iter().sum::<i32>(), 65536);
    assert_eq!(GAUSS_306.iter().sum::<i32>(), 65536);
    assert_eq!(GAUSS_307.iter().sum::<i32>(), 65539);
    assert_eq!(GAUSS_308.iter().sum::<i32>(), 65536);
}

#[test]
fn scale_space_has_nine_levels_and_eight_dogs() {
    let image = vec![127u8; GF3258_PIXELS];
    let scale = Gf3258ScaleSpace::build(&image).unwrap();
    assert_eq!(scale.levels().len(), 9);
    assert_eq!(scale.dogs().len(), 8);
}

#[test]
fn constant_image_has_no_raw_extrema() {
    let image = vec![127u8; GF3258_PIXELS];
    let scale = Gf3258ScaleSpace::build(&image).unwrap();
    assert!(scale.raw_extrema().is_empty());
}

#[test]
fn q12_relocation_rounds_half_away_from_zero() {
    assert_eq!(q12_round_sample(0x7ff), 0);
    assert_eq!(q12_round_sample(0x800), 1);
    assert_eq!(q12_round_sample(0x1800), 2);
    assert_eq!(q12_round_sample(-0x7ff), 0);
    assert_eq!(q12_round_sample(-0x800), -1);
    assert_eq!(q12_round_sample(-0x1800), -2);
}

#[test]
fn exp2_q16_has_exact_integer_anchor_points() {
    assert_eq!(exp2_q16(0), 0x10000);
    assert_eq!(exp2_q16(0x10000), 0x20000);
    assert_eq!(exp2_q16(-0x10000), 0x8000);
}

#[test]
fn exp2_q16_matches_observed_vendor_refinement_scales() {
    // First accepted candidate: level 6, ds_q12 = 126.
    assert_eq!(exp2_q16(98_808), 186_353);

    // Second accepted candidate: level 5, ds_q12 = -1551.
    assert_eq!(exp2_q16(75_716), 145_972);
}

#[test]
fn accepted_refinements_stay_within_their_bounds() {
    let mut state = 0x1357_9bdfu32;
    let image: Vec<u8> = (0..GF3258_PIXELS)
        .map(|_| {
            state = state.wrapping_mul(1_664_525).wrapping_add(1_013_904_223);
            (state >> 24) as u8
        })
        .collect();
    let outcomes = Gf3258ScaleSpace::build(&image).unwrap().refinement_outcomes();
    let mut accepted = 0;
    for (at, outcome) in outcomes.iter().enumerate() {
        if let RefinementOutcome::Accepted(point) = outcome {
            accepted += 1;
            assert_eq!(point.ordinal, at);
            assert!((1..=6).contains(&point.dog_level));
            assert!((1..=5).contains(&point.iterations));
            for offset in [point.dx_q12, point.dy_q12, point.ds_q12] {
                assert!(offset.abs() <= 0x7ff);
            }
            assert!((1..79).contains(&point.x) && (1..63).contains(&point.y));
            assert!(point.response >= 0x1478 && point.spatial_det > 0);
            assert!((0x1_0000..0x6_0000).contains(&point.scale_q16));
        }
    }
    assert!(accepted > 0);
}
