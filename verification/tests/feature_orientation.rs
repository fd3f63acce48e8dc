use goodix_info::feature::{GF3258_HEIGHT, GF3258_PIXELS, GF3258_WIDTH};
use goodix_info::feature::orientation::{
    GF3258_C7310_DIRECTION_OFFSETS, GF3258_C7310_WEIGHTS, GF3258_CORDIC_ATAN_Q12,
    GF3258_GAUSS_ZERO_CUTOFF, GF3258_GRADIENT_GAUSS_0, GF3258_GRADIENT_GAUSS_1, GF3258_PI_Q12,
    GF3258_TAU_Q12, gaussian_weight_from_scaled_radius, gf3258_c6d90_direction_map,
    gf3258_c7310_gradient_source, gf3258_cordic_atan2_magnitude_q12, gf3258_cordic_sin_cos_q14,
    gf3258_gradient_difference_to_q12, gf3258_gradient_planes, interpolate_orientation_peak_q9,
};

#[test]
fn cordic_table_and_axis_anchors_are_exact() {
    assert_eq!(
        GF3258_CORDIC_ATAN_Q12,
        [3217, 1899, 1003, 509, 256, 128, 64, 32, 16, 8, 4, 2, 1,]
    );
    assert_eq!(gf3258_cordic_sin_cos_q14(0), (0, 0x4000));
    assert_eq!(
        gf3258_cordic_sin_cos_q14((GF3258_PI_Q12 / 2) as u16),
        (0x4000, 0)
    );
}

#[test]
fn cordic_candidate0_orientation_has_stable_integer_anchor() {
    // Predicted directly from the recovered b8db0 assembly/table. The live
    // bf830 parity capture validates this boundary against the vendor.
    assert_eq!(gf3258_cordic_sin_cos_q14(12_185), (2_720, -16_157));
}

#[test]
fn bdc20_scalar_anchors_match_recovered_integer_code() {
    assert_eq!(gaussian_weight_from_scaled_radius(0), 512);
    assert_eq!(gaussian_weight_from_scaled_radius(1801), 498);
    assert_eq!(
        gaussian_weight_from_scaled_radius(GF3258_GAUSS_ZERO_CUTOFF),
        2
    );
    assert_eq!(
        gaussian_weight_from_scaled_radius(GF3258_GAUSS_ZERO_CUTOFF + 1),
        0
    );
}

#[test]
fn observed_histogram_postprocessing_is_exact() {
    let histogram: [u32; 36] = [
        2_483_809, 1_435_489, 593_162, 159_745, 33_459, 12_932, 4_957, 3_689, 6_176, 7_965,
        6_738, 6_047, 10_042, 19_844, 219_779, 1_057_402, 2_369_961, 3_024_969, 2_483_809,
        1_435_489, 593_162, 159_745, 33_459, 12_932, 4_957, 3_689, 6_176, 7_965, 6_738, 6_047,
        10_042, 19_844, 219_779, 1_057_402, 2_369_961, 3_024_969,
    ];

    let peak = interpolate_orientation_peak_q9(&histogram, 35);
    assert_eq!(peak, 17_943);

    let full = (peak * GF3258_TAU_Q12 / 36) >> 9;
    assert_eq!(full, 25_053);

    let folded = if full - GF3258_PI_Q12 < 0 {
        full
    } else {
        full - GF3258_PI_Q12
    };
    assert_eq!(folded, 12_185);
}

#[test]
fn gradient_filter_records_are_exact_normalized_q16() {
    assert_eq!(GF3258_GRADIENT_GAUSS_0.len(), 9);
    assert_eq!(GF3258_GRADIENT_GAUSS_1.len(), 7);
    assert_eq!(GF3258_GRADIENT_GAUSS_0.iter().sum::<i32>(), 65_536);
    assert_eq!(GF3258_GRADIENT_GAUSS_1.iter().sum::<i32>(), 65_536);
    assert_eq!(GF3258_GRADIENT_GAUSS_0[4], 21_790);
    assert_eq!(GF3258_GRADIENT_GAUSS_1[3], 28_430);
}

#[test]
fn gradient_q12_saturation_matches_c0910_boundaries() {
    assert_eq!(gf3258_gradient_difference_to_q12(0x7ffff), 0x7fff_f000);
    assert_eq!(gf3258_gradient_difference_to_q12(0x80000), 0x7fff_f000);
    assert_eq!(gf3258_gradient_difference_to_q12(-0x80000), i32::MIN);
    assert_eq!(gf3258_gradient_difference_to_q12(-0x80001), i32::MIN);
    assert_eq!(gf3258_gradient_difference_to_q12(1), 0x1000);
    assert_eq!(gf3258_gradient_difference_to_q12(-1), -0x1000);
}

#[test]
fn b8b90_axis_and_diagonal_anchors_are_exact() {
    assert_eq!(gf3258_cordic_atan2_magnitude_q12(0, 0), (0x3244, 0));
    assert_eq!(gf3258_cordic_atan2_magnitude_q12(0, 4096), (0, 4096));
    assert_eq!(gf3258_cordic_atan2_magnitude_q12(0, -4096), (0x3244, 4096));
    assert_eq!(gf3258_cordic_atan2_magnitude_q12(4096, 0), (0x1922, 4096));
    assert_eq!(
        gf3258_cordic_atan2_magnitude_q12(-4096, 0),
        ((-0x1922i16) as u16, 4096),
    );
    assert_eq!(
        gf3258_cordic_atan2_magnitude_q12(4096, 4096),
        (0x0c91, 5793),
    );
    assert_eq!(
        gf3258_cordic_atan2_magnitude_q12(-4096, 4096),
        ((-0x0c91i16) as u16, 5793),
    );
}

#[test]
fn constant_image_gradient_planes_match_vendor_zero_gradient_convention() {
    let planes = gf3258_gradient_planes(&vec![127u8; GF3258_PIXELS]).unwrap();

    for x in 0..GF3258_WIDTH {
        assert_eq!(planes.magnitude_map_i32[x], 0);
        assert_eq!(planes.angle_map_u16[x], 0);
        let bottom = (GF3258_HEIGHT - 1) * GF3258_WIDTH + x;
        assert_eq!(planes.magnitude_map_i32[bottom], 0);
        assert_eq!(planes.angle_map_u16[bottom], 0);
    }

    for y in 0..GF3258_HEIGHT {
        let left = y * GF3258_WIDTH;
        let right = left + GF3258_WIDTH - 1;
        assert_eq!(planes.magnitude_map_i32[left], 0);
        assert_eq!(planes.angle_map_u16[left], 0);
        assert_eq!(planes.magnitude_map_i32[right], 0);
        assert_eq!(planes.angle_map_u16[right], 0);
    }

    let center = (GF3258_HEIGHT / 2) * GF3258_WIDTH + GF3258_WIDTH / 2;
    assert_eq!(planes.magnitude_map_i32[center], 0);
    assert_eq!(planes.angle_map_u16[center], GF3258_PI_Q12 as u16);
}

#[test]
fn c7310_static_line_table_matches_recovered_shape() {
    assert_eq!(GF3258_C7310_WEIGHTS, [1, 2, 4, 8, 4, 2, 1]);
    assert_eq!(GF3258_C7310_WEIGHTS.iter().sum::<i32>(), 22);

    for class in GF3258_C7310_DIRECTION_OFFSETS {
        assert_eq!(class[3], (0, 0));
    }

    assert_eq!(
        GF3258_C7310_DIRECTION_OFFSETS[0],
        [(-3, 0), (-2, 0), (-1, 0), (0, 0), (1, 0), (2, 0), (3, 0)]
    );
    assert_eq!(
        GF3258_C7310_DIRECTION_OFFSETS[3],
        [(-3, -3), (-2, -2), (-1, -1), (0, 0), (1, 1), (2, 2), (3, 3)]
    );
    assert_eq!(
        GF3258_C7310_DIRECTION_OFFSETS[6],
        [(0, -3), (0, -2), (0, -1), (0, 0), (0, 1), (0, 2), (0, 3)]
    );
    assert_eq!(
        GF3258_C7310_DIRECTION_OFFSETS[9],
        [(-3, 3), (-2, 2), (-1, 1), (0, 0), (1, -1), (2, -2), (3, -3)]
    );
}

#[test]
fn c6d90_constant_image_uses_vendor_zero_tensor_direction() {
    let image = vec![127u8; GF3258_PIXELS];
    let direction = gf3258_c6d90_direction_map(&image).unwrap();

    // Zero tensor -> b8b90(0,0)=+pi -> half_degrees=90 ->
    // c6d90's rotation/narrowing emits byte 45 everywhere.
    assert!(direction.iter().all(|&v| v == 45));

    let filtered = gf3258_c7310_gradient_source(&image).unwrap();
    assert_eq!(filtered, image);
}

#[test]
fn c6d90_ramp_directions_match_ridge_orientation() {
    let horizontal_ramp: Vec<u8> = (0..GF3258_HEIGHT)
        .flat_map(|_| (0..GF3258_WIDTH).map(|x| x as u8))
        .collect();
    let vertical_ramp: Vec<u8> = (0..GF3258_HEIGHT)
        .flat_map(|y| (0..GF3258_WIDTH).map(move |_| y as u8))
        .collect();
    let diagonal_ramp: Vec<u8> = (0..GF3258_HEIGHT)
        .flat_map(|y| (0..GF3258_WIDTH).map(move |x| (x + y) as u8))
        .collect();

    let center = (GF3258_HEIGHT / 2) * GF3258_WIDTH + GF3258_WIDTH / 2;

    // Horizontal intensity gradient -> vertical ridge direction.
    assert_eq!(
        gf3258_c6d90_direction_map(&horizontal_ramp).unwrap()[center],
        90
    );
    // Vertical intensity gradient -> horizontal ridge direction.
    assert_eq!(
        gf3258_c6d90_direction_map(&vertical_ramp).unwrap()[center],
        0
    );
    // gx == gy -> ridge line has slope -1, represented as 135 degrees.
    assert_eq!(
        gf3258_c6d90_direction_map(&diagonal_ramp).unwrap()[center],
        135
    );

    // Smoothing along a ridge leaves these ideal ramps unchanged away
    // from border renormalization effects.
    let horizontal_filtered = gf3258_c7310_gradient_source(&horizontal_ramp).unwrap();
    let vertical_filtered = gf3258_c7310_gradient_source(&vertical_ramp).unwrap();
    let diagonal_filtered = gf3258_c7310_gradient_source(&diagonal_ramp).unwrap();

    assert_eq!(horizontal_filtered[center], horizontal_ramp[center]);
    assert_eq!(vertical_filtered[center], vertical_ramp[center]);
    assert_eq!(diagonal_filtered[center], diagonal_ramp[center]);
}

#[test]
fn c7310_selector_quantization_matches_vendor_boundaries() {
    fn class(selector: u8) -> usize {
        let delta = selector.wrapping_sub(8);
        if delta < 0xa5 {
            usize::from(delta / 15) + 1
        } else {
            0
        }
    }

    assert_eq!(class(0), 0);
    assert_eq!(class(7), 0);
    assert_eq!(class(8), 1);
    assert_eq!(class(22), 1);
    assert_eq!(class(23), 2);
    assert_eq!(class(172), 11);
    assert_eq!(class(173), 0);
    assert_eq!(class(179), 0);
    assert_eq!(class(255), 0);
}

#[test]
fn cordic_angles_turn_over_with_the_sign_of_dy() {
    for (dy, dx) in [(1, 1), (4096, 12345), (77777, -3), (-5, -900), (i32::MAX, 7)] {
        let (angle, length) = gf3258_cordic_atan2_magnitude_q12(dy, dx);
        let (turned, turned_length) = gf3258_cordic_atan2_magnitude_q12(-dy, dx);
        assert_eq!(turned as i16, (angle as i16).wrapping_neg());
        assert_eq!(turned_length, length);
        assert_eq!(gf3258_cordic_atan2_magnitude_q12(dy, -dx).1, length);
        assert_eq!(gf3258_cordic_atan2_magnitude_q12(-dy, -dx).1, length);
    }
}

#[test]
fn sine_and_cosine_reflect_at_a_quarter_turn() {
    let pi = GF3258_PI_Q12 as u16;
    for angle in 1..pi {
        let (sin, cos) = gf3258_cordic_sin_cos_q14(angle);
        assert_eq!(gf3258_cordic_sin_cos_q14(pi - angle), (sin, -cos));
    }
}
