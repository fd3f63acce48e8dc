use goodix_info::feature::{
    gf3258_c0910_round_coordinate_q8, gf3258_c0910_round_orientation_q12,
};

#[test]
fn c0910_coordinate_rounding_matches_final_feature_point_store() {
    assert_eq!(gf3258_c0910_round_coordinate_q8(0x1230), 0x1230);
    assert_eq!(gf3258_c0910_round_coordinate_q8(0x1237), 0x1230);
    assert_eq!(gf3258_c0910_round_coordinate_q8(0x1238), 0x1240);
    assert_eq!(gf3258_c0910_round_coordinate_q8(0x123f), 0x1240);
}

#[test]
fn c0910_orientation_rounding_is_signed_and_symmetric() {
    assert_eq!(gf3258_c0910_round_orientation_q12(0x007f), 0x0000);
    assert_eq!(gf3258_c0910_round_orientation_q12(0x0080), 0x0100);
    assert_eq!(
        gf3258_c0910_round_orientation_q12((-0x007f_i16) as u16),
        0x0000
    );
    assert_eq!(
        gf3258_c0910_round_orientation_q12((-0x0080_i16) as u16),
        0xff00
    );
    assert_eq!(
        gf3258_c0910_round_orientation_q12((-0x0180_i16) as u16),
        0xfe00
    );
}
