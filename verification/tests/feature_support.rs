use goodix_info::feature::support::{
    GF3258_SUPPORT_PROXIMITY_TABLE, Gf3258SupportPoint, gf3258_point_support,
    gf3258_rehabilitate_point_status,
};

#[test]
fn proximity_table_matches_recovered_anchors() {
    assert_eq!(GF3258_SUPPORT_PROXIMITY_TABLE.len(), 256);
    assert_eq!(GF3258_SUPPORT_PROXIMITY_TABLE[0], 1);
    assert_eq!(GF3258_SUPPORT_PROXIMITY_TABLE[12], 2);
    assert_eq!(GF3258_SUPPORT_PROXIMITY_TABLE[128], 17);
    assert_eq!(GF3258_SUPPORT_PROXIMITY_TABLE[254], 39);
    assert_eq!(GF3258_SUPPORT_PROXIMITY_TABLE[255], 39);
}

#[test]
fn support_uses_integer_coordinates_and_biased_average() {
    let points = [
        Gf3258SupportPoint {
            x_q8: 10 << 8,
            y_q8: 10 << 8,
        },
        Gf3258SupportPoint {
            x_q8: 11 << 8,
            y_q8: 10 << 8,
        },
        // Same integer coordinate as point 0: explicitly ignored.
        Gf3258SupportPoint {
            x_q8: (10 << 8) | 0xff,
            y_q8: (10 << 8) | 1,
        },
    ];
    let q164 = [0i8, 51i8, 100i8];
    let source = [100i8, 100i8, 100i8];
    let r = gf3258_point_support(&points, &q164, &source, true).unwrap();

    // point0 sees only point1 at d^2=1: table[254]=39, boosted to 58.
    assert_eq!(r.neighborhood_support[0], 58 >> 3);
    // 100*100/(1+100) = 99, not 100.
    assert_eq!(r.neighborhood_average[0], 99);
}

#[test]
fn status_rehabilitation_uses_strict_thresholds() {
    assert_eq!(gf3258_rehabilitate_point_status(2, 31, 66, 66, 36), 0);
    assert_eq!(gf3258_rehabilitate_point_status(2, 30, 66, 66, 36), 2);
    assert_eq!(gf3258_rehabilitate_point_status(2, 31, 65, 66, 36), 2);
    assert_eq!(gf3258_rehabilitate_point_status(2, 31, 66, 65, 36), 2);
    assert_eq!(gf3258_rehabilitate_point_status(2, 31, 66, 66, 35), 2);
    assert_eq!(gf3258_rehabilitate_point_status(0, 100, 100, 100, 100), 0);
}
