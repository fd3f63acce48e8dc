use goodix_info::feature::filter::reflect101;

#[test]
fn reflect101_matches_vendor_helper() {
    assert_eq!(reflect101(-1, 5), 1);
    assert_eq!(reflect101(-2, 5), 2);
    assert_eq!(reflect101(5, 5), 3);
    assert_eq!(reflect101(6, 5), 2);
    assert_eq!(reflect101(9, 5), 1);
}
