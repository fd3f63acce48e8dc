use goodix_info::feature::descriptor::{
    GF3258_DESCRIPTOR_CENTRAL_LEN, GF3258_DESCRIPTOR_LEN, GF3258_DESCRIPTOR_ORIENTATION_BINS,
    Gf3258CompactDescriptor, c7b80_hadamard_128, c7f40_hadamard_32, c8040_lower_median_signed,
    c8040_median_hash_128, c8040_median_hash_32, integer_sqrt_u32, integer_sqrt_u64,
    sylvester_hadamard_negative,
};

#[test]
fn integer_sqrt_helpers_are_floor_exact_at_boundaries() {
    assert_eq!(integer_sqrt_u32(0), 0);
    assert_eq!(integer_sqrt_u32(1), 1);
    assert_eq!(integer_sqrt_u32(2), 1);
    assert_eq!(integer_sqrt_u32(15), 3);
    assert_eq!(integer_sqrt_u32(16), 4);
    assert_eq!(integer_sqrt_u32(17), 4);
    assert_eq!(integer_sqrt_u32(u32::MAX), 65_535);
    assert_eq!(integer_sqrt_u64(1u64 << 32), 65_536);
}

#[test]
fn sylvester_seed_and_hadamard_bit_order_are_exact() {
    assert!(!sylvester_hadamard_negative(0, 0));
    assert!(!sylvester_hadamard_negative(0, 1));
    assert!(!sylvester_hadamard_negative(1, 0));
    assert!(sylvester_hadamard_negative(1, 1));

    let full = [1u16; GF3258_DESCRIPTOR_LEN];
    assert_eq!(c7b80_hadamard_128(&full), [1, 0, 0, 0]);

    let central = [1u16; GF3258_DESCRIPTOR_CENTRAL_LEN];
    assert_eq!(c7f40_hadamard_32(&central), 1);
}

#[test]
fn c8040_lower_median_and_gf3258_sampling_are_exact() {
    let mut full = [0u16; GF3258_DESCRIPTOR_LEN];
    for (i, value) in full.iter_mut().enumerate() {
        *value = i as u16;
    }
    assert_eq!(c8040_lower_median_signed(&full), 63);
    assert_eq!(c8040_median_hash_128(&full), 0xffff_0000);

    let mut central = [0u16; GF3258_DESCRIPTOR_CENTRAL_LEN];
    for (i, value) in central.iter_mut().enumerate() {
        *value = i as u16;
    }
    assert_eq!(c8040_lower_median_signed(&central), 15);
    assert_eq!(c8040_median_hash_32(&central), 0xffff_0000);
}

#[test]
fn compact_bytes_follow_feature_point_offsets() {
    let compact = Gf3258CompactDescriptor {
        norm_128: 0,
        clip_128: 0,
        normalized_128: [0; GF3258_DESCRIPTOR_LEN],
        hadamard_128_words: [0x0302_0100, 0x0706_0504, 0x0b0a_0908, 0x0f0e_0d0c],
        median_hash_128: 0x1312_1110,
        norm_32: 0,
        clip_32: 0,
        normalized_32: [0; GF3258_DESCRIPTOR_CENTRAL_LEN],
        hadamard_hash_32: 0x1b1a_1918,
        median_hash_32: 0x1f1e_1d1c,
    };

    assert_eq!(
        compact.feature_point_bytes_10_2f(),
        [
            0x00, 0x01, 0x02, 0x03, 0x04, 0x05, 0x06, 0x07, 0x08, 0x09, 0x0a, 0x0b, 0x0c, 0x0d,
            0x0e, 0x0f, 0x10, 0x11, 0x12, 0x13, 0x00, 0x00, 0x00, 0x00, 0x18, 0x19, 0x1a, 0x1b,
            0x1c, 0x1d, 0x1e, 0x1f,
        ]
    );
}

#[test]
fn descriptor_central_2x2_layout_is_cell_5_6_9_10() {
    let mut descriptor = [0u32; GF3258_DESCRIPTOR_LEN];
    for (i, value) in descriptor.iter_mut().enumerate() {
        *value = i as u32;
    }

    let cells = [5usize, 6, 9, 10];
    let mut central = [0u32; GF3258_DESCRIPTOR_CENTRAL_LEN];
    let mut out = 0usize;
    for cell in cells {
        let src = cell * GF3258_DESCRIPTOR_ORIENTATION_BINS;
        central[out..out + 8].copy_from_slice(&descriptor[src..src + 8]);
        out += 8;
    }

    assert_eq!(central[0], 40);
    assert_eq!(central[7], 47);
    assert_eq!(central[8], 48);
    assert_eq!(central[15], 55);
    assert_eq!(central[16], 72);
    assert_eq!(central[23], 79);
    assert_eq!(central[24], 80);
    assert_eq!(central[31], 87);
}
