use libcrux_ml_kem::vector::neon::SIMD128Vector;
use libcrux_ml_kem::vector::traits::Operations;

fn counting() -> [i16; 16] {
    [0, 1, 2, 3, 4, 5, 6, 7, 8, 9, 10, 11, 12, 13, 14, 15]
}

#[test]
fn serialize_12_of_counting_lanes_round_trips() {
    let bytes = SIMD128Vector::serialize_12(SIMD128Vector::new(counting()));
    assert_eq!(bytes.len(), 24);
    assert_eq!(
        bytes,
        [
            0x00, 0x10, 0x00, 0x02, 0x30, 0x00, 0x04, 0x50,
            0x00, 0x06, 0x70, 0x00, 0x08, 0x90, 0x00, 0x0a,
            0xb0, 0x00, 0x0c, 0xd0, 0x00, 0x0e, 0xf0, 0x00,
        ]
    );
    let back = SIMD128Vector::deserialize_12(&bytes);
    assert_eq!(SIMD128Vector::to_i16_array(back), counting());
}

#[test]
fn serialize_1_packs_little_endian() {
    let lanes = [
        1, 0, 1, 1, 0, 0, 0, 1,
        0, 1, 0, 0, 1, 1, 1, 0,
    ];
    let bytes = SIMD128Vector::serialize_1(SIMD128Vector::new(lanes));
    assert_eq!(
        bytes,
        [
            0x8d, 0x72,
        ]
    );
    let back = SIMD128Vector::deserialize_1(&bytes);
    assert_eq!(SIMD128Vector::to_i16_array(back), lanes);
}

#[test]
fn deserialize_1_accepts_any_bytes() {
    let bytes: [u8; 2] = [
        0x6a, 0x8f,
    ];
    let lanes = SIMD128Vector::to_i16_array(SIMD128Vector::deserialize_1(&bytes));
    assert_eq!(
        lanes,
        [
            0, 1, 0, 1, 0, 1, 1, 0,
            1, 1, 1, 1, 0, 0, 0, 1,
        ]
    );
    assert_eq!(SIMD128Vector::serialize_1(SIMD128Vector::new(lanes)), bytes);
    let ones = [0xffu8; 2];
    assert_eq!(
        SIMD128Vector::to_i16_array(SIMD128Vector::deserialize_1(&ones)),
        [1; 16]
    );
}

#[test]
fn serialize_1_keeps_only_the_low_bits_of_a_lane() {
    let lanes = [
        -1, -32768, 32767, 4096, 4097, -4096, 3329, -3329,
        2048, -2048, 1024, -1024, 33, -33, 17, -2,
    ];
    assert_eq!(
        SIMD128Vector::serialize_1(SIMD128Vector::new(lanes)),
        [
            0xd5, 0x70,
        ]
    );
}

#[test]
fn serialize_4_packs_little_endian() {
    let lanes = [
        0, 1, 2, 3, 4, 5, 6, 7,
        8, 9, 10, 11, 12, 13, 14, 15,
    ];
    let bytes = SIMD128Vector::serialize_4(SIMD128Vector::new(lanes));
    assert_eq!(
        bytes,
        [
            0x10, 0x32, 0x54, 0x76, 0x98, 0xba, 0xdc, 0xfe,
        ]
    );
    let back = SIMD128Vector::deserialize_4(&bytes);
    assert_eq!(SIMD128Vector::to_i16_array(back), lanes);
}

#[test]
fn deserialize_4_accepts_any_bytes() {
    let bytes: [u8; 8] = [
        0x99, 0xbe, 0xe3, 0x08, 0x2d, 0x52, 0x77, 0x9c,
    ];
    let lanes = SIMD128Vector::to_i16_array(SIMD128Vector::deserialize_4(&bytes));
    assert_eq!(
        lanes,
        [
            9, 9, 14, 11, 3, 14, 8, 0,
            13, 2, 2, 5, 7, 7, 12, 9,
        ]
    );
    assert_eq!(SIMD128Vector::serialize_4(SIMD128Vector::new(lanes)), bytes);
    let ones = [0xffu8; 8];
    assert_eq!(
        SIMD128Vector::to_i16_array(SIMD128Vector::deserialize_4(&ones)),
        [15; 16]
    );
}

#[test]
fn serialize_4_keeps_only_the_low_bits_of_a_lane() {
    let lanes = [
        -1, -32768, 32767, 4096, 4097, -4096, 3329, -3329,
        2048, -2048, 1024, -1024, 33, -33, 17, -2,
    ];
    assert_eq!(
        SIMD128Vector::serialize_4(SIMD128Vector::new(lanes)),
        [
            0x0f, 0x0f, 0x01, 0xf1, 0x00, 0x00, 0xf1, 0xe1,
        ]
    );
}

#[test]
fn serialize_5_packs_little_endian() {
    let lanes = [
        0, 31, 1, 30, 2, 29, 3, 28,
        16, 15, 17, 14, 18, 13, 19, 12,
    ];
    let bytes = SIMD128Vector::serialize_5(SIMD128Vector::new(lanes));
    assert_eq!(
        bytes,
        [
            0xe0, 0x07, 0x2f, 0xfa, 0xe0, 0xf0, 0x45, 0x27,
            0xdb, 0x64,
        ]
    );
    let back = SIMD128Vector::deserialize_5(&bytes);
    assert_eq!(SIMD128Vector::to_i16_array(back), lanes);
}

#[test]
fn deserialize_5_accepts_any_bytes() {
    let bytes: [u8; 10] = [
        0xfe, 0x23, 0x48, 0x6d, 0x92, 0xb7, 0xdc, 0x01,
        0x26, 0x4b,
    ];
    let lanes = SIMD128Vector::to_i16_array(SIMD128Vector::deserialize_5(&bytes));
    assert_eq!(
        lanes,
        [
            30, 31, 8, 16, 20, 22, 9, 18,
            23, 5, 23, 3, 0, 19, 12, 9,
        ]
    );
    assert_eq!(SIMD128Vector::serialize_5(SIMD128Vector::new(lanes)), bytes);
    let ones = [0xffu8; 10];
    assert_eq!(
        SIMD128Vector::to_i16_array(SIMD128Vector::deserialize_5(&ones)),
        [31; 16]
    );
}

#[test]
fn serialize_5_keeps_only_the_low_bits_of_a_lane() {
    let lanes = [
        -1, -32768, 32767, 4096, 4097, -4096, 3329, -3329,
        2048, -2048, 1024, -1024, 33, -33, 17, -2,
    ];
    assert_eq!(
        SIMD128Vector::serialize_5(SIMD128Vector::new(lanes)),
        [
            0x1f, 0x7c, 0x10, 0x40, 0xf8, 0x00, 0x00, 0x10,
            0x7e, 0xf4,
        ]
    );
}

#[test]
fn serialize_10_packs_little_endian() {
    let lanes = [
        0, 1023, 1, 1022, 512, 511, 513, 510,
        256, 767, 3, 4, 1000, 23, 682, 341,
    ];
    let bytes = SIMD128Vector::serialize_10(SIMD128Vector::new(lanes));
    assert_eq!(
        bytes,
        [
            0x00, 0xfc, 0x1f, 0x80, 0xff, 0x00, 0xfe, 0x17,
            0xa0, 0x7f, 0x00, 0xfd, 0x3b, 0x00, 0x01, 0xe8,
            0x5f, 0xa0, 0x6a, 0x55,
        ]
    );
    let back = SIMD128Vector::deserialize_10(&bytes);
    assert_eq!(SIMD128Vector::to_i16_array(back), lanes);
}

#[test]
fn deserialize_10_accepts_any_bytes() {
    let bytes: [u8; 20] = [
        0xf7, 0x1c, 0x41, 0x66, 0x8b, 0xb0, 0xd5, 0xfa,
        0x1f, 0x44, 0x69, 0x8e, 0xb3, 0xd8, 0xfd, 0x22,
        0x47, 0x6c, 0x91, 0xb6,
    ];
    let lanes = SIMD128Vector::to_i16_array(SIMD128Vector::deserialize_10(&bytes));
    assert_eq!(
        lanes,
        [
            247, 71, 612, 557, 432, 693, 511, 272,
            617, 227, 395, 1015, 802, 785, 278, 730,
        ]
    );
    assert_eq!(SIMD128Vector::serialize_10(SIMD128Vector::new(lanes)), bytes);
    let ones = [0xffu8; 20];
    assert_eq!(
        SIMD128Vector::to_i16_array(SIMD128Vector::deserialize_10(&ones)),
        [1023; 16]
    );
}

#[test]
fn serialize_10_keeps_only_the_low_bits_of_a_lane() {
    let lanes = [
        -1, -32768, 32767, 4096, 4097, -4096, 3329, -3329,
        2048, -2048, 1024, -1024, 33, -33, 17, -2,
    ];
    assert_eq!(
        SIMD128Vector::serialize_10(SIMD128Vector::new(lanes)),
        [
            0xff, 0x03, 0xf0, 0x3f, 0x00, 0x01, 0x00, 0x10,
            0xd0, 0xbf, 0x00, 0x00, 0x00, 0x00, 0x00, 0x21,
            0x7c, 0x1f, 0x81, 0xff,
        ]
    );
}

#[test]
fn serialize_11_packs_little_endian() {
    let lanes = [
        0, 2047, 1, 2046, 1024, 1023, 1025, 1022,
        512, 1535, 3, 4, 2000, 47, 1365, 682,
    ];
    let bytes = SIMD128Vector::serialize_11(SIMD128Vector::new(lanes));
    assert_eq!(
        bytes,
        [
            0x00, 0xf8, 0x7f, 0x00, 0xfc, 0x0f, 0xc0, 0xff,
            0x05, 0xd0, 0x7f, 0x00, 0xfa, 0xef, 0x00, 0x08,
            0x00, 0xfd, 0x17, 0x54, 0x55, 0x55,
        ]
    );
    let back = SIMD128Vector::deserialize_11(&bytes);
    assert_eq!(SIMD128Vector::to_i16_array(back), lanes);
}

#[test]
fn deserialize_11_accepts_any_bytes() {
    let bytes: [u8; 22] = [
        0x5c, 0x81, 0xa6, 0xcb, 0xf0, 0x15, 0x3a, 0x5f,
        0x84, 0xa9, 0xce, 0xf3, 0x18, 0x3d, 0x62, 0x87,
        0xac, 0xd1, 0xf6, 0x1b, 0x40, 0x65,
    ];
    let lanes = SIMD128Vector::to_i16_array(SIMD128Vector::deserialize_11(&bytes));
    assert_eq!(
        lanes,
        [
            348, 1232, 814, 760, 929, 190, 609, 1653,
            243, 1955, 1416, 1603, 1306, 2029, 6, 810,
        ]
    );
    assert_eq!(SIMD128Vector::serialize_11(SIMD128Vector::new(lanes)), bytes);
    let ones = [0xffu8; 22];
    assert_eq!(
        SIMD128Vector::to_i16_array(SIMD128Vector::deserialize_11(&ones)),
        [2047; 16]
    );
}

#[test]
fn serialize_11_keeps_only_the_low_bits_of_a_lane() {
    let lanes = [
        -1, -32768, 32767, 4096, 4097, -4096, 3329, -3329,
        2048, -2048, 1024, -1024, 33, -33, 17, -2,
    ];
    assert_eq!(
        SIMD128Vector::serialize_11(SIMD128Vector::new(lanes)),
        [
            0xff, 0x07, 0xc0, 0xff, 0x01, 0x10, 0x00, 0x00,
            0x04, 0xf4, 0x5f, 0x00, 0x00, 0x00, 0x00, 0x01,
            0x18, 0x82, 0xef, 0x47, 0xc0, 0xff,
        ]
    );
}

#[test]
fn serialize_12_packs_little_endian() {
    let lanes = [
        0, 4095, 1, 4094, 2048, 2047, 3328, 3329,
        1024, 3071, 3, 4, 4000, 95, 2730, 1365,
    ];
    let bytes = SIMD128Vector::serialize_12(SIMD128Vector::new(lanes));
    assert_eq!(
        bytes,
        [
            0x00, 0xf0, 0xff, 0x01, 0xe0, 0xff, 0x00, 0xf8,
            0x7f, 0x00, 0x1d, 0xd0, 0x00, 0xf4, 0xbf, 0x03,
            0x40, 0x00, 0xa0, 0xff, 0x05, 0xaa, 0x5a, 0x55,
        ]
    );
    let back = SIMD128Vector::deserialize_12(&bytes);
    assert_eq!(SIMD128Vector::to_i16_array(back), lanes);
}

#[test]
fn deserialize_12_accepts_any_bytes() {
    let bytes: [u8; 24] = [
        0xc1, 0xe6, 0x0b, 0x30, 0x55, 0x7a, 0x9f, 0xc4,
        0xe9, 0x0e, 0x33, 0x58, 0x7d, 0xa2, 0xc7, 0xec,
        0x11, 0x36, 0x5b, 0x80, 0xa5, 0xca, 0xef, 0x14,
    ];
    let lanes = SIMD128Vector::to_i16_array(SIMD128Vector::deserialize_12(&bytes));
    assert_eq!(
        lanes,
        [
            1729, 190, 1328, 1957, 1183, 3740, 782, 1411,
            637, 3194, 492, 865, 91, 2648, 4042, 334,
        ]
    );
    assert_eq!(SIMD128Vector::serialize_12(SIMD128Vector::new(lanes)), bytes);
    let ones = [0xffu8; 24];
    assert_eq!(
        SIMD128Vector::to_i16_array(SIMD128Vector::deserialize_12(&ones)),
        [4095; 16]
    );
}

#[test]
fn serialize_12_keeps_only_the_low_bits_of_a_lane() {
    let lanes = [
        -1, -32768, 32767, 4096, 4097, -4096, 3329, -3329,
        2048, -2048, 1024, -1024, 33, -33, 17, -2,
    ];
    assert_eq!(
        SIMD128Vector::serialize_12(SIMD128Vector::new(lanes)),
        [
            0xff, 0x0f, 0x00, 0xff, 0x0f, 0x00, 0x01, 0x00,
            0x00, 0x01, 0xfd, 0x2f, 0x00, 0x08, 0x80, 0x00,
            0x04, 0xc0, 0x21, 0xf0, 0xfd, 0x11, 0xe0, 0xff,
        ]
    );
}

#[test]
fn deserialize_inverts_serialize_on_compressed_lanes() {
    let mut x: i32 = 0;
    while x < 3329 {
        let mut lanes = [0i16; 16];
        for i in 0..16 {
            lanes[i] = ((x + 211 * i as i32) % 3329) as i16;
        }
        let v = SIMD128Vector::new(lanes);
        let c1 = SIMD128Vector::compress_1(v);
        let c4 = SIMD128Vector::compress::<4>(v);
        let c5 = SIMD128Vector::compress::<5>(v);
        let c10 = SIMD128Vector::compress::<10>(v);
        let c11 = SIMD128Vector::compress::<11>(v);
        assert_eq!(
            SIMD128Vector::to_i16_array(SIMD128Vector::deserialize_1(
                &SIMD128Vector::serialize_1(c1)
            )),
            SIMD128Vector::to_i16_array(c1)
        );
        assert_eq!(
            SIMD128Vector::to_i16_array(SIMD128Vector::deserialize_4(
                &SIMD128Vector::serialize_4(c4)
            )),
            SIMD128Vector::to_i16_array(c4)
        );
        assert_eq!(
            SIMD128Vector::to_i16_array(SIMD128Vector::deserialize_5(
                &SIMD128Vector::serialize_5(c5)
            )),
            SIMD128Vector::to_i16_array(c5)
        );
        assert_eq!(
            SIMD128Vector::to_i16_array(SIMD128Vector::deserialize_10(&SIMD128Vector::serialize_10(
                c10
            ))),
            SIMD128Vector::to_i16_array(c10)
        );
        assert_eq!(
            SIMD128Vector::to_i16_array(SIMD128Vector::deserialize_11(&SIMD128Vector::serialize_11(
                c11
            ))),
            SIMD128Vector::to_i16_array(c11)
        );
        assert_eq!(
            SIMD128Vector::to_i16_array(SIMD128Vector::deserialize_12(
                &SIMD128Vector::serialize_12(v)
            )),
            lanes
        );
        x += 13;
    }
}
