use libcrux_ml_kem::vector::neon::{rej_sample, SIMD128Vector};
use libcrux_ml_kem::vector::traits::Operations;

#[test]
fn rej_sample_accepts_both_candidates_of_a_chunk() {
    let mut out = [0i16; 16];
    let count = rej_sample(&[0x01, 0x02, 0x03], &mut out);
    assert_eq!(count, 2);
    assert_eq!(&out[..2], &[513, 48]);
    assert_eq!(&out[2..], &[0i16; 14]);
}

#[test]
fn rej_sample_rejects_candidates_outside_the_field() {
    let mut out = [-1i16; 4];
    let count = rej_sample(&[0xff, 0xff, 0xff], &mut out);
    assert_eq!(count, 0);
    assert_eq!(out, [-1i16; 4]);
}

#[test]
fn rej_sample_accepts_3328_and_rejects_3329() {
    let mut out = [-1i16; 4];
    let count = rej_sample(&[0x00, 0x1d, 0xd0], &mut out);
    assert_eq!(count, 1);
    assert_eq!(out, [3328, -1, -1, -1]);
    let count = rej_sample(&[0x01, 0x0d, 0xd0], &mut out);
    assert_eq!(count, 1);
    assert_eq!(out, [3328, -1, -1, -1]);
}

#[test]
fn rej_sample_stops_when_the_buffer_is_full() {
    let bytes = [0x01, 0x02, 0x03, 0x04, 0x05, 0x06, 0x07, 0x08, 0x09];
    let mut out = [0i16; 3];
    let count = rej_sample(&bytes, &mut out);
    assert_eq!(count, 3);
    assert_eq!(out, [513, 48, 1284]);
    let mut one = [0i16; 1];
    assert_eq!(rej_sample(&bytes, &mut one), 1);
    assert_eq!(one, [513]);
}

#[test]
fn rej_sample_returns_fewer_when_the_input_runs_out() {
    let bytes = [0x01, 0x02, 0x03, 0xff, 0xff, 0xff, 0x04, 0x05, 0x06];
    let mut out = [7i16; 16];
    let count = rej_sample(&bytes, &mut out);
    assert_eq!(count, 4);
    assert_eq!(&out[..4], &[513, 48, 1284, 96]);
    assert_eq!(&out[4..], &[7i16; 12]);
}

#[test]
fn rej_sample_of_nothing_or_into_nothing_writes_nothing() {
    let mut out = [9i16; 4];
    assert_eq!(rej_sample(&[], &mut out), 0);
    assert_eq!(out, [9i16; 4]);
    let mut none: [i16; 0] = [];
    assert_eq!(rej_sample(&[0x01, 0x02, 0x03], &mut none), 0);
}

#[test]
fn rej_sample_is_a_function_of_its_input() {
    let bytes: [u8; 24] = [
        0xc9, 0x05, 0xab, 0xff, 0xff, 0xff, 0x00, 0x1d,
        0xd0, 0xcd, 0xc3, 0x23, 0xed, 0x21, 0xbf, 0xc7,
        0x39, 0x15, 0x5b, 0x0b, 0x25, 0xa9, 0x97, 0xef,
    ];
    let mut first = [0i16; 16];
    let mut second = [0i16; 16];
    let first_count = rej_sample(&bytes, &mut first);
    let second_count = rej_sample(&bytes, &mut second);
    assert_eq!(first_count, 12);
    assert_eq!(first_count, second_count);
    assert_eq!(first, second);
    assert_eq!(
        first,
        [
            1481, 2736, 3328, 973, 572, 493, 3058, 2503,
            339, 2907, 592, 1961, 0, 0, 0, 0,
        ]
    );
    for i in 0..first_count {
        assert!(0 <= first[i] && first[i] < 3329);
    }
}

#[test]
fn the_backend_samples_as_the_shared_algorithm_does() {
    let bytes: [u8; 24] = [
        0xc9, 0x05, 0xab, 0xff, 0xff, 0xff, 0x00, 0x1d,
        0xd0, 0xcd, 0xc3, 0x23, 0xed, 0x21, 0xbf, 0xc7,
        0x39, 0x15, 0x5b, 0x0b, 0x25, 0xa9, 0x97, 0xef,
    ];
    let mut shared = [0i16; 16];
    let mut backend = [0i16; 16];
    let shared_count = rej_sample(&bytes, &mut shared);
    let backend_count = SIMD128Vector::rej_sample(&bytes, &mut backend);
    assert_eq!(shared_count, backend_count);
    assert_eq!(shared, backend);
}
