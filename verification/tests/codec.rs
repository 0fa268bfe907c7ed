use wsq::encode_decode;

#[test]
fn round_trip_zero() {
    assert_eq!(encode_decode(0), Some(0));
}

#[test]
fn round_trip_small() {
    assert_eq!(encode_decode(42), Some(42));
}

#[test]
fn round_trip_max() {
    assert_eq!(encode_decode(u64::MAX), Some(u64::MAX));
}
