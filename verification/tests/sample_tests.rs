use dildonica::sample::{Sample, SampleError};
use dildonica::NUM_ZONES;

#[test]
fn decodes_little_endian_fields() {
    let data = [0x10u8, 0x27, 0x00, 0x00, 0x39, 0x30, 0x00, 0x00, 0x05];
    let s = Sample::from_bytes(&data).unwrap();
    assert_eq!(s.timestamp, 10000);
    assert_eq!(s.value, Some(12345));
    assert_eq!(s.zone, 5);
}

#[test]
fn decodes_negative_values() {
    let data = [0xffu8, 0xff, 0xff, 0xff, 0x00, 0x00, 0x00, 0x80, 0x00];
    let s = Sample::from_bytes(&data).unwrap();
    assert_eq!(s.timestamp, -1);
    assert_eq!(s.value, Some(i32::MIN));
    assert_eq!(s.zone, 0);
}

#[test]
fn matches_std_decoding() {
    let data = [0x78u8, 0x56, 0x34, 0x12, 0xfe, 0xff, 0xff, 0x7f, 0x07];
    let s = Sample::from_bytes(&data).unwrap();
    assert_eq!(s.timestamp, i32::from_le_bytes([0x78, 0x56, 0x34, 0x12]));
    assert_eq!(s.value, Some(i32::from_le_bytes([0xfe, 0xff, 0xff, 0x7f])));
    assert_eq!(s.zone, 7);
}

#[test]
fn zero_value_means_no_reading() {
    let data = [1u8, 0, 0, 0, 0, 0, 0, 0, 2];
    assert_eq!(
        Sample::from_bytes(&data),
        Ok(Sample { timestamp: 1, zone: 2, value: None })
    );
}

#[test]
fn short_frames_are_rejected() {
    assert_eq!(Sample::from_bytes(&[]), Err(SampleError::DataTooShort));
    assert_eq!(Sample::from_bytes(&[0u8; 8]), Err(SampleError::DataTooShort));
}

#[test]
fn zone_outside_device_is_rejected() {
    let mut data = [0u8; 9];
    data[8] = NUM_ZONES as u8;
    assert_eq!(Sample::from_bytes(&data), Err(SampleError::InvalidZone));
    data[8] = 255;
    assert_eq!(Sample::from_bytes(&data), Err(SampleError::InvalidZone));
}

#[test]
fn short_frame_reported_before_zone() {
    assert_eq!(Sample::from_bytes(&[0u8, 0, 0, 0, 0, 0, 0, 200]), Err(SampleError::DataTooShort));
}

#[test]
fn trailing_bytes_are_ignored() {
    let data = [5u8, 0, 0, 0, 9, 0, 0, 0, 3];
    let mut longer = data.to_vec();
    longer.extend_from_slice(&[0xaa, 0xbb, 0xcc]);
    assert_eq!(Sample::from_bytes(&longer), Sample::from_bytes(&data));
}
