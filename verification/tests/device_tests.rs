use dildonica::device::{
    characteristic_id, find_characteristic, find_device, CHARACTERISTIC_UUID,
    CONFIG_CHARACTERISTIC_UUID, DEVICE_MAC, SERVICE_UUID,
};

#[test]
fn identifiers_survive_text_round_trip() {
    assert_eq!(characteristic_id(CHARACTERISTIC_UUID), CHARACTERISTIC_UUID);
    assert_eq!(characteristic_id(CONFIG_CHARACTERISTIC_UUID), CONFIG_CHARACTERISTIC_UUID);
    assert_eq!(characteristic_id(SERVICE_UUID), SERVICE_UUID);
    assert_eq!(characteristic_id(0), 0);
    assert_eq!(characteristic_id(u128::MAX), u128::MAX);
    assert_eq!(characteristic_id(0xa1a2a3a4b1b2c1c2d1d2d3d4d5d6d7d8), 0xa1a2a3a4b1b2c1c2d1d2d3d4d5d6d7d8);
}

#[test]
fn uuid_text_form_is_hyphenated_lower_case() {
    let text = uuid::Uuid::from_u128(CHARACTERISTIC_UUID).to_string();
    assert_eq!(text, "6f6e6963-0000-1000-8000-0000cafebabe");
}

#[test]
fn finds_first_matching_characteristic() {
    let uuids = [SERVICE_UUID, CONFIG_CHARACTERISTIC_UUID, CHARACTERISTIC_UUID, CHARACTERISTIC_UUID];
    assert_eq!(find_characteristic(&uuids, CHARACTERISTIC_UUID), Some(2));
    assert_eq!(find_characteristic(&uuids, CONFIG_CHARACTERISTIC_UUID), Some(1));
    assert_eq!(find_characteristic(&uuids, 42), None);
    assert_eq!(find_characteristic(&[], CHARACTERISTIC_UUID), None);
}

#[test]
fn finds_the_sensor_by_address() {
    let addresses = vec![
        "00:11:22:33:44:55".to_string(),
        DEVICE_MAC.to_string(),
        "DB:96:90:70:68:A4".to_string(),
    ];
    assert_eq!(find_device(&addresses), Some(1));
    assert_eq!(find_device(&addresses[..1]), None);
    assert_eq!(find_device(&["db:96:90:70:68:a4".to_string()]), None);
    assert_eq!(find_device(&[]), None);
}
