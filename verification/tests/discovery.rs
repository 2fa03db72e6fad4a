use kefctl::discovery::{check_descriptor, get_serial, DeviceDescriptor, DiscoveryState};

#[test]
fn serial_of_kef_device() {
    let descriptor = DeviceDescriptor {
        manufacturer: Some("KEF".to_owned()),
        serial_number: Some("KW1-1234".to_owned()),
    };
    assert_eq!(get_serial(&descriptor), Some("KW1-1234".to_owned()));
}

#[test]
fn serial_of_foreign_device() {
    let descriptor = DeviceDescriptor {
        manufacturer: Some("Sonos".to_owned()),
        serial_number: Some("S-99".to_owned()),
    };
    assert_eq!(get_serial(&descriptor), None);
}

#[test]
fn serial_missing_fields() {
    let no_serial = DeviceDescriptor {
        manufacturer: Some("KEF".to_owned()),
        serial_number: None,
    };
    assert_eq!(get_serial(&no_serial), None);
    let no_manufacturer = DeviceDescriptor {
        manufacturer: None,
        serial_number: Some("KW1-1234".to_owned()),
    };
    assert_eq!(get_serial(&no_manufacturer), None);
}

#[test]
fn descriptor_of_kef_device() {
    let body =
        "<root><device><manufacturer>KEF</manufacturer><serialNumber>KW1-1234</serialNumber></device></root>"
            .as_bytes();
    assert_eq!(check_descriptor(body), Some("KW1-1234".to_owned()));
}

#[test]
fn descriptor_of_foreign_device() {
    let body =
        "<root><device><manufacturer>Sonos</manufacturer><serialNumber>S-99</serialNumber></device></root>"
            .as_bytes();
    assert_eq!(check_descriptor(body), None);
}

#[test]
fn descriptor_without_device_or_serial() {
    let no_device = "<root><thing>x</thing></root>".as_bytes();
    assert_eq!(check_descriptor(no_device), None);
    let no_serial = "<root><device><manufacturer>KEF</manufacturer></device></root>".as_bytes();
    assert_eq!(check_descriptor(no_serial), None);
}

#[test]
fn descriptor_malformed_xml() {
    assert_eq!(check_descriptor("<root><device>".as_bytes()), None);
    assert_eq!(check_descriptor(&[0xFF, 0x00, 0x12]), None);
}

#[test]
fn response_locations_are_deduplicated() {
    let mut state = DiscoveryState::new();
    let first = state.on_response("http://10.0.0.17:8080/desc.xml");
    assert_eq!(first, Some("http://10.0.0.17:8080/desc.xml".to_owned()));
    let second = state.on_response("http://10.0.0.17:8080/desc.xml");
    assert_eq!(second, None);
}

#[test]
fn response_location_is_normalized() {
    let mut state = DiscoveryState::new();
    let loc = state.on_response("HTTP://Example.COM");
    assert_eq!(loc, Some("http://example.com/".to_owned()));
}

#[test]
fn response_malformed_location_is_skipped() {
    let mut state = DiscoveryState::new();
    assert_eq!(state.on_response("not a url"), None);
    // The malformed response leaves no trace: a proper one still goes through.
    assert!(state.on_response("http://10.0.0.2/desc.xml").is_some());
}

#[test]
fn failed_fetch_leaves_others_untouched() {
    // Three candidates answer; the middle one's descriptor fetch fails, so
    // no serial is recorded for it — the other two are still processed.
    let mut state = DiscoveryState::new();
    let first = state.on_response("http://10.0.0.1/desc.xml").unwrap();
    state.add_speaker(first, "KW1-A".to_owned());
    let second = state.on_response("http://10.0.0.2/desc.xml");
    assert!(second.is_some());
    // fetch of `second` failed: nothing is added for it
    let third = state.on_response("http://10.0.0.3/desc.xml").unwrap();
    state.add_speaker(third, "KW1-C".to_owned());
    let found = state.speakers();
    assert_eq!(found.len(), 2);
    assert_eq!(
        found[0],
        ("http://10.0.0.1/desc.xml".to_owned(), "KW1-A".to_owned())
    );
    assert_eq!(
        found[1],
        ("http://10.0.0.3/desc.xml".to_owned(), "KW1-C".to_owned())
    );
}

#[test]
fn add_speaker_overwrites_same_location() {
    let mut state = DiscoveryState::new();
    state.add_speaker("http://10.0.0.1/desc.xml".to_owned(), "OLD".to_owned());
    state.add_speaker("http://10.0.0.1/desc.xml".to_owned(), "NEW".to_owned());
    let found = state.speakers();
    assert_eq!(found.len(), 1);
    assert_eq!(
        found[0],
        ("http://10.0.0.1/desc.xml".to_owned(), "NEW".to_owned())
    );
}
