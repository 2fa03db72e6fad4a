use kefctl::{bitmask_to_source_config, Command, CommandResult, Inverse, ParseError, Power, Source, Standby, Volume};

#[test]
fn volume_limit() {
    let vol = Volume::new(128);
    assert!(vol.level() == 100);
}

#[test]
fn source_string_conv() {
    assert_eq!(
        Source::Wifi,
        Source::from_str(Source::Wifi.to_string().as_str()).unwrap()
    );
    assert_eq!(
        Source::Bluetooth,
        Source::from_str(Source::Bluetooth.to_string().as_str()).unwrap()
    );
    assert_eq!(
        Source::Aux,
        Source::from_str(Source::Aux.to_string().as_str()).unwrap()
    );
    assert_eq!(
        Source::Opt,
        Source::from_str(Source::Opt.to_string().as_str()).unwrap()
    );
    assert_eq!(
        Source::Usb,
        Source::from_str(Source::Usb.to_string().as_str()).unwrap()
    );
}

#[test]
fn volume_exact_below_limit() {
    assert_eq!(Volume::new(0).level(), 0);
    assert_eq!(Volume::new(57).level(), 57);
    assert_eq!(Volume::new(100).level(), 100);
    assert_eq!(Volume::new(101).level(), 100);
    assert_eq!(Volume::new(255).level(), 100);
}

#[test]
fn source_parse_ignores_case() {
    assert_eq!(Source::from_str("WiFi").unwrap(), Source::Wifi);
    assert_eq!(Source::from_str("BLUETOOTH").unwrap(), Source::Bluetooth);
    assert_eq!(Source::from_str("aUX").unwrap(), Source::Aux);
    assert_eq!(Source::from_str("Opt").unwrap(), Source::Opt);
    assert_eq!(Source::from_str("usb").unwrap(), Source::Usb);
}

#[test]
fn source_parse_rejects_unknown() {
    assert_eq!(Source::from_str(""), Err(ParseError::InvalidSource));
    assert_eq!(Source::from_str("wifi2"), Err(ParseError::InvalidSource));
    assert_eq!(Source::from_str("coax"), Err(ParseError::InvalidSource));
}

#[test]
fn volume_parse() {
    assert_eq!(Volume::from_str("50").unwrap().level(), 50);
    assert_eq!(Volume::from_str("+7").unwrap().level(), 7);
    assert_eq!(Volume::from_str("005").unwrap().level(), 5);
    assert_eq!(Volume::from_str("128").unwrap().level(), 100);
    assert_eq!(Volume::from_str("255").unwrap().level(), 100);
}

#[test]
fn volume_parse_rejects_bad_text() {
    assert_eq!(Volume::from_str("").unwrap_err(), ParseError::InvalidVolume);
    assert_eq!(Volume::from_str("+").unwrap_err(), ParseError::InvalidVolume);
    assert_eq!(Volume::from_str("256").unwrap_err(), ParseError::InvalidVolume);
    assert_eq!(Volume::from_str("1000").unwrap_err(), ParseError::InvalidVolume);
    assert_eq!(Volume::from_str("12a").unwrap_err(), ParseError::InvalidVolume);
    assert_eq!(Volume::from_str("-1").unwrap_err(), ParseError::InvalidVolume);
    assert_eq!(Volume::from_str(" 5").unwrap_err(), ParseError::InvalidVolume);
}

#[test]
fn turn_off_frame() {
    assert_eq!(Command::TurnOff.to_bytes(), vec![0x53, 0x30, 0x81, 0x9B, 0x0B]);
}

#[test]
fn set_volume_frame() {
    assert_eq!(
        Command::SetVolume(Volume::new(50)).to_bytes(),
        vec![0x53, 0x25, 0x81, 0x32, 0x1A]
    );
}

#[test]
fn set_source_frame() {
    let frame = Command::SetSource(Power::On, Inverse::Right, Standby::S20, Source::Wifi)
        .to_bytes();
    assert_eq!(frame, vec![0x53, 0x30, 0x81, 0b00000010, 0x9B]);
}

#[test]
fn get_source_frame() {
    assert_eq!(Command::GetSource.to_bytes(), vec![0x47, 0x30, 0x80]);
}

#[test]
fn source_direct_frames() {
    assert_eq!(Source::Wifi.to_bytes(), vec![0x53, 0x30, 0x81, 0x12, 0x82]);
    assert_eq!(Source::Bluetooth.to_bytes(), vec![0x53, 0x30, 0x81, 0x19, 0xAD]);
    assert_eq!(Source::Aux.to_bytes(), vec![0x53, 0x30, 0x81, 0x1A, 0x9B]);
    assert_eq!(Source::Opt.to_bytes(), vec![0x53, 0x30, 0x81, 0x1B, 0x00]);
    assert_eq!(Source::Usb.to_bytes(), vec![0x53, 0x30, 0x81, 0x1C, 0xF7]);
}

#[test]
fn status_byte_decode() {
    assert_eq!(
        bitmask_to_source_config(0b00000010),
        (Power::On, Inverse::Right, Standby::S20, Source::Wifi)
    );
    assert_eq!(
        bitmask_to_source_config(0b11101001),
        (Power::Off, Inverse::Left, Standby::S0, Source::Bluetooth)
    );
}

#[test]
fn status_byte_decode_fallbacks() {
    // An unknown source nibble falls back to Aux, the undefined standby
    // pattern to S60.
    let (power, inverse, standby, source) = bitmask_to_source_config(0b00110000);
    assert_eq!(source, Source::Aux);
    assert_eq!(standby, Standby::S60);
    assert_eq!(power, Power::On);
    assert_eq!(inverse, Inverse::Right);
}

#[test]
fn status_byte_round_trip() {
    // Decode a valid status byte and re-encode its fields through the
    // bitmask-combination functions: the byte comes back unchanged.
    for byte in 0u16..=255 {
        let b = byte as u8;
        let source_ok = matches!(b & 0x0F, 0x02 | 0x0C | 0x09 | 0x0A | 0x0B);
        let standby_ok = b & 0x30 != 0x30;
        if source_ok && standby_ok {
            let (power, inverse, standby, source) = bitmask_to_source_config(b);
            let rebuilt = source.bitmask(standby.bitmask(inverse.bitmask(power.bitmask(0))));
            assert_eq!(rebuilt, b);
        }
    }
}

#[test]
fn field_bitmasks_preserve_other_bits() {
    assert_eq!(Power::Off.bitmask(0b00101010), 0b10101010);
    assert_eq!(Inverse::Left.bitmask(0b10001001), 0b11001001);
    assert_eq!(Standby::S60.bitmask(0b10100010), 0b10010010);
    assert_eq!(Source::Usb.bitmask(0b10100000), 0b10101100);
}

#[test]
fn interpret_response_query() {
    let rbuf: [u8; 8] = [0, 0, 0, 0b00000010, 0, 0, 0, 0];
    assert_eq!(
        Command::GetSource.interpret_response(&rbuf),
        CommandResult::GotSource(Power::On, Inverse::Right, Standby::S20, Source::Wifi)
    );
}

#[test]
fn interpret_response_mutating() {
    let rbuf: [u8; 8] = [0xFF; 8];
    assert_eq!(
        Command::TurnOff.interpret_response(&rbuf),
        CommandResult::Completed
    );
    assert_eq!(
        Command::SetVolume(Volume::new(3)).interpret_response(&rbuf),
        CommandResult::Completed
    );
}
