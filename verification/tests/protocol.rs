use led_badge::protocol::{
    ClockReading, DisplayMode, MessageConfig, ProtocolHeader, CHUNK_SIZE, HEADER_SIZE,
    MAX_PAYLOAD_SIZE,
};

fn clock() -> ClockReading {
    ClockReading { year: 2024, month: 3, day: 9, hour: 14, minute: 5, second: 59 }
}

#[test]
fn test_header_magic() {
    let header = ProtocolHeader::new()
        .add_message(MessageConfig::default(), 5)
        .build();

    assert_eq!(&header[0..4], &[0x77, 0x61, 0x6e, 0x67]);
}

#[test]
fn test_brightness() {
    let header = ProtocolHeader::new()
        .brightness(25)
        .add_message(MessageConfig::default(), 5)
        .build();

    assert_eq!(header[5], 0x40);
}

#[test]
fn brightness_codes_for_each_level() {
    let code = |b: u8| ProtocolHeader::new().brightness(b).build_at(clock())[5];
    assert_eq!(code(0), 0x40);
    assert_eq!(code(25), 0x40);
    assert_eq!(code(26), 0x20);
    assert_eq!(code(50), 0x20);
    assert_eq!(code(51), 0x10);
    assert_eq!(code(75), 0x10);
    assert_eq!(code(76), 0x00);
    assert_eq!(code(100), 0x00);
    assert_eq!(code(255), 0x00);
}

#[test]
fn brightness_is_clamped() {
    assert_eq!(ProtocolHeader::new().brightness_percent(), 100);
    assert_eq!(ProtocolHeader::new().brightness(3).brightness_percent(), 25);
    assert_eq!(ProtocolHeader::new().brightness(60).brightness_percent(), 60);
    assert_eq!(ProtocolHeader::new().brightness(200).brightness_percent(), 100);
}

#[test]
fn ninth_message_is_ignored() {
    let mut header = ProtocolHeader::new();
    for i in 0..10 {
        header = header.add_message(MessageConfig::default(), i);
    }
    assert_eq!(header.message_count(), 8);
    let bytes = header.build_at(clock());
    // the eighth message has length 7, the ninth (8) is not stored
    assert_eq!(bytes[16 + 2 * 7], 0);
    assert_eq!(bytes[17 + 2 * 7], 7);
}

#[test]
fn full_header_layout() {
    let blink = MessageConfig { speed: 8, mode: DisplayMode::Laser, blink: true, animated_border: false };
    let ants = MessageConfig { speed: 1, mode: DisplayMode::ScrollUp, blink: false, animated_border: true };
    let wild = MessageConfig { speed: 0, mode: DisplayMode::Curtain, blink: true, animated_border: true };
    let header = ProtocolHeader::new()
        .brightness(60)
        .add_message(blink, 0x1234)
        .add_message(ants, 3)
        .add_message(wild, 70000)
        .build_at(clock());
    let mut expected = [0u8; 64];
    expected[0..4].copy_from_slice(&[0x77, 0x61, 0x6e, 0x67]);
    expected[5] = 0x10;
    expected[6] = 0b101;
    expected[7] = 0b110;
    expected[8] = 0x78;
    expected[9] = 0x02;
    expected[10] = 0x07;
    for i in 11..16 {
        expected[i] = 0x30;
    }
    expected[16] = 0x12;
    expected[17] = 0x34;
    expected[18] = 0x00;
    expected[19] = 0x03;
    // 70000 = 0x11170, kept modulo 65536
    expected[20] = 0x11;
    expected[21] = 0x70;
    expected[38..44].copy_from_slice(&[24, 3, 9, 14, 5, 59]);
    assert_eq!(header, expected);
}

#[test]
fn two_digit_year() {
    let t = ClockReading { year: 1999, month: 12, day: 31, hour: 23, minute: 59, second: 0 };
    let header = ProtocolHeader::new().build_at(t);
    assert_eq!(&header[38..44], &[99, 12, 31, 23, 59, 0]);
}

#[test]
fn build_uses_a_valid_clock_reading() {
    let header = ProtocolHeader::new().build();
    assert!(header[38] < 100);
    assert!((1..=12).contains(&header[39]));
    assert!((1..=31).contains(&header[40]));
    assert!(header[41] < 24);
    assert!(header[42] < 60);
    assert!(header[43] < 60);
}

#[test]
fn empty_header_defaults() {
    let header = ProtocolHeader::default().build_at(clock());
    assert_eq!(header[5], 0x00);
    assert_eq!(header[6], 0);
    assert_eq!(header[7], 0);
    for i in 8..16 {
        assert_eq!(header[i], 0x30);
    }
    for i in 16..38 {
        assert_eq!(header[i], 0);
    }
    for i in 44..64 {
        assert_eq!(header[i], 0);
    }
}

#[test]
fn display_mode_numbers() {
    for code in 0u8..=8 {
        assert_eq!(DisplayMode::from(code).code(), code);
    }
    assert_eq!(DisplayMode::from(9), DisplayMode::ScrollLeft);
    assert_eq!(DisplayMode::from(255), DisplayMode::ScrollLeft);
    assert_eq!(DisplayMode::default(), DisplayMode::ScrollLeft);
}

#[test]
fn message_config_default() {
    let c = MessageConfig::default();
    assert_eq!(c.speed, 4);
    assert_eq!(c.mode, DisplayMode::ScrollLeft);
    assert!(!c.blink);
    assert!(!c.animated_border);
}

#[test]
fn protocol_sizes() {
    assert_eq!(HEADER_SIZE, 64);
    assert_eq!(CHUNK_SIZE, 64);
    assert_eq!(MAX_PAYLOAD_SIZE, 8192);
}
