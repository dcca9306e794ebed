use riddle::events::{
    describe, encode_frame, Event, ABS_MT_SLOT, ABS_X, BTN_TOOL_RUBBER, BTN_TOUCH, EVENT_SIZE,
    EV_ABS, EV_KEY, EV_SYN, SYN_REPORT,
};

#[test]
fn encode_lays_out_little_endian_record() {
    let e = Event::new(EV_ABS, 0x18, 2200);
    let b = e.encode();
    assert_eq!(b.len(), EVENT_SIZE);
    assert_eq!(&b[0..8], &[0u8; 8]);
    assert_eq!(&b[8..10], &[3, 0]);
    assert_eq!(&b[10..12], &[0x18, 0]);
    assert_eq!(&b[12..16], &2200i32.to_le_bytes());
}

#[test]
fn parse_reads_what_encode_wrote() {
    for e in [
        Event::new(EV_KEY, BTN_TOOL_RUBBER, 1),
        Event::new(EV_ABS, ABS_X, -2300),
        Event::new(EV_ABS, 0xffff, i32::MIN),
        Event::new(0xabcd, 0x1234, i32::MAX),
    ] {
        assert_eq!(Event::parse(&e.encode()), e);
    }
}

#[test]
fn parse_ignores_timestamp() {
    let mut b = Event::new(EV_KEY, BTN_TOUCH, 1).encode().to_vec();
    for x in b.iter_mut().take(8) {
        *x = 0x5a;
    }
    b.push(99);
    assert_eq!(Event::parse(&b), Event::new(EV_KEY, BTN_TOUCH, 1));
}

#[test]
fn frame_ends_with_syn_report() {
    let events = [Event::new(EV_KEY, BTN_TOUCH, 1), Event::new(EV_ABS, ABS_X, 7)];
    let buf = encode_frame(&events);
    assert_eq!(buf.len(), 3 * EVENT_SIZE);
    assert_eq!(Event::parse(&buf[0..16]), events[0]);
    assert_eq!(Event::parse(&buf[16..32]), events[1]);
    assert_eq!(Event::parse(&buf[32..48]), Event::new(EV_SYN, SYN_REPORT, 0));
    assert_eq!(encode_frame(&[]).len(), EVENT_SIZE);
}

#[test]
fn describe_names_known_codes() {
    assert_eq!(describe(&Event::new(EV_KEY, BTN_TOUCH, 1)), "KEY BTN_TOUCH = 1");
    assert_eq!(describe(&Event::new(EV_ABS, ABS_X, -2300)), "ABS ABS_X = -2300");
    assert_eq!(describe(&Event::new(EV_ABS, ABS_MT_SLOT, 0)), "ABS ABS_MT_SLOT = 0");
    assert_eq!(describe(&Event::new(EV_SYN, SYN_REPORT, 0)), "SYN SYN_REPORT = 0");
}

#[test]
fn describe_falls_back_to_numbers() {
    assert_eq!(describe(&Event::new(EV_ABS, 99, -5)), "ABS code_99 = -5");
    assert_eq!(describe(&Event::new(7, 330, i32::MIN)), "??? code_330 = -2147483648");
    assert_eq!(describe(&Event::new(EV_KEY, ABS_X, 12345)), "KEY code_0 = 12345");
}
