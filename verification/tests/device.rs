use riddle::device::{choose_devices, classify, DeviceKind, InputNode};

fn node(file_name: &str, name: &str) -> InputNode {
    InputNode { file_name: file_name.to_string(), name: name.to_string() }
}

#[test]
fn classifies_by_name() {
    assert_eq!(classify("Wacom I2C Digitizer"), DeviceKind::Pen);
    assert_eq!(classify("cyttsp5_mt"), DeviceKind::Touch);
    assert_eq!(classify("pt_mt"), DeviceKind::Touch);
    assert_eq!(classify("Some TOUCHscreen"), DeviceKind::Touch);
    assert_eq!(classify("30370000.snvs:snvs-powerkey"), DeviceKind::Other);
    assert_eq!(classify("wacom touch"), DeviceKind::Pen);
}

#[test]
fn finds_pen_and_touch() {
    let nodes = vec![
        node("event0", "30370000.snvs:snvs-powerkey\n"),
        node("event1", "Wacom I2C Digitizer\n"),
        node("event2", "pt_mt\n"),
        node("mouse0", "Wacom ghost"),
    ];
    let d = choose_devices(&nodes, None, None).unwrap();
    assert_eq!(d.pen, "/dev/input/event1");
    assert_eq!(d.pen_name, "Wacom I2C Digitizer");
    assert_eq!(d.touch, "/dev/input/event2");
    assert_eq!(d.touch_name, "pt_mt");
}

#[test]
fn the_last_match_wins() {
    let nodes = vec![node("event1", "wacom a"), node("event3", "wacom b"), node("event2", "touch")];
    let d = choose_devices(&nodes, None, None).unwrap();
    assert_eq!(d.pen, "/dev/input/event3");
}

#[test]
fn overrides_win() {
    let nodes = vec![node("event1", "Wacom"), node("event2", "touch")];
    let d = choose_devices(&nodes, Some("/dev/input/event7"), None).unwrap();
    assert_eq!(d.pen, "/dev/input/event7");
    assert_eq!(d.pen_name, "(override) /dev/input/event7");
    assert_eq!(d.touch, "/dev/input/event2");
    let d = choose_devices(&[], Some("/p"), Some("/t")).unwrap();
    assert_eq!((d.pen.as_str(), d.touch.as_str()), ("/p", "/t"));
}

#[test]
fn missing_device_names_what_was_found() {
    let e = choose_devices(&[node("event1", " Wacom I2C ")], None, None).unwrap_err();
    assert_eq!(e.pen, Some("Wacom I2C".to_string()));
    assert_eq!(e.touch, None);
    let e = choose_devices(&[], None, None).unwrap_err();
    assert_eq!((e.pen, e.touch), (None, None));
}
