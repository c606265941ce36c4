use telekinesis::actuator::{get_actuators, Actuator, ActuatorKind, DeviceInfo};
use telekinesis::settings::{normalize_tag, sanitize_input_string, TkSettings};
use telekinesis::speed::{Speed, TkDuration};
use telekinesis::stack::PriorityStack;

#[test]
fn speed_is_clamped() {
    assert_eq!(Speed::new(-5).value, 0);
    assert_eq!(Speed::new(0).value, 0);
    assert_eq!(Speed::new(42).value, 42);
    assert_eq!(Speed::new(100).value, 100);
    assert_eq!(Speed::new(250).value, 100);
    assert_eq!(Speed::max().value, 100);
    assert_eq!(Speed::min().value, 0);
}

#[test]
fn durations() {
    assert_eq!(TkDuration::from_secs(3), TkDuration::Timed(3000));
    assert_eq!(TkDuration::from_millis(7), TkDuration::Timed(7));
    assert_eq!(TkDuration::from_secs(u64::MAX), TkDuration::Timed(u64::MAX));
    assert!(TkDuration::Infinite.is_infinite());
}

#[test]
fn stack_push_update_pop() {
    let mut s = PriorityStack::new();
    assert_eq!(s.top(), None);
    assert!(s.push(1, Speed::new(20)));
    assert!(s.push(2, Speed::new(40)));
    assert!(!s.push(3, Speed::new(40)));
    assert_eq!(s.len(), 3);
    assert!(!s.update(1, Speed::new(90)));
    assert!(s.update(3, Speed::new(10)));
    assert_eq!(s.top(), Some(Speed::new(10)));
    assert_eq!(s.pop(2), (false, Some(Speed::new(10))));
    assert_eq!(s.pop(3), (true, Some(Speed::new(90))));
    assert_eq!(s.pop(3), (false, Some(Speed::new(90))));
    assert_eq!(s.pop(1), (true, None));
    assert!(s.is_empty());
}

#[test]
fn tags_are_normalized() {
    assert_eq!(normalize_tag("  SoMe EvEnT  "), "some event");
    assert_eq!(normalize_tag("x"), "x");
    assert_eq!(
        sanitize_input_string(vec![String::from(" A "), String::from("b\t")]),
        vec![String::from("a"), String::from("b")]
    );
}

#[test]
fn settings_round_trip() {
    let mut s = TkSettings::default();
    assert!(!s.is_enabled("dev"));
    assert!(s.is_selectable("dev"));
    s.set_events("dev", vec![String::from(" Hit "), String::from("KISS")]);
    assert_eq!(s.get_events("dev"), vec![String::from("hit"), String::from("kiss")]);
    assert!(!s.is_enabled("dev"));
    s.set_enabled("dev", true);
    assert!(s.is_enabled("dev"));
    assert_eq!(s.get_events("dev"), vec![String::from("hit"), String::from("kiss")]);
    s.set_enabled("dev", true);
    assert_eq!(s.devices.len(), 1);
    assert!(s.get_events("other").is_empty());
}

#[test]
fn actuators_are_enumerated_in_order() {
    let d = DeviceInfo {
        index: 3,
        name: String::from("toy"),
        scalar: vec![ActuatorKind::Vibrate, ActuatorKind::Inflate],
        linear: 1,
        rotate: 2,
    };
    let e = DeviceInfo { index: 4, name: String::from("other"), scalar: vec![ActuatorKind::Oscillate], linear: 0, rotate: 0 };
    let all = get_actuators(&vec![d.clone(), e]);
    let ids: Vec<String> = all.iter().map(|a| a.identifier()).collect();
    assert_eq!(
        ids,
        vec!["toy[0].Vibrate", "toy[1].Inflate", "toy[0].Position", "toy[0].Rotate", "toy[1].Rotate", "other[0].Oscillate"]
    );
    assert_eq!(Actuator::from(&d).len(), 5);
}

#[test]
fn actuator_descriptions() {
    let d = DeviceInfo { index: 1, name: String::from("ToyName"), scalar: vec![ActuatorKind::Vibrate], linear: 0, rotate: 0 };
    let a = Actuator::new(&d, ActuatorKind::Vibrate, 0);
    assert_eq!(a.identifier(), "ToyName[0].Vibrate");
    assert_eq!(a.description(), "ToyName (Vibrate)");
    let b = Actuator::new(&d, ActuatorKind::Inflate, 12);
    assert_eq!(b.identifier(), "ToyName[12].Inflate");
    assert_eq!(b.description(), "ToyName (Inflate 12)");
}

#[test]
fn websocket_address() {
    assert_eq!(telekinesis::settings::websocket_uri("127.0.0.1:12345"), "ws://127.0.0.1:12345");
}

#[test]
fn device_index_lookup() {
    let d = DeviceInfo { index: 7, name: String::from("toy"), scalar: vec![], linear: 0, rotate: 0 };
    assert!(telekinesis::devices::has_device_index(&vec![d.clone()], 7));
    assert!(!telekinesis::devices::has_device_index(&vec![d], 8));
}

#[test]
fn setting_twice_keeps_one_entry_in_place() {
    let mut s = TkSettings::default();
    s.set_enabled("a", true);
    s.set_events("b", vec![String::from("x")]);
    s.set_enabled("a", false);
    s.set_enabled("a", false);
    s.set_events("b", vec![String::from("x")]);
    let names: Vec<String> = s.devices.iter().map(|d| d.name.clone()).collect();
    assert_eq!(names, vec![String::from("a"), String::from("b")]);
    assert!(!s.is_enabled("a"));
}

#[test]
fn unicode_white_space_is_trimmed() {
    assert_eq!(normalize_tag("\u{a0}\tHit\u{3000}\u{2028}"), "hit");
    assert_eq!(normalize_tag(" a b "), "a b");
}
