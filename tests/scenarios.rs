use telekinesis::actuator::{get_actuators, ActuatorKind, DeviceInfo};
use telekinesis::scheduler::{initial_strength, DeviceAction, DeviceCommand, PatternSample, Scheduler};
use telekinesis::settings::TkSettings;
use telekinesis::speed::{Speed, TkDuration, TkPattern};
use telekinesis::telekinesis::{TkAction, TkConnectionStatus, TkEvent, Telekinesis};

/// Drives the library as the runtime does, on a simulated clock.
struct Rig {
    tk: Telekinesis,
    devices: Vec<DeviceInfo>,
    scheduler: Scheduler,
    log: Vec<(u64, DeviceCommand)>,
    deadlines: Vec<(u64, i32)>,
    now: u64,
}

fn scalar(index: u32, name: &str, kind: ActuatorKind) -> DeviceInfo {
    DeviceInfo { index, name: String::from(name), scalar: vec![kind], linear: 0, rotate: 0 }
}

fn linear(index: u32, name: &str) -> DeviceInfo {
    DeviceInfo { index, name: String::from(name), scalar: vec![], linear: 1, rotate: 0 }
}

fn rotator(index: u32, name: &str) -> DeviceInfo {
    DeviceInfo { index, name: String::from(name), scalar: vec![], linear: 0, rotate: 1 }
}

fn wait_for_connection(devices: Vec<DeviceInfo>) -> Rig {
    let mut tk = Telekinesis::new(TkSettings::default());
    for d in devices.iter() {
        tk.settings_set_enabled(&d.name, true);
    }
    Rig { tk, devices, scheduler: Scheduler::new(), log: vec![], deadlines: vec![], now: 0 }
}

impl Rig {
    fn submit(&mut self, action: TkAction) {
        self.submit_with(action, &vec![]);
    }

    fn submit_with(&mut self, action: TkAction, samples: &Vec<PatternSample>) {
        let cmds = match action {
            TkAction::Control(handle, params) => {
                let actuators = get_actuators(&self.devices);
                match initial_strength(&params.pattern, samples) {
                    Some(initial) => {
                        if let TkDuration::Timed(ms) = params.pattern.duration() {
                            self.deadlines.push((self.now + ms, handle));
                        }
                        self.scheduler.control(handle, &params, &actuators, &self.tk.settings, initial)
                    }
                    None => vec![],
                }
            }
            TkAction::Stop(handle) => self.scheduler.stop(handle),
            TkAction::StopAll => self.scheduler.stop_all(),
            _ => vec![],
        };
        self.record(cmds);
    }

    fn record(&mut self, cmds: Vec<DeviceCommand>) {
        for c in cmds {
            self.log.push((self.now, c));
        }
    }

    fn vibrate(&mut self, speed: Speed, duration: TkDuration, events: Vec<String>) -> i32 {
        let (h, action) = self.tk.vibrate(speed, duration, events);
        self.submit(action);
        h
    }

    fn vibrate_all(&mut self, speed: Speed, duration: TkDuration) -> i32 {
        let (h, action) = self.tk.vibrate_all(speed, duration);
        self.submit(action);
        h
    }

    fn stop(&mut self, handle: i32) {
        self.submit(TkAction::Stop(handle));
    }

    /// Lets time pass, ending timed actions as their time runs out.
    fn sleep(&mut self, ms: u64) {
        let until = self.now + ms;
        loop {
            let next = self.deadlines.iter().enumerate().filter(|(_, d)| d.0 <= until).min_by_key(|(_, d)| d.0);
            match next {
                Some((i, &(at, handle))) => {
                    self.deadlines.remove(i);
                    self.now = at;
                    let cmds = self.scheduler.stop(handle);
                    self.record(cmds);
                }
                None => break,
            }
        }
        self.now = until;
    }

    fn device_calls(&self, device: &str) -> Vec<DeviceAction> {
        self.log.iter().filter(|(_, c)| c.actuator.device_name == device).map(|(_, c)| c.action).collect()
    }

    fn assert_vibrated(&self, device: &str) {
        let calls = self.device_calls(device);
        assert!(calls.iter().any(|a| matches!(a, DeviceAction::Scalar(s) if s.value > 0)), "{} was not started", device);
        assert_eq!(calls.last(), Some(&DeviceAction::Stop), "{} was not stopped", device);
    }

    fn assert_started(&self, device: &str) {
        let calls = self.device_calls(device);
        assert!(matches!(calls.last(), Some(DeviceAction::Scalar(s)) if s.value > 0), "{} is not running", device);
    }

    fn assert_not_vibrated(&self, device: &str) {
        assert!(self.device_calls(device).is_empty(), "{} was driven", device);
    }
}

fn started(percent: u16) -> DeviceAction {
    DeviceAction::Scalar(Speed { value: percent })
}

#[test]
fn get_devices_contains_connected_devices() {
    let rig = wait_for_connection(vec![scalar(1, "vib1", ActuatorKind::Vibrate), scalar(2, "vib2", ActuatorKind::Inflate)]);
    assert!(rig.devices.len() == 2, "Enough devices connected");
    assert!(rig.tk.get_device_names(&rig.devices).contains(&String::from("vib1")), "Contains name vib1");
    assert!(rig.tk.get_device_names(&rig.devices).contains(&String::from("vib2")), "Contains name vib2");
}

#[test]
fn get_devices_contains_devices_from_settings() {
    let mut rig = wait_for_connection(vec![]);
    rig.tk.settings_set_enabled("foreign", true);
    assert!(
        rig.tk.get_device_names(&rig.devices).contains(&String::from("foreign")),
        "Contains additional device from settings"
    );
}

#[test]
fn device_names_are_listed_once_in_order() {
    let mut rig = wait_for_connection(vec![scalar(1, "vib1", ActuatorKind::Vibrate), scalar(2, "vib2", ActuatorKind::Vibrate)]);
    rig.tk.settings_set_enabled("foreign", false);
    assert_eq!(
        rig.tk.get_device_names(&rig.devices),
        vec![String::from("vib1"), String::from("vib2"), String::from("foreign")]
    );
}

#[test]
fn vibrate_all_demo_only_vibrates_vibrators() {
    let mut rig = wait_for_connection(vec![
        scalar(1, "scalar", ActuatorKind::Vibrate),
        linear(4, "linear"),
        rotator(7, "rotator"),
    ]);
    rig.vibrate_all(Speed::new(100), TkDuration::from_millis(1));
    rig.sleep(50);
    rig.assert_vibrated("scalar");
    rig.assert_not_vibrated("linear");
    rig.assert_not_vibrated("rotator");
}

#[test]
fn vibrate_all_only_vibrates_vibrators() {
    let mut rig = wait_for_connection(vec![scalar(1, "vib1", ActuatorKind::Vibrate), scalar(2, "vib2", ActuatorKind::Inflate)]);
    rig.vibrate_all(Speed::new(100), TkDuration::from_millis(1));
    rig.sleep(50);
    assert_eq!(rig.device_calls("vib1"), vec![started(100), DeviceAction::Stop]);
    rig.assert_not_vibrated("vib2");
}

#[test]
fn vibrate_non_existing_device() {
    let mut rig = wait_for_connection(vec![scalar(1, "vib1", ActuatorKind::Vibrate)]);
    rig.vibrate(Speed::max(), TkDuration::from_millis(1), vec![String::from("does not exist")]);
    rig.sleep(50);
    rig.assert_not_vibrated("vib1");
}

#[test]
fn vibrate_two_devices_simultaneously_both_are_started_and_stopped() {
    let mut rig = wait_for_connection(vec![scalar(1, "vib1", ActuatorKind::Vibrate), scalar(2, "vib2", ActuatorKind::Vibrate)]);
    rig.tk.settings_set_events("vib1", vec![String::from("device 1")]);
    rig.tk.settings_set_events("vib2", vec![String::from("device 2")]);
    rig.vibrate(Speed::new(99), TkDuration::from_millis(3000), vec![String::from("device 1")]);
    rig.vibrate(Speed::new(88), TkDuration::from_millis(3000), vec![String::from("device 2")]);
    rig.sleep(5000);
    rig.assert_vibrated("vib1");
    rig.assert_vibrated("vib2");
    assert_eq!(rig.device_calls("vib1"), vec![started(99), DeviceAction::Stop]);
    assert_eq!(rig.device_calls("vib2"), vec![started(88), DeviceAction::Stop]);
}

#[test]
fn linear_correct_priority_2() {
    let mut rig = wait_for_connection(vec![scalar(1, "vib1", ActuatorKind::Vibrate)]);
    rig.vibrate(Speed::new(50), TkDuration::from_secs(1), vec![]);
    rig.sleep(500);
    rig.vibrate(Speed::new(100), TkDuration::from_millis(10), vec![]);
    rig.sleep(1000);
    let calls = rig.device_calls("vib1");
    assert_eq!(calls[0], started(50));
    assert_eq!(calls[1], started(100));
    assert_eq!(calls[2], started(50));
    assert_eq!(calls[3], DeviceAction::Stop);
    assert_eq!(calls.len(), 4);
}

#[test]
fn linear_correct_priority_3() {
    let mut rig = wait_for_connection(vec![scalar(1, "vib1", ActuatorKind::Vibrate)]);
    rig.vibrate(Speed::new(20), TkDuration::from_secs(3), vec![]);
    rig.sleep(250);
    rig.vibrate(Speed::new(40), TkDuration::from_secs(2), vec![]);
    rig.sleep(250);
    rig.vibrate(Speed::new(80), TkDuration::from_secs(1), vec![]);
    rig.sleep(3000);
    let calls = rig.device_calls("vib1");
    assert_eq!(calls[0], started(20));
    assert_eq!(calls[1], started(40));
    assert_eq!(calls[2], started(80));
    assert_eq!(calls[3], started(40));
    assert_eq!(calls[4], started(20));
    assert_eq!(calls[5], DeviceAction::Stop);
    assert_eq!(calls.len(), 6);
}

#[test]
fn linear_correct_priority_4() {
    let mut rig = wait_for_connection(vec![scalar(1, "vib1", ActuatorKind::Vibrate)]);
    rig.vibrate(Speed::new(20), TkDuration::from_secs(3), vec![]);
    rig.sleep(250);
    rig.vibrate(Speed::new(40), TkDuration::from_secs(1), vec![]);
    rig.sleep(250);
    rig.vibrate(Speed::new(80), TkDuration::from_secs(2), vec![]);
    rig.sleep(3000);
    let calls = rig.device_calls("vib1");
    assert_eq!(calls[0], started(20));
    assert_eq!(calls[1], started(40));
    assert_eq!(calls[2], started(80));
    assert_eq!(calls[3], started(80));
    assert_eq!(calls[4], started(20));
    assert_eq!(calls[5], DeviceAction::Stop);
    assert_eq!(calls.len(), 6);
}

#[test]
fn linear_overrides_pattern() {
    let mut rig = wait_for_connection(vec![scalar(1, "vib1", ActuatorKind::Vibrate)]);
    let lin1 = rig.vibrate(Speed::new(99), TkDuration::Infinite, vec![]);
    rig.sleep(10);
    let samples = vec![
        PatternSample { offset_ms: 0, strength: Speed::new(20) },
        PatternSample { offset_ms: 100, strength: Speed::new(30) },
        PatternSample { offset_ms: 200, strength: Speed::new(40) },
        PatternSample { offset_ms: 300, strength: Speed::new(50) },
    ];
    let (pat1, action) = rig.tk.vibrate_pattern(
        TkPattern::Funscript(TkDuration::Infinite, String::from("31_Sawtooth-Fast")),
        vec![],
    );
    rig.submit_with(action, &samples);
    // the pattern runs on top of the linear command
    for s in samples.iter() {
        let cmds = rig.scheduler.update(pat1, s.strength);
        rig.record(cmds);
    }
    rig.stop(lin1);
    for s in samples.iter() {
        let cmds = rig.scheduler.update(pat1, s.strength);
        rig.record(cmds);
    }
    assert!(rig.device_calls("vib1").len() > 3);
}

#[test]
fn settings_only_vibrate_enabled_devices() {
    let mut rig = wait_for_connection(vec![
        scalar(1, "vib1", ActuatorKind::Vibrate),
        scalar(2, "vib2", ActuatorKind::Vibrate),
        scalar(3, "vib3", ActuatorKind::Vibrate),
    ]);
    rig.tk.settings_set_enabled("vib2", false);
    rig.vibrate(Speed::max(), TkDuration::from_millis(1), vec![]);
    rig.sleep(1000);
    rig.assert_vibrated("vib1");
    rig.assert_vibrated("vib3");
    rig.assert_not_vibrated("vib2");
}

#[test]
fn events_get() {
    let empty: Vec<String> = vec![];
    let one_event: Vec<String> = vec![String::from("evt2")];
    let two_events: Vec<String> = vec![String::from("evt2"), String::from("evt3")];
    let mut rig = wait_for_connection(vec![
        scalar(1, "vib1", ActuatorKind::Vibrate),
        scalar(2, "vib2", ActuatorKind::Vibrate),
        scalar(3, "vib3", ActuatorKind::Vibrate),
    ]);
    rig.tk.settings_set_events("vib2", one_event.clone());
    rig.tk.settings_set_events("vib3", two_events.clone());
    assert_eq!(rig.tk.settings_get_events("vib1"), empty);
    assert_eq!(rig.tk.settings_get_events("vib2"), one_event);
    assert_eq!(rig.tk.settings_get_events("vib3"), two_events);
}

#[test]
fn event_only_vibrate_selected_devices() {
    let mut rig = wait_for_connection(vec![scalar(1, "vib1", ActuatorKind::Vibrate), scalar(2, "vib2", ActuatorKind::Vibrate)]);
    rig.tk.settings_set_events("vib1", vec![String::from("selected_event")]);
    rig.tk.settings_set_events("vib2", vec![String::from("bogus")]);
    rig.vibrate(Speed::max(), TkDuration::from_millis(1), vec![String::from("selected_event")]);
    rig.sleep(1000);
    rig.assert_vibrated("vib1");
    rig.assert_not_vibrated("vib2");
}

#[test]
fn event_is_trimmed_and_ignores_casing() {
    let mut rig = wait_for_connection(vec![scalar(1, "vib1", ActuatorKind::Vibrate)]);
    rig.tk.settings_set_enabled("vib1", true);
    rig.tk.settings_set_events("vib1", vec![String::from("some event")]);
    rig.vibrate(Speed::max(), TkDuration::from_millis(1), vec![String::from(" SoMe EvEnT    ")]);
    rig.sleep(50);
    rig.assert_vibrated("vib1");
    assert_eq!(rig.device_calls("vib1")[0], started(100));
}

#[test]
fn settings_are_trimmed_and_lowercased() {
    let mut rig = wait_for_connection(vec![scalar(1, "vib1", ActuatorKind::Vibrate)]);
    rig.tk.settings_set_enabled("vib1", true);
    rig.tk.settings_set_events("vib1", vec![String::from(" SoMe EvEnT    ")]);
    assert_eq!(rig.tk.settings_get_events("vib1"), vec![String::from("some event")]);
    rig.vibrate(Speed::max(), TkDuration::from_millis(1), vec![String::from("some event")]);
    rig.sleep(50);
    rig.assert_vibrated("vib1");
}

#[test]
fn get_device_capabilities() {
    let rig = wait_for_connection(vec![
        scalar(1, "vib1", ActuatorKind::Vibrate),
        scalar(2, "vib2", ActuatorKind::Constrict),
        linear(3, "lin2"),
    ]);
    assert!(rig.tk.get_device_capabilities(&rig.devices, "not exist").is_empty(), "Non existing device returns empty list");
    // every kind a live device of that name has is reported, and only those
    assert_eq!(rig.tk.get_device_capabilities(&rig.devices, "vib2"), vec![String::from("Constrict")]);
    assert_eq!(rig.tk.get_device_capabilities(&rig.devices, "lin2"), vec![String::from("Position")]);
    assert_eq!(
        rig.tk.get_device_capabilities(&rig.devices, "vib1").first().unwrap(),
        &String::from("Vibrate"),
        "vibrator returns vibrate"
    );
}

#[test]
fn get_device_connected() {
    let rig = wait_for_connection(vec![scalar(1, "existing", ActuatorKind::Vibrate)]);
    assert!(rig.tk.get_device_connected(&rig.devices, "existing"), "Existing device returns true");
    assert_eq!(rig.tk.get_device_connected(&rig.devices, "not existing"), false, "Non-existing device returns false");
}

#[test]
fn vibrate_infinitely_and_then_stop() {
    let mut rig = wait_for_connection(vec![scalar(1, "vib1", ActuatorKind::Vibrate)]);
    let handle = rig.vibrate(Speed::max(), TkDuration::Infinite, vec![]);
    rig.sleep(1000);
    rig.assert_started("vib1");
    rig.stop(handle);
    rig.assert_vibrated("vib1");
}

#[test]
fn vibrate_linear_then_cancel() {
    let mut rig = wait_for_connection(vec![scalar(1, "vib1", ActuatorKind::Vibrate)]);
    rig.vibrate(Speed::max(), TkDuration::from_secs(10), vec![]);
    rig.sleep(1000);
    rig.assert_started("vib1");
    rig.submit(TkAction::StopAll);
    rig.assert_vibrated("vib1");
}

#[test]
fn intiface_not_available_connection_status_error() {
    let mut rig = wait_for_connection(vec![]);
    rig.tk.on_event(&TkEvent::ScanFailed(String::from("could not reach bogushost:6572")));
    match &rig.tk.connection_status {
        TkConnectionStatus::Failed(err) => assert!(err.len() > 0),
        _ => panic!("connection status is not failed"),
    }
}

#[test]
fn scan_started_means_connected() {
    let mut rig = wait_for_connection(vec![]);
    assert!(matches!(rig.tk.connection_status, TkConnectionStatus::NotConnected));
    rig.tk.on_event(&TkEvent::ScanStarted);
    assert!(matches!(rig.tk.connection_status, TkConnectionStatus::Connected));
    rig.tk.on_event(&TkEvent::DeviceAdded(String::from("vib1")));
    assert!(matches!(rig.tk.connection_status, TkConnectionStatus::Connected));
}

#[test]
fn handles_increase() {
    let mut rig = wait_for_connection(vec![scalar(1, "vib1", ActuatorKind::Vibrate)]);
    let a = rig.vibrate(Speed::max(), TkDuration::Infinite, vec![]);
    let b = rig.vibrate_all(Speed::max(), TkDuration::Infinite);
    let c = rig.vibrate(Speed::max(), TkDuration::Infinite, vec![String::from("x")]);
    assert_eq!(a, 1);
    assert!(a < b && b < c);
}

#[test]
fn disabled_device_gets_no_command() {
    let mut rig = wait_for_connection(vec![scalar(1, "vib1", ActuatorKind::Vibrate), scalar(2, "vib2", ActuatorKind::Vibrate)]);
    rig.tk.settings_set_enabled("vib1", false);
    rig.tk.settings_set_events("vib1", vec![String::from("e")]);
    rig.tk.settings_set_events("vib2", vec![String::from("e")]);
    rig.vibrate(Speed::max(), TkDuration::from_millis(5), vec![String::from("e")]);
    rig.vibrate_all(Speed::new(30), TkDuration::from_millis(5));
    rig.sleep(100);
    rig.assert_not_vibrated("vib1");
    rig.assert_vibrated("vib2");
}

#[test]
fn stop_all_twice_stops_each_actuator_once() {
    let mut rig = wait_for_connection(vec![scalar(1, "vib1", ActuatorKind::Vibrate), scalar(2, "vib2", ActuatorKind::Vibrate)]);
    rig.vibrate(Speed::new(40), TkDuration::Infinite, vec![]);
    rig.vibrate(Speed::new(60), TkDuration::Infinite, vec![]);
    rig.submit(TkAction::StopAll);
    rig.submit(TkAction::StopAll);
    assert_eq!(rig.device_calls("vib1"), vec![started(40), started(60), DeviceAction::Stop]);
    assert_eq!(rig.device_calls("vib2"), vec![started(40), started(60), DeviceAction::Stop]);
}

#[test]
fn stop_of_buried_command_reveals_the_top_again() {
    let mut rig = wait_for_connection(vec![scalar(1, "vib1", ActuatorKind::Vibrate)]);
    let low = rig.vibrate(Speed::new(30), TkDuration::Infinite, vec![]);
    let high = rig.vibrate(Speed::new(70), TkDuration::Infinite, vec![]);
    rig.stop(low);
    rig.stop(low);
    rig.stop(high);
    assert_eq!(
        rig.device_calls("vib1"),
        vec![started(30), started(70), started(70), DeviceAction::Stop]
    );
}

#[test]
fn equal_strength_push_sends_nothing() {
    let mut rig = wait_for_connection(vec![scalar(1, "vib1", ActuatorKind::Vibrate)]);
    rig.vibrate(Speed::new(50), TkDuration::Infinite, vec![]);
    rig.vibrate(Speed::new(50), TkDuration::Infinite, vec![]);
    assert_eq!(rig.device_calls("vib1"), vec![started(50)]);
}

#[test]
fn pattern_without_samples_drives_nothing() {
    let mut rig = wait_for_connection(vec![scalar(1, "vib1", ActuatorKind::Vibrate)]);
    rig.vibrate(Speed::new(30), TkDuration::Infinite, vec![]);
    let (_, action) = rig.tk.vibrate_pattern(TkPattern::Funscript(TkDuration::Infinite, String::from("missing")), vec![]);
    rig.submit_with(action, &vec![]);
    assert_eq!(rig.device_calls("vib1"), vec![started(30)]);
}

#[test]
fn funscript_starts_at_its_first_sample() {
    let samples = vec![PatternSample { offset_ms: 0, strength: Speed::new(35) }];
    let p = TkPattern::Funscript(TkDuration::Infinite, String::from("tease"));
    assert_eq!(initial_strength(&p, &samples), Some(Speed { value: 35 }));
    assert_eq!(initial_strength(&p, &vec![]), None);
    assert_eq!(initial_strength(&TkPattern::Linear(TkDuration::Infinite, Speed::new(12)), &samples), Some(Speed { value: 12 }));
}
