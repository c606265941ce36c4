use vstd::prelude::*;
use crate::actuator::DeviceInfo;
use crate::devices::{connected, device_names, first_occurrences, get_device_capabilities, get_device_names,
    get_device_connected, kind_order, named_has_kind};
use crate::actuator::kind_name;
use crate::scheduler::TkParams;
use crate::selector::TkDeviceSelector;
use crate::settings::{TkSettings, normalized_all, sanitize_input_string, texts};
use crate::speed::{Speed, TkDuration, TkPattern};

verus! {

/// The handle that stands for an action that was not accepted.
pub const ERROR_HANDLE: i32 = -1;

/// How many events one poll of all pending events hands out at most.
pub const MAX_EVENTS_PER_POLL: usize = 128;

/// Whether a poll that has collected `collected` events takes another.
pub fn poll_more(collected: usize) -> (r: bool)
    ensures
        r == (collected < MAX_EVENTS_PER_POLL),
{
    collected < MAX_EVENTS_PER_POLL
}

/// A message to the command worker.
#[derive(Clone, Debug)]
pub enum TkAction {
    Scan,
    StopScan,
    Control(i32, TkParams),
    Stop(i32),
    StopAll,
    Disconnect,
}

/// What the runtime reports to its host.
#[derive(Clone, Debug)]
pub enum TkEvent {
    DeviceAdded(String),
    DeviceRemoved(String),
    ScanStarted,
    ScanStopped,
    ScanFailed(String),
    Disconnect,
    Stop,
    StopAll,
    Other(String),
}

/// How the link to the device server stands.
#[derive(Clone, Debug)]
pub enum TkConnectionStatus {
    NotConnected,
    Connected,
    Failed(String),
}

/// The connection status after an event.
pub open spec fn status_after(status: TkConnectionStatus, event: TkEvent) -> TkConnectionStatus {
    match event {
        TkEvent::ScanStarted => TkConnectionStatus::Connected,
        TkEvent::ScanFailed(e) => TkConnectionStatus::Failed(e),
        _ => status,
    }
}

/// The selector a request with these tags gets, over the tags as given.
pub open spec fn selector_for(tags: Seq<Seq<char>>, selector: TkDeviceSelector) -> bool {
    match selector {
        TkDeviceSelector::All => tags.len() == 0,
        TkDeviceSelector::ByNames(v) => tags.len() > 0 && texts(v@) == normalized_all(tags),
    }
}

/// The state of the control-plane: settings, connection status and the last
/// handle issued.
#[derive(Debug)]
pub struct Telekinesis {
    pub settings: TkSettings,
    pub connection_status: TkConnectionStatus,
    pub last_handle: i32,
}

impl Telekinesis {
    pub open spec fn wf(&self) -> bool {
        self.settings.wf() && self.last_handle >= 0
    }

    pub fn new(settings: TkSettings) -> (r: Telekinesis)
        requires
            settings.wf(),
        ensures
            r.wf(),
            r.settings == settings,
            r.connection_status is NotConnected,
            r.last_handle == 0,
    {
        Telekinesis { settings, connection_status: TkConnectionStatus::NotConnected, last_handle: 0 }
    }

    /// Issues a fresh handle, larger than every one issued before.
    pub fn get_next_handle(&mut self) -> (r: i32)
        requires
            old(self).last_handle < i32::MAX,
        ensures
            r == old(self).last_handle + 1,
            r > old(self).last_handle,
            final(self).last_handle == r,
            final(self).settings == old(self).settings,
            final(self).connection_status == old(self).connection_status,
    {
        self.last_handle = self.last_handle + 1;
        self.last_handle
    }

    /// Issues a handle for playing `pattern` on the devices with these tags,
    /// or on all devices when there are none, and gives the action to submit.
    pub fn vibrate_pattern(&mut self, pattern: TkPattern, events: Vec<String>) -> (r: (i32, TkAction))
        requires
            old(self).wf(),
            old(self).last_handle < i32::MAX,
        ensures
            final(self).wf(),
            r.0 == old(self).last_handle + 1,
            final(self).last_handle == r.0,
            final(self).settings == old(self).settings,
            final(self).connection_status == old(self).connection_status,
            r.1 matches TkAction::Control(h, p) && h == r.0 && p.pattern == pattern && selector_for(
                texts(events@),
                p.selector,
            ),
    {
        let handle = self.get_next_handle();
        let ghost raw = texts(events@);
        let tags = sanitize_input_string(events);
        assert(texts(tags@).len() == tags@.len());
        assert(normalized_all(raw).len() == raw.len());
        let selector = TkDeviceSelector::from_events(tags);
        (handle, TkAction::Control(handle, TkParams { selector, pattern }))
    }

    /// Issues a handle for vibrating at `speed` for `duration` on the devices
    /// with these tags, or on all devices when there are none.
    pub fn vibrate(&mut self, speed: Speed, duration: TkDuration, events: Vec<String>) -> (r: (i32, TkAction))
        requires
            old(self).wf(),
            old(self).last_handle < i32::MAX,
        ensures
            final(self).wf(),
            r.0 == old(self).last_handle + 1,
            final(self).last_handle == r.0,
            final(self).settings == old(self).settings,
            final(self).connection_status == old(self).connection_status,
            r.1 matches TkAction::Control(h, p) && h == r.0 && p.pattern == TkPattern::Linear(duration, speed)
                && selector_for(texts(events@), p.selector),
    {
        self.vibrate_pattern(TkPattern::Linear(duration, speed), events)
    }

    /// Issues a handle for vibrating every device at `speed` for `duration`.
    pub fn vibrate_all(&mut self, speed: Speed, duration: TkDuration) -> (r: (i32, TkAction))
        requires
            old(self).wf(),
            old(self).last_handle < i32::MAX,
        ensures
            final(self).wf(),
            r.0 == old(self).last_handle + 1,
            final(self).last_handle == r.0,
            final(self).settings == old(self).settings,
            final(self).connection_status == old(self).connection_status,
            r.1 matches TkAction::Control(h, p) && h == r.0 && p.pattern == TkPattern::Linear(duration, speed)
                && p.selector is All,
    {
        let handle = self.get_next_handle();
        (
            handle,
            TkAction::Control(
                handle,
                TkParams { selector: TkDeviceSelector::All, pattern: TkPattern::Linear(duration, speed) },
            ),
        )
    }

    /// Takes note of an event the host polled: a started scan means connected,
    /// a failed one means failed.
    pub fn on_event(&mut self, event: &TkEvent)
        ensures
            final(self).connection_status == status_after(old(self).connection_status, *event),
            final(self).settings == old(self).settings,
            final(self).last_handle == old(self).last_handle,
    {
        match event {
            TkEvent::ScanStarted => {
                self.connection_status = TkConnectionStatus::Connected;
            },
            TkEvent::ScanFailed(e) => {
                self.connection_status = TkConnectionStatus::Failed(e.clone());
            },
            _ => {},
        }
    }

    pub fn settings_set_enabled(&mut self, device_name: &str, enabled: bool)
        requires
            old(self).wf(),
        ensures
            final(self).wf(),
            final(self).settings.enabled_spec(device_name@) == enabled,
            final(self).settings.events_spec(device_name@) == old(self).settings.events_spec(device_name@),
            final(self).settings.others_kept(&old(self).settings, device_name@),
            final(self).last_handle == old(self).last_handle,
            final(self).connection_status == old(self).connection_status,
            final(self).settings.knows(device_name@),
            final(self).settings.names_spec() == if old(self).settings.knows(device_name@) {
                old(self).settings.names_spec()
            } else {
                old(self).settings.names_spec().push(device_name@)
            },
            final(self).settings.connection == old(self).settings.connection,
            final(self).settings.pattern_path == old(self).settings.pattern_path,
    {
        self.settings.set_enabled(device_name, enabled);
    }

    pub fn settings_get_enabled(&self, device_name: &str) -> (r: bool)
        requires
            self.wf(),
        ensures
            r == self.settings.enabled_spec(device_name@),
    {
        self.settings.is_enabled(device_name)
    }

    pub fn settings_set_events(&mut self, device_name: &str, events: Vec<String>)
        requires
            old(self).wf(),
        ensures
            final(self).wf(),
            final(self).settings.events_spec(device_name@) == normalized_all(texts(events@)),
            final(self).settings.enabled_spec(device_name@) == old(self).settings.enabled_spec(device_name@),
            final(self).settings.others_kept(&old(self).settings, device_name@),
            final(self).last_handle == old(self).last_handle,
            final(self).connection_status == old(self).connection_status,
            final(self).settings.knows(device_name@),
            final(self).settings.names_spec() == if old(self).settings.knows(device_name@) {
                old(self).settings.names_spec()
            } else {
                old(self).settings.names_spec().push(device_name@)
            },
            final(self).settings.connection == old(self).settings.connection,
            final(self).settings.pattern_path == old(self).settings.pattern_path,
    {
        self.settings.set_events(device_name, events);
    }

    pub fn settings_get_events(&self, device_name: &str) -> (r: Vec<String>)
        requires
            self.wf(),
        ensures
            texts(r@) == self.settings.events_spec(device_name@),
    {
        self.settings.get_events(device_name)
    }

    /// The names of the connected devices and of the configured ones, each once.
    pub fn get_device_names(&self, devices: &Vec<DeviceInfo>) -> (r: Vec<String>)
        ensures
            texts(r@) == first_occurrences(device_names(devices@) + self.settings.names_spec()),
    {
        get_device_names(devices, &self.settings)
    }

    /// The kinds of the channels of the connected devices of that name.
    pub fn get_device_capabilities(&self, devices: &Vec<DeviceInfo>, name: &str) -> (r: Vec<String>)
        ensures
            texts(r@) == kind_order().filter(|k: crate::actuator::ActuatorKind| named_has_kind(devices@, name@, k)).map_values(
                |k: crate::actuator::ActuatorKind| kind_name(k),
            ),
    {
        get_device_capabilities(devices, name)
    }

    pub fn get_device_connected(&self, devices: &Vec<DeviceInfo>, name: &str) -> (r: bool)
        ensures
            r == connected(devices@, name@),
    {
        get_device_connected(devices, name)
    }
}

} // verus!
