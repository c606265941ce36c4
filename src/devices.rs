use vstd::prelude::*;
use itertools::Itertools;
use crate::actuator::{ActuatorKind, DeviceInfo, device_actuators, kind_name};
use crate::settings::{TkSettings, same_text, texts};

verus! {

/// The texts of `s` with each repeated text left out after its first occurrence.
pub open spec fn first_occurrences(s: Seq<Seq<char>>) -> Seq<Seq<char>>
    decreases s.len(),
{
    if s.len() == 0 {
        Seq::empty()
    } else {
        let d = first_occurrences(s.drop_last());
        if d.contains(s.last()) {
            d
        } else {
            d.push(s.last())
        }
    }
}

/// Relies on itertools' `Itertools::unique`: yields each item the first time
/// an equal one comes, in the order of the input.
#[verifier::external_body]
fn unique_texts(v: Vec<String>) -> (r: Vec<String>)
    ensures
        texts(r@) == first_occurrences(texts(v@)),
{
    v.into_iter().unique().collect()
}

pub open spec fn device_names(ds: Seq<DeviceInfo>) -> Seq<Seq<char>> {
    ds.map_values(|d: DeviceInfo| d.name@)
}

pub open spec fn connected(ds: Seq<DeviceInfo>, name: Seq<char>) -> bool {
    exists|i: int| 0 <= i < ds.len() && #[trigger] ds[i].name@ == name
}

/// Whether the device has a channel of kind `k`.
pub open spec fn device_has_kind(d: DeviceInfo, k: ActuatorKind) -> bool {
    (exists|i: int| 0 <= i < d.scalar@.len() && #[trigger] d.scalar@[i] == k) || (k == ActuatorKind::Position
        && d.linear > 0) || (k == ActuatorKind::Rotate && d.rotate > 0)
}

/// Whether some connected device called `name` has a channel of kind `k`.
pub open spec fn named_has_kind(ds: Seq<DeviceInfo>, name: Seq<char>, k: ActuatorKind) -> bool {
    exists|i: int| 0 <= i < ds.len() && ds[i].name@ == name && #[trigger] device_has_kind(ds[i], k)
}

/// Every kind, in the order in which capabilities are listed.
pub open spec fn kind_order() -> Seq<ActuatorKind> {
    seq![
        ActuatorKind::Vibrate,
        ActuatorKind::Rotate,
        ActuatorKind::Oscillate,
        ActuatorKind::Constrict,
        ActuatorKind::Inflate,
        ActuatorKind::Position,
        ActuatorKind::Unknown,
    ]
}

fn all_kinds() -> (r: Vec<ActuatorKind>)
    ensures
        r@ == kind_order(),
{
    let r = vec![
        ActuatorKind::Vibrate,
        ActuatorKind::Rotate,
        ActuatorKind::Oscillate,
        ActuatorKind::Constrict,
        ActuatorKind::Inflate,
        ActuatorKind::Position,
        ActuatorKind::Unknown,
    ];
    assert(r@ =~= kind_order());
    r
}

/// The names of the connected devices, then of the configured ones, each once,
/// in order of first appearance.
pub fn get_device_names(devices: &Vec<DeviceInfo>, settings: &TkSettings) -> (r: Vec<String>)
    ensures
        texts(r@) == first_occurrences(device_names(devices@) + settings.names_spec()),
{
    let mut all: Vec<String> = Vec::new();
    let mut i: usize = 0;
    while i < devices.len()
        invariant
            i <= devices@.len(),
            texts(all@) =~= device_names(devices@.take(i as int)),
        decreases devices.len() - i,
    {
        let ghost before = all@;
        all.push(devices[i].name.clone());
        assert(all@ =~= before.push(devices@[i as int].name));
        assert(devices@.take(i + 1) =~= devices@.take(i as int).push(devices@[i as int]));
        assert(texts(all@) =~= texts(before).push(devices@[i as int].name@));
        assert(device_names(devices@.take(i + 1)) =~= device_names(devices@.take(i as int)).push(
            devices@[i as int].name@,
        ));
        i = i + 1;
    }
    assert(devices@.take(devices@.len() as int) =~= devices@);
    let mut j: usize = 0;
    while j < settings.devices.len()
        invariant
            j <= settings.devices@.len(),
            texts(all@) =~= device_names(devices@) + settings.devices@.take(j as int).map_values(
                |d: crate::settings::TkDeviceSettings| d.name@,
            ),
        decreases settings.devices.len() - j,
    {
        let ghost before = all@;
        all.push(settings.devices[j].name.clone());
        assert(all@ =~= before.push(settings.devices@[j as int].name));
        assert(settings.devices@.take(j + 1) =~= settings.devices@.take(j as int).push(settings.devices@[j as int]));
        assert(texts(all@) =~= texts(before).push(settings.devices@[j as int].name@));
        assert(settings.devices@.take(j + 1).map_values(|d: crate::settings::TkDeviceSettings| d.name@)
            =~= settings.devices@.take(j as int).map_values(|d: crate::settings::TkDeviceSettings| d.name@).push(
            settings.devices@[j as int].name@,
        ));
        j = j + 1;
    }
    assert(settings.devices@.take(settings.devices@.len() as int) =~= settings.devices@);
    unique_texts(all)
}

/// Whether the list already holds the device with that server index.
pub fn has_device_index(devices: &Vec<DeviceInfo>, index: u32) -> (r: bool)
    ensures
        r == exists|i: int| 0 <= i < devices@.len() && #[trigger] devices@[i].index == index,
{
    let mut i: usize = 0;
    while i < devices.len()
        invariant
            i <= devices@.len(),
            forall|j: int| 0 <= j < i ==> #[trigger] devices@[j].index != index,
        decreases devices.len() - i,
    {
        if devices[i].index == index {
            return true;
        }
        i = i + 1;
    }
    false
}

/// Whether a device of that name is connected.
pub fn get_device_connected(devices: &Vec<DeviceInfo>, name: &str) -> (r: bool)
    ensures
        r == connected(devices@, name@),
{
    let mut i: usize = 0;
    while i < devices.len()
        invariant
            i <= devices@.len(),
            forall|j: int| 0 <= j < i ==> #[trigger] devices@[j].name@ != name@,
        decreases devices.len() - i,
    {
        if same_text(devices[i].name.as_str(), name) {
            return true;
        }
        i = i + 1;
    }
    false
}

fn has_kind(device: &DeviceInfo, k: ActuatorKind) -> (r: bool)
    ensures
        r == device_has_kind(*device, k),
{
    if k == ActuatorKind::Position && device.linear > 0 {
        return true;
    }
    if k == ActuatorKind::Rotate && device.rotate > 0 {
        return true;
    }
    let mut i: usize = 0;
    while i < device.scalar.len()
        invariant
            i <= device.scalar@.len(),
            forall|j: int| 0 <= j < i ==> #[trigger] device.scalar@[j] != k,
        decreases device.scalar.len() - i,
    {
        if device.scalar[i] == k {
            return true;
        }
        i = i + 1;
    }
    false
}

fn named_kind(devices: &Vec<DeviceInfo>, name: &str, k: ActuatorKind) -> (r: bool)
    ensures
        r == named_has_kind(devices@, name@, k),
{
    let mut i: usize = 0;
    while i < devices.len()
        invariant
            i <= devices@.len(),
            forall|j: int| 0 <= j < i && devices@[j].name@ == name@ ==> !#[trigger] device_has_kind(devices@[j], k),
        decreases devices.len() - i,
    {
        if same_text(devices[i].name.as_str(), name) && has_kind(&devices[i], k) {
            return true;
        }
        i = i + 1;
    }
    false
}

/// The kinds of the channels of the connected devices called `name`, each
/// once, by name.
pub fn get_device_capabilities(devices: &Vec<DeviceInfo>, name: &str) -> (r: Vec<String>)
    ensures
        texts(r@) == kind_order().filter(|k: ActuatorKind| named_has_kind(devices@, name@, k)).map_values(
            |k: ActuatorKind| kind_name(k),
        ),
{
    let kinds = all_kinds();
    let ghost pick = |k: ActuatorKind| named_has_kind(devices@, name@, k);
    let mut r: Vec<String> = Vec::new();
    let mut i: usize = 0;
    while i < kinds.len()
        invariant
            i <= kinds@.len(),
            kinds@ == kind_order(),
            pick == (|k: ActuatorKind| named_has_kind(devices@, name@, k)),
            texts(r@) == kinds@.take(i as int).filter(pick).map_values(|k: ActuatorKind| kind_name(k)),
        decreases kinds.len() - i,
    {
        let k = kinds[i];
        proof {
            assert(kinds@.take(i + 1) =~= kinds@.take(i as int).push(k));
            reveal(Seq::filter);
            assert(kinds@.take(i + 1).drop_last() =~= kinds@.take(i as int));
        }
        if named_kind(devices, name, k) {
            let ghost before = r@;
            let kn = k.name();
            let t = kn.to_string();
            proof {
                vstd::string::to_string_from_display_ensures_for_str(kn, t);
            }
            r.push(t);
            proof {
                assert(texts(r@) =~= texts(before).push(kind_name(k)));
            }
        }
        i = i + 1;
    }
    assert(kinds@.take(kinds@.len() as int) =~= kinds@);
    r
}

/// A kind that a capability query can report is backed by an actuator of a
/// connected device of that name.
pub proof fn law_capabilities_are_live(ds: Seq<DeviceInfo>, name: Seq<char>, k: ActuatorKind)
    requires
        named_has_kind(ds, name, k),
    ensures
        exists|i: int, j: int|
            0 <= i < ds.len() && ds[i].name@ == name && 0 <= j < device_actuators(ds[i]).len()
                && (#[trigger] device_actuators(ds[i])[j]).kind == k && device_actuators(ds[i])[j].device == name,
{
    let i = choose|i: int| 0 <= i < ds.len() && ds[i].name@ == name && #[trigger] device_has_kind(ds[i], k);
    let d = ds[i];
    let n1 = d.scalar@.len() as int;
    let n2 = d.linear as int;
    if exists|x: int| 0 <= x < d.scalar@.len() && #[trigger] d.scalar@[x] == k {
        let x = choose|x: int| 0 <= x < d.scalar@.len() && #[trigger] d.scalar@[x] == k;
        assert(device_actuators(d)[x].kind == k);
    } else if k == ActuatorKind::Position && d.linear > 0 {
        assert(device_actuators(d)[n1].kind == k);
    } else {
        assert(device_actuators(d)[n1 + n2].kind == k);
    }
}

} // verus!
