use vstd::prelude::*;

verus! {

/// The kind of motion an actuator performs.
#[derive(Clone, Copy, Debug, PartialEq, Eq, Structural)]
pub enum ActuatorKind {
    Unknown,
    Vibrate,
    Rotate,
    Oscillate,
    Constrict,
    Inflate,
    Position,
}

/// The display name of a kind.
pub open spec fn kind_name(k: ActuatorKind) -> Seq<char> {
    match k {
        ActuatorKind::Unknown => "Unknown"@,
        ActuatorKind::Vibrate => "Vibrate"@,
        ActuatorKind::Rotate => "Rotate"@,
        ActuatorKind::Oscillate => "Oscillate"@,
        ActuatorKind::Constrict => "Constrict"@,
        ActuatorKind::Inflate => "Inflate"@,
        ActuatorKind::Position => "Position"@,
    }
}

impl ActuatorKind {
    pub fn name(&self) -> (r: &'static str)
        ensures
            r@ == kind_name(*self),
    {
        proof {
            reveal_strlit("Unknown");
            reveal_strlit("Vibrate");
            reveal_strlit("Rotate");
            reveal_strlit("Oscillate");
            reveal_strlit("Constrict");
            reveal_strlit("Inflate");
            reveal_strlit("Position");
        }
        match self {
            ActuatorKind::Unknown => "Unknown",
            ActuatorKind::Vibrate => "Vibrate",
            ActuatorKind::Rotate => "Rotate",
            ActuatorKind::Oscillate => "Oscillate",
            ActuatorKind::Constrict => "Constrict",
            ActuatorKind::Inflate => "Inflate",
            ActuatorKind::Position => "Position",
        }
    }
}

/// The decimal digits of a number.
pub open spec fn decimal(n: nat) -> Seq<char>
    decreases n,
{
    if n < 10 {
        seq![digit_char(n)]
    } else {
        decimal(n / 10) + seq![digit_char(n % 10)]
    }
}

pub open spec fn digit_char(d: nat) -> char {
    if d < 10 {
        (('0' as nat) + d) as char
    } else {
        '?'
    }
}

/// The digit `d` as text.
fn digit_text(d: u32) -> (r: &'static str)
    requires
        d < 10,
    ensures
        r@ == seq![digit_char(d as nat)],
{
    proof {
        reveal_strlit("0");
        reveal_strlit("1");
        reveal_strlit("2");
        reveal_strlit("3");
        reveal_strlit("4");
        reveal_strlit("5");
        reveal_strlit("6");
        reveal_strlit("7");
        reveal_strlit("8");
        reveal_strlit("9");
    }
    let r = if d == 0 {
        "0"
    } else if d == 1 {
        "1"
    } else if d == 2 {
        "2"
    } else if d == 3 {
        "3"
    } else if d == 4 {
        "4"
    } else if d == 5 {
        "5"
    } else if d == 6 {
        "6"
    } else if d == 7 {
        "7"
    } else if d == 8 {
        "8"
    } else {
        "9"
    };
    assert(r@ =~= seq![digit_char(d as nat)]);
    r
}

/// The number in decimal.
pub fn decimal_text(n: u32) -> (r: String)
    ensures
        r@ == decimal(n as nat),
    decreases n,
{
    if n < 10 {
        <String as vstd::string::StringExecFns>::from_str(digit_text(n))
    } else {
        let mut r = decimal_text(n / 10);
        r.append(digit_text(n % 10));
        r
    }
}

/// A connected device as the device server describes it: its channels by kind.
#[derive(Clone, Debug)]
pub struct DeviceInfo {
    /// The server's index of the device.
    pub index: u32,
    pub name: String,
    /// The kinds of its scalar channels, in the device's order.
    pub scalar: Vec<ActuatorKind>,
    /// How many linear channels it has.
    pub linear: u32,
    /// How many rotation channels it has.
    pub rotate: u32,
}

/// One addressable channel of a device.
#[derive(Clone, Debug)]
pub struct Actuator {
    pub device_name: String,
    pub actuator: ActuatorKind,
    pub index_in_device: u32,
}

/// What identifies an actuator: device name, kind and index in the device.
pub struct ActuatorId {
    pub device: Seq<char>,
    pub kind: ActuatorKind,
    pub index: u32,
}

impl View for Actuator {
    type V = ActuatorId;

    open spec fn view(&self) -> ActuatorId {
        ActuatorId { device: self.device_name@, kind: self.actuator, index: self.index_in_device }
    }
}

/// The actuators of one device: its scalar channels, then its linear ones as
/// positions, then its rotation channels, each in the device's order.
pub open spec fn device_actuators(d: DeviceInfo) -> Seq<ActuatorId> {
    Seq::new(d.scalar@.len(), |i: int| ActuatorId { device: d.name@, kind: d.scalar@[i], index: i as u32 })
        + Seq::new(d.linear as nat, |i: int| ActuatorId { device: d.name@, kind: ActuatorKind::Position, index: i as u32 })
        + Seq::new(d.rotate as nat, |i: int| ActuatorId { device: d.name@, kind: ActuatorKind::Rotate, index: i as u32 })
}

/// The actuators of all devices, device by device.
pub open spec fn all_actuators(ds: Seq<DeviceInfo>) -> Seq<ActuatorId>
    decreases ds.len(),
{
    if ds.len() == 0 {
        Seq::empty()
    } else {
        all_actuators(ds.drop_last()) + device_actuators(ds.last())
    }
}

pub open spec fn ids(v: Seq<Actuator>) -> Seq<ActuatorId> {
    v.map_values(|a: Actuator| a@)
}

/// The channel counts fit the index type.
pub open spec fn device_fits(d: DeviceInfo) -> bool {
    d.scalar@.len() <= u32::MAX
}

impl Actuator {
    pub fn new(device: &DeviceInfo, actuator: ActuatorKind, index_in_device: u32) -> (r: Actuator)
        ensures
            r@ == (ActuatorId { device: device.name@, kind: actuator, index: index_in_device }),
    {
        Actuator { device_name: device.name.clone(), actuator, index_in_device }
    }

    /// The actuators of one device.
    pub fn from(device: &DeviceInfo) -> (r: Vec<Actuator>)
        requires
            device_fits(*device),
        ensures
            ids(r@) == device_actuators(*device),
    {
        let mut r: Vec<Actuator> = Vec::new();
        push_device_actuators(&mut r, device);
        assert(Seq::<ActuatorId>::empty() + device_actuators(*device) =~= device_actuators(*device));
        r
    }

    /// A copy with the same fields.
    pub fn copy(&self) -> (r: Actuator)
        ensures
            r == *self,
    {
        Actuator { device_name: self.device_name.clone(), actuator: self.actuator, index_in_device: self.index_in_device }
    }

    /// Whether both name the same channel.
    pub fn same(&self, other: &Actuator) -> (r: bool)
        ensures
            r == (self@ == other@),
    {
        self.device_name == other.device_name && self.actuator == other.actuator && self.index_in_device
            == other.index_in_device
    }

    /// The identifier `device[index].Kind`, as in `ToyName[0].Vibrate`.
    pub fn identifier(&self) -> (r: String)
        ensures
            r@ == self.device_name@ + "["@ + decimal(self.index_in_device as nat) + "]."@ + kind_name(
                self.actuator,
            ),
    {
        proof {
            reveal_strlit("[");
            reveal_strlit("].");
        }
        let mut r = self.device_name.clone();
        r.append("[");
        let digits = decimal_text(self.index_in_device);
        r.append(digits.as_str());
        r.append("].");
        r.append(self.actuator.name());
        r
    }

    /// A readable name: `device (Kind)`, with the index after the kind when it is not 0.
    pub fn description(&self) -> (r: String)
        ensures
            self.index_in_device > 0 ==> r@ == self.device_name@ + " ("@ + kind_name(self.actuator) + " "@
                + decimal(self.index_in_device as nat) + ")"@,
            self.index_in_device == 0 ==> r@ == self.device_name@ + " ("@ + kind_name(self.actuator) + ")"@,
    {
        proof {
            reveal_strlit(" (");
            reveal_strlit(" ");
            reveal_strlit(")");
        }
        let mut r = self.device_name.clone();
        r.append(" (");
        r.append(self.actuator.name());
        if self.index_in_device > 0 {
            r.append(" ");
            let digits = decimal_text(self.index_in_device);
            r.append(digits.as_str());
        }
        r.append(")");
        r
    }
}

/// Appends the actuators of one device.
fn push_device_actuators(out: &mut Vec<Actuator>, device: &DeviceInfo)
    requires
        device_fits(*device),
    ensures
        ids(final(out)@) == ids(old(out)@) + device_actuators(*device),
{
    let ghost start = ids(out@);
    let ghost name = device.name@;
    let ghost s1 = Seq::new(device.scalar@.len(), |i: int| ActuatorId { device: name, kind: device.scalar@[i], index: i as u32 });
    let ghost s2 = Seq::new(device.linear as nat, |i: int| ActuatorId { device: name, kind: ActuatorKind::Position, index: i as u32 });
    let ghost s3 = Seq::new(device.rotate as nat, |i: int| ActuatorId { device: name, kind: ActuatorKind::Rotate, index: i as u32 });
    let mut i: usize = 0;
    while i < device.scalar.len()
        invariant
            i <= device.scalar@.len(),
            device_fits(*device),
            s1 == Seq::new(device.scalar@.len(), |i: int| ActuatorId { device: name, kind: device.scalar@[i], index: i as u32 }),
            name == device.name@,
            ids(out@) =~= start + s1.take(i as int),
        decreases device.scalar.len() - i,
    {
        let a = Actuator::new(device, device.scalar[i], i as u32);
        let ghost before = ids(out@);
        out.push(a);
        assert(ids(out@) =~= before.push(a@));
        assert(s1.take(i + 1) =~= s1.take(i as int).push(s1[i as int]));
        i = i + 1;
    }
    assert(s1.take(i as int) =~= s1);
    let mut j: u32 = 0;
    while j < device.linear
        invariant
            j <= device.linear,
            s2 == Seq::new(device.linear as nat, |i: int| ActuatorId { device: name, kind: ActuatorKind::Position, index: i as u32 }),
            name == device.name@,
            ids(out@) =~= start + s1 + s2.take(j as int),
        decreases device.linear - j,
    {
        let a = Actuator::new(device, ActuatorKind::Position, j);
        let ghost before = ids(out@);
        out.push(a);
        assert(ids(out@) =~= before.push(a@));
        assert(s2.take(j + 1) =~= s2.take(j as int).push(s2[j as int]));
        j = j + 1;
    }
    assert(s2.take(j as int) =~= s2);
    let mut k: u32 = 0;
    while k < device.rotate
        invariant
            k <= device.rotate,
            s3 == Seq::new(device.rotate as nat, |i: int| ActuatorId { device: name, kind: ActuatorKind::Rotate, index: i as u32 }),
            name == device.name@,
            ids(out@) =~= start + s1 + s2 + s3.take(k as int),
        decreases device.rotate - k,
    {
        let a = Actuator::new(device, ActuatorKind::Rotate, k);
        let ghost before = ids(out@);
        out.push(a);
        assert(ids(out@) =~= before.push(a@));
        assert(s3.take(k + 1) =~= s3.take(k as int).push(s3[k as int]));
        k = k + 1;
    }
    assert(s3.take(k as int) =~= s3);
    assert(device_actuators(*device) =~= s1 + s2 + s3);
}

/// The actuators of all devices: per device its scalar channels, then its
/// linear ones, then its rotation channels.
pub fn get_actuators(devices: &Vec<DeviceInfo>) -> (r: Vec<Actuator>)
    requires
        forall|i: int| 0 <= i < devices@.len() ==> device_fits(#[trigger] devices@[i]),
    ensures
        ids(r@) == all_actuators(devices@),
{
    let mut r: Vec<Actuator> = Vec::new();
    let mut i: usize = 0;
    assert(ids(r@) =~= all_actuators(devices@.take(0)));
    while i < devices.len()
        invariant
            i <= devices@.len(),
            forall|j: int| 0 <= j < devices@.len() ==> device_fits(#[trigger] devices@[j]),
            ids(r@) == all_actuators(devices@.take(i as int)),
        decreases devices.len() - i,
    {
        push_device_actuators(&mut r, &devices[i]);
        assert(devices@.take(i + 1).drop_last() =~= devices@.take(i as int));
        i = i + 1;
    }
    assert(devices@.take(devices@.len() as int) =~= devices@);
    r
}

} // verus!
