use vstd::prelude::*;

verus! {

/// Whether the character has the Unicode White_Space property.
pub open spec fn is_white_space(c: char) -> bool {
    let u = c as u32;
    (0x9 <= u <= 0xd) || u == 0x20 || u == 0x85 || u == 0xa0 || u == 0x1680 || (0x2000 <= u <= 0x200a) || u
        == 0x2028 || u == 0x2029 || u == 0x202f || u == 0x205f || u == 0x3000
}

/// The text without leading and trailing white space.
pub open spec fn trimmed(s: Seq<char>) -> Seq<char>
    decreases s.len(),
{
    if s.len() > 0 && is_white_space(s[0]) {
        trimmed(s.drop_first())
    } else if s.len() > 0 && is_white_space(s.last()) {
        trimmed(s.drop_last())
    } else {
        s
    }
}

/// What `str::to_lowercase` makes of a text.
pub uninterp spec fn lowercased(s: Seq<char>) -> Seq<char>;

/// Relies on `str::trim`: the text without leading and trailing characters
/// of the Unicode White_Space property.
#[verifier::external_body]
fn trim_text(s: &str) -> (r: String)
    ensures
        r@ == trimmed(s@),
{
    s.trim().to_string()
}

/// Relies on `str::to_lowercase`: the lowercase form of the text.
#[verifier::external_body]
fn lowercase_text(s: &str) -> (r: String)
    ensures
        r@ == lowercased(s@),
{
    s.to_lowercase()
}

/// Whether both texts hold the same characters.
pub(crate) fn same_text(a: &str, b: &str) -> (r: bool)
    ensures
        r == (a@ == b@),
{
    let x = a.to_string();
    let y = b.to_string();
    proof {
        vstd::string::to_string_from_display_ensures_for_str(a, x);
        vstd::string::to_string_from_display_ensures_for_str(b, y);
    }
    x == y
}

/// The form in which a tag is stored and compared: trimmed, then lowercased.
pub open spec fn normalized(tag: Seq<char>) -> Seq<char> {
    lowercased(trimmed(tag))
}

/// The texts that a sequence of strings holds.
pub open spec fn texts(v: Seq<String>) -> Seq<Seq<char>> {
    v.map_values(|s: String| s@)
}

pub open spec fn normalized_all(tags: Seq<Seq<char>>) -> Seq<Seq<char>> {
    tags.map_values(|t: Seq<char>| normalized(t))
}

/// Brings one tag into its stored form.
pub fn normalize_tag(tag: &str) -> (r: String)
    ensures
        r@ == normalized(tag@),
{
    let t = trim_text(tag);
    lowercase_text(t.as_str())
}

/// Brings every tag of a request into its stored form, keeping their order.
pub fn sanitize_input_string(tags: Vec<String>) -> (r: Vec<String>)
    ensures
        texts(r@) == normalized_all(texts(tags@)),
{
    let mut r: Vec<String> = Vec::new();
    let mut i: usize = 0;
    while i < tags.len()
        invariant
            i <= tags.len(),
            r@.len() == i,
            forall|j: int| 0 <= j < i ==> #[trigger] r@[j]@ == normalized(tags@[j]@),
        decreases tags.len() - i,
    {
        let t = normalize_tag(tags[i].as_str());
        r.push(t);
        i = i + 1;
    }
    assert(texts(r@) =~= normalized_all(texts(tags@)));
    r
}

/// A copy of a list of strings.
pub fn copy_strings(v: &Vec<String>) -> (r: Vec<String>)
    ensures
        r@ == v@,
{
    let mut r: Vec<String> = Vec::new();
    let mut i: usize = 0;
    while i < v.len()
        invariant
            i <= v.len(),
            r@ == v@.take(i as int),
        decreases v.len() - i,
    {
        r.push(v[i].clone());
        assert(v@.take(i as int).push(v@[i as int]) =~= v@.take(i + 1));
        i = i + 1;
    }
    assert(v@.take(v@.len() as int) =~= v@);
    r
}

/// The websocket address of a `host:port` endpoint.
pub fn websocket_uri(endpoint: &str) -> (r: String)
    ensures
        r@ == "ws://"@ + endpoint@,
{
    proof {
        reveal_strlit("ws://");
    }
    let mut r = <String as vstd::string::StringExecFns>::from_str("ws://");
    r.append(endpoint);
    r
}

/// How the runtime reaches the device server.
#[derive(Clone, Debug)]
pub enum TkConnectionType {
    InProcess,
    /// The `host:port` endpoint of a websocket server.
    WebSocket(String),
}

/// The user's configuration of one device.
#[derive(Clone, Debug)]
pub struct TkDeviceSettings {
    pub name: String,
    pub enabled: bool,
    /// Tags of the events that drive this device, in stored form.
    pub events: Vec<String>,
}

/// The user's configuration: connection, pattern directory and devices.
#[derive(Clone, Debug)]
pub struct TkSettings {
    pub connection: TkConnectionType,
    pub pattern_path: String,
    pub devices: Vec<TkDeviceSettings>,
}

pub open spec fn names_distinct(d: Seq<TkDeviceSettings>) -> bool {
    forall|i: int, j: int|
        0 <= i < d.len() && 0 <= j < d.len() && i != j ==> #[trigger] d[i].name@ != #[trigger] d[j].name@
}

pub open spec fn has_device(d: Seq<TkDeviceSettings>, name: Seq<char>) -> bool {
    exists|i: int| 0 <= i < d.len() && #[trigger] d[i].name@ == name
}

pub open spec fn device_index(d: Seq<TkDeviceSettings>, name: Seq<char>) -> int {
    choose|i: int| 0 <= i < d.len() && #[trigger] d[i].name@ == name
}

impl Default for TkSettings {
    fn default() -> (r: TkSettings)
        ensures
            r.devices@.len() == 0,
            r.pattern_path@.len() == 0,
            r.connection is InProcess,
    {
        TkSettings { connection: TkConnectionType::InProcess, pattern_path: String::new(), devices: Vec::new() }
    }
}

impl TkSettings {
    /// Device names are unique.
    pub open spec fn wf(&self) -> bool {
        names_distinct(self.devices@)
    }

    pub open spec fn knows(&self, name: Seq<char>) -> bool {
        has_device(self.devices@, name)
    }

    pub open spec fn entry(&self, name: Seq<char>) -> TkDeviceSettings {
        self.devices@[device_index(self.devices@, name)]
    }

    /// The stored enabled flag; a device without settings is not enabled.
    pub open spec fn enabled_spec(&self, name: Seq<char>) -> bool {
        self.knows(name) && self.entry(name).enabled
    }

    /// Whether selection may pick the device: its stored flag, and yes for a
    /// device without settings.
    pub open spec fn selectable_spec(&self, name: Seq<char>) -> bool {
        !self.knows(name) || self.entry(name).enabled
    }

    /// The stored tags of the device, none for a device without settings.
    pub open spec fn events_spec(&self, name: Seq<char>) -> Seq<Seq<char>> {
        if self.knows(name) {
            texts(self.entry(name).events@)
        } else {
            Seq::empty()
        }
    }

    /// The names of the configured devices, in order.
    pub open spec fn names_spec(&self) -> Seq<Seq<char>> {
        self.devices@.map_values(|d: TkDeviceSettings| d.name@)
    }

    /// Whether no two configured devices share a name.
    pub fn has_distinct_names(&self) -> (r: bool)
        ensures
            r == self.wf(),
    {
        let n = self.devices.len();
        let mut i: usize = 0;
        while i < n
            invariant
                n == self.devices@.len(),
                i <= n,
                forall|a: int, b: int| 0 <= a < i && a < b < n ==> #[trigger] self.devices@[a].name@ != #[trigger] self.devices@[b].name@,
            decreases n - i,
        {
            let mut j: usize = i + 1;
            while j < n
                invariant
                    n == self.devices@.len(),
                    i < n,
                    i + 1 <= j <= n,
                    forall|a: int, b: int| 0 <= a < i && a < b < n ==> #[trigger] self.devices@[a].name@ != #[trigger] self.devices@[b].name@,
                    forall|b: int| i < b < j ==> self.devices@[i as int].name@ != #[trigger] self.devices@[b].name@,
                decreases n - j,
            {
                if same_text(self.devices[i].name.as_str(), self.devices[j].name.as_str()) {
                    assert(!names_distinct(self.devices@));
                    return false;
                }
                j = j + 1;
            }
            i = i + 1;
        }
        assert forall|a: int, b: int|
            0 <= a < n && 0 <= b < n && a != b implies #[trigger] self.devices@[a].name@ != #[trigger] self.devices@[b].name@ by {
            if b < a {
                assert(self.devices@[b].name@ != self.devices@[a].name@);
            }
        }
        true
    }

    /// The position of the settings of `name`, if there are any.
    pub fn find(&self, name: &str) -> (r: Option<usize>)
        requires
            self.wf(),
        ensures
            r.is_none() <==> !self.knows(name@),
            r.is_some() ==> r.unwrap() == device_index(self.devices@, name@),
            r.is_some() ==> r.unwrap() < self.devices@.len(),
    {
        let mut i: usize = 0;
        while i < self.devices.len()
            invariant
                i <= self.devices.len(),
                self.wf(),
                forall|j: int| 0 <= j < i ==> #[trigger] self.devices@[j].name@ != name@,
            decreases self.devices.len() - i,
        {
            if same_text(self.devices[i].name.as_str(), name) {
                assert(self.devices@[i as int].name@ == name@);
                assert(has_device(self.devices@, name@));
                let ghost k = device_index(self.devices@, name@);
                proof {
                    if k != i as int {
                        assert(self.devices@[k].name@ != self.devices@[i as int].name@);
                    }
                }
                return Some(i);
            }
            i = i + 1;
        }
        None
    }

    /// Gives the position of the settings of `name`, adding a disabled entry
    /// without tags when there is none.
    fn find_or_add(&mut self, name: &str) -> (r: usize)
        requires
            old(self).wf(),
        ensures
            final(self).wf(),
            r < final(self).devices@.len(),
            final(self).devices@[r as int].name@ == name@,
            old(self).knows(name@) ==> final(self).devices@ == old(self).devices@,
            !old(self).knows(name@) ==> final(self).devices@ == old(self).devices@.push(
                final(self).devices@[r as int],
            ) && !final(self).devices@[r as int].enabled && final(self).devices@[r as int].events@.len()
                == 0,
            final(self).connection == old(self).connection,
            final(self).pattern_path == old(self).pattern_path,
    {
        match self.find(name) {
            Some(i) => {
                proof {
                    let k = device_index(self.devices@, name@);
                    assert(self.devices@[k].name@ == name@);
                }
                i
            },
            None => {
                let entry = TkDeviceSettings { name: name.to_string(), enabled: false, events: Vec::new() };
                proof {
                    vstd::string::to_string_from_display_ensures_for_str(name, entry.name);
                }
                self.devices.push(entry);
                let n = self.devices.len() - 1;
                assert forall|a: int, b: int|
                    0 <= a < self.devices@.len() && 0 <= b < self.devices@.len() && a != b implies #[trigger] self.devices@[a].name@
                    != #[trigger] self.devices@[b].name@ by {
                    if a == n as int {
                        assert(old(self).devices@[b].name@ == self.devices@[b].name@);
                    } else if b == n as int {
                        assert(old(self).devices@[a].name@ == self.devices@[a].name@);
                    } else {
                        assert(old(self).devices@[a].name@ == self.devices@[a].name@);
                        assert(old(self).devices@[b].name@ == self.devices@[b].name@);
                    }
                }
                n
            },
        }
    }

    /// Every other device keeps its settings.
    pub open spec fn others_kept(&self, prior: &TkSettings, name: Seq<char>) -> bool {
        forall|n: Seq<char>|
            n != name ==> (#[trigger] self.knows(n) == prior.knows(n)) && (prior.knows(n) ==> self.entry(n)
                == prior.entry(n))
    }

    /// Sets whether the device may be driven, adding settings for it when it has none.
    pub fn set_enabled(&mut self, name: &str, enabled: bool)
        requires
            old(self).wf(),
        ensures
            final(self).wf(),
            final(self).knows(name@),
            final(self).names_spec() == if old(self).knows(name@) {
                old(self).names_spec()
            } else {
                old(self).names_spec().push(name@)
            },
            final(self).enabled_spec(name@) == enabled,
            final(self).events_spec(name@) == old(self).events_spec(name@),
            final(self).others_kept(old(self), name@),
            final(self).connection == old(self).connection,
            final(self).pattern_path == old(self).pattern_path,
    {
        let ghost prior = *old(self);
        let r = self.find_or_add(name);
        let ghost mid = self.devices@;
        proof {
            if !prior.knows(name@) {
                assert(mid.drop_last() =~= prior.devices@);
            }
            lemma_kept_after_add(prior.devices@, mid, name@);
        }
        let mut d = self.devices.remove(r);
        d.enabled = enabled;
        self.devices.insert(r, d);
        proof {
            assert(self.names_spec() =~= mid.map_values(|e: TkDeviceSettings| e.name@));
            if prior.knows(name@) {
                assert(mid == prior.devices@);
            } else {
                assert(mid.map_values(|e: TkDeviceSettings| e.name@) =~= prior.names_spec().push(name@));
            }
        }
        proof {
            assert(self.devices@ =~= mid.update(r as int, d));
            lemma_kept_after_update(mid, self.devices@, r as int);
            lemma_device_index(self.devices@, name@, r as int);
            lemma_device_index(mid, name@, r as int);
            if prior.knows(name@) {
                assert(mid == prior.devices@);
            }
            assert forall|n: Seq<char>| n != name@ implies (#[trigger] self.knows(n) == prior.knows(n)) && (
            prior.knows(n) ==> self.entry(n) == prior.entry(n)) by {
                assert(n != mid[r as int].name@);
                assert(has_device(self.devices@, n) == has_device(mid, n));
                assert(has_device(mid, n) == has_device(prior.devices@, n));
                if prior.knows(n) {
                    assert(self.devices@[device_index(self.devices@, n)] == mid[device_index(mid, n)]);
                    assert(mid[device_index(mid, n)] == prior.devices@[device_index(prior.devices@, n)]);
                }
            }
        }
    }

    /// Whether the device is enabled; a device without settings is not.
    pub fn is_enabled(&self, name: &str) -> (r: bool)
        requires
            self.wf(),
        ensures
            r == self.enabled_spec(name@),
    {
        match self.find(name) {
            Some(i) => self.devices[i].enabled,
            None => false,
        }
    }

    /// Whether selection may pick the device; one without settings may be picked.
    pub fn is_selectable(&self, name: &str) -> (r: bool)
        requires
            self.wf(),
        ensures
            r == self.selectable_spec(name@),
    {
        match self.find(name) {
            Some(i) => self.devices[i].enabled,
            None => true,
        }
    }

    /// Stores the device's tags in normalized form, adding settings for it when
    /// it has none.
    pub fn set_events(&mut self, name: &str, events: Vec<String>)
        requires
            old(self).wf(),
        ensures
            final(self).wf(),
            final(self).knows(name@),
            final(self).names_spec() == if old(self).knows(name@) {
                old(self).names_spec()
            } else {
                old(self).names_spec().push(name@)
            },
            final(self).events_spec(name@) == normalized_all(texts(events@)),
            final(self).enabled_spec(name@) == old(self).enabled_spec(name@),
            final(self).others_kept(old(self), name@),
            final(self).connection == old(self).connection,
            final(self).pattern_path == old(self).pattern_path,
    {
        let ghost prior = *old(self);
        let tags = sanitize_input_string(events);
        let r = self.find_or_add(name);
        let ghost mid = self.devices@;
        proof {
            if !prior.knows(name@) {
                assert(mid.drop_last() =~= prior.devices@);
            }
            lemma_kept_after_add(prior.devices@, mid, name@);
        }
        let mut d = self.devices.remove(r);
        d.events = tags;
        self.devices.insert(r, d);
        proof {
            assert(self.names_spec() =~= mid.map_values(|e: TkDeviceSettings| e.name@));
            if prior.knows(name@) {
                assert(mid == prior.devices@);
            } else {
                assert(mid.map_values(|e: TkDeviceSettings| e.name@) =~= prior.names_spec().push(name@));
            }
        }
        proof {
            assert(self.devices@ =~= mid.update(r as int, d));
            lemma_kept_after_update(mid, self.devices@, r as int);
            lemma_device_index(self.devices@, name@, r as int);
            lemma_device_index(mid, name@, r as int);
            if prior.knows(name@) {
                assert(mid == prior.devices@);
                lemma_device_index(prior.devices@, name@, r as int);
            }
        }
    }

    /// The stored tags of the device; none for a device without settings.
    pub fn get_events(&self, name: &str) -> (r: Vec<String>)
        requires
            self.wf(),
        ensures
            texts(r@) == self.events_spec(name@),
    {
        match self.find(name) {
            Some(i) => copy_strings(&self.devices[i].events),
            None => {
                let r: Vec<String> = Vec::new();
                assert(texts(r@) =~= Seq::<Seq<char>>::empty());
                r
            },
        }
    }
}

/// The entry found for a name is the one at the position that holds it.
pub proof fn lemma_device_index(d: Seq<TkDeviceSettings>, name: Seq<char>, i: int)
    requires
        names_distinct(d),
        0 <= i < d.len(),
        d[i].name@ == name,
    ensures
        has_device(d, name),
        device_index(d, name) == i,
{
    assert(has_device(d, name));
    let k = device_index(d, name);
    if k != i {
        assert(d[k].name@ != d[i].name@);
    }
}

/// Adding the entry of `name` keeps every other device's entry.
proof fn lemma_kept_after_add(prior: Seq<TkDeviceSettings>, d: Seq<TkDeviceSettings>, name: Seq<char>)
    requires
        names_distinct(prior),
        names_distinct(d),
        d == prior || (d.len() == prior.len() + 1 && d.drop_last() == prior && d.last().name@ == name),
    ensures
        forall|n: Seq<char>|
            n != name ==> (#[trigger] has_device(d, n) == has_device(prior, n)) && (has_device(prior, n)
                ==> d[device_index(d, n)] == prior[device_index(prior, n)]),
{
    assert forall|n: Seq<char>| n != name implies (#[trigger] has_device(d, n) == has_device(prior, n)) && (
    has_device(prior, n) ==> d[device_index(d, n)] == prior[device_index(prior, n)]) by {
        if d != prior {
            if has_device(prior, n) {
                let k = device_index(prior, n);
                assert(d[k] == prior[k]);
                lemma_device_index(d, n, k);
            }
            if has_device(d, n) {
                let k = device_index(d, n);
                assert(k < prior.len());
                assert(d[k] == prior[k]);
            }
        }
    }
}

/// Rewriting the entry at `r` under the same name keeps every other device's entry.
proof fn lemma_kept_after_update(prior: Seq<TkDeviceSettings>, d: Seq<TkDeviceSettings>, r: int)
    requires
        names_distinct(prior),
        0 <= r < prior.len(),
        d.len() == prior.len(),
        d[r].name@ == prior[r].name@,
        forall|i: int| 0 <= i < d.len() && i != r ==> d[i] == prior[i],
    ensures
        names_distinct(d),
        forall|n: Seq<char>|
            n != prior[r].name@ ==> (#[trigger] has_device(d, n) == has_device(prior, n)) && (has_device(
                prior,
                n,
            ) ==> d[device_index(d, n)] == prior[device_index(prior, n)]),
{
    assert forall|a: int, b: int|
        0 <= a < d.len() && 0 <= b < d.len() && a != b implies #[trigger] d[a].name@ != #[trigger] d[b].name@ by {
        assert(prior[a].name@ != prior[b].name@);
    }
    assert forall|n: Seq<char>| n != prior[r].name@ implies (#[trigger] has_device(d, n) == has_device(prior, n))
        && (has_device(prior, n) ==> d[device_index(d, n)] == prior[device_index(prior, n)]) by {
        if has_device(prior, n) {
            let k = device_index(prior, n);
            assert(d[k] == prior[k]);
            lemma_device_index(d, n, k);
        }
        if has_device(d, n) {
            let k = device_index(d, n);
            assert(d[k] == prior[k]);
        }
    }
}

} // verus!
