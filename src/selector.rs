use vstd::prelude::*;
use crate::actuator::{Actuator, ActuatorId};
use crate::settings::{TkSettings, normalized, normalized_all, same_text, sanitize_input_string, texts};

verus! {

/// Which actuators a control action drives.
#[derive(Clone, Debug)]
pub enum TkDeviceSelector {
    /// Every enabled actuator.
    All,
    /// The enabled actuators whose device carries one of these tags.
    ByNames(Vec<String>),
}

impl TkDeviceSelector {
    /// Selects by the given tags, or everything when there are none.
    pub fn from_events(events: Vec<String>) -> (r: TkDeviceSelector)
        ensures
            events@.len() == 0 ==> r is All,
            events@.len() > 0 ==> r == TkDeviceSelector::ByNames(events),
    {
        if events.len() == 0 {
            TkDeviceSelector::All
        } else {
            TkDeviceSelector::ByNames(events)
        }
    }
}

/// Whether two tag lists share a tag once both are normalized.
pub open spec fn tags_match(device_tags: Seq<Seq<char>>, request: Seq<Seq<char>>) -> bool {
    exists|i: int, j: int|
        0 <= i < device_tags.len() && 0 <= j < request.len() && #[trigger] normalized(device_tags[i])
            == #[trigger] normalized(request[j])
}

/// Whether the selector picks the actuator under these settings: its device may
/// be driven, and under `ByNames` one of the device's tags is requested.
pub open spec fn picks(selector: TkDeviceSelector, settings: TkSettings, a: ActuatorId) -> bool {
    settings.selectable_spec(a.device) && match selector {
        TkDeviceSelector::All => true,
        TkDeviceSelector::ByNames(tags) => tags_match(settings.events_spec(a.device), texts(tags@)),
    }
}

/// Whether the two lists hold a common text.
fn intersects(a: &Vec<String>, b: &Vec<String>) -> (r: bool)
    ensures
        r == exists|i: int, j: int| 0 <= i < a@.len() && 0 <= j < b@.len() && #[trigger] a@[i]@ == #[trigger] b@[j]@,
{
    let mut i: usize = 0;
    while i < a.len()
        invariant
            i <= a@.len(),
            forall|x: int, y: int| 0 <= x < i && 0 <= y < b@.len() ==> #[trigger] a@[x]@ != #[trigger] b@[y]@,
        decreases a.len() - i,
    {
        let mut j: usize = 0;
        while j < b.len()
            invariant
                i < a@.len(),
                j <= b@.len(),
                forall|x: int, y: int| 0 <= x < i && 0 <= y < b@.len() ==> #[trigger] a@[x]@ != #[trigger] b@[y]@,
                forall|y: int| 0 <= y < j ==> a@[i as int]@ != #[trigger] b@[y]@,
            decreases b.len() - j,
        {
            if same_text(a[i].as_str(), b[j].as_str()) {
                return true;
            }
            j = j + 1;
        }
        i = i + 1;
    }
    false
}

/// The actuators that the selector picks under the settings, in their order.
pub fn select(actuators: &Vec<Actuator>, selector: &TkDeviceSelector, settings: &TkSettings) -> (r: Vec<Actuator>)
    requires
        settings.wf(),
    ensures
        r@ == actuators@.filter(|a: Actuator| picks(*selector, *settings, a@)),
{
    let ghost pick = |a: Actuator| picks(*selector, *settings, a@);
    let request: Vec<String> = match selector {
        TkDeviceSelector::All => Vec::new(),
        TkDeviceSelector::ByNames(tags) => sanitize_input_string(crate::settings::copy_strings(tags)),
    };
    let mut r: Vec<Actuator> = Vec::new();
    let mut i: usize = 0;
    while i < actuators.len()
        invariant
            i <= actuators@.len(),
            settings.wf(),
            pick == (|a: Actuator| picks(*selector, *settings, a@)),
            selector matches TkDeviceSelector::ByNames(tags) ==> texts(request@) == normalized_all(texts(tags@)),
            r@ == actuators@.take(i as int).filter(pick),
        decreases actuators.len() - i,
    {
        let a = &actuators[i];
        proof {
            assert(actuators@.take(i + 1) =~= actuators@.take(i as int).push(*a));
            reveal(Seq::filter);
            assert(actuators@.take(i + 1).drop_last() =~= actuators@.take(i as int));
        }
        let keep = if !settings.is_selectable(a.device_name.as_str()) {
            false
        } else {
            match selector {
                TkDeviceSelector::All => true,
                TkDeviceSelector::ByNames(tags) => {
                    let events = settings.get_events(a.device_name.as_str());
                    let ghost ev = texts(events@);
                    let own = sanitize_input_string(events);
                    let m = intersects(&own, &request);
                    proof {
                        let dt = settings.events_spec(a@.device);
                        let rq = texts(tags@);
                        assert(ev == dt);
                        assert(texts(own@) == normalized_all(dt));
                        assert(texts(own@).len() == own@.len());
                        assert(normalized_all(dt).len() == dt.len());
                        assert(texts(request@) == normalized_all(rq));
                        assert(texts(request@).len() == request@.len());
                        assert(normalized_all(rq).len() == rq.len());
                        if m {
                            let (x, y) = choose|x: int, y: int|
                                0 <= x < own@.len() && 0 <= y < request@.len() && #[trigger] own@[x]@
                                    == #[trigger] request@[y]@;
                            assert(texts(own@)[x] == own@[x]@);
                            assert(texts(request@)[y] == request@[y]@);
                            assert(normalized_all(dt)[x] == normalized(dt[x]));
                            assert(normalized_all(rq)[y] == normalized(rq[y]));
                            assert(normalized(dt[x]) == normalized(rq[y]));
                        }
                        if tags_match(dt, rq) {
                            let (x, y) = choose|x: int, y: int|
                                0 <= x < dt.len() && 0 <= y < rq.len() && #[trigger] normalized(dt[x])
                                    == #[trigger] normalized(rq[y]);
                            assert(texts(own@)[x] == own@[x]@);
                            assert(texts(request@)[y] == request@[y]@);
                            assert(normalized_all(dt)[x] == normalized(dt[x]));
                            assert(normalized_all(rq)[y] == normalized(rq[y]));
                            assert(own@[x]@ == request@[y]@);
                        }
                    }
                    m
                },
            }
        };
        if keep {
            r.push(a.copy());
        }
        i = i + 1;
    }
    assert(actuators@.take(actuators@.len() as int) =~= actuators@);
    r
}

/// Tags match whatever their case and surrounding white space: two requests
/// whose tags normalize alike pick the same actuators.
pub proof fn law_tags_ignore_case_and_space(
    settings: TkSettings,
    a: ActuatorId,
    first: Seq<String>,
    second: Seq<String>,
)
    requires
        normalized_all(texts(first)) == normalized_all(texts(second)),
    ensures
        tags_match(settings.events_spec(a.device), texts(first)) == tags_match(
            settings.events_spec(a.device),
            texts(second),
        ),
{
    let dt = settings.events_spec(a.device);
    let f = texts(first);
    let s = texts(second);
    assert(f.len() == normalized_all(f).len());
    assert(s.len() == normalized_all(s).len());
    if tags_match(dt, f) {
        let (x, y) = choose|x: int, y: int|
            0 <= x < dt.len() && 0 <= y < f.len() && #[trigger] normalized(dt[x]) == #[trigger] normalized(f[y]);
        assert(normalized_all(f)[y] == normalized_all(s)[y]);
        assert(normalized(dt[x]) == normalized(s[y]));
    }
    if tags_match(dt, s) {
        let (x, y) = choose|x: int, y: int|
            0 <= x < dt.len() && 0 <= y < s.len() && #[trigger] normalized(dt[x]) == #[trigger] normalized(s[y]);
        assert(normalized_all(f)[y] == normalized_all(s)[y]);
        assert(normalized(dt[x]) == normalized(f[y]));
    }
}

} // verus!
