use vstd::prelude::*;
use crate::actuator::{Actuator, ActuatorId, ActuatorKind};
use crate::selector::{TkDeviceSelector, law_tags_ignore_case_and_space, picks, select};
use crate::settings::{TkSettings, normalized_all, texts};
use crate::speed::{Speed, TkPattern};
use crate::stack::{PriorityStack, StackEntry, holds_handle, top_of};

verus! {

/// What is sent to one actuator.
#[derive(Clone, Copy, Debug, PartialEq, Eq, Structural)]
pub enum DeviceAction {
    /// Drive the actuator at this strength.
    Scalar(Speed),
    /// Stop the actuator.
    Stop,
}

/// A command for one actuator.
#[derive(Clone, Debug)]
pub struct DeviceCommand {
    pub actuator: Actuator,
    pub action: DeviceAction,
}

/// The strength an action leaves the actuator at; `None` is stopped.
pub open spec fn level(a: DeviceAction) -> Option<Speed> {
    match a {
        DeviceAction::Scalar(s) => Some(s),
        DeviceAction::Stop => None,
    }
}

/// The action that shows an effective strength.
pub open spec fn action_for(top: Option<Speed>) -> DeviceAction {
    match top {
        Some(s) => DeviceAction::Scalar(s),
        None => DeviceAction::Stop,
    }
}

/// The strength the actuator `id` shows after the commands, when it showed `start` before.
pub open spec fn last_level(cmds: Seq<DeviceCommand>, id: ActuatorId, start: Option<Speed>) -> Option<Speed>
    decreases cmds.len(),
{
    if cmds.len() == 0 {
        start
    } else if cmds.last().actuator@ == id {
        level(cmds.last().action)
    } else {
        last_level(cmds.drop_last(), id, start)
    }
}

/// The parameters of a control action.
#[derive(Clone, Debug)]
pub struct TkParams {
    pub selector: TkDeviceSelector,
    pub pattern: TkPattern,
}

/// The stack of one actuator and the strength last sent to it.
#[derive(Debug)]
pub struct ActuatorStack {
    pub actuator: Actuator,
    pub stack: PriorityStack,
    /// The level of the last command sent; `None` when stopped.
    pub emitted: Option<Speed>,
}

/// A running control action and the actuators it drives.
#[derive(Debug)]
pub struct Player {
    pub handle: i32,
    pub actuators: Vec<Actuator>,
}

/// The scheduler's state: one priority stack per actuator that was ever driven,
/// and the running control actions.
#[derive(Debug)]
pub struct Scheduler {
    pub stacks: Vec<ActuatorStack>,
    pub players: Vec<Player>,
}

/// Whether a control action drives the actuator: the selector picks it and it vibrates.
pub open spec fn drives(selector: TkDeviceSelector, settings: TkSettings, a: ActuatorId) -> bool {
    picks(selector, settings, a) && a.kind == ActuatorKind::Vibrate
}

impl Scheduler {
    /// Each stack is well formed and belongs to a distinct actuator.
    pub open spec fn core_wf(&self) -> bool {
        &&& forall|i: int| 0 <= i < self.stacks@.len() ==> (#[trigger] self.stacks@[i]).stack.wf()
        &&& forall|i: int, j: int|
            0 <= i < self.stacks@.len() && 0 <= j < self.stacks@.len() && i != j ==> (#[trigger] self.stacks@[i]).actuator@
                != (#[trigger] self.stacks@[j]).actuator@
    }

    /// The last strength sent to each actuator is its stack's effective strength.
    pub open spec fn synced(&self) -> bool {
        forall|i: int| 0 <= i < self.stacks@.len() ==> (#[trigger] self.stacks@[i]).emitted == top_of(
            self.stacks@[i].stack@,
        )
    }

    pub open spec fn wf(&self) -> bool {
        self.core_wf() && self.synced()
    }

    /// Running actions have distinct handles, and every entry on a stack
    /// belongs to a running action that drives that actuator.
    pub open spec fn players_wf(&self) -> bool {
        &&& forall|p: int, q: int|
            0 <= p < self.players@.len() && 0 <= q < self.players@.len() && p != q ==> (#[trigger] self.players@[p]).handle
                != (#[trigger] self.players@[q]).handle
        &&& forall|i: int, h: i32|
            0 <= i < self.stacks@.len() && #[trigger] holds_handle(self.stacks@[i].stack@, h) ==> exists|p: int|
                0 <= p < self.players@.len() && (#[trigger] self.players@[p]).handle == h && drove(
                    self.players@[p],
                    self.stacks@[i].actuator@,
                )
    }

    /// What the actuator of stack `i` showed before a step from `prior`.
    pub open spec fn prior_level(prior: &Scheduler, i: int) -> Option<Speed> {
        if i < prior.stacks@.len() {
            prior.stacks@[i].emitted
        } else {
            None
        }
    }

    /// The commands of a step from `prior` bring every actuator to the level
    /// recorded for it, go only to known actuators, and stacks keep their places.
    pub open spec fn tracks(&self, prior: &Scheduler, cmds: Seq<DeviceCommand>) -> bool {
        &&& self.stacks@.len() >= prior.stacks@.len()
        &&& forall|i: int| 0 <= i < prior.stacks@.len() ==> (#[trigger] self.stacks@[i]).actuator == prior.stacks@[i].actuator
        &&& forall|i: int|
            0 <= i < self.stacks@.len() ==> (#[trigger] self.stacks@[i]).emitted == last_level(
                cmds,
                self.stacks@[i].actuator@,
                Scheduler::prior_level(prior, i),
            )
        &&& forall|c: int| 0 <= c < cmds.len() ==> exists|i: int| 0 <= i < self.stacks@.len() && #[trigger] self.stacks@[i].actuator@ == (#[trigger] cmds[c]).actuator@
    }

    /// The stack that stack `i` had before a step from `prior`; empty for a new one.
    pub open spec fn prior_stack(prior: &Scheduler, i: int) -> Seq<StackEntry> {
        if i < prior.stacks@.len() {
            prior.stacks@[i].stack@
        } else {
            Seq::empty()
        }
    }

    /// Whether no actuator has an active command.
    pub open spec fn idle(&self) -> bool {
        forall|i: int| 0 <= i < self.stacks@.len() ==> (#[trigger] self.stacks@[i]).stack@.len() == 0
    }

    pub fn new() -> (r: Scheduler)
        ensures
            r.wf(),
            r.players_wf(),
            r.stacks@.len() == 0,
            r.players@.len() == 0,
    {
        Scheduler { stacks: Vec::new(), players: Vec::new() }
    }

    /// The position of the stack of `a`, if it has one.
    pub fn stack_index(&self, a: &Actuator) -> (r: Option<usize>)
        ensures
            r.is_none() ==> forall|i: int| 0 <= i < self.stacks@.len() ==> (#[trigger] self.stacks@[i]).actuator@ != a@,
            r.is_some() ==> r.unwrap() < self.stacks@.len() && self.stacks@[r.unwrap() as int].actuator@ == a@,
    {
        let mut i: usize = 0;
        while i < self.stacks.len()
            invariant
                i <= self.stacks@.len(),
                forall|j: int| 0 <= j < i ==> (#[trigger] self.stacks@[j]).actuator@ != a@,
            decreases self.stacks.len() - i,
        {
            if self.stacks[i].actuator.same(a) {
                return Some(i);
            }
            i = i + 1;
        }
        None
    }

    /// The position of the running action `handle`, if it runs.
    pub fn player_index(&self, handle: i32) -> (r: Option<usize>)
        ensures
            r.is_none() ==> forall|i: int| 0 <= i < self.players@.len() ==> (#[trigger] self.players@[i]).handle != handle,
            r.is_some() ==> r.unwrap() < self.players@.len() && self.players@[r.unwrap() as int].handle == handle,
            r.is_some() ==> forall|j: int| 0 <= j < r.unwrap() ==> (#[trigger] self.players@[j]).handle != handle,
    {
        let mut i: usize = 0;
        while i < self.players.len()
            invariant
                i <= self.players@.len(),
                forall|j: int| 0 <= j < i ==> (#[trigger] self.players@[j]).handle != handle,
            decreases self.players.len() - i,
        {
            if self.players[i].handle == handle {
                return Some(i);
            }
            i = i + 1;
        }
        None
    }

    /// Sends the effective strength of stack `i` to its actuator.
    fn emit(&mut self, i: usize, cmds: &mut Vec<DeviceCommand>)
        requires
            i < old(self).stacks@.len(),
        ensures
            final(self).players == old(self).players,
            final(self).stacks@.len() == old(self).stacks@.len(),
            forall|j: int| 0 <= j < old(self).stacks@.len() && j != i ==> final(self).stacks@[j] == old(self).stacks@[j],
            final(self).stacks@[i as int].actuator == old(self).stacks@[i as int].actuator,
            final(self).stacks@[i as int].stack == old(self).stacks@[i as int].stack,
            final(self).stacks@[i as int].emitted == top_of(old(self).stacks@[i as int].stack@),
            final(cmds)@ == old(cmds)@.push(
                DeviceCommand {
                    actuator: old(self).stacks@[i as int].actuator,
                    action: action_for(top_of(old(self).stacks@[i as int].stack@)),
                },
            ),
    {
        let mut e = self.stacks.remove(i);
        let top = e.stack.top();
        e.emitted = top;
        let action = match top {
            Some(s) => DeviceAction::Scalar(s),
            None => DeviceAction::Stop,
        };
        let cmd = DeviceCommand { actuator: e.actuator.copy(), action };
        self.stacks.insert(i, e);
        cmds.push(cmd);
    }

    /// Puts `stack` in place of the stack at `i`, keeping everything else.
    fn set_stack(&mut self, i: usize, stack: PriorityStack) -> (prev: PriorityStack)
        requires
            i < old(self).stacks@.len(),
        ensures
            final(self).players == old(self).players,
            final(self).stacks@.len() == old(self).stacks@.len(),
            forall|j: int| 0 <= j < old(self).stacks@.len() && j != i ==> final(self).stacks@[j] == old(self).stacks@[j],
            final(self).stacks@[i as int].actuator == old(self).stacks@[i as int].actuator,
            final(self).stacks@[i as int].emitted == old(self).stacks@[i as int].emitted,
            final(self).stacks@[i as int].stack == stack,
            prev == old(self).stacks@[i as int].stack,
    {
        let e = self.stacks.remove(i);
        let ActuatorStack { actuator, stack: prev, emitted } = e;
        self.stacks.insert(i, ActuatorStack { actuator, stack, emitted });
        prev
    }

    /// Cancels every running action and empties every stack, stopping each
    /// actuator that was still driven, once.
    pub fn stop_all(&mut self) -> (cmds: Vec<DeviceCommand>)
        requires
            old(self).wf(),
        ensures
            final(self).wf(),
            final(self).players_wf(),
            final(self).tracks(old(self), cmds@),
            final(self).idle(),
            final(self).players@.len() == 0,
            final(self).stacks@.len() == old(self).stacks@.len(),
            forall|c: int| 0 <= c < cmds@.len() ==> (#[trigger] cmds@[c]).action == DeviceAction::Stop,
            forall|c: int, d: int|
                0 <= c < cmds@.len() && 0 <= d < cmds@.len() && c != d ==> (#[trigger] cmds@[c]).actuator@
                    != (#[trigger] cmds@[d]).actuator@,
            old(self).idle() ==> cmds@.len() == 0,
    {
        let ghost prior = *self;
        let mut cmds: Vec<DeviceCommand> = Vec::new();
        self.players.clear();
        let mut i: usize = 0;
        while i < self.stacks.len()
            invariant
                self.wf(),
                self.tracks(&prior, cmds@),
                self.players@.len() == 0,
                self.stacks@.len() == prior.stacks@.len(),
                i <= self.stacks@.len(),
                forall|j: int| 0 <= j < i ==> (#[trigger] self.stacks@[j]).stack@.len() == 0,
                forall|j: int| i <= j < self.stacks@.len() ==> #[trigger] self.stacks@[j] == prior.stacks@[j],
                forall|c: int| 0 <= c < cmds@.len() ==> (#[trigger] cmds@[c]).action == DeviceAction::Stop,
                forall|c: int| 0 <= c < cmds@.len() ==> exists|j: int| 0 <= j < i && #[trigger] self.stacks@[j].actuator@ == (#[trigger] cmds@[c]).actuator@,
                forall|c: int, d: int|
                    0 <= c < cmds@.len() && 0 <= d < cmds@.len() && c != d ==> (#[trigger] cmds@[c]).actuator@
                        != (#[trigger] cmds@[d]).actuator@,
                prior.idle() ==> cmds@.len() == 0,
            decreases self.stacks.len() - i,
        {
            if !self.stacks[i].stack.is_empty() {
                let ghost before = *self;
                let ghost cb = cmds@;
                let emptied = PriorityStack::new();
                self.set_stack(i, emptied);
                let ghost mid = *self;
                proof {
                    lemma_restack(prior, before, mid, cb, i as int);
                }
                self.emit(i, &mut cmds);
                proof {
                    lemma_emitted(prior, mid, *self, cb, cmds@, i as int);
                    assert forall|c: int| 0 <= c < cmds@.len() implies exists|j: int| 0 <= j < i + 1 && #[trigger] self.stacks@[j].actuator@ == (#[trigger] cmds@[c]).actuator@ by {
                        if c < cb.len() {
                            assert(cmds@[c] == cb[c]);
                            let j = choose|j: int| 0 <= j < i && #[trigger] before.stacks@[j].actuator@ == cb[c].actuator@;
                            assert(self.stacks@[j] == before.stacks@[j]);
                        } else {
                            assert(self.stacks@[i as int].actuator@ == cmds@[c].actuator@);
                        }
                    }
                    assert forall|c: int, d: int|
                        0 <= c < cmds@.len() && 0 <= d < cmds@.len() && c != d implies (#[trigger] cmds@[c]).actuator@
                            != (#[trigger] cmds@[d]).actuator@ by {
                        if c < cb.len() && d < cb.len() {
                            assert(cmds@[c] == cb[c]);
                            assert(cmds@[d] == cb[d]);
                        } else if c < cb.len() {
                            assert(cmds@[c] == cb[c]);
                            let j = choose|j: int| 0 <= j < i && #[trigger] before.stacks@[j].actuator@ == cb[c].actuator@;
                            assert(before.stacks@[j].actuator@ != before.stacks@[i as int].actuator@);
                        } else if d < cb.len() {
                            assert(cmds@[d] == cb[d]);
                            let j = choose|j: int| 0 <= j < i && #[trigger] before.stacks@[j].actuator@ == cb[d].actuator@;
                            assert(before.stacks@[j].actuator@ != before.stacks@[i as int].actuator@);
                        }
                    }
                    assert(!prior.idle());
                }
            }
            i = i + 1;
        }
        proof {
            assert forall|i: int, h: i32| 0 <= i < self.stacks@.len() && #[trigger] holds_handle(self.stacks@[i].stack@, h)
                implies false by {
                let x = choose|x: int| 0 <= x < self.stacks@[i].stack@.len() && #[trigger] self.stacks@[i].stack@[x].handle == h;
            }
        }
        cmds
    }

    /// Ends the running action `handle`: removes its entry from the stack of
    /// each actuator it drives and sends each of those that held it one
    /// command: the new effective strength, or a stop when nothing is left.
    /// Ending an action that does not run changes nothing.
    pub fn stop(&mut self, handle: i32) -> (cmds: Vec<DeviceCommand>)
        requires
            old(self).wf(),
            old(self).players_wf(),
        ensures
            final(self).wf(),
            final(self).players_wf(),
            final(self).tracks(old(self), cmds@),
            final(self).stacks@.len() == old(self).stacks@.len(),
            (forall|p: int| 0 <= p < old(self).players@.len() ==> (#[trigger] old(self).players@[p]).handle != handle)
                ==> cmds@.len() == 0 && final(self).stacks@ == old(self).stacks@ && final(self).players@ == old(self).players@,
            (exists|p: int| 0 <= p < old(self).players@.len() && (#[trigger] old(self).players@[p]).handle == handle)
                ==> exists|q: int|
                0 <= q < old(self).players@.len() && (#[trigger] old(self).players@[q]).handle == handle && (forall|r: int|
                    0 <= r < q ==> (#[trigger] old(self).players@[r]).handle != handle) && final(self).players@
                    == old(self).players@.remove(q) && (forall|i: int|
                    0 <= i < final(self).stacks@.len() ==> (#[trigger] final(self).stacks@[i]).stack@ == popped_if(
                        old(self).stacks@[i].stack@,
                        drove(old(self).players@[q], old(self).stacks@[i].actuator@),
                        handle,
                    )) && (forall|i: int|
                    0 <= i < final(self).stacks@.len() ==> sent_to(cmds@, (#[trigger] final(self).stacks@[i]).actuator@) == (if drove(
                        old(self).players@[q],
                        old(self).stacks@[i].actuator@,
                    ) && holds_handle(old(self).stacks@[i].stack@, handle) {
                        1nat
                    } else {
                        0nat
                    })),
            forall|i: int| 0 <= i < final(self).stacks@.len() ==> !holds_handle(
                (#[trigger] final(self).stacks@[i]).stack@,
                handle,
            ) || final(self).stacks@[i].stack@ == old(self).stacks@[i].stack@,
    {
        let ghost prior = *self;
        let mut cmds: Vec<DeviceCommand> = Vec::new();
        let p = match self.player_index(handle) {
            None => {
                return cmds;
            },
            Some(p) => p,
        };
        let player = self.players.remove(p);
        let ghost removed = self.players@;
        let mut k: usize = 0;
        proof {
            assert forall|i: int| 0 <= i < self.stacks@.len() implies sent_to(cmds@, (#[trigger] self.stacks@[i]).actuator@) == 0 by {}
        }
        while k < player.actuators.len()
            invariant
                self.wf(),
                self.tracks(&prior, cmds@),
                self.players@ == removed,
                self.stacks@.len() == prior.stacks@.len(),
                prior.wf(),
                k <= player.actuators@.len(),
                forall|i: int|
                    0 <= i < self.stacks@.len() ==> (#[trigger] self.stacks@[i]).stack@ == popped_if(
                        prior.stacks@[i].stack@,
                        listed_upto(player.actuators@, k as int, prior.stacks@[i].actuator@),
                        handle,
                    ),
                forall|i: int|
                    0 <= i < self.stacks@.len() ==> sent_to(cmds@, (#[trigger] self.stacks@[i]).actuator@) == (if listed_upto(
                        player.actuators@,
                        k as int,
                        prior.stacks@[i].actuator@,
                    ) && holds_handle(prior.stacks@[i].stack@, handle) {
                        1nat
                    } else {
                        0nat
                    }),
            decreases player.actuators.len() - k,
        {
            let ghost a = player.actuators@[k as int]@;
            match self.stack_index(&player.actuators[k]) {
                None => {},
                Some(i) => {
                    proof {
                        let ps = prior.stacks@[i as int].stack@;
                        assert(prior.stacks@[i as int].stack.wf());
                        if listed_upto(player.actuators@, k as int, prior.stacks@[i as int].actuator@) && holds_handle(ps, handle) {
                            crate::stack::lemma_remove_drops_handle(ps, handle);
                        }
                    }
                    if self.stacks[i].stack.contains(handle) {
                        let ghost before = *self;
                        let ghost cb = cmds@;
                        let mut st = self.set_stack(i, PriorityStack::new());
                        let _ = st.pop(handle);
                        self.set_stack(i, st);
                        let ghost mid = *self;
                        proof {
                            lemma_restack(prior, before, mid, cb, i as int);
                        }
                        self.emit(i, &mut cmds);
                        proof {
                            lemma_emitted(prior, mid, *self, cb, cmds@, i as int);
                            assert forall|j: int| 0 <= j < self.stacks@.len() implies sent_to(cmds@, (#[trigger] self.stacks@[j]).actuator@)
                                == sent_to(cb, self.stacks@[j].actuator@) + (if j == i { 1nat } else { 0nat }) by {
                                lemma_sent_push(cb, cmds@.last(), self.stacks@[j].actuator@);
                                assert(cb.push(cmds@.last()) == cmds@);
                                if j != i {
                                    assert(before.stacks@[j].actuator@ != before.stacks@[i as int].actuator@);
                                }
                            }
                        }
                    }
                },
            }
            proof {
                assert forall|j: int| 0 <= j < self.stacks@.len() implies listed_upto(player.actuators@, k + 1, (#[trigger] prior.stacks@[j]).actuator@)
                    == (listed_upto(player.actuators@, k as int, prior.stacks@[j].actuator@) || a == prior.stacks@[j].actuator@) by {
                    let id = prior.stacks@[j].actuator@;
                    if listed_upto(player.actuators@, k + 1, id) {
                        let m = choose|m: int| 0 <= m < k + 1 && (#[trigger] player.actuators@[m])@ == id;
                        if m < k {
                            assert(listed_upto(player.actuators@, k as int, id));
                        }
                    }
                    if listed_upto(player.actuators@, k as int, id) {
                        let m = choose|m: int| 0 <= m < k && (#[trigger] player.actuators@[m])@ == id;
                        assert(listed_upto(player.actuators@, k + 1, id));
                    }
                    if a == id {
                        assert(listed_upto(player.actuators@, k + 1, id));
                    }
                }
            }
            k = k + 1;
        }
        proof {
            assert(player == prior.players@[p as int]);
            assert forall|id: ActuatorId| #[trigger] listed_upto(player.actuators@, k as int, id) == drove(player, id) by {
                if drove(player, id) {
                    let m = choose|m: int| 0 <= m < player.actuators@.len() && #[trigger] player.actuators@[m]@ == id;
                    assert(listed_upto(player.actuators@, k as int, id));
                }
            }
            assert forall|i: int| 0 <= i < self.stacks@.len() implies !holds_handle((#[trigger] self.stacks@[i]).stack@, handle)
                || self.stacks@[i].stack@ == prior.stacks@[i].stack@ by {
                let ps = prior.stacks@[i].stack@;
                assert(prior.stacks@[i].stack.wf());
                if drove(player, prior.stacks@[i].actuator@) && holds_handle(ps, handle) {
                    crate::stack::lemma_remove_drops_handle(ps, handle);
                }
            }
        }
        proof {
            assert forall|a: int, b: int|
                0 <= a < self.players@.len() && 0 <= b < self.players@.len() && a != b implies (#[trigger] self.players@[a]).handle
                    != (#[trigger] self.players@[b]).handle by {
                let oa = if a < p { a } else { a + 1 };
                let ob = if b < p { b } else { b + 1 };
                assert(self.players@[a] == prior.players@[oa]);
                assert(self.players@[b] == prior.players@[ob]);
            }
            assert forall|i: int, g: i32| 0 <= i < self.stacks@.len() && #[trigger] holds_handle(self.stacks@[i].stack@, g)
                implies exists|r: int| 0 <= r < self.players@.len() && (#[trigger] self.players@[r]).handle == g && drove(
                    self.players@[r],
                    self.stacks@[i].actuator@,
                ) by {
                let ps = prior.stacks@[i].stack@;
                let ns = self.stacks@[i].stack@;
                let id = prior.stacks@[i].actuator@;
                let j = choose|j: int| 0 <= j < ns.len() && #[trigger] ns[j].handle == g;
                assert(prior.stacks@[i].stack.wf());
                if drove(player, id) && holds_handle(ps, handle) {
                    let x = crate::stack::index_of(ps, handle);
                    let oj = if j < x { j } else { j + 1 };
                    assert(ns[j] == ps[oj]);
                    assert(holds_handle(ps, g));
                    crate::stack::lemma_remove_drops_handle(ps, handle);
                } else {
                    assert(ns == ps);
                    assert(holds_handle(ps, g));
                }
                let r0 = choose|r: int| 0 <= r < prior.players@.len() && (#[trigger] prior.players@[r]).handle == g && drove(
                    prior.players@[r],
                    id,
                );
                if r0 == p as int {
                    assert(drove(player, id));
                    assert(g == handle);
                    assert(holds_handle(ps, handle));
                    assert(!holds_handle(ns, handle));
                }
                let r = if r0 < p { r0 } else { r0 - 1 };
                assert(self.players@[r] == prior.players@[r0]);
                assert(self.stacks@[i].actuator == prior.stacks@[i].actuator);
            }
        }
        cmds
    }

    /// Sets the strength of the running action `handle` on each actuator it
    /// drives, sending the new strength where that changes what the actuator shows.
    pub fn update(&mut self, handle: i32, strength: Speed) -> (cmds: Vec<DeviceCommand>)
        requires
            old(self).wf(),
            old(self).players_wf(),
        ensures
            final(self).wf(),
            final(self).players_wf(),
            final(self).tracks(old(self), cmds@),
            final(self).stacks@.len() == old(self).stacks@.len(),
            final(self).players@ == old(self).players@,
            forall|c: int| 0 <= c < cmds@.len() ==> (#[trigger] cmds@[c]).action == DeviceAction::Scalar(strength),
            forall|i: int| 0 <= i < final(self).stacks@.len() ==> (#[trigger] final(self).stacks@[i]).stack@ == old(self).stacks@[i].stack@
                || (holds_handle(old(self).stacks@[i].stack@, handle) && final(self).stacks@[i].stack@ == old(self).stacks@[i].stack@.update(
                    crate::stack::index_of(old(self).stacks@[i].stack@, handle),
                    crate::stack::StackEntry { handle, strength },
                )),
            forall|q: int, i: int|
                0 <= q < old(self).players@.len() && (#[trigger] old(self).players@[q]).handle == handle && (forall|r: int|
                    0 <= r < q ==> (#[trigger] old(self).players@[r]).handle != handle) && 0 <= i < final(self).stacks@.len()
                    && drove(old(self).players@[q], (#[trigger] final(self).stacks@[i]).actuator@) && holds_handle(
                    old(self).stacks@[i].stack@,
                    handle,
                ) ==> final(self).stacks@[i].stack@ == old(self).stacks@[i].stack@.update(
                    crate::stack::index_of(old(self).stacks@[i].stack@, handle),
                    crate::stack::StackEntry { handle, strength },
                ),
            forall|i: int|
                0 <= i < final(self).stacks@.len() ==> sent_to(cmds@, (#[trigger] final(self).stacks@[i]).actuator@) == (if top_of(
                    final(self).stacks@[i].stack@,
                ) != top_of(old(self).stacks@[i].stack@) {
                    1nat
                } else {
                    0nat
                }),
    {
        let ghost prior = *self;
        let mut cmds: Vec<DeviceCommand> = Vec::new();
        let p = match self.player_index(handle) {
            None => {
                return cmds;
            },
            Some(p) => p,
        };
        let n = self.players[p].actuators.len();
        proof {
            assert forall|i: int| 0 <= i < self.stacks@.len() implies sent_to(cmds@, (#[trigger] self.stacks@[i]).actuator@) == 0 by {}
        }
        let mut k: usize = 0;
        while k < n
            invariant
                self.wf(),
                self.tracks(&prior, cmds@),
                self.players@ == prior.players@,
                p < self.players@.len(),
                n == self.players@[p as int].actuators@.len(),
                self.stacks@.len() == prior.stacks@.len(),
                k <= n,
                forall|c: int| 0 <= c < cmds@.len() ==> (#[trigger] cmds@[c]).action == DeviceAction::Scalar(strength),
                forall|i: int| 0 <= i < self.stacks@.len() ==> (#[trigger] self.stacks@[i]).stack@ == prior.stacks@[i].stack@
                    || (holds_handle(prior.stacks@[i].stack@, handle) && self.stacks@[i].stack@ == prior.stacks@[i].stack@.update(
                        crate::stack::index_of(prior.stacks@[i].stack@, handle),
                        crate::stack::StackEntry { handle, strength },
                    )),
                forall|i: int|
                    0 <= i < self.stacks@.len() && (exists|m: int| 0 <= m < k && #[trigger] self.players@[p as int].actuators@[m]@ == self.stacks@[i].actuator@)
                        && holds_handle(prior.stacks@[i].stack@, handle) ==> (#[trigger] self.stacks@[i]).stack@
                        == prior.stacks@[i].stack@.update(
                        crate::stack::index_of(prior.stacks@[i].stack@, handle),
                        crate::stack::StackEntry { handle, strength },
                    ),
                forall|i: int|
                    0 <= i < self.stacks@.len() ==> sent_to(cmds@, (#[trigger] self.stacks@[i]).actuator@) == (if top_of(
                        self.stacks@[i].stack@,
                    ) != top_of(prior.stacks@[i].stack@) {
                        1nat
                    } else {
                        0nat
                    }),
            decreases n - k,
        {
            let a = self.players[p].actuators[k].copy();
            match self.stack_index(&a) {
                None => {},
                Some(i) => {
                    let ghost before = *self;
                    let ghost cb = cmds@;
                    let mut st = self.set_stack(i, PriorityStack::new());
                    let ghost old_st = st@;
                    let changed = st.update(handle, strength);
                    proof {
                        if holds_handle(old_st, handle) {
                            let x = crate::stack::index_of(old_st, handle);
                            assert(old_st[x].handle == handle);
                            if x != old_st.len() - 1 {
                                assert(st@.last() == old_st.last());
                            }
                        }
                        let pi = prior.stacks@[i as int].stack@;
                        if old_st != pi && holds_handle(pi, handle) {
                            let x = crate::stack::index_of(pi, handle);
                            assert(pi[x].handle == handle);
                            assert(old_st[x].handle == handle);
                            assert(holds_handle(old_st, handle));
                            let y = crate::stack::index_of(old_st, handle);
                            assert(old_st[y].handle == handle);
                            if x != y {
                                assert(old_st[x].handle != old_st[y].handle);
                            }
                            assert(st@ =~= pi.update(x, crate::stack::StackEntry { handle, strength }));
                        }
                        if old_st != pi {
                            assert(st@ == old_st);
                            assert(!changed);
                        }
                        if old_st == pi && holds_handle(pi, handle) {
                            assert(st@ == pi.update(crate::stack::index_of(pi, handle), crate::stack::StackEntry { handle, strength }));
                        }
                    }
                    self.set_stack(i, st);
                    let ghost mid = *self;
                    proof {
                        lemma_restack(prior, before, mid, cb, i as int);
                    }
                    if changed {
                        self.emit(i, &mut cmds);
                        proof {
                            lemma_emitted(prior, mid, *self, cb, cmds@, i as int);
                            assert forall|j: int| 0 <= j < self.stacks@.len() implies sent_to(cmds@, (#[trigger] self.stacks@[j]).actuator@)
                                == sent_to(cb, self.stacks@[j].actuator@) + (if j == i { 1nat } else { 0nat }) by {
                                lemma_sent_push(cb, cmds@.last(), self.stacks@[j].actuator@);
                                assert(cb.push(cmds@.last()) == cmds@);
                                if j != i {
                                    assert(before.stacks@[j].actuator@ != before.stacks@[i as int].actuator@);
                                }
                            }
                        }
                    }
                },
            }
            proof {
                assert forall|j: int|
                    0 <= j < self.stacks@.len() && (exists|m: int| 0 <= m < k + 1 && #[trigger] self.players@[p as int].actuators@[m]@ == self.stacks@[j].actuator@)
                        && holds_handle(prior.stacks@[j].stack@, handle) implies (#[trigger] self.stacks@[j]).stack@
                        == prior.stacks@[j].stack@.update(
                        crate::stack::index_of(prior.stacks@[j].stack@, handle),
                        crate::stack::StackEntry { handle, strength },
                    ) by {
                    let m = choose|m: int| 0 <= m < k + 1 && #[trigger] self.players@[p as int].actuators@[m]@ == self.stacks@[j].actuator@;
                    if m < k {
                        assert(exists|m: int| 0 <= m < k && #[trigger] self.players@[p as int].actuators@[m]@ == self.stacks@[j].actuator@);
                    }
                }
            }
            k = k + 1;
        }
        proof {
            assert forall|q: int, i: int|
                0 <= q < prior.players@.len() && (#[trigger] prior.players@[q]).handle == handle && (forall|r: int|
                    0 <= r < q ==> (#[trigger] prior.players@[r]).handle != handle) && 0 <= i < self.stacks@.len()
                    && drove(prior.players@[q], (#[trigger] self.stacks@[i]).actuator@) && holds_handle(
                    prior.stacks@[i].stack@,
                    handle,
                ) implies self.stacks@[i].stack@ == prior.stacks@[i].stack@.update(
                    crate::stack::index_of(prior.stacks@[i].stack@, handle),
                    crate::stack::StackEntry { handle, strength },
                ) by {
                if q != p as int {
                    if q < p as int {
                        assert(prior.players@[q].handle != handle);
                    } else {
                        assert(prior.players@[p as int].handle != handle);
                    }
                }
                let m = choose|m: int| 0 <= m < prior.players@[q].actuators@.len() && #[trigger] prior.players@[q].actuators@[m]@ == self.stacks@[i].actuator@;
                assert(exists|m: int| 0 <= m < k && #[trigger] self.players@[p as int].actuators@[m]@ == self.stacks@[i].actuator@);
            }
        }
        proof {
            assert forall|i: int, g: i32| 0 <= i < self.stacks@.len() && #[trigger] holds_handle(self.stacks@[i].stack@, g)
                implies exists|r: int| 0 <= r < self.players@.len() && (#[trigger] self.players@[r]).handle == g && drove(
                    self.players@[r],
                    self.stacks@[i].actuator@,
                ) by {
                let ps = prior.stacks@[i].stack@;
                let ns = self.stacks@[i].stack@;
                let j = choose|j: int| 0 <= j < ns.len() && #[trigger] ns[j].handle == g;
                if ns != ps {
                    let x = crate::stack::index_of(ps, handle);
                    assert(ps[x].handle == handle);
                    assert(ps[j].handle == g);
                }
                assert(ps[j].handle == g);
                assert(holds_handle(ps, g));
                assert(self.stacks@[i].actuator == prior.stacks@[i].actuator);
            }
        }
        cmds
    }

    /// Starts the action `handle` at strength `initial` on every vibrating
    /// actuator that the selector picks: pushes it on top of each such
    /// actuator's stack, making a stack for an actuator that has none, and
    /// sends the new strength to each actuator whose effective strength that
    /// changes. The action is then running, on exactly those actuators.
    pub fn control(
        &mut self,
        handle: i32,
        params: &TkParams,
        actuators: &Vec<Actuator>,
        settings: &TkSettings,
        initial: Speed,
    ) -> (cmds: Vec<DeviceCommand>)
        requires
            old(self).wf(),
            old(self).players_wf(),
            settings.wf(),
            forall|p: int| 0 <= p < old(self).players@.len() ==> (#[trigger] old(self).players@[p]).handle != handle,
        ensures
            final(self).wf(),
            final(self).players_wf(),
            forall|i: int| 0 <= i < final(self).stacks@.len() ==> !holds_handle(#[trigger] Scheduler::prior_stack(old(self), i), handle),
            final(self).tracks(old(self), cmds@),
            forall|c: int| 0 <= c < cmds@.len() ==> drives(params.selector, *settings, (#[trigger] cmds@[c]).actuator@),
            forall|c: int| 0 <= c < cmds@.len() ==> (#[trigger] cmds@[c]).action == DeviceAction::Scalar(initial),
            final(self).players@.len() == old(self).players@.len() + 1,
            final(self).players@.drop_last() == old(self).players@,
            final(self).players@.last().handle == handle,
            final(self).players@.last().actuators@ == actuators@.filter(|a: Actuator| drives(params.selector, *settings, a@)),
            forall|i: int|
                0 <= i < final(self).stacks@.len() ==> (#[trigger] final(self).stacks@[i]).stack@ == pushed_if(
                    Scheduler::prior_stack(old(self), i),
                    targeted(params.selector, *settings, actuators@, final(self).stacks@[i].actuator@),
                    StackEntry { handle, strength: initial },
                ),
            forall|i: int|
                0 <= i < final(self).stacks@.len() ==> sent_to(cmds@, (#[trigger] final(self).stacks@[i]).actuator@) == (if targeted(
                    params.selector,
                    *settings,
                    actuators@,
                    final(self).stacks@[i].actuator@,
                ) && !holds_handle(Scheduler::prior_stack(old(self), i), handle) && top_of(Scheduler::prior_stack(old(self), i))
                    != Some(initial) {
                    1nat
                } else {
                    0nat
                }),
            forall|i: int|
                old(self).stacks@.len() <= i < final(self).stacks@.len() ==> targeted(
                    params.selector,
                    *settings,
                    actuators@,
                    (#[trigger] final(self).stacks@[i]).actuator@,
                ),
            forall|x: int|
                0 <= x < actuators@.len() && drives(params.selector, *settings, (#[trigger] actuators@[x])@) ==> exists|i: int|
                    0 <= i < final(self).stacks@.len() && #[trigger] final(self).stacks@[i].actuator@ == actuators@[x]@,
    {
        let ghost prior = *self;
        let ghost pick = |a: Actuator| picks(params.selector, *settings, a@);
        let ghost vib = |a: Actuator| a.actuator == ActuatorKind::Vibrate;
        let ghost entry = StackEntry { handle, strength: initial };
        let targets = select(actuators, &params.selector, settings);
        let mut cmds: Vec<DeviceCommand> = Vec::new();
        let mut driven: Vec<Actuator> = Vec::new();
        let mut k: usize = 0;
        proof {
            assert(driven@ =~= targets@.take(0).filter(vib)) by {
                reveal(Seq::filter);
            }
            assert forall|i: int| 0 <= i < self.stacks@.len() implies sent_to(cmds@, (#[trigger] self.stacks@[i]).actuator@) == 0 by {}
        }
        while k < targets.len()
            invariant
                self.wf(),
                self.tracks(&prior, cmds@),
                self.players == prior.players,
                k <= targets@.len(),
                targets@ == actuators@.filter(pick),
                pick == (|a: Actuator| picks(params.selector, *settings, a@)),
                vib == (|a: Actuator| a.actuator == ActuatorKind::Vibrate),
                entry == (StackEntry { handle, strength: initial }),
                driven@ == targets@.take(k as int).filter(vib),
                forall|c: int| 0 <= c < cmds@.len() ==> drives(params.selector, *settings, (#[trigger] cmds@[c]).actuator@),
                forall|c: int| 0 <= c < cmds@.len() ==> (#[trigger] cmds@[c]).action == DeviceAction::Scalar(initial),
                forall|i: int|
                    0 <= i < self.stacks@.len() ==> (#[trigger] self.stacks@[i]).stack@ == pushed_if(
                        Scheduler::prior_stack(&prior, i),
                        chosen_upto(targets@, k as int, self.stacks@[i].actuator@),
                        entry,
                    ),
                forall|i: int|
                    0 <= i < self.stacks@.len() ==> sent_to(cmds@, (#[trigger] self.stacks@[i]).actuator@) == (if chosen_upto(
                        targets@,
                        k as int,
                        self.stacks@[i].actuator@,
                    ) && !holds_handle(Scheduler::prior_stack(&prior, i), handle) && top_of(Scheduler::prior_stack(&prior, i))
                        != Some(initial) {
                        1nat
                    } else {
                        0nat
                    }),
                forall|i: int|
                    prior.stacks@.len() <= i < self.stacks@.len() ==> chosen_upto(targets@, k as int, (#[trigger] self.stacks@[i]).actuator@),
                forall|m: int|
                    0 <= m < k && (#[trigger] targets@[m]).actuator == ActuatorKind::Vibrate ==> exists|i: int|
                        0 <= i < self.stacks@.len() && #[trigger] self.stacks@[i].actuator@ == targets@[m]@,
            decreases targets.len() - k,
        {
            let t = &targets[k];
            proof {
                actuators@.lemma_filter_pred(pick, k as int);
                assert(targets@.take(k + 1).drop_last() =~= targets@.take(k as int));
                assert(targets@.take(k + 1).last() == *t);
                reveal(Seq::filter);
            }
            if t.actuator == ActuatorKind::Vibrate {
                let i = match self.stack_index(t) {
                    Some(i) => i,
                    None => {
                        let ghost before = *self;
                        proof {
                            if chosen_upto(targets@, k as int, t@) {
                                let m = choose|m: int| 0 <= m < k && (#[trigger] targets@[m]).actuator == ActuatorKind::Vibrate && targets@[m]@ == t@;
                                let j = choose|j: int| 0 <= j < self.stacks@.len() && #[trigger] self.stacks@[j].actuator@ == targets@[m]@;
                            }
                        }
                        self.stacks.push(ActuatorStack { actuator: t.copy(), stack: PriorityStack::new(), emitted: None });
                        let n = self.stacks.len() - 1;
                        proof {
                            assert(self.stacks@[n as int].actuator@ == t@);
                            assert forall|c: int| 0 <= c < cmds@.len() implies (#[trigger] cmds@[c]).actuator@ != t@ by {
                                let j = choose|j: int| 0 <= j < before.stacks@.len() && #[trigger] before.stacks@[j].actuator@ == cmds@[c].actuator@;
                            }
                            lemma_last_level_untouched(cmds@, t@, None);
                            lemma_sent_untouched(cmds@, t@);
                            assert(self.stacks@.drop_last() =~= before.stacks@);
                            lemma_grown(prior, before, *self, cmds@);
                            assert forall|j: int| 0 <= j < n implies #[trigger] self.stacks@[j] == before.stacks@[j] by {
                                assert(self.stacks@.drop_last()[j] == self.stacks@[j]);
                            }
                            assert(self.stacks@[n as int].stack@ =~= Seq::<StackEntry>::empty());
                        }
                        n
                    },
                };
                let ghost at_i = self.stacks@[i as int].stack@;
                let ghost ps = Scheduler::prior_stack(&prior, i as int);
                proof {
                    if chosen_upto(targets@, k as int, t@) {
                        if !holds_handle(ps, handle) {
                            assert(at_i == ps.push(entry));
                            assert(at_i[ps.len() as int].handle == handle);
                        }
                    }
                }
                if !self.stacks[i].stack.contains(handle) {
                    let ghost before = *self;
                    let ghost cb = cmds@;
                    let mut st = self.set_stack(i, PriorityStack::new());
                    let ghost prev = st@;
                    let changed = st.push(handle, initial);
                    assert(st@.drop_last() =~= prev);
                    self.set_stack(i, st);
                    let ghost mid = *self;
                    proof {
                        lemma_restack(prior, before, mid, cb, i as int);
                    }
                    if changed {
                        self.emit(i, &mut cmds);
                        proof {
                            lemma_emitted(prior, mid, *self, cb, cmds@, i as int);
                            assert forall|j: int| 0 <= j < self.stacks@.len() implies sent_to(cmds@, (#[trigger] self.stacks@[j]).actuator@)
                                == sent_to(cb, self.stacks@[j].actuator@) + (if j == i { 1nat } else { 0nat }) by {
                                lemma_sent_push(cb, cmds@.last(), self.stacks@[j].actuator@);
                                assert(cb.push(cmds@.last()) == cmds@);
                                if j != i {
                                    assert(before.stacks@[j].actuator@ != before.stacks@[i as int].actuator@);
                                }
                            }
                        }
                    }
                }
                driven.push(t.copy());
            }
            proof {
                assert(driven@ =~= targets@.take(k + 1).filter(vib));
                let ghost now_k = k + 1;
                assert forall|j: int| 0 <= j < self.stacks@.len() implies chosen_upto(targets@, k + 1, (#[trigger] self.stacks@[j]).actuator@)
                    == (chosen_upto(targets@, k as int, self.stacks@[j].actuator@) || (t.actuator == ActuatorKind::Vibrate
                    && t@ == self.stacks@[j].actuator@)) by {
                    if chosen_upto(targets@, k + 1, self.stacks@[j].actuator@) {
                        let m = choose|m: int| 0 <= m < k + 1 && (#[trigger] targets@[m]).actuator == ActuatorKind::Vibrate && targets@[m]@ == self.stacks@[j].actuator@;
                        if m < k {
                            assert(chosen_upto(targets@, k as int, self.stacks@[j].actuator@));
                        }
                    }
                    if chosen_upto(targets@, k as int, self.stacks@[j].actuator@) {
                        let m = choose|m: int| 0 <= m < k && (#[trigger] targets@[m]).actuator == ActuatorKind::Vibrate && targets@[m]@ == self.stacks@[j].actuator@;
                        assert(chosen_upto(targets@, k + 1, self.stacks@[j].actuator@));
                    }
                    if t.actuator == ActuatorKind::Vibrate && t@ == self.stacks@[j].actuator@ {
                        assert(targets@[k as int] == *t);
                        assert(chosen_upto(targets@, k + 1, self.stacks@[j].actuator@));
                    }
                }
                assert forall|m: int|
                    0 <= m < k + 1 && (#[trigger] targets@[m]).actuator == ActuatorKind::Vibrate implies exists|i: int|
                        0 <= i < self.stacks@.len() && #[trigger] self.stacks@[i].actuator@ == targets@[m]@ by {
                    if m < k {
                        let i = choose|i: int| 0 <= i < self.stacks@.len() && #[trigger] self.stacks@[i].actuator@ == targets@[m]@;
                    }
                }
            }
            k = k + 1;
        }
        self.players.push(Player { handle, actuators: driven });
        proof {
            assert(self.players@.drop_last() =~= prior.players@);
            assert(targets@.take(targets@.len() as int) =~= targets@);
            lemma_filter_twice(actuators@, pick, vib, |a: Actuator| drives(params.selector, *settings, a@));
            assert forall|id: ActuatorId| #[trigger] chosen_upto(targets@, targets@.len() as int, id) == targeted(params.selector, *settings, actuators@, id) by {
                if chosen_upto(targets@, targets@.len() as int, id) {
                    let m = choose|m: int| 0 <= m < targets@.len() && (#[trigger] targets@[m]).actuator == ActuatorKind::Vibrate && targets@[m]@ == id;
                    actuators@.lemma_filter_pred(pick, m);
                    lemma_filter_member(actuators@, pick, m);
                    let x = choose|x: int| 0 <= x < actuators@.len() && actuators@[x] == targets@[m];
                    assert(actuators@[x]@ == id);
                }
                if targeted(params.selector, *settings, actuators@, id) {
                    let x = choose|x: int| 0 <= x < actuators@.len() && #[trigger] actuators@[x]@ == id && drives(params.selector, *settings, actuators@[x]@);
                    actuators@.lemma_filter_contains(pick, x);
                    let m = choose|m: int| 0 <= m < targets@.len() && targets@[m] == actuators@[x];
                    assert(targets@[m].actuator == ActuatorKind::Vibrate);
                }
            }
            assert forall|x: int|
                0 <= x < actuators@.len() && drives(params.selector, *settings, (#[trigger] actuators@[x])@) implies exists|i: int|
                    0 <= i < self.stacks@.len() && #[trigger] self.stacks@[i].actuator@ == actuators@[x]@ by {
                actuators@.lemma_filter_contains(pick, x);
                let m = choose|m: int| 0 <= m < targets@.len() && targets@[m] == actuators@[x];
                assert(targets@[m].actuator == ActuatorKind::Vibrate);
                let i = choose|i: int| 0 <= i < self.stacks@.len() && #[trigger] self.stacks@[i].actuator@ == targets@[m]@;
            }
        }
        proof {
            let np = self.players@.last();
            let dfn = |a: Actuator| drives(params.selector, *settings, a@);
            assert(np.actuators@ == actuators@.filter(dfn));
            assert forall|i: int| 0 <= i < self.stacks@.len() implies !holds_handle(#[trigger] Scheduler::prior_stack(&prior, i), handle) by {
                if i < prior.stacks@.len() && holds_handle(prior.stacks@[i].stack@, handle) {
                    let r = choose|r: int| 0 <= r < prior.players@.len() && (#[trigger] prior.players@[r]).handle == handle && drove(
                        prior.players@[r],
                        prior.stacks@[i].actuator@,
                    );
                }
            }
            let n = prior.players@.len() as int;
            assert forall|a: int| 0 <= a < n implies #[trigger] self.players@[a] == prior.players@[a] by {
                assert(self.players@.drop_last()[a] == self.players@[a]);
            }
            assert forall|a: int, b: int|
                0 <= a < self.players@.len() && 0 <= b < self.players@.len() && a != b implies (#[trigger] self.players@[a]).handle
                    != (#[trigger] self.players@[b]).handle by {
                if a < n && b < n {
                    assert(prior.players@[a].handle != prior.players@[b].handle);
                }
            }
            assert forall|i: int, g: i32| 0 <= i < self.stacks@.len() && #[trigger] holds_handle(self.stacks@[i].stack@, g)
                implies exists|r: int| 0 <= r < self.players@.len() && (#[trigger] self.players@[r]).handle == g && drove(
                    self.players@[r],
                    self.stacks@[i].actuator@,
                ) by {
                let ps = Scheduler::prior_stack(&prior, i);
                let ns = self.stacks@[i].stack@;
                let id = self.stacks@[i].actuator@;
                let j = choose|j: int| 0 <= j < ns.len() && #[trigger] ns[j].handle == g;
                if targeted(params.selector, *settings, actuators@, id) && j == ps.len() {
                    assert(ns == ps.push(StackEntry { handle, strength: initial }));
                    assert(g == handle);
                    let x = choose|x: int| 0 <= x < actuators@.len() && #[trigger] actuators@[x]@ == id && drives(params.selector, *settings, actuators@[x]@);
                    actuators@.lemma_filter_contains(dfn, x);
                    let m = choose|m: int| 0 <= m < np.actuators@.len() && np.actuators@[m] == actuators@[x];
                    assert(np.actuators@[m]@ == id);
                    assert(drove(np, id));
                    assert(self.players@[n] == np);
                } else {
                    if targeted(params.selector, *settings, actuators@, id) {
                        assert(ns[j] == ps[j]);
                    }
                    assert(ps[j].handle == g);
                    assert(i < prior.stacks@.len());
                    assert(holds_handle(prior.stacks@[i].stack@, g));
                    let r = choose|r: int| 0 <= r < prior.players@.len() && (#[trigger] prior.players@[r]).handle == g && drove(
                        prior.players@[r],
                        prior.stacks@[i].actuator@,
                    );
                    assert(self.players@[r] == prior.players@[r]);
                    assert(self.stacks@[i].actuator == prior.stacks@[i].actuator);
                }
            }
        }
        cmds
    }
}

/// A stack without the entry of `handle` when `chosen`.
pub open spec fn popped_if(s: Seq<StackEntry>, chosen: bool, handle: i32) -> Seq<StackEntry> {
    if chosen && holds_handle(s, handle) {
        s.remove(crate::stack::index_of(s, handle))
    } else {
        s
    }
}

/// Whether one of the first `k` actuators is `id`.
pub open spec fn listed_upto(actuators: Seq<Actuator>, k: int, id: ActuatorId) -> bool {
    exists|m: int| 0 <= m < k && (#[trigger] actuators[m])@ == id
}

/// A stack with the entry `e` pushed on top when `chosen`, unless it already
/// holds an entry of that handle.
pub open spec fn pushed_if(s: Seq<StackEntry>, chosen: bool, e: StackEntry) -> Seq<StackEntry> {
    if chosen && !holds_handle(s, e.handle) {
        s.push(e)
    } else {
        s
    }
}

/// Whether one of the first `k` targets is a vibrating actuator `id`.
pub open spec fn chosen_upto(targets: Seq<Actuator>, k: int, id: ActuatorId) -> bool {
    exists|m: int| 0 <= m < k && (#[trigger] targets[m]).actuator == ActuatorKind::Vibrate && targets[m]@ == id
}

/// How many of the commands go to the actuator `id`.
pub open spec fn sent_to(cmds: Seq<DeviceCommand>, id: ActuatorId) -> nat
    decreases cmds.len(),
{
    if cmds.len() == 0 {
        0
    } else {
        sent_to(cmds.drop_last(), id) + if cmds.last().actuator@ == id {
            1nat
        } else {
            0nat
        }
    }
}

pub proof fn lemma_sent_push(cmds: Seq<DeviceCommand>, c: DeviceCommand, id: ActuatorId)
    ensures
        sent_to(cmds.push(c), id) == sent_to(cmds, id) + if c.actuator@ == id {
            1nat
        } else {
            0nat
        },
{
    assert(cmds.push(c).drop_last() =~= cmds);
}

pub proof fn lemma_sent_untouched(cmds: Seq<DeviceCommand>, id: ActuatorId)
    requires
        forall|c: int| 0 <= c < cmds.len() ==> (#[trigger] cmds[c]).actuator@ != id,
    ensures
        sent_to(cmds, id) == 0,
    decreases cmds.len(),
{
    if cmds.len() > 0 {
        assert(cmds.last() == cmds[cmds.len() - 1]);
        let rest = cmds.drop_last();
        assert forall|c: int| 0 <= c < rest.len() implies (#[trigger] rest[c]).actuator@ != id by {
            assert(rest[c] == cmds[c]);
        }
        lemma_sent_untouched(rest, id);
    }
}

/// Filtering twice keeps what both predicates keep.
pub proof fn lemma_filter_twice<A>(s: Seq<A>, p: spec_fn(A) -> bool, q: spec_fn(A) -> bool, r: spec_fn(A) -> bool)
    requires
        forall|a: A| #[trigger] r(a) == (p(a) && q(a)),
    ensures
        s.filter(p).filter(q) == s.filter(r),
    decreases s.len(),
{
    reveal(Seq::filter);
    if s.len() == 0 {
        assert(s.filter(p) =~= Seq::<A>::empty());
        assert(s.filter(p).filter(q) =~= Seq::<A>::empty());
        assert(s.filter(r) =~= Seq::<A>::empty());
    } else {
        let rest = s.drop_last();
        lemma_filter_twice(rest, p, q, r);
        let sub = rest.filter(p);
        if p(s.last()) {
            assert(sub.push(s.last()).drop_last() =~= sub);
            assert(sub.push(s.last()).last() == s.last());
        }
    }
}

/// After any step, the last command sent to each actuator leaves it at its
/// stack's effective strength, or stopped when its stack is empty.
pub proof fn law_last_emit_is_top(prior: Scheduler, after: Scheduler, cmds: Seq<DeviceCommand>, i: int)
    requires
        after.wf(),
        after.tracks(&prior, cmds),
        0 <= i < after.stacks@.len(),
    ensures
        last_level(cmds, after.stacks@[i].actuator@, Scheduler::prior_level(&prior, i)) == top_of(
            after.stacks@[i].stack@,
        ),
{
    assert(after.stacks@[i].emitted == top_of(after.stacks@[i].stack@));
}

/// A device whose settings say it is not enabled is driven by no control
/// action, whatever the selector.
pub proof fn law_disabled_device_is_not_driven(selector: TkDeviceSelector, settings: TkSettings, a: ActuatorId)
    requires
        settings.knows(a.device),
        !settings.entry(a.device).enabled,
    ensures
        !drives(selector, settings, a),
{
}

/// Two requests whose tags normalize alike drive the same actuators, so a
/// control action sends the same commands and leaves the same stacks for both.
pub proof fn law_equal_tags_drive_alike(settings: TkSettings, a: ActuatorId, first: Vec<String>, second: Vec<String>)
    requires
        normalized_all(texts(first@)) == normalized_all(texts(second@)),
    ensures
        drives(TkDeviceSelector::ByNames(first), settings, a) == drives(TkDeviceSelector::ByNames(second), settings, a),
{
    law_tags_ignore_case_and_space(settings, a, first@, second@);
}

/// One step of a pattern: from `offset_ms` after the start it plays `strength`.
#[derive(Clone, Copy, Debug, PartialEq, Eq, Structural)]
pub struct PatternSample {
    pub offset_ms: u64,
    pub strength: Speed,
}

/// The strength a pattern starts at: its constant strength, or the first
/// sample of the named pattern; none when the pattern has no samples, in
/// which case the action ends at once.
pub open spec fn initial_spec(pattern: TkPattern, samples: Seq<PatternSample>) -> Option<Speed> {
    match pattern {
        TkPattern::Linear(_, s) => Some(s),
        TkPattern::Funscript(_, _) => if samples.len() > 0 {
            Some(samples[0].strength)
        } else {
            None
        },
    }
}

/// The strength an action starts at, if it starts at all.
pub fn initial_strength(pattern: &TkPattern, samples: &Vec<PatternSample>) -> (r: Option<Speed>)
    ensures
        r == initial_spec(*pattern, samples@),
{
    match pattern {
        TkPattern::Linear(_, s) => Some(*s),
        TkPattern::Funscript(_, _) => if samples.len() > 0 {
            Some(samples[0].strength)
        } else {
            None
        },
    }
}

/// Whether the running action drives the actuator `id`.
pub open spec fn drove(player: Player, id: ActuatorId) -> bool {
    exists|m: int| 0 <= m < player.actuators@.len() && #[trigger] player.actuators@[m]@ == id
}

/// Whether a control action over `actuators` drives the actuator `id`.
pub open spec fn targeted(selector: TkDeviceSelector, settings: TkSettings, actuators: Seq<Actuator>, id: ActuatorId) -> bool {
    exists|x: int| 0 <= x < actuators.len() && #[trigger] actuators[x]@ == id && drives(selector, settings, actuators[x]@)
}

/// A new empty stack for an actuator that had none, with no command sent to it
/// yet, keeps the scheduler's shape and what its commands so far have set.
proof fn lemma_grown(prior: Scheduler, before: Scheduler, after: Scheduler, cmds: Seq<DeviceCommand>)
    requires
        before.wf(),
        before.tracks(&prior, cmds),
        after.stacks@.len() == before.stacks@.len() + 1,
        after.stacks@.drop_last() == before.stacks@,
        after.stacks@.last().stack@.len() == 0,
        after.stacks@.last().emitted.is_none(),
        forall|j: int| 0 <= j < before.stacks@.len() ==> (#[trigger] before.stacks@[j]).actuator@ != after.stacks@.last().actuator@,
        last_level(cmds, after.stacks@.last().actuator@, None) == None::<Speed>,
    ensures
        after.wf(),
        after.tracks(&prior, cmds),
{
    let n = before.stacks@.len() as int;
    assert forall|j: int| 0 <= j < n implies #[trigger] after.stacks@[j] == before.stacks@[j] by {
        assert(after.stacks@.drop_last()[j] == after.stacks@[j]);
    }
    assert forall|a: int, b: int|
        0 <= a < after.stacks@.len() && 0 <= b < after.stacks@.len() && a != b implies (#[trigger] after.stacks@[a]).actuator@
            != (#[trigger] after.stacks@[b]).actuator@ by {
        if a < n && b < n {
            assert(before.stacks@[a].actuator@ != before.stacks@[b].actuator@);
        }
    }
    assert(after.stacks@[n].stack.wf());
    assert forall|c: int| 0 <= c < cmds.len() implies exists|j: int| 0 <= j < after.stacks@.len() && #[trigger] after.stacks@[j].actuator@ == (#[trigger] cmds[c]).actuator@ by {
        let j = choose|j: int| 0 <= j < before.stacks@.len() && #[trigger] before.stacks@[j].actuator@ == cmds[c].actuator@;
        assert(after.stacks@[j] == before.stacks@[j]);
    }
}

/// Every item that a filter keeps comes from the filtered sequence.
pub proof fn lemma_filter_member<A>(s: Seq<A>, pred: spec_fn(A) -> bool, k: int)
    requires
        0 <= k < s.filter(pred).len(),
    ensures
        exists|x: int| 0 <= x < s.len() && s[x] == s.filter(pred)[k],
    decreases s.len(),
{
    reveal(Seq::filter);
    if s.len() > 0 {
        let rest = s.drop_last();
        let sub = rest.filter(pred);
        if k < sub.len() {
            lemma_filter_member(rest, pred, k);
            let x = choose|x: int| 0 <= x < rest.len() && rest[x] == sub[k];
            assert(s[x] == rest[x]);
        } else {
            assert(s.filter(pred)[k] == s[s.len() - 1]);
        }
    }
}

/// Putting a well-formed stack in place of another keeps the scheduler's shape
/// and what its commands so far have set.
proof fn lemma_restack(prior: Scheduler, before: Scheduler, after: Scheduler, cmds: Seq<DeviceCommand>, i: int)
    requires
        before.core_wf(),
        before.tracks(&prior, cmds),
        0 <= i < before.stacks@.len(),
        after.stacks@.len() == before.stacks@.len(),
        forall|j: int| 0 <= j < before.stacks@.len() && j != i ==> after.stacks@[j] == before.stacks@[j],
        after.stacks@[i].actuator == before.stacks@[i].actuator,
        after.stacks@[i].emitted == before.stacks@[i].emitted,
        after.stacks@[i].stack.wf(),
    ensures
        after.core_wf(),
        after.tracks(&prior, cmds),
{
    assert forall|a: int, b: int|
        0 <= a < after.stacks@.len() && 0 <= b < after.stacks@.len() && a != b implies (#[trigger] after.stacks@[a]).actuator@
            != (#[trigger] after.stacks@[b]).actuator@ by {
        assert(before.stacks@[a].actuator@ != before.stacks@[b].actuator@);
    }
    assert forall|c: int| 0 <= c < cmds.len() implies exists|j: int| 0 <= j < after.stacks@.len() && #[trigger] after.stacks@[j].actuator@ == (#[trigger] cmds[c]).actuator@ by {
        let j = choose|j: int| 0 <= j < before.stacks@.len() && #[trigger] before.stacks@[j].actuator@ == cmds[c].actuator@;
        assert(after.stacks@[j].actuator == before.stacks@[j].actuator);
    }
}

/// Sending stack `i`'s effective strength records it as that actuator's level
/// and leaves every other actuator's level as it was.
proof fn lemma_emitted(
    prior: Scheduler,
    before: Scheduler,
    after: Scheduler,
    cb: Seq<DeviceCommand>,
    ca: Seq<DeviceCommand>,
    i: int,
)
    requires
        before.core_wf(),
        before.tracks(&prior, cb),
        0 <= i < before.stacks@.len(),
        after.stacks@.len() == before.stacks@.len(),
        forall|j: int| 0 <= j < before.stacks@.len() && j != i ==> after.stacks@[j] == before.stacks@[j],
        after.stacks@[i].actuator == before.stacks@[i].actuator,
        after.stacks@[i].stack == before.stacks@[i].stack,
        after.stacks@[i].emitted == top_of(before.stacks@[i].stack@),
        ca == cb.push(
            DeviceCommand {
                actuator: before.stacks@[i].actuator,
                action: action_for(top_of(before.stacks@[i].stack@)),
            },
        ),
    ensures
        after.core_wf(),
        after.tracks(&prior, ca),
        forall|j: int| 0 <= j < after.stacks@.len() && j != i && before.synced() ==> #[trigger] after.stacks@[j].emitted == top_of(after.stacks@[j].stack@),
{
    let c = ca.last();
    assert(ca.drop_last() =~= cb);
    assert forall|a: int, b: int|
        0 <= a < after.stacks@.len() && 0 <= b < after.stacks@.len() && a != b implies (#[trigger] after.stacks@[a]).actuator@
            != (#[trigger] after.stacks@[b]).actuator@ by {
        assert(before.stacks@[a].actuator@ != before.stacks@[b].actuator@);
    }
    assert forall|j: int| 0 <= j < after.stacks@.len() implies (#[trigger] after.stacks@[j]).emitted == last_level(
        ca,
        after.stacks@[j].actuator@,
        Scheduler::prior_level(&prior, j),
    ) by {
        lemma_last_level_push(cb, c, after.stacks@[j].actuator@, Scheduler::prior_level(&prior, j));
        if j != i {
            assert(before.stacks@[j].actuator@ != before.stacks@[i].actuator@);
        }
    }
    assert forall|x: int| 0 <= x < ca.len() implies exists|j: int| 0 <= j < after.stacks@.len() && #[trigger] after.stacks@[j].actuator@ == (#[trigger] ca[x]).actuator@ by {
        if x < cb.len() {
            assert(ca[x] == cb[x]);
            let j = choose|j: int| 0 <= j < before.stacks@.len() && #[trigger] before.stacks@[j].actuator@ == cb[x].actuator@;
            assert(after.stacks@[j].actuator == before.stacks@[j].actuator);
        } else {
            assert(after.stacks@[i].actuator@ == ca[x].actuator@);
        }
    }
}

/// A command appended for `c.actuator` sets that actuator's level and no other's.
pub proof fn lemma_last_level_push(cmds: Seq<DeviceCommand>, c: DeviceCommand, id: ActuatorId, start: Option<Speed>)
    ensures
        last_level(cmds.push(c), id, start) == if c.actuator@ == id {
            level(c.action)
        } else {
            last_level(cmds, id, start)
        },
{
    assert(cmds.push(c).drop_last() =~= cmds);
}

/// Commands for other actuators leave an actuator's level as it was.
pub proof fn lemma_last_level_untouched(cmds: Seq<DeviceCommand>, id: ActuatorId, start: Option<Speed>)
    requires
        forall|c: int| 0 <= c < cmds.len() ==> (#[trigger] cmds[c]).actuator@ != id,
    ensures
        last_level(cmds, id, start) == start,
    decreases cmds.len(),
{
    if cmds.len() > 0 {
        assert(cmds.last() == cmds[cmds.len() - 1]);
        let rest = cmds.drop_last();
        assert forall|c: int| 0 <= c < rest.len() implies (#[trigger] rest[c]).actuator@ != id by {
            assert(rest[c] == cmds[c]);
        }
        lemma_last_level_untouched(rest, id, start);
    }
}

} // verus!
