use vstd::prelude::*;
use crate::speed::Speed;

verus! {

/// One active command on an actuator: who pushed it and how strong it currently is.
#[derive(Clone, Copy, Debug, PartialEq, Eq, Structural)]
pub struct StackEntry {
    pub handle: i32,
    pub strength: Speed,
}

/// The strength an actuator shows for a stack: the top entry's, or none when empty.
pub open spec fn top_of(s: Seq<StackEntry>) -> Option<Speed> {
    if s.len() == 0 {
        None
    } else {
        Some(s.last().strength)
    }
}

pub open spec fn holds_handle(s: Seq<StackEntry>, handle: i32) -> bool {
    exists|i: int| 0 <= i < s.len() && #[trigger] s[i].handle == handle
}

pub open spec fn handles_distinct(s: Seq<StackEntry>) -> bool {
    forall|i: int, j: int|
        0 <= i < s.len() && 0 <= j < s.len() && i != j ==> #[trigger] s[i].handle != #[trigger] s[j].handle
}

/// Where the entry of `handle` stands in `s`.
pub open spec fn index_of(s: Seq<StackEntry>, handle: i32) -> int {
    choose|i: int| 0 <= i < s.len() && #[trigger] s[i].handle == handle
}

/// Removing the entry of a handle leaves none of it in a stack of distinct handles.
pub proof fn lemma_remove_drops_handle(s: Seq<StackEntry>, handle: i32)
    requires
        handles_distinct(s),
        holds_handle(s, handle),
    ensures
        !holds_handle(s.remove(index_of(s, handle)), handle),
{
    let x = index_of(s, handle);
    let r = s.remove(x);
    assert forall|a: int| 0 <= a < r.len() implies #[trigger] r[a].handle != handle by {
        let oa = if a < x { a } else { a + 1 };
        assert(r[a] == s[oa]);
        assert(s[oa].handle != s[x].handle);
    }
}

/// The entries of all commands that drive one actuator, most recent last.
#[derive(Debug)]
pub struct PriorityStack {
    pub entries: Vec<StackEntry>,
}

impl View for PriorityStack {
    type V = Seq<StackEntry>;

    open spec fn view(&self) -> Seq<StackEntry> {
        self.entries@
    }
}

impl PriorityStack {
    pub open spec fn wf(&self) -> bool {
        handles_distinct(self@)
    }

    pub fn new() -> (r: PriorityStack)
        ensures
            r@ == Seq::<StackEntry>::empty(),
            r.wf(),
    {
        PriorityStack { entries: Vec::new() }
    }

    pub fn len(&self) -> (r: usize)
        ensures
            r == self@.len(),
    {
        self.entries.len()
    }

    pub fn is_empty(&self) -> (r: bool)
        ensures
            r == (self@.len() == 0),
    {
        self.entries.len() == 0
    }

    /// The effective strength: the top entry's, or `None` when nothing runs.
    pub fn top(&self) -> (r: Option<Speed>)
        ensures
            r == top_of(self@),
    {
        let n = self.entries.len();
        if n == 0 {
            None
        } else {
            Some(self.entries[n - 1].strength)
        }
    }

    /// The position of the entry of `handle`, if there is one.
    pub fn position(&self, handle: i32) -> (r: Option<usize>)
        requires
            self.wf(),
        ensures
            r.is_none() <==> !holds_handle(self@, handle),
            r.is_some() ==> r.unwrap() == index_of(self@, handle),
            r.is_some() ==> r.unwrap() < self@.len() && self@[r.unwrap() as int].handle == handle,
    {
        let mut i: usize = 0;
        while i < self.entries.len()
            invariant
                i <= self.entries.len(),
                self.wf(),
                forall|j: int| 0 <= j < i ==> #[trigger] self.entries@[j].handle != handle,
            decreases self.entries.len() - i,
        {
            if self.entries[i].handle == handle {
                assert(holds_handle(self@, handle));
                assert(self@[index_of(self@, handle)].handle == handle);
                assert(self@[i as int].handle == handle);
                let ghost k = index_of(self@, handle);
                proof {
                    if k != i as int {
                        assert(self@[k].handle != self@[i as int].handle);
                    }
                }
                return Some(i);
            }
            i = i + 1;
        }
        None
    }

    pub fn contains(&self, handle: i32) -> (r: bool)
        requires
            self.wf(),
        ensures
            r == holds_handle(self@, handle),
    {
        self.position(handle).is_some()
    }

    /// Puts a new command on top. Reports whether the effective strength changed.
    pub fn push(&mut self, handle: i32, strength: Speed) -> (changed: bool)
        requires
            old(self).wf(),
            !holds_handle(old(self)@, handle),
        ensures
            final(self).wf(),
            final(self)@ == old(self)@.push(StackEntry { handle, strength }),
            top_of(final(self)@) == Some(strength),
            changed == (top_of(old(self)@) != Some(strength)),
    {
        let before = self.top();
        self.entries.push(StackEntry { handle, strength });
        assert forall|i: int, j: int|
            0 <= i < self@.len() && 0 <= j < self@.len() && i != j implies #[trigger] self@[i].handle
            != #[trigger] self@[j].handle by {
            if i == self@.len() - 1 {
                assert(old(self)@[j].handle == self@[j].handle);
            } else if j == self@.len() - 1 {
                assert(old(self)@[i].handle == self@[i].handle);
            }
        }
        match before {
            None => true,
            Some(b) => b != strength,
        }
    }

    /// Rewrites the strength of the entry of `handle`. Reports whether that
    /// changed the effective strength: the entry is on top and its value moved.
    pub fn update(&mut self, handle: i32, strength: Speed) -> (changed: bool)
        requires
            old(self).wf(),
        ensures
            final(self).wf(),
            holds_handle(old(self)@, handle) ==> final(self)@ == old(self)@.update(
                index_of(old(self)@, handle),
                StackEntry { handle, strength },
            ),
            !holds_handle(old(self)@, handle) ==> final(self)@ == old(self)@,
            changed == (top_of(final(self)@) != top_of(old(self)@)),
    {
        match self.position(handle) {
            None => false,
            Some(i) => {
                let last = self.entries.len() - 1;
                let prior = self.entries[i].strength;
                self.entries.set(i, StackEntry { handle, strength });
                assert forall|a: int, b: int|
                    0 <= a < self@.len() && 0 <= b < self@.len() && a != b implies #[trigger] self@[a].handle
                    != #[trigger] self@[b].handle by {
                    assert(old(self)@[a].handle == self@[a].handle);
                    assert(old(self)@[b].handle == self@[b].handle);
                }
                i == last && prior != strength
            },
        }
    }

    /// Removes the entry of `handle`. Reports whether the removed entry was the
    /// top one, and the effective strength afterwards.
    pub fn pop(&mut self, handle: i32) -> (r: (bool, Option<Speed>))
        requires
            old(self).wf(),
        ensures
            final(self).wf(),
            holds_handle(old(self)@, handle) ==> final(self)@ == old(self)@.remove(
                index_of(old(self)@, handle),
            ),
            holds_handle(old(self)@, handle) ==> r.0 == (index_of(old(self)@, handle) == old(
                self,
            )@.len() - 1),
            !holds_handle(old(self)@, handle) ==> final(self)@ == old(self)@ && !r.0,
            !holds_handle(final(self)@, handle),
            r.1 == top_of(final(self)@),
    {
        match self.position(handle) {
            None => (false, self.top()),
            Some(i) => {
                let was_top = i == self.entries.len() - 1;
                self.entries.remove(i);
                assert forall|a: int, b: int|
                    0 <= a < self@.len() && 0 <= b < self@.len() && a != b implies #[trigger] self@[a].handle
                    != #[trigger] self@[b].handle by {
                    let oa = if a < i { a } else { a + 1 };
                    let ob = if b < i { b } else { b + 1 };
                    assert(old(self)@[oa].handle == self@[a].handle);
                    assert(old(self)@[ob].handle == self@[b].handle);
                }
                assert forall|a: int| 0 <= a < self@.len() implies #[trigger] self@[a].handle != handle by {
                    let oa = if a < i { a } else { a + 1 };
                    assert(old(self)@[oa].handle == self@[a].handle);
                }
                (was_top, self.top())
            },
        }
    }

    /// Drops every entry.
    pub fn clear(&mut self)
        ensures
            final(self)@ == Seq::<StackEntry>::empty(),
            final(self).wf(),
    {
        self.entries.clear();
    }
}

} // verus!
