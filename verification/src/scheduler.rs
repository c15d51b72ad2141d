//! Admission control for concurrent tool invocations.
//!
//! Each capability declares how many invocations of its tool may run at
//! once. The scheduler tracks in-flight invocations per tool and never
//! admits a step beyond the tool's declared parallelism, so two jobs
//! targeting a tool of parallelism one never overlap.

use vstd::prelude::*;

use crate::text::str_eq;

verus! {

/// In-flight bookkeeping for one tool.
pub struct ToolSlots {
    pub tool: String,
    pub parallelism: u32,
    pub in_flight: u32,
}

/// Mathematical model of a [`ToolSlots`].
pub ghost struct SlotView {
    pub tool: Seq<char>,
    pub parallelism: u32,
    pub in_flight: u32,
}

impl View for ToolSlots {
    type V = SlotView;

    open spec fn view(&self) -> SlotView {
        SlotView { tool: self.tool@, parallelism: self.parallelism, in_flight: self.in_flight }
    }
}

impl DeepView for ToolSlots {
    type V = SlotView;

    open spec fn deep_view(&self) -> SlotView {
        self.view()
    }
}

/// True when a slot for the tool exists.
pub open spec fn has_slot(s: Seq<SlotView>, tool: Seq<char>) -> bool {
    exists|i: int| 0 <= i < s.len() && (#[trigger] s[i]).tool == tool
}

/// The per-tool admission scheduler.
pub struct Scheduler {
    slots: Vec<ToolSlots>,
}

/// Mathematical model of a [`Scheduler`].
pub ghost struct SchedulerView {
    pub slots: Seq<SlotView>,
}

impl View for Scheduler {
    type V = SchedulerView;

    closed spec fn view(&self) -> SchedulerView {
        SchedulerView { slots: self.slots.deep_view() }
    }
}

impl SchedulerView {
    /// No tool ever has more in-flight invocations than its declared
    /// parallelism, and each tool has one slot.
    pub open spec fn wf(self) -> bool {
        &&& forall|i: int|
            0 <= i < self.slots.len() ==> (#[trigger] self.slots[i]).in_flight
                <= self.slots[i].parallelism
        &&& forall|i: int, j: int|
            0 <= i < j < self.slots.len() ==> (#[trigger] self.slots[i]).tool != (
            #[trigger] self.slots[j]).tool
    }
}

impl Scheduler {
    /// A scheduler with no in-flight invocations.
    pub fn new() -> (r: Scheduler)
        ensures
            r@.wf(),
            r@.slots == Seq::<SlotView>::empty(),
    {
        let r = Scheduler { slots: Vec::new() };
        proof {
            assert(r@.slots =~= Seq::<SlotView>::empty());
        }
        r
    }

    /// Tries to admit one invocation of `tool`, whose capability declares
    /// the given parallelism. Admission succeeds exactly when the tool's
    /// in-flight count is below the declared bound; the caller must
    /// [`Scheduler::release`] every admitted invocation when it ends.
    pub fn try_admit(&mut self, tool: &str, parallelism: u32) -> (r: bool)
        requires
            old(self)@.wf(),
        ensures
            final(self)@.wf(),
            // admission succeeds exactly when capacity exists
            r == ((exists|i: int|
                0 <= i < old(self)@.slots.len() && (#[trigger] old(self)@.slots[i]).tool == tool@
                    && old(self)@.slots[i].in_flight < old(self)@.slots[i].parallelism) || (
            !has_slot(old(self)@.slots, tool@) && parallelism > 0)),
            !r ==> final(self)@ == old(self)@,
            // on success, exactly the tool's in-flight count grows by one
            r ==> ((exists|i: int|
                0 <= i < old(self)@.slots.len() && (#[trigger] old(self)@.slots[i]).tool == tool@
                    && final(self)@.slots == old(self)@.slots.update(
                    i,
                    SlotView {
                        in_flight: (old(self)@.slots[i].in_flight + 1) as u32,
                        ..old(self)@.slots[i]
                    },
                )) || (!has_slot(old(self)@.slots, tool@) && final(self)@.slots
                == old(self)@.slots.push(SlotView { tool: tool@, parallelism, in_flight: 1u32 }))),
    {
        let ghost s0 = self@.slots;
        let mut i: usize = 0;
        while i < self.slots.len()
            invariant
                i <= self.slots.len(),
                s0 == self@.slots,
                s0 == self.slots.deep_view(),
                old(self)@.slots == s0,
                old(self)@.wf(),
                forall|k: int| 0 <= k < i ==> (#[trigger] s0[k]).tool != tool@,
            decreases self.slots.len() - i,
        {
            if str_eq(self.slots[i].tool.as_str(), tool) {
                if self.slots[i].in_flight < self.slots[i].parallelism {
                    let s = ToolSlots {
                        tool: self.slots[i].tool.clone(),
                        parallelism: self.slots[i].parallelism,
                        in_flight: self.slots[i].in_flight + 1,
                    };
                    let ghost sv = s@;
                    self.slots.set(i, s);
                    proof {
                        assert(self@.slots =~= s0.update(i as int, sv));
                        assert(self@.slots[i as int].tool == tool@);
                        assert(sv == SlotView {
                            in_flight: (s0[i as int].in_flight + 1) as u32,
                            ..s0[i as int]
                        });
                        assert forall|k: int| 0 <= k < self@.slots.len() implies (
                        #[trigger] self@.slots[k]).in_flight <= self@.slots[k].parallelism by {
                            if k != i {
                                assert(self@.slots[k] == s0[k]);
                            } else {
                                assert(s0[i as int].in_flight <= s0[i as int].parallelism);
                            }
                        }
                        assert forall|a: int, b: int| 0 <= a < b < self@.slots.len() implies (
                        #[trigger] self@.slots[a]).tool != (#[trigger] self@.slots[b]).tool by {
                            assert(self@.slots[a] == if a == i { sv } else { s0[a] });
                            assert(self@.slots[b] == if b == i { sv } else { s0[b] });
                            assert(sv.tool == s0[i as int].tool);
                        }
                    }
                    return true;
                } else {
                    proof {
                        // the matching slot is unique, so no capacity exists
                        assert forall|k: int|
                            0 <= k < s0.len() && (#[trigger] s0[k]).tool == tool@ implies s0[k].in_flight
                            >= s0[k].parallelism by {
                            if k < i {
                                assert(s0[k].tool != s0[i as int].tool);
                            } else if k > i {
                                assert(s0[i as int].tool != s0[k].tool);
                            }
                        }
                        assert(has_slot(s0, tool@));
                    }
                    return false;
                }
            } else {
                proof {
                    assert(s0[i as int].tool != tool@);
                }
            }
            i = i + 1;
        }
        // first sight of this tool: create its slot, admitting one
        // invocation unless the declared parallelism is zero
        proof {
            assert(!has_slot(s0, tool@));
        }
        if parallelism == 0 {
            return false;
        }
        let ghost snew = SlotView { tool: tool@, parallelism, in_flight: 1u32 };
        self.slots.push(ToolSlots { tool: tool.to_owned(), parallelism, in_flight: 1 });
        proof {
            assert(self@.slots =~= s0.push(snew));
            assert(self@.slots[self@.slots.len() - 1].tool == tool@);
            assert forall|a: int, b: int| 0 <= a < b < self@.slots.len() implies (
            #[trigger] self@.slots[a]).tool != (#[trigger] self@.slots[b]).tool by {
                if b == self@.slots.len() - 1 {
                    assert(s0[a].tool != tool@);
                }
            }
        }
        true
    }

    /// Records that one admitted invocation of `tool` has ended: the
    /// tool's in-flight count drops by one; nothing else changes, and a
    /// tool with no admitted invocation is left untouched.
    pub fn release(&mut self, tool: &str)
        requires
            old(self)@.wf(),
        ensures
            final(self)@.wf(),
            (exists|i: int|
                0 <= i < old(self)@.slots.len() && (#[trigger] old(self)@.slots[i]).tool == tool@
                    && old(self)@.slots[i].in_flight > 0) ==> (exists|i: int|
                0 <= i < old(self)@.slots.len() && (#[trigger] old(self)@.slots[i]).tool == tool@
                    && final(self)@.slots == old(self)@.slots.update(
                    i,
                    SlotView {
                        in_flight: (old(self)@.slots[i].in_flight - 1) as u32,
                        ..old(self)@.slots[i]
                    },
                )),
            !(exists|i: int|
                0 <= i < old(self)@.slots.len() && (#[trigger] old(self)@.slots[i]).tool == tool@
                    && old(self)@.slots[i].in_flight > 0) ==> final(self)@ == old(self)@,
    {
        let ghost s0 = self@.slots;
        let mut i: usize = 0;
        while i < self.slots.len()
            invariant
                i <= self.slots.len(),
                s0 == self@.slots,
                s0 == self.slots.deep_view(),
                old(self)@.wf(),
                old(self)@.slots == s0,
                forall|k: int| 0 <= k < i ==> (#[trigger] s0[k]).tool != tool@,
            decreases self.slots.len() - i,
        {
            if str_eq(self.slots[i].tool.as_str(), tool) {
                if self.slots[i].in_flight > 0 {
                    let s = ToolSlots {
                        tool: self.slots[i].tool.clone(),
                        parallelism: self.slots[i].parallelism,
                        in_flight: self.slots[i].in_flight - 1,
                    };
                    let ghost sv = s@;
                    self.slots.set(i, s);
                    proof {
                        assert(self@.slots =~= s0.update(i as int, sv));
                        assert(sv == SlotView {
                            in_flight: (s0[i as int].in_flight - 1) as u32,
                            ..s0[i as int]
                        });
                        assert forall|k: int| 0 <= k < self@.slots.len() implies (
                        #[trigger] self@.slots[k]).in_flight <= self@.slots[k].parallelism by {
                            if k != i {
                                assert(self@.slots[k] == s0[k]);
                            } else {
                                assert(s0[i as int].in_flight <= s0[i as int].parallelism);
                            }
                        }
                        assert forall|a: int, b: int| 0 <= a < b < self@.slots.len() implies (
                        #[trigger] self@.slots[a]).tool != (#[trigger] self@.slots[b]).tool by {
                            assert(self@.slots[a] == if a == i { sv } else { s0[a] });
                            assert(self@.slots[b] == if b == i { sv } else { s0[b] });
                            assert(sv.tool == s0[i as int].tool);
                        }
                    }
                } else {
                    proof {
                        // the matching slot is unique and idle
                        assert forall|k: int|
                            0 <= k < s0.len() && (#[trigger] s0[k]).tool == tool@ implies !(
                            s0[k].in_flight > 0) by {
                            if k < i {
                                assert(s0[k].tool != s0[i as int].tool);
                            } else if k > i {
                                assert(s0[i as int].tool != s0[k].tool);
                            }
                        }
                    }
                }
                return ;
            }
            i = i + 1;
        }
    }

    /// The number of invocations of `tool` currently in flight.
    pub fn in_flight(&self, tool: &str) -> (r: u32)
        requires
            self@.wf(),
        ensures
            forall|i: int|
                0 <= i < self@.slots.len() && (#[trigger] self@.slots[i]).tool == tool@ ==> r
                    == self@.slots[i].in_flight,
            !has_slot(self@.slots, tool@) ==> r == 0,
    {
        let mut i: usize = 0;
        while i < self.slots.len()
            invariant
                i <= self.slots.len(),
                self@.wf(),
                self@.slots == self.slots.deep_view(),
                forall|k: int| 0 <= k < i ==> (#[trigger] self@.slots[k]).tool != tool@,
            decreases self.slots.len() - i,
        {
            if str_eq(self.slots[i].tool.as_str(), tool) {
                let r = self.slots[i].in_flight;
                proof {
                    assert(self@.slots[i as int].tool == tool@);
                    assert(has_slot(self@.slots, tool@));
                    assert forall|k: int|
                        0 <= k < self@.slots.len() && (#[trigger] self@.slots[k]).tool == tool@
                            implies r == self@.slots[k].in_flight by {
                        if k < i {
                            assert(self@.slots[k].tool != self@.slots[i as int].tool);
                        } else if k > i {
                            assert(self@.slots[i as int].tool != self@.slots[k].tool);
                        }
                    }
                }
                return r;
            }
            i = i + 1;
        }
        0
    }
}

/// Admission never exceeds a tool's declared parallelism: in a well-formed
/// scheduler every tool's in-flight count stays within its bound, so two
/// invocations beyond the bound never overlap.
pub proof fn lemma_no_oversubscription(s: SchedulerView, i: int)
    requires
        s.wf(),
        0 <= i < s.slots.len(),
    ensures
        s.slots[i].in_flight <= s.slots[i].parallelism,
{
}

} // verus!
