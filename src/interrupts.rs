use vstd::prelude::*;
use crate::levels::{InterruptMode, PinVoltage, spec_fires};

verus! {

/// One pin's interrupt subscription: the callback handle and its trigger.
#[derive(Clone, Copy, Debug, PartialEq, Eq, Structural)]
pub struct InterruptSlot {
    pub pin: u32,
    pub callback: u32,
    pub mode: InterruptMode,
}

/// At most one subscription per pin; a new one for the same pin replaces the
/// old one in a single step.
pub struct InterruptRegistry {
    slots: Vec<InterruptSlot>,
}

/// The callback that a transition on `pin` reaches, given the subscriptions.
pub open spec fn spec_fired(
    subs: Map<u32, (u32, InterruptMode)>,
    pin: u32,
    from: PinVoltage,
    to: PinVoltage,
) -> Option<u32> {
    if subs.contains_key(pin) && spec_fires(subs[pin].1, from, to) {
        Some(subs[pin].0)
    } else {
        None
    }
}

impl InterruptRegistry {
    spec fn slot_map(slots: Seq<InterruptSlot>) -> Map<u32, (u32, InterruptMode)>
        decreases slots.len(),
    {
        if slots.len() == 0 {
            Map::empty()
        } else {
            let last = slots.last();
            Self::slot_map(slots.drop_last()).insert(last.pin, (last.callback, last.mode))
        }
    }

    /// Pin to (callback handle, trigger) of every active subscription.
    pub closed spec fn view(&self) -> Map<u32, (u32, InterruptMode)> {
        Self::slot_map(self.slots@)
    }

    pub closed spec fn wf(&self) -> bool {
        forall|i: int, j: int|
            0 <= i < j < self.slots@.len() ==> self.slots@[i].pin != self.slots@[j].pin
    }

    proof fn lemma_slot_map(slots: Seq<InterruptSlot>)
        requires
            forall|i: int, j: int| 0 <= i < j < slots.len() ==> slots[i].pin != slots[j].pin,
        ensures
            forall|i: int| 0 <= i < slots.len() ==> Self::slot_map(slots).contains_key(#[trigger] slots[i].pin)
                && Self::slot_map(slots)[slots[i].pin] == (slots[i].callback, slots[i].mode),
            forall|p: u32| #[trigger] Self::slot_map(slots).contains_key(p) ==> exists|i: int|
                0 <= i < slots.len() && slots[i].pin == p,
        decreases slots.len(),
    {
        if slots.len() > 0 {
            let init = slots.drop_last();
            Self::lemma_slot_map(init);
            assert forall|p: u32| #[trigger] Self::slot_map(slots).contains_key(p) implies exists|i: int|
                0 <= i < slots.len() && slots[i].pin == p by {
                if p != slots.last().pin {
                    assert(Self::slot_map(init).contains_key(p));
                    let i = choose|i: int| 0 <= i < init.len() && init[i].pin == p;
                    assert(slots[i].pin == p);
                } else {
                    assert(slots[slots.len() - 1].pin == p);
                }
            }
            assert forall|i: int| 0 <= i < slots.len() implies Self::slot_map(slots).contains_key(#[trigger] slots[i].pin)
                && Self::slot_map(slots)[slots[i].pin] == (slots[i].callback, slots[i].mode) by {
                if i < slots.len() - 1 {
                    assert(init[i] == slots[i]);
                    assert(slots[i].pin != slots[slots.len() - 1].pin);
                    assert(Self::slot_map(init).contains_key(init[i].pin));
                }
            }
        }
    }

    /// A registry with no subscriptions.
    pub fn new() -> (r: Self)
        ensures
            r.wf(),
            r@ == Map::<u32, (u32, InterruptMode)>::empty(),
    {
        InterruptRegistry { slots: Vec::new() }
    }

    fn find(&self, pin: u32) -> (r: Option<usize>)
        requires
            self.wf(),
        ensures
            r matches Some(i) ==> i < self.slots@.len() && self.slots@[i as int].pin == pin,
            r is None ==> !self@.contains_key(pin),
    {
        proof { Self::lemma_slot_map(self.slots@); }
        let mut i: usize = 0;
        while i < self.slots.len()
            invariant
                i <= self.slots@.len(),
                forall|j: int| 0 <= j < i ==> self.slots@[j].pin != pin,
            decreases self.slots@.len() - i,
        {
            if self.slots[i].pin == pin {
                return Some(i);
            }
            i = i + 1;
        }
        None
    }

    /// The subscription on `pin`, if there is one.
    pub fn handler(&self, pin: u32) -> (r: Option<(u32, InterruptMode)>)
        requires
            self.wf(),
        ensures
            r == (if self@.contains_key(pin) {
                Some(self@[pin])
            } else {
                None::<(u32, InterruptMode)>
            }),
    {
        proof { Self::lemma_slot_map(self.slots@); }
        match self.find(pin) {
            Some(i) => Some((self.slots[i].callback, self.slots[i].mode)),
            None => None,
        }
    }

    /// Subscribes `callback` to `pin` with trigger `mode`, replacing any
    /// subscription the pin had.
    pub fn subscribe(&mut self, pin: u32, callback: u32, mode: InterruptMode)
        requires
            old(self).wf(),
        ensures
            final(self).wf(),
            final(self)@ == old(self)@.insert(pin, (callback, mode)),
    {
        proof { Self::lemma_slot_map(self.slots@); }
        let slot = InterruptSlot { pin, callback, mode };
        let ghost before = self.slots@;
        match self.find(pin) {
            Some(i) => {
                self.slots.set(i, slot);
                assert(self.slots@[i as int].pin == pin);
            },
            None => {
                self.slots.push(slot);
                assert(self.slots@[self.slots@.len() - 1].pin == pin);
            },
        }
        proof {
            Self::lemma_slot_map(self.slots@);
            let after = self.slots@;
            let m = old(self)@.insert(pin, (callback, mode));
            assert forall|p: u32| #[trigger] self@.contains_key(p) <==> m.contains_key(p) by {
                if self@.contains_key(p) {
                    let j = choose|j: int| 0 <= j < after.len() && after[j].pin == p;
                    if p != pin {
                        assert(before[j] == after[j]);
                    }
                }
                if m.contains_key(p) && p != pin {
                    let j = choose|j: int| 0 <= j < before.len() && before[j].pin == p;
                    assert(after[j] == before[j]);
                }
            }
            assert forall|p: u32| #[trigger] self@.contains_key(p) implies self@[p] == m[p] by {
                let j = choose|j: int| 0 <= j < after.len() && after[j].pin == p;
                if p != pin {
                    assert(before[j] == after[j]);
                }
            }
        }
        assert(self@ =~= old(self)@.insert(pin, (callback, mode)));
    }

    /// Removes the subscription on `pin`, if any.
    pub fn unsubscribe(&mut self, pin: u32)
        requires
            old(self).wf(),
        ensures
            final(self).wf(),
            final(self)@ == old(self)@.remove(pin),
    {
        proof { Self::lemma_slot_map(self.slots@); }
        let ghost before = self.slots@;
        match self.find(pin) {
            Some(i) => {
                self.slots.remove(i);
                proof {
                    let after = self.slots@;
                    assert(after == before.remove(i as int));
                    assert forall|a: int, b: int| 0 <= a < b < after.len() implies after[a].pin != after[b].pin by {
                        let a0 = if a < i { a } else { a + 1 };
                        let b0 = if b < i { b } else { b + 1 };
                        assert(after[a] == before[a0] && after[b] == before[b0]);
                    }
                    Self::lemma_slot_map(after);
                    let m = old(self)@.remove(pin);
                    assert forall|p: u32| #[trigger] self@.contains_key(p) <==> m.contains_key(p) by {
                        if self@.contains_key(p) {
                            let j = choose|j: int| 0 <= j < after.len() && after[j].pin == p;
                            let j0 = if j < i { j } else { j + 1 };
                            assert(after[j] == before[j0]);
                        }
                        if m.contains_key(p) {
                            let j = choose|j: int| 0 <= j < before.len() && before[j].pin == p;
                            assert(j != i);
                            let j1 = if j < i { j } else { j - 1 };
                            assert(after[j1] == before[j]);
                        }
                    }
                    assert forall|p: u32| #[trigger] self@.contains_key(p) implies self@[p] == m[p] by {
                        let j = choose|j: int| 0 <= j < after.len() && after[j].pin == p;
                        let j0 = if j < i { j } else { j + 1 };
                        assert(after[j] == before[j0]);
                    }
                }
            },
            None => {},
        }
        assert(self@ =~= old(self)@.remove(pin));
    }

    /// The callback handle that the host must run when `pin` goes from
    /// `from` to `to`, if any.
    pub fn fired(&self, pin: u32, from: PinVoltage, to: PinVoltage) -> (r: Option<u32>)
        requires
            self.wf(),
        ensures
            r == spec_fired(self@, pin, from, to),
    {
        match self.handler(pin) {
            Some((callback, mode)) => if mode.fires(from, to) {
                Some(callback)
            } else {
                None
            },
            None => None,
        }
    }
}

/// Once a pin is unsubscribed, no transition on it reaches any callback,
/// whatever was subscribed before.
pub proof fn lemma_unsubscribe_silences(
    subs: Map<u32, (u32, InterruptMode)>,
    pin: u32,
    callback: u32,
    mode: InterruptMode,
    from: PinVoltage,
    to: PinVoltage,
)
    ensures
        spec_fired(subs.insert(pin, (callback, mode)).remove(pin), pin, from, to) is None,
{
}

/// Subscribing again to a pin replaces the earlier callback: a transition
/// reaches the latest one when its trigger fires, and never the earlier one.
pub proof fn lemma_resubscribe_replaces(
    subs: Map<u32, (u32, InterruptMode)>,
    pin: u32,
    first: u32,
    first_mode: InterruptMode,
    latest: u32,
    latest_mode: InterruptMode,
    from: PinVoltage,
    to: PinVoltage,
)
    ensures
        spec_fired(subs.insert(pin, (first, first_mode)).insert(pin, (latest, latest_mode)), pin, from, to)
            == (if spec_fires(latest_mode, from, to) {
                Some(latest)
            } else {
                None::<u32>
            }),
{
}

} // verus!
