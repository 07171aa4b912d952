use vstd::prelude::*;
use crate::levels::{InterruptMode, PinMode, PinVoltage};
use crate::interrupts::{InterruptRegistry, spec_fired};
use crate::mqtt::{Delivery, Message, TopicRegistry, delivery_views, message_views, spec_deliveries};

verus! {

/// A call the guest made across the boundary, as a recording host sees it.
#[derive(Clone, Copy, Debug, PartialEq, Eq, Structural)]
pub enum HostCall {
    Configure { pin: u32, mode: PinMode },
    Write { pin: u32, voltage: PinVoltage },
    Read { pin: u32 },
    Delay { ms: u32 },
    SubscribeInterrupt { pin: u32, callback: u32, mode: InterruptMode },
    UnsubscribeInterrupt { pin: u32 },
}

/// The level of `pin` after the level changes in `changes`, oldest first;
/// a pin that never changed reads LOW.
pub open spec fn level_of(changes: Seq<(u32, PinVoltage)>, pin: u32) -> PinVoltage
    decreases changes.len(),
{
    if changes.len() == 0 {
        PinVoltage::Low
    } else if changes.last().0 == pin {
        changes.last().1
    } else {
        level_of(changes.drop_last(), pin)
    }
}

/// Status the simulated host returns from a successful MQTT call.
pub const MQTT_OK: i32 = 0;

/// An in-memory host: it records every pin and interrupt call in order,
/// keeps each pin's level, decides which interrupt callback an edge on a pin
/// reaches, and buffers MQTT messages until the guest polls.
pub struct SimulatedHost {
    log: Vec<HostCall>,
    changes: Vec<(u32, PinVoltage)>,
    interrupts: InterruptRegistry,
    topics: TopicRegistry,
    inbox: Vec<Message>,
}

proof fn lemma_level_of_suffix(changes: Seq<(u32, PinVoltage)>, pin: u32, i: int)
    requires
        0 <= i <= changes.len(),
        forall|j: int| i <= j < changes.len() ==> (#[trigger] changes[j]).0 != pin,
    ensures
        level_of(changes, pin) == level_of(changes.take(i), pin),
    decreases changes.len() - i,
{
    if i < changes.len() {
        let init = changes.drop_last();
        assert forall|j: int| i <= j < init.len() implies (#[trigger] init[j]).0 != pin by {
            assert(init[j] == changes[j]);
        }
        lemma_level_of_suffix(init, pin, i);
        assert(init.take(i) =~= changes.take(i));
    } else {
        assert(changes.take(i) =~= changes);
    }
}

impl SimulatedHost {
    /// The calls received so far, oldest first.
    pub closed spec fn calls(&self) -> Seq<HostCall> {
        self.log@
    }

    /// Every level change so far, oldest first.
    pub closed spec fn changes(&self) -> Seq<(u32, PinVoltage)> {
        self.changes@
    }

    /// The interrupt subscriptions the host holds.
    pub closed spec fn subscriptions(&self) -> Map<u32, (u32, InterruptMode)> {
        self.interrupts@
    }

    /// The MQTT subscriptions the host holds.
    pub closed spec fn topics(&self) -> Map<Seq<char>, u32> {
        self.topics@
    }

    /// The MQTT messages buffered since the last poll, oldest first.
    pub closed spec fn inbox(&self) -> Seq<(Seq<char>, Seq<char>, u32)> {
        message_views(self.inbox@)
    }

    pub open spec fn level(&self, pin: u32) -> PinVoltage {
        level_of(self.changes(), pin)
    }

    pub closed spec fn wf(&self) -> bool {
        self.interrupts.wf() && self.topics.wf()
    }

    /// A host that has received no call, with every pin LOW and no subscription.
    pub fn new() -> (r: Self)
        ensures
            r.wf(),
            r.calls() == Seq::<HostCall>::empty(),
            r.changes() == Seq::<(u32, PinVoltage)>::empty(),
            r.subscriptions() == Map::<u32, (u32, InterruptMode)>::empty(),
            r.topics() == Map::<Seq<char>, u32>::empty(),
            r.inbox() == Seq::<(Seq<char>, Seq<char>, u32)>::empty(),
    {
        let r = SimulatedHost {
            log: Vec::new(),
            changes: Vec::new(),
            interrupts: InterruptRegistry::new(),
            topics: TopicRegistry::new(),
            inbox: Vec::new(),
        };
        assert(r.inbox() =~= Seq::<(Seq<char>, Seq<char>, u32)>::empty());
        r
    }

    /// The calls received so far, oldest first.
    pub fn call_log(&self) -> (r: &Vec<HostCall>)
        ensures
            r@ == self.calls(),
    {
        &self.log
    }

    /// Configures `pin`; levels are left as they are.
    pub fn pin_configure(&mut self, pin: u32, mode: PinMode)
        ensures
            final(self).wf() == old(self).wf(),
            final(self).calls() == old(self).calls().push(HostCall::Configure { pin, mode }),
            final(self).changes() == old(self).changes(),
            final(self).subscriptions() == old(self).subscriptions(),
            final(self).topics() == old(self).topics(),
            final(self).inbox() == old(self).inbox(),
    {
        self.log.push(HostCall::Configure { pin, mode });
    }

    /// Drives `pin` to `voltage`.
    pub fn pin_write(&mut self, pin: u32, voltage: PinVoltage)
        ensures
            final(self).wf() == old(self).wf(),
            final(self).calls() == old(self).calls().push(HostCall::Write { pin, voltage }),
            final(self).changes() == old(self).changes().push((pin, voltage)),
            final(self).subscriptions() == old(self).subscriptions(),
            final(self).topics() == old(self).topics(),
            final(self).inbox() == old(self).inbox(),
    {
        self.log.push(HostCall::Write { pin, voltage });
        self.changes.push((pin, voltage));
    }

    /// Reads the level of `pin`.
    pub fn pin_read(&mut self, pin: u32) -> (r: PinVoltage)
        ensures
            r == old(self).level(pin),
            final(self).wf() == old(self).wf(),
            final(self).calls() == old(self).calls().push(HostCall::Read { pin }),
            final(self).changes() == old(self).changes(),
            final(self).subscriptions() == old(self).subscriptions(),
            final(self).topics() == old(self).topics(),
            final(self).inbox() == old(self).inbox(),
    {
        let r = self.peek(pin);
        self.log.push(HostCall::Read { pin });
        r
    }

    /// Blocks the guest for `ms` milliseconds.
    pub fn delay(&mut self, ms: u32)
        ensures
            final(self).wf() == old(self).wf(),
            final(self).calls() == old(self).calls().push(HostCall::Delay { ms }),
            final(self).changes() == old(self).changes(),
            final(self).subscriptions() == old(self).subscriptions(),
            final(self).topics() == old(self).topics(),
            final(self).inbox() == old(self).inbox(),
    {
        self.log.push(HostCall::Delay { ms });
    }

    /// Subscribes `callback` to edges on `pin`, replacing any earlier one.
    pub fn subscribe_interrupt(&mut self, pin: u32, callback: u32, mode: InterruptMode)
        requires
            old(self).wf(),
        ensures
            final(self).wf(),
            final(self).calls() == old(self).calls().push(HostCall::SubscribeInterrupt { pin, callback, mode }),
            final(self).changes() == old(self).changes(),
            final(self).subscriptions() == old(self).subscriptions().insert(pin, (callback, mode)),
            final(self).topics() == old(self).topics(),
            final(self).inbox() == old(self).inbox(),
    {
        self.log.push(HostCall::SubscribeInterrupt { pin, callback, mode });
        self.interrupts.subscribe(pin, callback, mode);
    }

    /// Removes the subscription on `pin`, if any.
    pub fn unsubscribe_interrupt(&mut self, pin: u32)
        requires
            old(self).wf(),
        ensures
            final(self).wf(),
            final(self).calls() == old(self).calls().push(HostCall::UnsubscribeInterrupt { pin }),
            final(self).changes() == old(self).changes(),
            final(self).subscriptions() == old(self).subscriptions().remove(pin),
            final(self).topics() == old(self).topics(),
            final(self).inbox() == old(self).inbox(),
    {
        self.log.push(HostCall::UnsubscribeInterrupt { pin });
        self.interrupts.unsubscribe(pin);
    }

    /// The outside world drives `pin` to `voltage`; returns the callback
    /// handle that the edge reaches, if any.
    pub fn drive(&mut self, pin: u32, voltage: PinVoltage) -> (r: Option<u32>)
        requires
            old(self).wf(),
        ensures
            r == spec_fired(old(self).subscriptions(), pin, old(self).level(pin), voltage),
            final(self).wf(),
            final(self).calls() == old(self).calls(),
            final(self).changes() == old(self).changes().push((pin, voltage)),
            final(self).subscriptions() == old(self).subscriptions(),
            final(self).topics() == old(self).topics(),
            final(self).inbox() == old(self).inbox(),
    {
        let from = self.peek(pin);
        self.changes.push((pin, voltage));
        self.interrupts.fired(pin, from, voltage)
    }

    /// Subscribes `callback` to `topic`, replacing any earlier one.
    pub fn mqtt_subscribe(&mut self, topic: &str, callback: u32) -> (r: i32)
        requires
            old(self).wf(),
        ensures
            r == MQTT_OK,
            final(self).wf(),
            final(self).topics() == old(self).topics().insert(topic@, callback),
            final(self).calls() == old(self).calls(),
            final(self).changes() == old(self).changes(),
            final(self).subscriptions() == old(self).subscriptions(),
            final(self).inbox() == old(self).inbox(),
    {
        self.topics.subscribe(topic, callback);
        MQTT_OK
    }

    /// Removes the subscription on `topic`, whichever callback it held.
    pub fn mqtt_unsubscribe(&mut self, topic: &str) -> (r: i32)
        requires
            old(self).wf(),
        ensures
            r == MQTT_OK,
            final(self).wf(),
            final(self).topics() == old(self).topics().remove(topic@),
            final(self).calls() == old(self).calls(),
            final(self).changes() == old(self).changes(),
            final(self).subscriptions() == old(self).subscriptions(),
            final(self).inbox() == old(self).inbox(),
    {
        self.topics.unsubscribe(topic);
        MQTT_OK
    }

    /// The broker sends a message; the host buffers it until the next poll.
    pub fn arrive(&mut self, message: Message)
        requires
            old(self).wf(),
        ensures
            final(self).wf(),
            final(self).topics() == old(self).topics(),
            final(self).inbox() == old(self).inbox().push(message@),
            final(self).calls() == old(self).calls(),
            final(self).changes() == old(self).changes(),
            final(self).subscriptions() == old(self).subscriptions(),
    {
        self.inbox.push(message);
        assert(self.inbox() =~= old(self).inbox().push(message@));
    }

    /// Polls: returns a success status and the callback invocations owed for
    /// every buffered message, in arrival order, and empties the buffer.
    pub fn mqtt_loop(&mut self) -> (r: (i32, Vec<Delivery>))
        requires
            old(self).wf(),
        ensures
            r.0 == MQTT_OK,
            delivery_views(r.1@) == spec_deliveries(old(self).topics(), old(self).inbox()),
            final(self).wf(),
            final(self).topics() == old(self).topics(),
            final(self).inbox() == Seq::<(Seq<char>, Seq<char>, u32)>::empty(),
            final(self).calls() == old(self).calls(),
            final(self).changes() == old(self).changes(),
            final(self).subscriptions() == old(self).subscriptions(),
    {
        let out = self.topics.dispatch(&self.inbox);
        self.inbox = Vec::new();
        assert(self.inbox() =~= Seq::<(Seq<char>, Seq<char>, u32)>::empty());
        (MQTT_OK, out)
    }

    fn peek(&self, pin: u32) -> (r: PinVoltage)
        ensures
            r == self.level(pin),
    {
        let mut i: usize = self.changes.len();
        while i > 0
            invariant
                i <= self.changes@.len(),
                forall|j: int| i <= j < self.changes@.len() ==> (#[trigger] self.changes@[j]).0 != pin,
            decreases i,
        {
            let (p, v) = self.changes[i - 1];
            if p == pin {
                proof {
                    lemma_level_of_suffix(self.changes@, pin, i as int);
                    assert(self.changes@.take(i as int).last() == self.changes@[i - 1]);
                }
                return v;
            }
            i = i - 1;
        }
        proof {
            lemma_level_of_suffix(self.changes@, pin, 0);
        }
        PinVoltage::Low
    }
}

/// Writing a level to a pin and reading it back gives that level, whatever
/// came before.
pub proof fn lemma_write_then_read(changes: Seq<(u32, PinVoltage)>, pin: u32, voltage: PinVoltage)
    ensures
        level_of(changes.push((pin, voltage)), pin) == voltage,
{
    assert(changes.push((pin, voltage)).last() == (pin, voltage));
}

/// A write to one pin leaves every other pin's level as it was.
pub proof fn lemma_write_keeps_other_pins(
    changes: Seq<(u32, PinVoltage)>,
    pin: u32,
    voltage: PinVoltage,
    other: u32,
)
    requires
        other != pin,
    ensures
        level_of(changes.push((pin, voltage)), other) == level_of(changes, other),
{
    assert(changes.push((pin, voltage)).drop_last() =~= changes);
}

} // verus!
