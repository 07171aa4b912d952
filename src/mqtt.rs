use vstd::prelude::*;

verus! {

/// A message the host buffered for the guest: topic, payload and the
/// payload length the host reported.
pub struct Message {
    pub topic: String,
    pub payload: String,
    pub length: u32,
}

impl View for Message {
    type V = (Seq<char>, Seq<char>, u32);

    open spec fn view(&self) -> (Seq<char>, Seq<char>, u32) {
        (self.topic@, self.payload@, self.length)
    }
}

/// One callback invocation owed to the guest: the handle to run and the
/// three arguments it is run with.
pub struct Delivery {
    pub callback: u32,
    pub topic: String,
    pub payload: String,
    pub length: u32,
}

impl View for Delivery {
    type V = (u32, Seq<char>, Seq<char>, u32);

    open spec fn view(&self) -> (u32, Seq<char>, Seq<char>, u32) {
        (self.callback, self.topic@, self.payload@, self.length)
    }
}

struct TopicEntry {
    topic: String,
    callback: u32,
}

/// At most one callback per exact topic string; a new subscription for the
/// same topic replaces the old one in a single step.
pub struct TopicRegistry {
    entries: Vec<TopicEntry>,
}

/// The invocations that polling owes for `inbox`, in arrival order: one for
/// each message whose topic has a subscription, none for the others.
pub open spec fn spec_deliveries(
    subs: Map<Seq<char>, u32>,
    inbox: Seq<(Seq<char>, Seq<char>, u32)>,
) -> Seq<(u32, Seq<char>, Seq<char>, u32)>
    decreases inbox.len(),
{
    if inbox.len() == 0 {
        Seq::empty()
    } else {
        let earlier = spec_deliveries(subs, inbox.drop_last());
        let m = inbox.last();
        if subs.contains_key(m.0) {
            earlier.push((subs[m.0], m.0, m.1, m.2))
        } else {
            earlier
        }
    }
}

pub open spec fn message_views(inbox: Seq<Message>) -> Seq<(Seq<char>, Seq<char>, u32)> {
    inbox.map_values(|m: Message| m@)
}

pub open spec fn delivery_views(out: Seq<Delivery>) -> Seq<(u32, Seq<char>, Seq<char>, u32)> {
    out.map_values(|d: Delivery| d@)
}

/// Whether the host's answer to a connection attempt means success.
pub open spec fn spec_connect_ok(code: i32) -> bool {
    code != 0
}

/// Whether the host's answer to a liveness query means connected.
pub open spec fn spec_is_connected(code: i32) -> bool {
    code > 0
}

/// Reads the host's answer to a connection attempt: any non-zero code is success.
pub fn connect_succeeded(code: i32) -> (r: bool)
    ensures
        r == spec_connect_ok(code),
{
    code != 0
}

/// Reads the host's answer to a liveness query: only a positive code means connected.
pub fn still_connected(code: i32) -> (r: bool)
    ensures
        r == spec_is_connected(code),
{
    code > 0
}

impl TopicRegistry {
    spec fn entry_map(entries: Seq<TopicEntry>) -> Map<Seq<char>, u32>
        decreases entries.len(),
    {
        if entries.len() == 0 {
            Map::empty()
        } else {
            let last = entries.last();
            Self::entry_map(entries.drop_last()).insert(last.topic@, last.callback)
        }
    }

    /// Topic to callback handle of every active subscription.
    pub closed spec fn view(&self) -> Map<Seq<char>, u32> {
        Self::entry_map(self.entries@)
    }

    pub closed spec fn wf(&self) -> bool {
        forall|i: int, j: int|
            0 <= i < j < self.entries@.len() ==> self.entries@[i].topic@ != self.entries@[j].topic@
    }

    proof fn lemma_entry_map(entries: Seq<TopicEntry>)
        requires
            forall|i: int, j: int| 0 <= i < j < entries.len() ==> entries[i].topic@ != entries[j].topic@,
        ensures
            forall|i: int| 0 <= i < entries.len() ==> Self::entry_map(entries).contains_key(#[trigger] entries[i].topic@)
                && Self::entry_map(entries)[entries[i].topic@] == entries[i].callback,
            forall|t: Seq<char>| #[trigger] Self::entry_map(entries).contains_key(t) ==> exists|i: int|
                0 <= i < entries.len() && entries[i].topic@ == t,
        decreases entries.len(),
    {
        if entries.len() > 0 {
            let init = entries.drop_last();
            Self::lemma_entry_map(init);
            assert forall|t: Seq<char>| #[trigger] Self::entry_map(entries).contains_key(t) implies exists|i: int|
                0 <= i < entries.len() && entries[i].topic@ == t by {
                if t != entries.last().topic@ {
                    assert(Self::entry_map(init).contains_key(t));
                    let i = choose|i: int| 0 <= i < init.len() && init[i].topic@ == t;
                    assert(entries[i].topic@ == t);
                } else {
                    assert(entries[entries.len() - 1].topic@ == t);
                }
            }
            assert forall|i: int| 0 <= i < entries.len() implies Self::entry_map(entries).contains_key(#[trigger] entries[i].topic@)
                && Self::entry_map(entries)[entries[i].topic@] == entries[i].callback by {
                if i < entries.len() - 1 {
                    assert(init[i] == entries[i]);
                    assert(entries[i].topic@ != entries[entries.len() - 1].topic@);
                    assert(Self::entry_map(init).contains_key(init[i].topic@));
                }
            }
        }
    }

    /// A registry with no subscriptions.
    pub fn new() -> (r: Self)
        ensures
            r.wf(),
            r@ == Map::<Seq<char>, u32>::empty(),
    {
        TopicRegistry { entries: Vec::new() }
    }

    fn find(&self, topic: &String) -> (r: Option<usize>)
        requires
            self.wf(),
        ensures
            r matches Some(i) ==> i < self.entries@.len() && self.entries@[i as int].topic@ == topic@,
            r is None ==> !self@.contains_key(topic@),
    {
        proof { Self::lemma_entry_map(self.entries@); }
        let mut i: usize = 0;
        while i < self.entries.len()
            invariant
                i <= self.entries@.len(),
                forall|j: int| 0 <= j < i ==> self.entries@[j].topic@ != topic@,
            decreases self.entries@.len() - i,
        {
            if self.entries[i].topic == *topic {
                return Some(i);
            }
            i = i + 1;
        }
        None
    }

    /// The callback subscribed to exactly `topic`, if any.
    pub fn handler(&self, topic: &str) -> (r: Option<u32>)
        requires
            self.wf(),
        ensures
            r == (if self@.contains_key(topic@) {
                Some(self@[topic@])
            } else {
                None::<u32>
            }),
    {
        proof { Self::lemma_entry_map(self.entries@); }
        let key = topic.to_owned();
        match self.find(&key) {
            Some(i) => Some(self.entries[i].callback),
            None => None,
        }
    }

    /// Subscribes `callback` to `topic`, replacing any subscription the
    /// topic had.
    pub fn subscribe(&mut self, topic: &str, callback: u32)
        requires
            old(self).wf(),
        ensures
            final(self).wf(),
            final(self)@ == old(self)@.insert(topic@, callback),
    {
        proof { Self::lemma_entry_map(self.entries@); }
        let key = topic.to_owned();
        let ghost before = self.entries@;
        match self.find(&key) {
            Some(i) => {
                self.entries.set(i, TopicEntry { topic: key, callback });
                assert(self.entries@[i as int].topic@ == topic@);
            },
            None => {
                self.entries.push(TopicEntry { topic: key, callback });
                assert(self.entries@[self.entries@.len() - 1].topic@ == topic@);
            },
        }
        proof {
            Self::lemma_entry_map(self.entries@);
            let after = self.entries@;
            let m = old(self)@.insert(topic@, callback);
            assert forall|t: Seq<char>| #[trigger] self@.contains_key(t) <==> m.contains_key(t) by {
                if self@.contains_key(t) {
                    let j = choose|j: int| 0 <= j < after.len() && after[j].topic@ == t;
                    if t != topic@ {
                        assert(before[j] == after[j]);
                    }
                }
                if m.contains_key(t) && t != topic@ {
                    let j = choose|j: int| 0 <= j < before.len() && before[j].topic@ == t;
                    assert(after[j] == before[j]);
                }
            }
            assert forall|t: Seq<char>| #[trigger] self@.contains_key(t) implies self@[t] == m[t] by {
                let j = choose|j: int| 0 <= j < after.len() && after[j].topic@ == t;
                if t != topic@ {
                    assert(before[j] == after[j]);
                }
            }
        }
        assert(self@ =~= old(self)@.insert(topic@, callback));
    }

    /// Removes the subscription on `topic`, if any, whichever callback it held.
    pub fn unsubscribe(&mut self, topic: &str)
        requires
            old(self).wf(),
        ensures
            final(self).wf(),
            final(self)@ == old(self)@.remove(topic@),
    {
        proof { Self::lemma_entry_map(self.entries@); }
        let key = topic.to_owned();
        let ghost before = self.entries@;
        match self.find(&key) {
            Some(i) => {
                self.entries.remove(i);
                proof {
                    let after = self.entries@;
                    assert(after == before.remove(i as int));
                    assert forall|a: int, b: int| 0 <= a < b < after.len() implies after[a].topic@ != after[b].topic@ by {
                        let a0 = if a < i { a } else { a + 1 };
                        let b0 = if b < i { b } else { b + 1 };
                        assert(after[a] == before[a0] && after[b] == before[b0]);
                    }
                    Self::lemma_entry_map(after);
                    let m = old(self)@.remove(topic@);
                    assert forall|t: Seq<char>| #[trigger] self@.contains_key(t) <==> m.contains_key(t) by {
                        if self@.contains_key(t) {
                            let j = choose|j: int| 0 <= j < after.len() && after[j].topic@ == t;
                            let j0 = if j < i { j } else { j + 1 };
                            assert(after[j] == before[j0]);
                        }
                        if m.contains_key(t) {
                            let j = choose|j: int| 0 <= j < before.len() && before[j].topic@ == t;
                            assert(j != i);
                            let j1 = if j < i { j } else { j - 1 };
                            assert(after[j1] == before[j]);
                        }
                    }
                    assert forall|t: Seq<char>| #[trigger] self@.contains_key(t) implies self@[t] == m[t] by {
                        let j = choose|j: int| 0 <= j < after.len() && after[j].topic@ == t;
                        let j0 = if j < i { j } else { j + 1 };
                        assert(after[j] == before[j0]);
                    }
                }
            },
            None => {},
        }
        assert(self@ =~= old(self)@.remove(topic@));
    }

    /// The callback invocations that one poll owes for the buffered `inbox`,
    /// in arrival order.
    pub fn dispatch(&self, inbox: &Vec<Message>) -> (r: Vec<Delivery>)
        requires
            self.wf(),
        ensures
            delivery_views(r@) == spec_deliveries(self@, message_views(inbox@)),
    {
        let mut out: Vec<Delivery> = Vec::new();
        let mut i: usize = 0;
        while i < inbox.len()
            invariant
                self.wf(),
                i <= inbox@.len(),
                delivery_views(out@) == spec_deliveries(self@, message_views(inbox@.take(i as int))),
            decreases inbox@.len() - i,
        {
            let m = &inbox[i];
            let ghost before = out@;
            assert(message_views(inbox@.take(i + 1)).drop_last() =~= message_views(inbox@.take(i as int)));
            match self.handler(m.topic.as_str()) {
                Some(callback) => {
                    out.push(Delivery {
                        callback,
                        topic: m.topic.clone(),
                        payload: m.payload.clone(),
                        length: m.length,
                    });
                    assert(delivery_views(out@) =~= delivery_views(before).push(
                        (callback, m.topic@, m.payload@, m.length),
                    ));
                },
                None => {},
            }
            i = i + 1;
        }
        assert(inbox@.take(inbox@.len() as int) =~= inbox@);
        out
    }
}

/// Every invocation that polling owes runs the callback currently
/// subscribed to the message's topic.
pub proof fn lemma_deliveries_use_current_handler(
    subs: Map<Seq<char>, u32>,
    inbox: Seq<(Seq<char>, Seq<char>, u32)>,
)
    ensures
        forall|k: int| 0 <= k < spec_deliveries(subs, inbox).len() ==>
            subs.contains_key((#[trigger] spec_deliveries(subs, inbox)[k]).1)
            && subs[spec_deliveries(subs, inbox)[k].1] == spec_deliveries(subs, inbox)[k].0,
    decreases inbox.len(),
{
    if inbox.len() > 0 {
        let earlier = spec_deliveries(subs, inbox.drop_last());
        lemma_deliveries_use_current_handler(subs, inbox.drop_last());
        let all = spec_deliveries(subs, inbox);
        assert forall|k: int| 0 <= k < all.len() implies subs.contains_key((#[trigger] all[k]).1)
            && subs[all[k].1] == all[k].0 by {
            if k < earlier.len() {
                assert(all[k] == earlier[k]);
            }
        }
    }
}

/// Polling with no subscription for any arrived topic runs no callback.
pub proof fn lemma_unsubscribed_topics_run_nothing(
    subs: Map<Seq<char>, u32>,
    inbox: Seq<(Seq<char>, Seq<char>, u32)>,
)
    requires
        forall|k: int| 0 <= k < inbox.len() ==> !subs.contains_key(#[trigger] inbox[k].0),
    ensures
        spec_deliveries(subs, inbox) == Seq::<(u32, Seq<char>, Seq<char>, u32)>::empty(),
    decreases inbox.len(),
{
    if inbox.len() > 0 {
        let init = inbox.drop_last();
        assert forall|k: int| 0 <= k < init.len() implies !subs.contains_key(#[trigger] init[k].0) by {
            assert(init[k] == inbox[k]);
        }
        lemma_unsubscribed_topics_run_nothing(subs, init);
        assert(!subs.contains_key(inbox[inbox.len() - 1].0));
    }
}

/// After a topic is unsubscribed, polling runs no callback for it.
pub proof fn lemma_topic_unsubscribe_silences(
    subs: Map<Seq<char>, u32>,
    topic: Seq<char>,
    callback: u32,
    inbox: Seq<(Seq<char>, Seq<char>, u32)>,
)
    ensures
        forall|k: int| 0 <= k < spec_deliveries(subs.insert(topic, callback).remove(topic), inbox).len()
            ==> (#[trigger] spec_deliveries(subs.insert(topic, callback).remove(topic), inbox)[k]).1 != topic,
{
    lemma_deliveries_use_current_handler(subs.insert(topic, callback).remove(topic), inbox);
}

/// Subscribing again to a topic replaces the earlier callback: a message on
/// it runs the latest callback once, with the message's own arguments, and
/// never the earlier one.
pub proof fn lemma_topic_resubscribe_replaces(
    subs: Map<Seq<char>, u32>,
    topic: Seq<char>,
    first: u32,
    latest: u32,
    payload: Seq<char>,
    length: u32,
    inbox: Seq<(Seq<char>, Seq<char>, u32)>,
)
    ensures
        spec_deliveries(subs.insert(topic, first).insert(topic, latest), seq![(topic, payload, length)])
            == seq![(latest, topic, payload, length)],
        forall|k: int| 0 <= k < spec_deliveries(subs.insert(topic, first).insert(topic, latest), inbox).len()
            && (#[trigger] spec_deliveries(subs.insert(topic, first).insert(topic, latest), inbox)[k]).1 == topic
            ==> spec_deliveries(subs.insert(topic, first).insert(topic, latest), inbox)[k].0 == latest,
{
    let s = subs.insert(topic, first).insert(topic, latest);
    lemma_deliveries_use_current_handler(s, inbox);
    let one = seq![(topic, payload, length)];
    assert(one.drop_last() =~= Seq::<(Seq<char>, Seq<char>, u32)>::empty());
    assert(spec_deliveries(s, one.drop_last()) == Seq::<(u32, Seq<char>, Seq<char>, u32)>::empty());
    assert(spec_deliveries(s, one) =~= seq![(latest, topic, payload, length)]);
}

} // verus!
