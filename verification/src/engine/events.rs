use vstd::prelude::*;

verus! {

/// What a topic does with a new event once it holds `max_retained` of them.
#[derive(Clone, Copy, Debug, PartialEq, Eq, Structural)]
pub enum OverflowPolicy {
    /// The oldest retained event leaves to make room.
    DropOldest,
    /// The new event is discarded.
    RejectNew,
}

#[derive(Clone, Copy, Debug, PartialEq, Eq, Structural)]
pub struct TopicConfiguration {
    pub max_retained: usize,
    pub overflow: OverflowPolicy,
}

impl Default for TopicConfiguration {
    /// Retention without a practical bound.
    fn default() -> (c: Self)
        ensures
            c == (TopicConfiguration { max_retained: usize::MAX, overflow: OverflowPolicy::DropOldest }),
    {
        TopicConfiguration { max_retained: usize::MAX, overflow: OverflowPolicy::DropOldest }
    }
}

#[derive(Clone, Copy, Debug, PartialEq, Eq, Structural)]
pub struct PollConfiguration {}

impl Default for PollConfiguration {
    fn default() -> (c: Self)
        ensures
            c == (PollConfiguration {}),
    {
        PollConfiguration {}
    }
}

/// Identity of one subscription: the right to poll what was published to its topic.
#[derive(Clone, Copy, Debug, PartialEq, Eq, Structural)]
pub struct SubscriberId {
    index: usize,
}

impl SubscriberId {
    /// Position of the subscription among all subscriptions of the bus.
    pub closed spec fn view(&self) -> int {
        self.index as int
    }
}

#[derive(Clone, Copy, Debug, PartialEq, Eq, Structural)]
pub enum EventError {
    TopicAlreadyExists,
    UnknownTopic,
    UnknownSubscriber,
}

/// A topic as the contracts see it.
pub struct TopicModel {
    pub name: Seq<char>,
    pub config: TopicConfiguration,
    /// The events the topic still holds, oldest first.
    pub retained: Seq<Seq<u8>>,
}

/// A subscription as the contracts see it.
pub struct SubscriberModel {
    /// Index of its topic.
    pub topic: int,
    /// How many of the retained events it has polled already.
    pub seen: int,
}

/// The bus as the contracts see it: topics in creation order, subscriptions
/// in the order of their identities.
pub struct EventsModel {
    pub topics: Seq<TopicModel>,
    pub subscribers: Seq<SubscriberModel>,
}

/// The smallest `seen` among the subscriptions of topic `t`, or `bound` if
/// that is smaller or there is none.
pub open spec fn least_seen(subscribers: Seq<SubscriberModel>, t: int, bound: int) -> int
    decreases subscribers.len(),
{
    if subscribers.len() == 0 {
        bound
    } else {
        let rest = least_seen(subscribers.drop_last(), t, bound);
        let s = subscribers.last();
        if s.topic == t && s.seen < rest {
            s.seen
        } else {
            rest
        }
    }
}

impl EventsModel {
    /// No two topics have the same name, no topic holds more than it may
    /// retain, and each subscription belongs to a topic and has polled no
    /// more than that topic holds.
    pub open spec fn wf(self) -> bool {
        &&& forall|i: int, j: int|
            0 <= i < j < self.topics.len() ==> #[trigger] self.topics[i].name != #[trigger] self.topics[j].name
        &&& forall|i: int|
            0 <= i < self.topics.len() ==> (#[trigger] self.topics[i]).retained.len()
                <= self.topics[i].config.max_retained
        &&& forall|s: int|
            0 <= s < self.subscribers.len() ==> {
                &&& 0 <= (#[trigger] self.subscribers[s]).topic < self.topics.len()
                &&& 0 <= self.subscribers[s].seen <= self.topics[self.subscribers[s].topic].retained.len()
            }
    }

    /// Whether a topic was created under `name`.
    pub open spec fn has_topic(self, name: Seq<char>) -> bool {
        exists|i: int| 0 <= i < self.topics.len() && (#[trigger] self.topics[i]).name == name
    }

    /// Index of the topic created under `name`.
    pub open spec fn index_of(self, name: Seq<char>) -> int {
        choose|i: int| 0 <= i < self.topics.len() && (#[trigger] self.topics[i]).name == name
    }

    /// Whether `id` is the identity of a subscription of this bus.
    pub open spec fn has_subscriber(self, id: int) -> bool {
        0 <= id < self.subscribers.len()
    }

    /// The events that subscription `id` has yet to poll, oldest first.
    pub open spec fn pending(self, id: int) -> Seq<Seq<u8>> {
        let s = self.subscribers[id];
        self.topics[s.topic].retained.skip(s.seen)
    }

    /// The bus with one more topic, which holds nothing yet.
    pub open spec fn create_topic(self, name: Seq<char>, config: TopicConfiguration) -> EventsModel {
        EventsModel {
            topics: self.topics.push(TopicModel { name, config, retained: Seq::empty() }),
            subscribers: self.subscribers,
        }
    }

    /// A new subscription has polled nothing: all that its topic retains is pending.
    pub open spec fn subscribe(self, name: Seq<char>) -> EventsModel {
        EventsModel {
            topics: self.topics,
            subscribers: self.subscribers.push(SubscriberModel { topic: self.index_of(name), seen: 0 }),
        }
    }

    /// The bus once `event` was published to the topic `name`. A topic with
    /// room appends it. A full topic that drops its oldest event makes room
    /// for it, and the subscriptions that had polled the dropped event
    /// move with the queue. Any other full topic stays as it is.
    pub open spec fn publish(self, name: Seq<char>, event: Seq<u8>) -> EventsModel {
        let t = self.index_of(name);
        let topic = self.topics[t];
        if topic.retained.len() < topic.config.max_retained {
            EventsModel {
                topics: self.topics.update(t, TopicModel { retained: topic.retained.push(event), ..topic }),
                subscribers: self.subscribers,
            }
        } else if topic.config.overflow == OverflowPolicy::DropOldest && topic.retained.len() > 0 {
            EventsModel {
                topics: self.topics.update(
                    t,
                    TopicModel { retained: topic.retained.skip(1).push(event), ..topic },
                ),
                subscribers: Seq::new(
                    self.subscribers.len(),
                    |s: int|
                        if self.subscribers[s].topic == t && self.subscribers[s].seen > 0 {
                            SubscriberModel { topic: t, seen: self.subscribers[s].seen - 1 }
                        } else {
                            self.subscribers[s]
                        },
                ),
            }
        } else {
            self
        }
    }

    /// How many of the oldest events of its topic can be reclaimed once `id` has polled.
    pub open spec fn reclaimed_by_poll(self, id: int) -> int {
        let t = self.subscribers[id].topic;
        let all = self.topics[t].retained.len() as int;
        least_seen(self.subscribers.update(id, SubscriberModel { topic: t, seen: all }), t, all)
    }

    /// The bus once subscription `id` polled: it has polled all that its
    /// topic holds, and the topic lets go of what every one of its
    /// subscriptions has polled.
    pub open spec fn poll(self, id: int) -> EventsModel {
        let t = self.subscribers[id].topic;
        let topic = self.topics[t];
        let all = topic.retained.len() as int;
        let m = self.reclaimed_by_poll(id);
        EventsModel {
            topics: self.topics.update(t, TopicModel { retained: topic.retained.skip(m), ..topic }),
            subscribers: Seq::new(
                self.subscribers.len(),
                |s: int|
                    if s == id {
                        SubscriberModel { topic: t, seen: all - m }
                    } else if self.subscribers[s].topic == t {
                        SubscriberModel { topic: t, seen: self.subscribers[s].seen - m }
                    } else {
                        self.subscribers[s]
                    },
            ),
        }
    }
}

struct Topic {
    name: String,
    config: TopicConfiguration,
    queue: Vec<Vec<u8>>,
}

impl Topic {
    spec fn model(self) -> TopicModel {
        TopicModel {
            name: self.name@,
            config: self.config,
            retained: Seq::new(self.queue@.len(), |k: int| self.queue@[k]@),
        }
    }
}

struct Subscriber {
    topic: usize,
    offset: usize,
}

impl Subscriber {
    spec fn model(self) -> SubscriberModel {
        SubscriberModel { topic: self.topic as int, seen: self.offset as int }
    }
}

spec fn model_of(topics: Seq<Topic>, subscribers: Seq<Subscriber>) -> EventsModel {
    EventsModel {
        topics: Seq::new(topics.len(), |i: int| topics[i].model()),
        subscribers: Seq::new(subscribers.len(), |i: int| subscribers[i].model()),
    }
}

/// Named topics with fan-out: every subscription has its own view of what
/// was published to its topic.
pub struct Events {
    topics: Vec<Topic>,
    subscribers: Vec<Subscriber>,
}

fn find_topic(topics: &Vec<Topic>, name: &String) -> (found: Option<usize>)
    ensures
        match found {
            Some(i) => i < topics@.len() && topics@[i as int].name@ == name@,
            None => forall|k: int| 0 <= k < topics@.len() ==> (#[trigger] topics@[k]).name@ != name@,
        },
{
    let mut i: usize = 0;
    while i < topics.len()
        invariant
            0 <= i <= topics@.len(),
            forall|k: int| 0 <= k < i ==> (#[trigger] topics@[k]).name@ != name@,
        decreases topics@.len() - i,
    {
        if topics[i].name == *name {
            return Some(i);
        }
        i = i + 1;
    }
    None
}

/// The payloads of a list of events, as the contracts see them.
pub open spec fn payloads(events: Seq<Vec<u8>>) -> Seq<Seq<u8>> {
    Seq::new(events.len(), |k: int| events[k]@)
}

/// `least_seen` is a lower bound of `bound` and of every `seen` on topic `t`,
/// and it is not negative where none of them is.
pub proof fn lemma_least_seen_bounds(subscribers: Seq<SubscriberModel>, t: int, bound: int)
    ensures
        least_seen(subscribers, t, bound) <= bound,
        forall|s: int|
            0 <= s < subscribers.len() && (#[trigger] subscribers[s]).topic == t ==> least_seen(
                subscribers,
                t,
                bound,
            ) <= subscribers[s].seen,
        (bound >= 0 && forall|s: int| 0 <= s < subscribers.len() ==> (#[trigger] subscribers[s]).seen >= 0)
            ==> least_seen(subscribers, t, bound) >= 0,
    decreases subscribers.len(),
{
    if subscribers.len() > 0 {
        let front = subscribers.drop_last();
        lemma_least_seen_bounds(front, t, bound);
        assert forall|s: int| 0 <= s < subscribers.len() && (#[trigger] subscribers[s]).topic == t implies least_seen(
            subscribers,
            t,
            bound,
        ) <= subscribers[s].seen by {
            if s < front.len() {
                assert(front[s] == subscribers[s]);
            }
        }
        if bound >= 0 && forall|s: int| 0 <= s < subscribers.len() ==> (#[trigger] subscribers[s]).seen >= 0 {
            assert forall|s: int| 0 <= s < front.len() implies (#[trigger] front[s]).seen >= 0 by {
                assert(front[s] == subscribers[s]);
            }
        }
    }
}

/// Publishing to an existing topic keeps the bus well formed.
pub proof fn lemma_publish_wf(model: EventsModel, name: Seq<char>, event: Seq<u8>)
    requires
        model.wf(),
        model.has_topic(name),
    ensures
        model.publish(name, event).wf(),
{
    let t = model.index_of(name);
    let after = model.publish(name, event);
    assert(0 <= t < model.topics.len() && model.topics[t].name == name);
    assert forall|i: int, j: int| 0 <= i < j < after.topics.len() implies #[trigger] after.topics[i].name
        != #[trigger] after.topics[j].name by {
        assert(after.topics[i].name == model.topics[i].name);
        assert(after.topics[j].name == model.topics[j].name);
    }
    assert forall|s: int| 0 <= s < after.subscribers.len() implies {
        &&& 0 <= (#[trigger] after.subscribers[s]).topic < after.topics.len()
        &&& 0 <= after.subscribers[s].seen <= after.topics[after.subscribers[s].topic].retained.len()
    } by {
        let was = model.subscribers[s];
        assert(0 <= was.topic < model.topics.len());
        assert(0 <= was.seen <= model.topics[was.topic].retained.len());
    }
}

/// Polling with a known subscription keeps the bus well formed.
pub proof fn lemma_poll_wf(model: EventsModel, id: int)
    requires
        model.wf(),
        model.has_subscriber(id),
    ensures
        model.poll(id).wf(),
        0 <= model.reclaimed_by_poll(id) <= model.topics[model.subscribers[id].topic].retained.len(),
{
    let t = model.subscribers[id].topic;
    let all = model.topics[t].retained.len() as int;
    let caught_up = model.subscribers.update(id, SubscriberModel { topic: t, seen: all });
    let m = model.reclaimed_by_poll(id);
    let after = model.poll(id);
    assert(0 <= model.subscribers[id].seen);
    assert forall|s: int| 0 <= s < caught_up.len() implies (#[trigger] caught_up[s]).seen >= 0 by {
        if s != id {
            assert(model.subscribers[s].seen >= 0);
        }
    }
    lemma_least_seen_bounds(caught_up, t, all);
    assert forall|i: int, j: int| 0 <= i < j < after.topics.len() implies #[trigger] after.topics[i].name
        != #[trigger] after.topics[j].name by {
        assert(after.topics[i].name == model.topics[i].name);
        assert(after.topics[j].name == model.topics[j].name);
    }
    assert forall|s: int| 0 <= s < after.subscribers.len() implies {
        &&& 0 <= (#[trigger] after.subscribers[s]).topic < after.topics.len()
        &&& 0 <= after.subscribers[s].seen <= after.topics[after.subscribers[s].topic].retained.len()
    } by {
        let was = model.subscribers[s];
        assert(0 <= was.topic < model.topics.len());
        assert(0 <= was.seen <= model.topics[was.topic].retained.len());
        if s != id && was.topic == t {
            assert(caught_up[s] == was);
        }
    }
}

/// In a well-formed bus a name belongs to one topic only.
pub proof fn lemma_index_of(model: EventsModel, i: int)
    requires
        model.wf(),
        0 <= i < model.topics.len(),
    ensures
        model.has_topic(model.topics[i].name),
        model.index_of(model.topics[i].name) == i,
{
    let name = model.topics[i].name;
    let c = model.index_of(name);
    assert(0 <= c < model.topics.len() && model.topics[c].name == name);
    if c < i {
        assert(model.topics[c].name != model.topics[i].name);
    } else if i < c {
        assert(model.topics[i].name != model.topics[c].name);
    }
}

impl Events {
    #[verifier::type_invariant]
    spec fn inv(self) -> bool {
        model_of(self.topics@, self.subscribers@).wf()
    }

    /// The topics and the subscriptions of the bus.
    pub closed spec fn view(&self) -> EventsModel {
        model_of(self.topics@, self.subscribers@)
    }

    /// A bus without topics.
    pub fn new() -> (bus: Self)
        ensures
            bus@.topics.len() == 0,
            bus@.subscribers.len() == 0,
            bus@.wf(),
    {
        Events { topics: Vec::new(), subscribers: Vec::new() }
    }

    /// Creates the topic `name`, empty, under `config`. A name can be given once.
    pub fn create_topic(&mut self, name: &str, config: TopicConfiguration) -> (r: Result<(), EventError>)
        ensures
            final(self)@.wf(),
            r is Ok <==> !old(self)@.has_topic(name@),
            r is Err ==> r == Err::<(), EventError>(EventError::TopicAlreadyExists) && final(self)@ == old(self)@,
            r is Ok ==> final(self)@ == old(self)@.create_topic(name@, config),
    {
        proof {
            use_type_invariant(&*self);
        }
        let owned: String = name.to_owned();
        let mut held = Events::new();
        std::mem::swap(self, &mut held);
        let Events { mut topics, subscribers } = held;
        let ghost before = model_of(topics@, subscribers@);
        let ghost old_topics = topics@;
        let found = find_topic(&topics, &owned);
        let r = match found {
            Some(i) => {
                assert(before.topics[i as int].name == name@);
                Err(EventError::TopicAlreadyExists)
            },
            None => {
                topics.push(Topic { name: owned, config, queue: Vec::new() });
                proof {
                    let after = model_of(topics@, subscribers@);
                    let n = before.topics.len() as int;
                    assert(after.topics[n].retained =~= Seq::<Seq<u8>>::empty());
                    assert forall|k: int| 0 <= k < n implies after.topics[k] == before.topics[k] by {
                        assert(topics@[k] == old_topics[k]);
                    }
                    assert(after.topics =~= before.create_topic(name@, config).topics);
                    assert(after.subscribers =~= before.subscribers);
                    assert(after.wf());
                }
                Ok(())
            },
        };
        *self = Events { topics, subscribers };
        r
    }

    /// Subscribes to the topic `name`. The new subscription has polled nothing.
    pub fn subscribe(&mut self, name: &str, _config: PollConfiguration) -> (r: Result<SubscriberId, EventError>)
        ensures
            final(self)@.wf(),
            r is Ok <==> old(self)@.has_topic(name@),
            r is Err ==> r == Err::<SubscriberId, EventError>(EventError::UnknownTopic) && final(self)@ == old(
                self,
            )@,
            r matches Ok(id) ==> id@ == old(self)@.subscribers.len() && final(self)@ == old(self)@.subscribe(
                name@,
            ),
    {
        proof {
            use_type_invariant(&*self);
        }
        let owned: String = name.to_owned();
        let mut held = Events::new();
        std::mem::swap(self, &mut held);
        let Events { topics, mut subscribers } = held;
        let ghost before = model_of(topics@, subscribers@);
        let ghost old_subscribers = subscribers@;
        let found = find_topic(&topics, &owned);
        let r = match found {
            Some(i) => {
                let index = subscribers.len();
                subscribers.push(Subscriber { topic: i, offset: 0 });
                proof {
                    lemma_index_of(before, i as int);
                    let after = model_of(topics@, subscribers@);
                    assert forall|k: int| 0 <= k < old_subscribers.len() implies after.subscribers[k]
                        == before.subscribers[k] by {
                        assert(subscribers@[k] == old_subscribers[k]);
                    }
                    assert(after.subscribers =~= before.subscribe(name@).subscribers);
                    assert(after.topics =~= before.topics);
                    assert(after.wf());
                }
                Ok(SubscriberId { index })
            },
            None => {
                assert(!before.has_topic(name@));
                Err(EventError::UnknownTopic)
            },
        };
        *self = Events { topics, subscribers };
        r
    }

    /// Overflow is settled by the topic's policy and is not reported.
    pub fn publish(&mut self, name: &str, event: Vec<u8>) -> (r: Result<(), EventError>)
        ensures
            final(self)@.wf(),
            r is Ok <==> old(self)@.has_topic(name@),
            r is Err ==> r == Err::<(), EventError>(EventError::UnknownTopic) && final(self)@ == old(self)@,
            r is Ok ==> final(self)@ == old(self)@.publish(name@, event@),
    {
        proof {
            use_type_invariant(&*self);
        }
        let owned: String = name.to_owned();
        let mut held = Events::new();
        std::mem::swap(self, &mut held);
        let Events { mut topics, mut subscribers } = held;
        let ghost before = model_of(topics@, subscribers@);
        let ghost old_topics = topics@;
        let ghost old_subscribers = subscribers@;
        let ghost payload = event@;
        let found = find_topic(&topics, &owned);
        let r = match found {
            Some(t) => {
                proof {
                    lemma_index_of(before, t as int);
                    assert(before.topics[t as int] == old_topics[t as int].model());
                }
                let held_now = topics[t].queue.len();
                let limit = topics[t].config.max_retained;
                let drops = match topics[t].config.overflow {
                    OverflowPolicy::DropOldest => true,
                    OverflowPolicy::RejectNew => false,
                };
                if held_now < limit {
                    topics[t].queue.push(event);
                    proof {
                        let after = model_of(topics@, subscribers@);
                        let wanted = before.publish(name@, payload);
                        assert(after.topics[t as int].retained =~= wanted.topics[t as int].retained);
                        assert forall|k: int| 0 <= k < old_topics.len() implies after.topics[k]
                            == wanted.topics[k] by {
                            if k != t {
                                assert(topics@[k] == old_topics[k]);
                            }
                        }
                        assert(after.topics =~= wanted.topics);
                        assert(after.subscribers =~= wanted.subscribers);
                    }
                } else if drops && held_now > 0 {
                    let _oldest = topics[t].queue.remove(0);
                    topics[t].queue.push(event);
                    let mut s: usize = 0;
                    while s < subscribers.len()
                        invariant
                            0 <= s <= subscribers@.len(),
                            subscribers@.len() == old_subscribers.len(),
                            forall|k: int|
                                s <= k < subscribers@.len() ==> #[trigger] subscribers@[k] == old_subscribers[k],
                            forall|k: int|
                                0 <= k < s ==> (#[trigger] subscribers@[k]).model() == (if old_subscribers[k].topic
                                    == t && old_subscribers[k].offset > 0 {
                                    SubscriberModel { topic: t as int, seen: old_subscribers[k].offset - 1 }
                                } else {
                                    old_subscribers[k].model()
                                }),
                        decreases subscribers@.len() - s,
                    {
                        if subscribers[s].topic == t && subscribers[s].offset > 0 {
                            let lowered = subscribers[s].offset - 1;
                            subscribers[s].offset = lowered;
                        }
                        s = s + 1;
                    }
                    proof {
                        let after = model_of(topics@, subscribers@);
                        let wanted = before.publish(name@, payload);
                        assert(after.topics[t as int].retained =~= wanted.topics[t as int].retained);
                        assert forall|k: int| 0 <= k < old_topics.len() implies after.topics[k]
                            == wanted.topics[k] by {
                            if k != t {
                                assert(topics@[k] == old_topics[k]);
                            }
                        }
                        assert(after.topics =~= wanted.topics);
                        assert forall|k: int| 0 <= k < old_subscribers.len() implies after.subscribers[k]
                            == wanted.subscribers[k] by {
                            assert(before.subscribers[k] == old_subscribers[k].model());
                        }
                        assert(after.subscribers =~= wanted.subscribers);
                    }
                } else {
                    proof {
                        let after = model_of(topics@, subscribers@);
                        assert(after == before);
                        assert(before.publish(name@, payload) == before);
                    }
                }
                proof {
                    lemma_publish_wf(before, name@, payload);
                }
                Ok(())
            },
            None => {
                assert(!before.has_topic(name@));
                Err(EventError::UnknownTopic)
            },
        };
        *self = Events { topics, subscribers };
        r
    }

    /// Hands over, oldest first, what was published to the subscription's
    /// topic since it last polled, and reclaims the events that every
    /// subscription of that topic has now polled. It never waits.
    pub fn poll(&mut self, subscriber: &SubscriberId) -> (r: Result<Vec<Vec<u8>>, EventError>)
        ensures
            final(self)@.wf(),
            r is Ok <==> old(self)@.has_subscriber(subscriber@),
            r is Err ==> r == Err::<Vec<Vec<u8>>, EventError>(EventError::UnknownSubscriber) && final(self)@
                == old(self)@,
            r matches Ok(events) ==> payloads(events@) == old(self)@.pending(subscriber@) && final(self)@
                == old(self)@.poll(subscriber@),
    {
        proof {
            use_type_invariant(&*self);
        }
        let id = subscriber.index;
        if id >= self.subscribers.len() {
            return Err(EventError::UnknownSubscriber);
        }
        let mut held = Events::new();
        std::mem::swap(self, &mut held);
        let Events { mut topics, mut subscribers } = held;
        let ghost before = model_of(topics@, subscribers@);
        let ghost old_topics = topics@;
        let ghost old_subscribers = subscribers@;
        let t = subscribers[id].topic;
        let from = subscribers[id].offset;
        proof {
            assert(before.subscribers[id as int] == old_subscribers[id as int].model());
            assert(before.topics[t as int] == old_topics[t as int].model());
        }
        let all = topics[t].queue.len();

        let mut events: Vec<Vec<u8>> = Vec::new();
        let mut k: usize = from;
        while k < all
            invariant
                from <= k <= all,
                t < topics@.len(),
                all == topics@[t as int].queue@.len(),
                events@.len() == k - from,
                forall|j: int| 0 <= j < events@.len() ==> (#[trigger] events@[j])@ == topics@[t as int].queue@[from + j]@,
            decreases all - k,
        {
            let copy = topics[t].queue[k].clone();
            events.push(copy);
            k = k + 1;
        }
        assert(payloads(events@) =~= before.pending(id as int));

        subscribers[id].offset = all;
        let ghost caught_up = before.subscribers.update(
            id as int,
            SubscriberModel { topic: t as int, seen: all as int },
        );
        let ghost mid_subscribers = subscribers@;
        proof {
            assert forall|j: int| 0 <= j < mid_subscribers.len() implies (#[trigger] mid_subscribers[j]).model()
                == caught_up[j] by {
                if j != id {
                    assert(mid_subscribers[j] == old_subscribers[j]);
                    assert(before.subscribers[j] == old_subscribers[j].model());
                }
            }
        }

        let mut least: usize = all;
        let mut s: usize = 0;
        while s < subscribers.len()
            invariant
                0 <= s <= subscribers@.len(),
                subscribers@ == mid_subscribers,
                mid_subscribers.len() == caught_up.len(),
                forall|j: int| 0 <= j < mid_subscribers.len() ==> (#[trigger] mid_subscribers[j]).model() == caught_up[j],
                least as int == least_seen(caught_up.take(s as int), t as int, all as int),
            decreases subscribers@.len() - s,
        {
            proof {
                assert(caught_up.take(s + 1).drop_last() =~= caught_up.take(s as int));
                assert(caught_up.take(s + 1).last() == caught_up[s as int]);
            }
            if subscribers[s].topic == t && subscribers[s].offset < least {
                least = subscribers[s].offset;
            }
            s = s + 1;
        }
        proof {
            assert(caught_up.take(caught_up.len() as int) =~= caught_up);
            assert(least as int == before.reclaimed_by_poll(id as int));
            lemma_least_seen_bounds(caught_up, t as int, all as int);
        }

        if least > 0 {
            let kept = topics[t].queue.split_off(least);
            topics[t].queue = kept;
            let mut s: usize = 0;
            while s < subscribers.len()
                invariant
                    0 <= s <= subscribers@.len(),
                    subscribers@.len() == mid_subscribers.len(),
                    mid_subscribers.len() == caught_up.len(),
                    forall|j: int|
                        0 <= j < mid_subscribers.len() ==> (#[trigger] mid_subscribers[j]).model() == caught_up[j],
                    forall|j: int|
                        0 <= j < caught_up.len() && (#[trigger] caught_up[j]).topic == t ==> least <= caught_up[j].seen,
                    forall|j: int| s <= j < subscribers@.len() ==> #[trigger] subscribers@[j] == mid_subscribers[j],
                    forall|j: int|
                        0 <= j < s ==> (#[trigger] subscribers@[j]).model() == (if caught_up[j].topic == t {
                            SubscriberModel { topic: t as int, seen: caught_up[j].seen - least }
                        } else {
                            caught_up[j]
                        }),
                decreases subscribers@.len() - s,
            {
                if subscribers[s].topic == t {
                    proof {
                        assert(mid_subscribers[s as int].model() == caught_up[s as int]);
                    }
                    let lowered = subscribers[s].offset - least;
                    subscribers[s].offset = lowered;
                }
                s = s + 1;
            }
        }
        proof {
            let after = model_of(topics@, subscribers@);
            let wanted = before.poll(id as int);
            assert(after.topics[t as int].retained =~= wanted.topics[t as int].retained);
            assert forall|j: int| 0 <= j < old_topics.len() implies after.topics[j] == wanted.topics[j] by {
                if j != t {
                    assert(topics@[j] == old_topics[j]);
                    assert(before.topics[j] == old_topics[j].model());
                }
            }
            assert(after.topics =~= wanted.topics);
            assert forall|j: int| 0 <= j < old_subscribers.len() implies after.subscribers[j]
                == wanted.subscribers[j] by {
                assert(mid_subscribers[j].model() == caught_up[j]);
                assert(before.subscribers[j] == old_subscribers[j].model());
                if least == 0 {
                    assert(subscribers@[j] == mid_subscribers[j]);
                }
            }
            assert(after.subscribers =~= wanted.subscribers);
            lemma_poll_wf(before, id as int);
        }
        *self = Events { topics, subscribers };
        Ok(events)
    }
}

} // verus!
