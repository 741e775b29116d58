use vstd::prelude::*;
use crate::engine::events::{
    lemma_least_seen_bounds, lemma_poll_wf, lemma_publish_wf, EventsModel, OverflowPolicy, SubscriberModel,
    TopicConfiguration,
};

verus! {

/// A topic that was created exists: creating it again under the same name
/// is an error, whatever the configuration.
pub proof fn lemma_created_topic_exists(model: EventsModel, name: Seq<char>, config: TopicConfiguration)
    requires
        model.wf(),
        !model.has_topic(name),
    ensures
        model.create_topic(name, config).wf(),
        model.create_topic(name, config).has_topic(name),
{
    let after = model.create_topic(name, config);
    let n = model.topics.len() as int;
    assert(after.topics[n].name == name);
    assert forall|i: int, j: int| 0 <= i < j < after.topics.len() implies #[trigger] after.topics[i].name
        != #[trigger] after.topics[j].name by {
        assert(after.topics[i] == model.topics[i]);
        if j < n {
            assert(after.topics[j] == model.topics[j]);
        }
    }
    assert forall|i: int| 0 <= i < after.topics.len() implies (#[trigger] after.topics[i]).retained.len()
        <= after.topics[i].config.max_retained by {
        if i < n {
            assert(after.topics[i] == model.topics[i]);
        }
    }
    assert forall|s: int| 0 <= s < after.subscribers.len() implies {
        &&& 0 <= (#[trigger] after.subscribers[s]).topic < after.topics.len()
        &&& 0 <= after.subscribers[s].seen <= after.topics[after.subscribers[s].topic].retained.len()
    } by {
        let was = model.subscribers[s];
        assert(0 <= was.topic < model.topics.len());
        assert(after.topics[was.topic] == model.topics[was.topic]);
    }
}

/// A new subscription has everything pending that its topic retains.
pub proof fn lemma_subscription_starts_unread(model: EventsModel, name: Seq<char>)
    requires
        model.wf(),
        model.has_topic(name),
    ensures
        model.subscribe(name).wf(),
        model.subscribe(name).pending(model.subscribers.len() as int) == model.topics[model.index_of(
            name,
        )].retained,
        forall|s: int|
            0 <= s < model.subscribers.len() ==> #[trigger] model.subscribe(name).pending(s) == model.pending(s),
{
    let after = model.subscribe(name);
    let t = model.index_of(name);
    assert(0 <= t < model.topics.len() && model.topics[t].name == name);
    assert(model.topics[t].retained.skip(0) =~= model.topics[t].retained);
    assert forall|s: int| 0 <= s < after.subscribers.len() implies {
        &&& 0 <= (#[trigger] after.subscribers[s]).topic < after.topics.len()
        &&& 0 <= after.subscribers[s].seen <= after.topics[after.subscribers[s].topic].retained.len()
    } by {
        if s < model.subscribers.len() {
            assert(after.subscribers[s] == model.subscribers[s]);
        }
    }
}

/// Fan-out: an event published to a topic that has room is appended to what
/// is pending for each subscription of that topic, and changes nothing for
/// the subscriptions of other topics.
pub proof fn lemma_publish_reaches_every_subscriber(model: EventsModel, name: Seq<char>, event: Seq<u8>, s: int)
    requires
        model.wf(),
        model.has_topic(name),
        model.has_subscriber(s),
        model.topics[model.index_of(name)].retained.len() < model.topics[model.index_of(name)].config.max_retained,
    ensures
        model.publish(name, event).wf(),
        model.subscribers[s].topic == model.index_of(name) ==> model.publish(name, event).pending(s)
            == model.pending(s).push(event),
        model.subscribers[s].topic != model.index_of(name) ==> model.publish(name, event).pending(s)
            == model.pending(s),
{
    lemma_publish_wf(model, name, event);
    let t = model.index_of(name);
    assert(0 <= t < model.topics.len() && model.topics[t].name == name);
    let sub = model.subscribers[s];
    assert(0 <= sub.topic < model.topics.len());
    assert(0 <= sub.seen <= model.topics[sub.topic].retained.len());
    if sub.topic == t {
        assert(model.publish(name, event).pending(s) =~= model.pending(s).push(event));
    }
}

/// On a full topic that drops its oldest event, the new event takes the
/// place of the oldest one: a subscription that has polled nothing loses
/// the oldest event, any other loses nothing, and both get the new event.
pub proof fn lemma_drop_oldest_keeps_newest(model: EventsModel, name: Seq<char>, event: Seq<u8>, s: int)
    requires
        model.wf(),
        model.has_topic(name),
        model.has_subscriber(s),
        model.subscribers[s].topic == model.index_of(name),
        model.topics[model.index_of(name)].config.overflow == OverflowPolicy::DropOldest,
        model.topics[model.index_of(name)].retained.len() == model.topics[model.index_of(name)].config.max_retained,
        model.topics[model.index_of(name)].retained.len() > 0,
    ensures
        model.publish(name, event).topics[model.index_of(name)].retained == model.topics[model.index_of(
            name,
        )].retained.skip(1).push(event),
        model.subscribers[s].seen == 0 ==> model.publish(name, event).pending(s) == model.pending(s).skip(
            1,
        ).push(event),
        model.subscribers[s].seen > 0 ==> model.publish(name, event).pending(s) == model.pending(s).push(
            event,
        ),
{
    let t = model.index_of(name);
    assert(0 <= t < model.topics.len() && model.topics[t].name == name);
    let sub = model.subscribers[s];
    assert(0 <= sub.seen <= model.topics[sub.topic].retained.len());
    let after = model.publish(name, event);
    if sub.seen == 0 {
        assert(after.pending(s) =~= model.pending(s).skip(1).push(event));
    } else {
        assert(after.pending(s) =~= model.pending(s).push(event));
    }
}

/// A full topic that rejects new events is left as it was.
pub proof fn lemma_reject_new_changes_nothing(model: EventsModel, name: Seq<char>, event: Seq<u8>)
    requires
        model.wf(),
        model.has_topic(name),
        model.topics[model.index_of(name)].config.overflow == OverflowPolicy::RejectNew,
        model.topics[model.index_of(name)].retained.len() == model.topics[model.index_of(name)].config.max_retained,
    ensures
        model.publish(name, event) == model,
{
}

/// Each subscription has a cursor of its own: after a poll nothing is
/// pending for the subscription that polled, and what is pending for any
/// other subscription is what was pending before.
pub proof fn lemma_poll_is_independent(model: EventsModel, id: int, other: int)
    requires
        model.wf(),
        model.has_subscriber(id),
        model.has_subscriber(other),
    ensures
        model.poll(id).wf(),
        model.poll(id).pending(id) == Seq::<Seq<u8>>::empty(),
        other != id ==> model.poll(id).pending(other) == model.pending(other),
{
    lemma_poll_wf(model, id);
    let t = model.subscribers[id].topic;
    let m = model.reclaimed_by_poll(id);
    let after = model.poll(id);
    assert(0 <= t < model.topics.len());
    assert(after.pending(id) =~= Seq::<Seq<u8>>::empty());
    if other != id {
        let sub = model.subscribers[other];
        assert(0 <= sub.topic < model.topics.len());
        assert(0 <= sub.seen <= model.topics[sub.topic].retained.len());
        if sub.topic == t {
            let all = model.topics[t].retained.len() as int;
            let caught_up = model.subscribers.update(
                id,
                SubscriberModel { topic: t, seen: all },
            );
            lemma_least_seen_bounds(caught_up, t, all);
            assert(caught_up[other] == sub);
            assert(m <= sub.seen);
            assert(after.pending(other) =~= model.pending(other));
        } else {
            assert(after.pending(other) =~= model.pending(other));
        }
    }
}

/// An event leaves a topic at a poll only when every subscription of the
/// topic has polled it.
pub proof fn lemma_poll_reclaims_only_what_all_have_seen(model: EventsModel, id: int, other: int)
    requires
        model.wf(),
        model.has_subscriber(id),
        model.has_subscriber(other),
        other != id,
        model.subscribers[other].topic == model.subscribers[id].topic,
    ensures
        model.reclaimed_by_poll(id) <= model.subscribers[other].seen,
{
    let t = model.subscribers[id].topic;
    let all = model.topics[t].retained.len() as int;
    let caught_up = model.subscribers.update(
        id,
        SubscriberModel { topic: t, seen: all },
    );
    lemma_least_seen_bounds(caught_up, t, all);
    assert(caught_up[other] == model.subscribers[other]);
}

} // verus!
