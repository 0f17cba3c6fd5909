//! What holds of every run of the firewall metric service.
//!
//! The statements are about the model in [`super::model`]; the executable
//! state follows the model step by step, so they hold of it too.
use crate::event::firewall::{
    lemma_merge_zero, ConnectMetric, FirewallEvent, FirewallEventType, FirewallKey,
    FirewallMessage, FirewallMetric,
};
use crate::metric::model::{
    lemma_appended_valid, lemma_seeded_valid, merge_all, recent, ServiceState, HISTORY_CAPACITY,
};
use vstd::prelude::*;

verus! {

/// Whether `msg` reports that the connection `key` was created.
pub open spec fn creates(msg: FirewallMessage, key: FirewallKey) -> bool {
    match msg {
        FirewallMessage::Event(event) => event.event_type == FirewallEventType::CreateConnect
            && event.key() == key,
        FirewallMessage::Metric(_) => false,
    }
}

/// Whether `msg` reports that the connection `key` was torn down.
pub open spec fn disconnects(msg: FirewallMessage, key: FirewallKey) -> bool {
    match msg {
        FirewallMessage::Event(event) => event.event_type == FirewallEventType::DisConnct
            && event.key() == key,
        FirewallMessage::Metric(_) => false,
    }
}

/// Whether `msg` is a sample of the connection `key`.
pub open spec fn measures(msg: FirewallMessage, key: FirewallKey) -> bool {
    match msg {
        FirewallMessage::Event(_) => false,
        FirewallMessage::Metric(sample) => sample.key() == key,
    }
}

/// Whether no message of `msgs` tears the connection `key` down.
pub open spec fn never_disconnects(msgs: Seq<FirewallMessage>, key: FirewallKey) -> bool {
    forall|i: int| 0 <= i < msgs.len() ==> !disconnects(#[trigger] msgs[i], key)
}

/// The samples among `msgs` that measure the connection `key`, in the order
/// in which they arrive.
pub open spec fn samples_of(msgs: Seq<FirewallMessage>, key: FirewallKey) -> Seq<FirewallMetric>
    decreases msgs.len(),
{
    if msgs.len() == 0 {
        Seq::empty()
    } else {
        let earlier = samples_of(msgs.drop_last(), key);
        match msgs.last() {
            FirewallMessage::Metric(sample) => if sample.key() == key {
                earlier.push(sample)
            } else {
                earlier
            },
            FirewallMessage::Event(_) => earlier,
        }
    }
}

/// Applying one batch after another is applying their concatenation.
pub proof fn lemma_apply_messages_concat(
    state: ServiceState,
    first: Seq<FirewallMessage>,
    second: Seq<FirewallMessage>,
)
    ensures
        state.apply_messages(first + second) == state.apply_messages(first).apply_messages(second),
    decreases second.len(),
{
    if second.len() > 0 {
        assert((first + second).drop_last() =~= first + second.drop_last());
        lemma_apply_messages_concat(state, first, second.drop_last());
    }
}

/// Applying a batch of one message is applying that message.
pub proof fn lemma_apply_messages_single(state: ServiceState, msg: FirewallMessage)
    ensures
        state.apply_messages(seq![msg]) == state.apply_message(msg),
{
    assert(state.apply_messages(seq![msg].drop_last()) == state);
}

/// The empty state is valid.
pub proof fn lemma_empty_valid()
    ensures
        ServiceState::empty().valid(),
{
}

/// Every message takes a valid state to a valid state.
pub proof fn lemma_apply_message_valid(state: ServiceState, msg: FirewallMessage)
    requires
        state.valid(),
    ensures
        state.apply_message(msg).valid(),
{
    match msg {
        FirewallMessage::Event(event) => {},
        FirewallMessage::Metric(sample) => {
            let key = sample.key();
            lemma_seeded_valid(sample);
            if state.records.contains_key(key) {
                lemma_appended_valid(state.records[key], sample, key);
            }
        },
    }
}

/// Every batch of messages takes a valid state to a valid state; so every
/// state that the service reaches from the empty one is valid.
pub proof fn lemma_apply_messages_valid(state: ServiceState, msgs: Seq<FirewallMessage>)
    requires
        state.valid(),
    ensures
        state.apply_messages(msgs).valid(),
    decreases msgs.len(),
{
    if msgs.len() > 0 {
        lemma_apply_messages_valid(state, msgs.drop_last());
        lemma_apply_message_valid(state.apply_messages(msgs.drop_last()), msgs.last());
    }
}

/// A created connection is active right after its event, whatever the state
/// was; and creating it once more changes nothing.
pub proof fn lemma_created_is_active(state: ServiceState, event: FirewallEvent)
    requires
        event.event_type == FirewallEventType::CreateConnect,
    ensures
        state.apply_event(event).active_connections.contains(event.key()),
        state.apply_event(event).records == state.records,
        state.apply_event(event).apply_event(event) == state.apply_event(event),
        state.active_connections.contains(event.key()) ==> state.apply_event(event) == state,
{
    let once = state.apply_event(event);
    assert(once.active_connections.insert(event.key()) =~= once.active_connections);
    if state.active_connections.contains(event.key()) {
        assert(state.active_connections.insert(event.key()) =~= state.active_connections);
    }
}

/// An active connection stays active over every batch of messages that does
/// not tear it down.
pub proof fn lemma_active_until_disconnected(
    state: ServiceState,
    msgs: Seq<FirewallMessage>,
    key: FirewallKey,
)
    requires
        state.active_connections.contains(key),
        never_disconnects(msgs, key),
    ensures
        state.apply_messages(msgs).active_connections.contains(key),
    decreases msgs.len(),
{
    if msgs.len() > 0 {
        lemma_active_until_disconnected(state, msgs.drop_last(), key);
    }
}

/// Whatever the messages before it, a created connection is active at the
/// end of every sequence of messages in which none after its creation tears
/// it down.
pub proof fn lemma_created_stays_active(
    state: ServiceState,
    msgs: Seq<FirewallMessage>,
    created_at: int,
    key: FirewallKey,
)
    requires
        0 <= created_at < msgs.len(),
        creates(msgs[created_at], key),
        never_disconnects(msgs.skip(created_at + 1), key),
    ensures
        state.apply_messages(msgs).active_connections.contains(key),
{
    let upto = msgs.take(created_at + 1);
    let rest = msgs.skip(created_at + 1);
    assert(upto + rest =~= msgs);
    lemma_apply_messages_concat(state, upto, rest);
    lemma_active_until_disconnected(state.apply_messages(upto), rest, key);
}

/// A connection that is neither active nor measured stays so over every
/// batch of messages that neither creates nor measures it.
pub proof fn lemma_unknown_until_seen(
    state: ServiceState,
    msgs: Seq<FirewallMessage>,
    key: FirewallKey,
)
    requires
        !state.active_connections.contains(key),
        !state.records.contains_key(key),
        forall|i: int|
            0 <= i < msgs.len() ==> !creates(#[trigger] msgs[i], key) && !measures(msgs[i], key),
    ensures
        !state.apply_messages(msgs).active_connections.contains(key),
        !state.apply_messages(msgs).records.contains_key(key),
    decreases msgs.len(),
{
    if msgs.len() > 0 {
        lemma_unknown_until_seen(state, msgs.drop_last(), key);
    }
}

/// Whatever the messages before it, a disconnected connection is neither
/// active nor measured at the end of every sequence of messages in which
/// none after its teardown creates or measures it.
pub proof fn lemma_disconnected_stays_forgotten(
    state: ServiceState,
    msgs: Seq<FirewallMessage>,
    disconnected_at: int,
    key: FirewallKey,
)
    requires
        0 <= disconnected_at < msgs.len(),
        disconnects(msgs[disconnected_at], key),
        forall|i: int|
            disconnected_at < i < msgs.len() ==> !creates(#[trigger] msgs[i], key) && !measures(
                msgs[i],
                key,
            ),
    ensures
        !state.apply_messages(msgs).active_connections.contains(key),
        !state.apply_messages(msgs).records.contains_key(key),
{
    let upto = msgs.take(disconnected_at + 1);
    let rest = msgs.skip(disconnected_at + 1);
    assert(upto + rest =~= msgs);
    lemma_apply_messages_concat(state, upto, rest);
    lemma_unknown_until_seen(state.apply_messages(upto), rest, key);
}

/// A disconnected connection is neither active nor measured right after its
/// event, whatever the state was; every other connection is left as it was;
/// disconnecting once more changes nothing, and disconnecting a connection
/// that the state does not know changes nothing.
pub proof fn lemma_disconnected_is_forgotten(state: ServiceState, event: FirewallEvent)
    requires
        event.event_type == FirewallEventType::DisConnct,
    ensures
        !state.apply_event(event).active_connections.contains(event.key()),
        !state.apply_event(event).records.contains_key(event.key()),
        forall|k: FirewallKey|
            k != event.key() ==> (state.apply_event(event).active_connections.contains(k)
                <==> state.active_connections.contains(k)),
        forall|k: FirewallKey|
            k != event.key() ==> (state.apply_event(event).records.contains_key(k)
                <==> state.records.contains_key(k)),
        forall|k: FirewallKey|
            k != event.key() && state.records.contains_key(k) ==> state.apply_event(
                event,
            ).records[k] == state.records[k],
        state.apply_event(event).apply_event(event) == state.apply_event(event),
        !state.active_connections.contains(event.key()) && !state.records.contains_key(event.key())
            ==> state.apply_event(event) == state,
{
    let key = event.key();
    let once = state.apply_event(event);
    assert(once.active_connections.remove(key) =~= once.active_connections);
    assert(once.records.remove(key) =~= once.records);
    if !state.active_connections.contains(key) && !state.records.contains_key(key) {
        assert(state.active_connections.remove(key) =~= state.active_connections);
        assert(state.records.remove(key) =~= state.records);
    }
}

/// An event of unknown type changes nothing.
pub proof fn lemma_unknown_is_ignored(state: ServiceState, event: FirewallEvent)
    requires
        event.event_type == FirewallEventType::Unknow,
    ensures
        state.apply_event(event) == state,
{
}

/// A sample touches only the record of its own connection: the active set
/// and every other record stay as they were, and afterwards its connection
/// has a record whether or not it is active.
pub proof fn lemma_sample_is_recorded(state: ServiceState, sample: FirewallMetric)
    ensures
        state.apply_sample(sample).active_connections == state.active_connections,
        state.apply_sample(sample).records.contains_key(sample.key()),
        forall|k: FirewallKey|
            k != sample.key() ==> (state.apply_sample(sample).records.contains_key(k)
                <==> state.records.contains_key(k)),
        forall|k: FirewallKey|
            k != sample.key() && state.records.contains_key(k) ==> state.apply_sample(
                sample,
            ).records[k] == state.records[k],
{
}

/// Keeping the last `n` entries, appending, and keeping the last `n` again
/// gives the last `n` entries of everything.
pub proof fn lemma_recent_push<A>(s: Seq<A>, a: A, n: nat)
    ensures
        recent(recent(s, n).push(a), n) == recent(s.push(a), n),
{
}

/// Over a batch of messages that never tears the connection `key` down, its
/// record takes in exactly the batch's samples of `key`, in arrival order:
///
/// - if the connection had a record, the aggregate is the merge of the old
///   aggregate with all those samples, and the history is the last
///   [`HISTORY_CAPACITY`] entries of the old history followed by them;
/// - if it had none and the batch measures it, the aggregate is the merge of
///   all those samples and the history is their last [`HISTORY_CAPACITY`];
/// - if it had none and the batch does not measure it, it still has none.
pub proof fn lemma_record_after_samples(
    state: ServiceState,
    msgs: Seq<FirewallMessage>,
    key: FirewallKey,
)
    requires
        state.valid(),
        never_disconnects(msgs, key),
    ensures
        state.records.contains_key(key) ==> {
            &&& state.apply_messages(msgs).records.contains_key(key)
            &&& state.apply_messages(msgs).records[key].aggregate == merge_all(
                state.records[key].aggregate,
                samples_of(msgs, key),
            )
            &&& state.apply_messages(msgs).records[key].history == recent(
                state.records[key].history + samples_of(msgs, key),
                HISTORY_CAPACITY as nat,
            )
        },
        !state.records.contains_key(key) && samples_of(msgs, key).len() > 0 ==> {
            &&& state.apply_messages(msgs).records.contains_key(key)
            &&& state.apply_messages(msgs).records[key].aggregate == merge_all(
                ConnectMetric::zero(),
                samples_of(msgs, key),
            )
            &&& state.apply_messages(msgs).records[key].history == recent(
                samples_of(msgs, key),
                HISTORY_CAPACITY as nat,
            )
        },
        !state.records.contains_key(key) && samples_of(msgs, key).len() == 0
            ==> !state.apply_messages(msgs).records.contains_key(key),
    decreases msgs.len(),
{
    let n = HISTORY_CAPACITY as nat;
    if msgs.len() > 0 {
        let earlier = msgs.drop_last();
        lemma_record_after_samples(state, earlier, key);
        let before = state.apply_messages(earlier);
        let after = state.apply_messages(msgs);
        let seen = samples_of(earlier, key);
        match msgs.last() {
            FirewallMessage::Event(event) => {
                assert(after.records.contains_key(key) ==> after.records[key]
                    == before.records[key]);
            },
            FirewallMessage::Metric(sample) => {
                if sample.key() == key {
                    assert(seen.push(sample).drop_last() =~= seen);
                    if state.records.contains_key(key) {
                        lemma_recent_push(state.records[key].history + seen, sample, n);
                    } else if seen.len() > 0 {
                        lemma_recent_push(seen, sample, n);
                    } else {
                        lemma_merge_zero(sample.metric());
                        assert(merge_all(ConnectMetric::zero(), seen) == ConnectMetric::zero());
                    }
                } else {
                    assert(after.records.contains_key(key) ==> after.records[key]
                        == before.records[key]);
                }
            },
        }
    }
}

/// A connection without a record that is then measured `N` times, and not
/// torn down meanwhile, has a history of exactly its samples in arrival
/// order while `N` is at most [`HISTORY_CAPACITY`], and of exactly its last
/// [`HISTORY_CAPACITY`] samples in arrival order once `N` is larger.
pub proof fn lemma_history_keeps_most_recent(
    state: ServiceState,
    msgs: Seq<FirewallMessage>,
    key: FirewallKey,
)
    requires
        state.valid(),
        !state.records.contains_key(key),
        never_disconnects(msgs, key),
        samples_of(msgs, key).len() > 0,
    ensures
        state.apply_messages(msgs).records.contains_key(key),
        samples_of(msgs, key).len() <= HISTORY_CAPACITY ==> state.apply_messages(
            msgs,
        ).records[key].history == samples_of(msgs, key),
        samples_of(msgs, key).len() > HISTORY_CAPACITY ==> {
            &&& state.apply_messages(msgs).records[key].history.len() == HISTORY_CAPACITY
            &&& state.apply_messages(msgs).records[key].history == samples_of(msgs, key).subrange(
                samples_of(msgs, key).len() - HISTORY_CAPACITY,
                samples_of(msgs, key).len() as int,
            )
        },
{
    lemma_record_after_samples(state, msgs, key);
}

/// A teardown starts a connection's record afresh: at the end of a sequence
/// of messages, the record of a connection whose last teardown was at
/// `disconnected_at` is made of the samples that came after it alone, and
/// there is no record if none came.
pub proof fn lemma_record_restarts_after_disconnect(
    state: ServiceState,
    msgs: Seq<FirewallMessage>,
    disconnected_at: int,
    key: FirewallKey,
)
    requires
        state.valid(),
        0 <= disconnected_at < msgs.len(),
        disconnects(msgs[disconnected_at], key),
        never_disconnects(msgs.skip(disconnected_at + 1), key),
    ensures
        samples_of(msgs.skip(disconnected_at + 1), key).len() == 0 ==> !state.apply_messages(
            msgs,
        ).records.contains_key(key),
        samples_of(msgs.skip(disconnected_at + 1), key).len() > 0 ==> {
            &&& state.apply_messages(msgs).records.contains_key(key)
            &&& state.apply_messages(msgs).records[key].aggregate == merge_all(
                ConnectMetric::zero(),
                samples_of(msgs.skip(disconnected_at + 1), key),
            )
            &&& state.apply_messages(msgs).records[key].history == recent(
                samples_of(msgs.skip(disconnected_at + 1), key),
                HISTORY_CAPACITY as nat,
            )
        },
{
    let upto = msgs.take(disconnected_at + 1);
    let rest = msgs.skip(disconnected_at + 1);
    assert(upto + rest =~= msgs);
    lemma_apply_messages_concat(state, upto, rest);
    lemma_apply_messages_valid(state, upto);
    lemma_record_after_samples(state.apply_messages(upto), rest, key);
}

/// Unbounded traffic totals.
pub struct TrafficTotals {
    pub ingress_bytes: nat,
    pub ingress_packets: nat,
    pub egress_bytes: nat,
    pub egress_packets: nat,
}

/// The sum of each counter over a run of samples.
pub open spec fn traffic_totals(samples: Seq<FirewallMetric>) -> TrafficTotals
    decreases samples.len(),
{
    if samples.len() == 0 {
        TrafficTotals { ingress_bytes: 0, ingress_packets: 0, egress_bytes: 0, egress_packets: 0 }
    } else {
        let earlier = traffic_totals(samples.drop_last());
        let last = samples.last();
        TrafficTotals {
            ingress_bytes: earlier.ingress_bytes + last.ingress_bytes as nat,
            ingress_packets: earlier.ingress_packets + last.ingress_packets as nat,
            egress_bytes: earlier.egress_bytes + last.egress_bytes as nat,
            egress_packets: earlier.egress_packets + last.egress_packets as nat,
        }
    }
}

/// A total as a counter holds it: itself while it fits, `u64::MAX` beyond.
pub open spec fn capped(total: nat) -> u64 {
    if total > u64::MAX {
        u64::MAX
    } else {
        total as u64
    }
}

/// The merge of a run of samples holds, in each counter, the starting value
/// plus the sum of that counter over all the samples, capped at `u64::MAX`.
/// The order of the samples therefore does not show in it.
pub proof fn lemma_merge_all_is_capped_sum(start: ConnectMetric, samples: Seq<FirewallMetric>)
    ensures
        merge_all(start, samples).ingress_bytes == capped(
            start.ingress_bytes as nat + traffic_totals(samples).ingress_bytes,
        ),
        merge_all(start, samples).ingress_packets == capped(
            start.ingress_packets as nat + traffic_totals(samples).ingress_packets,
        ),
        merge_all(start, samples).egress_bytes == capped(
            start.egress_bytes as nat + traffic_totals(samples).egress_bytes,
        ),
        merge_all(start, samples).egress_packets == capped(
            start.egress_packets as nat + traffic_totals(samples).egress_packets,
        ),
    decreases samples.len(),
{
    if samples.len() > 0 {
        lemma_merge_all_is_capped_sum(start, samples.drop_last());
    }
}

} // verus!
