//! The mathematical model of the firewall metric service.
//!
//! The service folds a stream of [`FirewallMessage`]s into a [`ServiceState`]:
//! the set of connections currently considered live, and for every connection
//! that has been measured a [`ConnectionMetricRecord`] holding its running
//! totals and its most recent samples. Everything here is specification; the
//! executable state in [`super::firewall`] is proved to follow it step by step.
use crate::event::firewall::{
    ConnectMetric, FirewallEvent, FirewallEventType, FirewallKey, FirewallMessage, FirewallMetric,
};
use vstd::prelude::*;

verus! {

/// How many samples a record keeps per connection.
pub const HISTORY_CAPACITY: usize = 60;

/// The last `n` entries of `s`, in order; all of `s` if it has no more than `n`.
pub open spec fn recent<A>(s: Seq<A>, n: nat) -> Seq<A> {
    if s.len() <= n {
        s
    } else {
        s.subrange(s.len() - n, s.len() as int)
    }
}

/// The merge of all the samples' counters, in order, starting from `start`.
pub open spec fn merge_all(start: ConnectMetric, samples: Seq<FirewallMetric>) -> ConnectMetric
    decreases samples.len(),
{
    if samples.len() == 0 {
        start
    } else {
        merge_all(start, samples.drop_last()).merged(samples.last().metric())
    }
}

/// What the service knows about one measured connection.
pub struct ConnectionMetricRecord {
    /// The merge of every sample since the record was created.
    pub aggregate: ConnectMetric,
    /// The most recent samples, oldest first.
    pub history: Seq<FirewallMetric>,
}

impl ConnectionMetricRecord {
    /// The record of a connection whose first sample is `sample`.
    pub open spec fn seeded(sample: FirewallMetric) -> Self {
        ConnectionMetricRecord { aggregate: sample.metric(), history: seq![sample] }
    }

    /// The record after one more sample: its counters are merged into the
    /// aggregate, and it becomes the newest entry of the history, which keeps
    /// only the last [`HISTORY_CAPACITY`] entries.
    pub open spec fn appended(self, sample: FirewallMetric) -> Self {
        ConnectionMetricRecord {
            aggregate: self.aggregate.merged(sample.metric()),
            history: recent(self.history.push(sample), HISTORY_CAPACITY as nat),
        }
    }

    /// A record is valid for `key` if it holds between one and
    /// [`HISTORY_CAPACITY`] samples, all of them measured on `key`.
    pub open spec fn valid_for(self, key: FirewallKey) -> bool {
        &&& 1 <= self.history.len() <= HISTORY_CAPACITY
        &&& forall|i: int| 0 <= i < self.history.len() ==> (#[trigger] self.history[i]).key() == key
    }
}

/// A record created from a sample is valid for the sample's connection.
pub proof fn lemma_seeded_valid(sample: FirewallMetric)
    ensures
        ConnectionMetricRecord::seeded(sample).valid_for(sample.key()),
{
}

/// A valid record stays valid when it takes in a sample of its own
/// connection.
pub proof fn lemma_appended_valid(
    record: ConnectionMetricRecord,
    sample: FirewallMetric,
    key: FirewallKey,
)
    requires
        record.valid_for(key),
        sample.key() == key,
    ensures
        record.appended(sample).valid_for(key),
{
}

/// The live view that the service maintains.
pub struct ServiceState {
    /// Connections that were created and not yet disconnected.
    pub active_connections: Set<FirewallKey>,
    /// The record of every connection measured since it was last
    /// disconnected.
    pub records: Map<FirewallKey, ConnectionMetricRecord>,
}

impl ServiceState {
    /// The state of a service that has seen no message.
    pub open spec fn empty() -> Self {
        ServiceState { active_connections: Set::empty(), records: Map::empty() }
    }

    /// A state is valid if it tracks finitely many connections and every
    /// record is valid for the key it is filed under.
    pub open spec fn valid(self) -> bool {
        &&& self.active_connections.finite()
        &&& self.records.dom().finite()
        &&& forall|k: FirewallKey|
            self.records.contains_key(k) ==> (#[trigger] self.records[k]).valid_for(k)
    }

    /// The state after a lifecycle event: a created connection becomes
    /// active, a disconnected one leaves the active set and loses its record,
    /// an event of unknown type changes nothing.
    pub open spec fn apply_event(self, event: FirewallEvent) -> Self {
        match event.event_type {
            FirewallEventType::Unknow => self,
            FirewallEventType::CreateConnect => ServiceState {
                active_connections: self.active_connections.insert(event.key()),
                records: self.records,
            },
            FirewallEventType::DisConnct => ServiceState {
                active_connections: self.active_connections.remove(event.key()),
                records: self.records.remove(event.key()),
            },
        }
    }

    /// The state after a traffic sample: the record of the sample's
    /// connection takes it in, or is created from it if there was none. The
    /// active set plays no part.
    pub open spec fn apply_sample(self, sample: FirewallMetric) -> Self {
        let key = sample.key();
        let record = if self.records.contains_key(key) {
            self.records[key].appended(sample)
        } else {
            ConnectionMetricRecord::seeded(sample)
        };
        ServiceState {
            active_connections: self.active_connections,
            records: self.records.insert(key, record),
        }
    }

    /// The state after one message.
    pub open spec fn apply_message(self, msg: FirewallMessage) -> Self {
        match msg {
            FirewallMessage::Event(event) => self.apply_event(event),
            FirewallMessage::Metric(sample) => self.apply_sample(sample),
        }
    }

    /// The state after a sequence of messages, applied first to last.
    pub open spec fn apply_messages(self, msgs: Seq<FirewallMessage>) -> Self
        decreases msgs.len(),
    {
        if msgs.len() == 0 {
            self
        } else {
            self.apply_messages(msgs.drop_last()).apply_message(msgs.last())
        }
    }
}

} // verus!
