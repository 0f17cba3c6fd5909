//! The executable state of the firewall metric service.
use crate::event::firewall::{
    ConnectMetric, FirewallEvent, FirewallEventType, FirewallKey, FirewallMessage, FirewallMetric,
};
use crate::metric::laws::{lemma_apply_messages_valid, lemma_empty_valid};
use crate::metric::model::{ConnectionMetricRecord, ServiceState, HISTORY_CAPACITY};
use std::collections::VecDeque;
use vstd::prelude::*;

verus! {

/// How many messages may wait between the packet path and the service. A
/// message offered while that many are waiting is dropped.
pub const CHANNEL_SIZE: usize = 2048;

/// The running totals and recent samples of one connection.
#[derive(Debug)]
pub struct SingleConnectMetric {
    agg: ConnectMetric,
    metrics: VecDeque<FirewallMetric>,
}

impl View for SingleConnectMetric {
    type V = ConnectionMetricRecord;

    closed spec fn view(&self) -> ConnectionMetricRecord {
        ConnectionMetricRecord { aggregate: self.agg, history: self.metrics@ }
    }
}

impl SingleConnectMetric {
    #[verifier::type_invariant]
    spec fn within_capacity(self) -> bool {
        self.metrics@.len() <= HISTORY_CAPACITY
    }

    /// The record of a connection whose first sample is `sample`.
    pub fn new(sample: FirewallMetric) -> (record: Self)
        ensures
            record@ == ConnectionMetricRecord::seeded(sample),
    {
        let (_, agg) = sample.convert_to_key();
        let mut metrics = VecDeque::new();
        metrics.push_back(sample);
        SingleConnectMetric { agg, metrics }
    }

    /// The running totals.
    pub fn agg(&self) -> (agg: ConnectMetric)
        ensures
            agg == self@.aggregate,
    {
        self.agg
    }

    /// The retained samples, oldest first.
    pub fn metrics(&self) -> (metrics: &VecDeque<FirewallMetric>)
        ensures
            metrics@ == self@.history,
    {
        &self.metrics
    }

    /// Takes in one more sample.
    pub fn append(&mut self, sample: FirewallMetric)
        ensures
            final(self)@ == old(self)@.appended(sample),
    {
        proof {
            use_type_invariant(&*self);
        }
        let (_, metric) = sample.convert_to_key();
        let mut agg = self.agg;
        agg.append_other(&metric);
        let mut metrics = VecDeque::new();
        std::mem::swap(&mut metrics, &mut self.metrics);
        metrics.push_back(sample);
        if metrics.len() > HISTORY_CAPACITY {
            metrics.pop_front();
        }
        self.agg = agg;
        self.metrics = metrics;
    }
}

impl Clone for SingleConnectMetric {
    fn clone(&self) -> (copy: Self)
        ensures
            copy@ == self@,
    {
        proof {
            use_type_invariant(self);
        }
        let metrics = self.metrics.clone();
        SingleConnectMetric { agg: self.agg, metrics }
    }
}

/// One connection's record as a snapshot lists it.
#[derive(Debug)]
pub struct FrontEndFirewallConnectData {
    pub key: FirewallKey,
    pub value: SingleConnectMetric,
}

/// A point-in-time copy of the service's state: the active connections, and
/// the record of every measured connection as a list of pairs in no
/// particular order.
#[derive(Debug)]
pub struct FrontEndFirewallMetricServiceData {
    pub connects: Vec<FirewallKey>,
    pub connect_metrics: Vec<FrontEndFirewallConnectData>,
}

impl FrontEndFirewallMetricServiceData {
    /// The keys of the listed records, in the order of the list.
    pub open spec fn keys(self) -> Seq<FirewallKey> {
        self.connect_metrics@.map_values(|d: FrontEndFirewallConnectData| d.key)
    }

    /// Whether this copy lists exactly what `state` holds: every active
    /// connection once, and for every record of `state` one pair with that
    /// record, and nothing else.
    pub open spec fn presents(self, state: ServiceState) -> bool {
        &&& self.connects@.no_duplicates()
        &&& self.connects@.to_set() == state.active_connections
        &&& self.keys().no_duplicates()
        &&& self.keys().to_set() == state.records.dom()
        &&& forall|i: int|
            0 <= i < self.connect_metrics@.len() ==> (#[trigger] self.connect_metrics@[i]).value@
                == state.records[self.connect_metrics@[i].key]
    }
}

/// A copy lists one state only: two states that the same copy presents are
/// the same state.
pub proof fn lemma_presents_one_state(
    front: FrontEndFirewallMetricServiceData,
    a: ServiceState,
    b: ServiceState,
)
    requires
        front.presents(a),
        front.presents(b),
    ensures
        a == b,
{
    assert forall|k: FirewallKey| a.records.contains_key(k) implies a.records[k]
        == b.records[k] by {
        assert(front.keys().to_set().contains(k));
        let i = choose|i: int| 0 <= i < front.keys().len() && front.keys()[i] == k;
        assert(front.connect_metrics@[i].key == k);
    }
    assert(a.records =~= b.records);
}

impl Default for FrontEndFirewallMetricServiceData {
    fn default() -> (front: Self)
        ensures
            front.connects@ == Seq::<FirewallKey>::empty(),
            front.connect_metrics@ == Seq::<FrontEndFirewallConnectData>::empty(),
    {
        FrontEndFirewallMetricServiceData { connects: Vec::new(), connect_metrics: Vec::new() }
    }
}

/// The keys that a list of filed records is filed under, in order.
spec fn entry_keys(entries: Seq<(FirewallKey, SingleConnectMetric)>) -> Seq<FirewallKey> {
    entries.map_values(|e: (FirewallKey, SingleConnectMetric)| e.0)
}

/// The mapping that a list of filed records stands for.
spec fn entry_records(entries: Seq<(FirewallKey, SingleConnectMetric)>) -> Map<
    FirewallKey,
    ConnectionMetricRecord,
> {
    Map::new(
        |k: FirewallKey| entry_keys(entries).contains(k),
        |k: FirewallKey| entries[entry_keys(entries).index_of(k)].1@,
    )
}

/// In a list without repeated keys, the record filed at position `i` is the
/// one that the mapping gives for its key.
proof fn lemma_entry_at(entries: Seq<(FirewallKey, SingleConnectMetric)>, i: int)
    requires
        entry_keys(entries).no_duplicates(),
        0 <= i < entries.len(),
    ensures
        entry_records(entries).contains_key(entries[i].0),
        entry_records(entries)[entries[i].0] == entries[i].1@,
{
    let keys = entry_keys(entries);
    assert(keys[i] == entries[i].0);
    let j = keys.index_of(entries[i].0);
    assert(0 <= j < keys.len() && keys[j] == entries[i].0);
}

/// Every key of the mapping is filed at some position of the list.
proof fn lemma_entry_of(entries: Seq<(FirewallKey, SingleConnectMetric)>, key: FirewallKey) -> (i:
    int)
    requires
        entry_keys(entries).no_duplicates(),
        entry_records(entries).contains_key(key),
    ensures
        0 <= i < entries.len(),
        entries[i].0 == key,
        entry_records(entries)[key] == entries[i].1@,
{
    let keys = entry_keys(entries);
    let i = keys.index_of(key);
    assert(keys[i] == entries[i].0);
    i
}

/// The live connections and their records.
///
/// Every value of this type is a state that the service reaches from the
/// empty one: it is the result of applying, in order, the messages that
/// [`FirewallMetricServiceData::applied`] lists.
pub struct FirewallMetricServiceData {
    connects: Vec<FirewallKey>,
    connect_metrics: Vec<(FirewallKey, SingleConnectMetric)>,
    applied: Ghost<Seq<FirewallMessage>>,
}

impl View for FirewallMetricServiceData {
    type V = ServiceState;

    closed spec fn view(&self) -> ServiceState {
        ServiceState {
            active_connections: self.connects@.to_set(),
            records: entry_records(self.connect_metrics@),
        }
    }
}

/// Appending an element that does not occur yet keeps a list free of
/// repetitions and adds the element to the set it stands for.
proof fn lemma_push_distinct<A>(s: Seq<A>, a: A)
    requires
        s.no_duplicates(),
        !s.contains(a),
    ensures
        s.push(a).no_duplicates(),
        s.push(a).to_set() == s.to_set().insert(a),
{
    s.lemma_push_to_set_commute(a);
}

/// Moving the last element into position `i` and dropping the last position
/// keeps a list free of repetitions and takes the element that stood at `i`
/// out of the set it stands for.
proof fn lemma_swap_remove_distinct<A>(s: Seq<A>, i: int)
    requires
        s.no_duplicates(),
        0 <= i < s.len(),
    ensures
        s.update(i, s.last()).drop_last().no_duplicates(),
        s.update(i, s.last()).drop_last().to_set() == s.to_set().remove(s[i]),
{
    let t = s.update(i, s.last()).drop_last();
    assert forall|a: A| t.to_set().contains(a) <==> s.to_set().remove(s[i]).contains(a) by {
        if t.contains(a) {
            let j = choose|j: int| 0 <= j < t.len() && t[j] == a;
            if j == i {
                assert(s[s.len() - 1] == a);
            } else {
                assert(s[j] == a);
            }
        }
        if s.contains(a) && a != s[i] {
            let j = choose|j: int| 0 <= j < s.len() && s[j] == a;
            if j == s.len() - 1 {
                assert(t[i] == a);
            } else {
                assert(t[j] == a);
            }
        }
    }
}

/// Where `key` stands in `keys`, if it occurs there.
fn position_of(keys: &Vec<FirewallKey>, key: &FirewallKey) -> (found: Option<usize>)
    ensures
        match found {
            Some(i) => i < keys.len() && keys[i as int] == *key,
            None => !keys@.contains(*key),
        },
{
    let mut i: usize = 0;
    while i < keys.len()
        invariant
            i <= keys.len(),
            forall|j: int| 0 <= j < i ==> keys[j] != *key,
        decreases keys.len() - i,
    {
        if keys[i] == *key {
            return Some(i);
        }
        i += 1;
    }
    None
}

/// Where the record of `key` is filed in `entries`, if it has one.
fn entry_position(entries: &Vec<(FirewallKey, SingleConnectMetric)>, key: &FirewallKey) -> (found:
    Option<usize>)
    ensures
        match found {
            Some(i) => i < entries.len() && entries[i as int].0 == *key,
            None => !entry_keys(entries@).contains(*key),
        },
{
    let mut i: usize = 0;
    while i < entries.len()
        invariant
            i <= entries.len(),
            forall|j: int| 0 <= j < i ==> entries[j].0 != *key,
        decreases entries.len() - i,
    {
        if entries[i].0 == *key {
            return Some(i);
        }
        i += 1;
    }
    None
}

impl Default for FirewallMetricServiceData {
    fn default() -> (data: Self)
        ensures
            data@ == ServiceState::empty(),
            data.applied() == Seq::<FirewallMessage>::empty(),
    {
        FirewallMetricServiceData::new()
    }
}

impl FirewallMetricServiceData {
    #[verifier::type_invariant]
    spec fn well_formed(self) -> bool {
        &&& self.connects@.no_duplicates()
        &&& entry_keys(self.connect_metrics@).no_duplicates()
        &&& self@ == ServiceState::empty().apply_messages(self.applied@)
    }

    /// The messages that have been applied since the state was created, in
    /// the order in which they were applied.
    pub closed spec fn applied(&self) -> Seq<FirewallMessage> {
        self.applied@
    }

    /// The state of a service that has seen no message.
    pub fn new() -> (data: Self)
        ensures
            data@ == ServiceState::empty(),
            data.applied() == Seq::<FirewallMessage>::empty(),
    {
        let connects: Vec<FirewallKey> = Vec::new();
        let connect_metrics: Vec<(FirewallKey, SingleConnectMetric)> = Vec::new();
        proof {
            assert(connects@.to_set() =~= Set::empty());
            assert(entry_records(connect_metrics@) =~= Map::empty());
        }
        FirewallMetricServiceData { connects, connect_metrics, applied: Ghost(Seq::empty()) }
    }

    /// Whether `key` is among the active connections.
    pub fn is_connected(&self, key: &FirewallKey) -> (active: bool)
        ensures
            active == self@.active_connections.contains(*key),
    {
        position_of(&self.connects, key).is_some()
    }

    /// The record of `key`, if the connection has been measured.
    pub fn connect_metric(&self, key: &FirewallKey) -> (record: Option<&SingleConnectMetric>)
        ensures
            match record {
                Some(r) => self@.records.contains_key(*key) && r@ == self@.records[*key],
                None => !self@.records.contains_key(*key),
            },
    {
        proof {
            use_type_invariant(self);
        }
        match entry_position(&self.connect_metrics, key) {
            Some(i) => {
                proof {
                    lemma_entry_at(self.connect_metrics@, i as int);
                }
                Some(&self.connect_metrics[i].1)
            },
            None => None,
        }
    }

    /// Copies the state out for presentation.
    ///
    /// The copy lists exactly the state that the messages applied so far
    /// lead to from the empty state: each of them has been applied once, in
    /// order and in full, and nothing else has.
    pub fn convert_to_front_formart(&self) -> (front: FrontEndFirewallMetricServiceData)
        ensures
            front.presents(self@),
            self@ == ServiceState::empty().apply_messages(self.applied()),
            self@.valid(),
    {
        proof {
            use_type_invariant(self);
        }
        let mut connect_metrics: Vec<FrontEndFirewallConnectData> = Vec::new();
        let mut i: usize = 0;
        while i < self.connect_metrics.len()
            invariant
                i <= self.connect_metrics.len(),
                connect_metrics.len() == i,
                forall|j: int|
                    0 <= j < i ==> (#[trigger] connect_metrics@[j]).key == self.connect_metrics@[j].0
                        && connect_metrics@[j].value@ == self.connect_metrics@[j].1@,
            decreases self.connect_metrics.len() - i,
        {
            let entry = &self.connect_metrics[i];
            connect_metrics.push(FrontEndFirewallConnectData { key: entry.0, value: entry.1.clone() });
            i += 1;
        }
        let connects = self.connects.clone();
        let front = FrontEndFirewallMetricServiceData { connects, connect_metrics };
        proof {
            assert(front.keys() =~= entry_keys(self.connect_metrics@));
            assert forall|j: int| 0 <= j < front.connect_metrics@.len() implies (
            #[trigger] front.connect_metrics@[j]).value@
                == self@.records[front.connect_metrics@[j].key] by {
                lemma_entry_at(self.connect_metrics@, j);
            }
            lemma_empty_valid();
            lemma_apply_messages_valid(ServiceState::empty(), self.applied@);
        }
        front
    }

    /// Applies a lifecycle event.
    pub fn apply_event(&mut self, event: FirewallEvent)
        ensures
            final(self)@ == old(self)@.apply_event(event),
            final(self).applied() == old(self).applied().push(FirewallMessage::Event(event)),
    {
        proof {
            use_type_invariant(&*self);
        }
        let mut taken = FirewallMetricServiceData::new();
        std::mem::swap(self, &mut taken);
        let FirewallMetricServiceData { mut connects, mut connect_metrics, applied } = taken;
        let (key, ev_type) = event.convert_to_key();
        match ev_type {
            FirewallEventType::Unknow => {},
            FirewallEventType::CreateConnect => {
                if position_of(&connects, &key).is_none() {
                    proof {
                        lemma_push_distinct(connects@, key);
                    }
                    connects.push(key);
                } else {
                    assert(connects@.to_set().insert(key) =~= connects@.to_set());
                }
            },
            FirewallEventType::DisConnct => {
                match position_of(&connects, &key) {
                    Some(i) => {
                        proof {
                            lemma_swap_remove_distinct(connects@, i as int);
                        }
                        connects.swap_remove(i);
                    },
                    None => {
                        assert(connects@.to_set().remove(key) =~= connects@.to_set());
                    },
                }
                match entry_position(&connect_metrics, &key) {
                    Some(i) => {
                        proof {
                            lemma_entries_swap_remove(connect_metrics@, i as int);
                        }
                        connect_metrics.swap_remove(i);
                    },
                    None => {
                        assert(entry_records(connect_metrics@).remove(key) =~= entry_records(
                            connect_metrics@,
                        ));
                    },
                }
            },
        }
        let ghost msg = FirewallMessage::Event(event);
        proof {
            assert(applied@.push(msg).drop_last() =~= applied@);
        }
        *self = FirewallMetricServiceData {
            connects,
            connect_metrics,
            applied: Ghost(applied@.push(msg)),
        };
    }

    /// Applies a traffic sample.
    pub fn apply_sample(&mut self, sample: FirewallMetric)
        ensures
            final(self)@ == old(self)@.apply_sample(sample),
            final(self).applied() == old(self).applied().push(FirewallMessage::Metric(sample)),
    {
        proof {
            use_type_invariant(&*self);
        }
        let mut taken = FirewallMetricServiceData::new();
        std::mem::swap(self, &mut taken);
        let FirewallMetricServiceData { connects, mut connect_metrics, applied } = taken;
        let (key, _) = sample.convert_to_key();
        let ghost before = connect_metrics@;
        match entry_position(&connect_metrics, &key) {
            Some(i) => {
                connect_metrics[i].1.append(sample);
                proof {
                    lemma_entry_at(before, i as int);
                    lemma_entries_update(before, i as int, connect_metrics@[i as int].1);
                }
            },
            None => {
                let record = SingleConnectMetric::new(sample);
                proof {
                    lemma_entries_push(before, key, record);
                }
                connect_metrics.push((key, record));
            },
        }
        let ghost msg = FirewallMessage::Metric(sample);
        proof {
            assert(applied@.push(msg).drop_last() =~= applied@);
        }
        *self = FirewallMetricServiceData {
            connects,
            connect_metrics,
            applied: Ghost(applied@.push(msg)),
        };
    }

    /// Applies one message.
    pub fn apply_message(&mut self, msg: FirewallMessage)
        ensures
            final(self)@ == old(self)@.apply_message(msg),
            final(self).applied() == old(self).applied().push(msg),
    {
        match msg {
            FirewallMessage::Event(event) => self.apply_event(event),
            FirewallMessage::Metric(sample) => self.apply_sample(sample),
        }
    }

    /// Applies a batch of messages, first to last.
    pub fn apply_messages(&mut self, msgs: &[FirewallMessage])
        ensures
            final(self)@ == old(self)@.apply_messages(msgs@),
            final(self).applied() == old(self).applied() + msgs@,
    {
        let mut i: usize = 0;
        while i < msgs.len()
            invariant
                i <= msgs.len(),
                self@ == old(self)@.apply_messages(msgs@.take(i as int)),
                self.applied() == old(self).applied() + msgs@.take(i as int),
            decreases msgs.len() - i,
        {
            proof {
                assert(msgs@.take(i + 1).drop_last() =~= msgs@.take(i as int));
                assert((old(self).applied() + msgs@.take(i as int)).push(msgs@[i as int]) =~= old(
                    self,
                ).applied() + msgs@.take(i + 1));
            }
            self.apply_message(msgs[i]);
            i += 1;
        }
        proof {
            assert(msgs@.take(i as int) =~= msgs@);
        }
    }
}

/// Taking the record at position `i` out of a list without repeated keys, by
/// moving the last record into its place, takes its key out of the mapping
/// and leaves every other record as it was.
proof fn lemma_entries_swap_remove(entries: Seq<(FirewallKey, SingleConnectMetric)>, i: int)
    requires
        entry_keys(entries).no_duplicates(),
        0 <= i < entries.len(),
    ensures
        entry_keys(entries.update(i, entries.last()).drop_last()).no_duplicates(),
        entry_records(entries.update(i, entries.last()).drop_last()) == entry_records(
            entries,
        ).remove(entries[i].0),
{
    let rest = entries.update(i, entries.last()).drop_last();
    let keys = entry_keys(entries);
    assert(entry_keys(rest) =~= keys.update(i, keys.last()).drop_last());
    lemma_swap_remove_distinct(keys, i);
    assert forall|k: FirewallKey| #[trigger]
        entry_records(rest).contains_key(k) <==> entry_records(entries).remove(
            entries[i].0,
        ).contains_key(k) by {
        assert(entry_keys(rest).to_set().contains(k) <==> keys.to_set().remove(keys[i]).contains(k));
    }
    assert forall|k: FirewallKey| #[trigger] entry_records(rest).contains_key(k) implies entry_records(
        rest,
    )[k] == entry_records(entries).remove(entries[i].0)[k] by {
        let j = lemma_entry_of(rest, k);
        if j == i {
            lemma_entry_at(entries, entries.len() - 1);
        } else {
            lemma_entry_at(entries, j);
        }
    }
}

/// Replacing the record at position `i` of a list without repeated keys
/// replaces the record of its key in the mapping.
proof fn lemma_entries_update(
    entries: Seq<(FirewallKey, SingleConnectMetric)>,
    i: int,
    record: SingleConnectMetric,
)
    requires
        entry_keys(entries).no_duplicates(),
        0 <= i < entries.len(),
    ensures
        entry_keys(entries.update(i, (entries[i].0, record))) == entry_keys(entries),
        entry_records(entries.update(i, (entries[i].0, record))) == entry_records(entries).insert(
            entries[i].0,
            record@,
        ),
{
    let key = entries[i].0;
    let updated = entries.update(i, (key, record));
    let keys = entry_keys(entries);
    assert(entry_keys(updated) =~= keys);
    assert(keys[i] == key);
    assert forall|k: FirewallKey| #[trigger]
        entry_records(updated).contains_key(k) implies entry_records(updated)[k]
        == entry_records(entries).insert(key, record@)[k] by {
        let j = lemma_entry_of(updated, k);
        assert(keys[j] == k);
        if j != i {
            lemma_entry_at(entries, j);
        }
    }
}

/// Filing a record under a key that has none yet adds it to the mapping.
proof fn lemma_entries_push(
    entries: Seq<(FirewallKey, SingleConnectMetric)>,
    key: FirewallKey,
    record: SingleConnectMetric,
)
    requires
        entry_keys(entries).no_duplicates(),
        !entry_keys(entries).contains(key),
    ensures
        entry_keys(entries.push((key, record))).no_duplicates(),
        entry_records(entries.push((key, record))) == entry_records(entries).insert(key, record@),
{
    let pushed = entries.push((key, record));
    let keys = entry_keys(entries);
    assert(entry_keys(pushed) =~= keys.push(key));
    lemma_push_distinct(keys, key);
    assert forall|k: FirewallKey| #[trigger]
        entry_records(pushed).contains_key(k) <==> entry_records(entries).insert(
            key,
            record@,
        ).contains_key(k) by {
        assert(entry_keys(pushed).to_set().contains(k) <==> keys.to_set().insert(key).contains(k));
    }
    assert forall|k: FirewallKey| #[trigger]
        entry_records(pushed).contains_key(k) implies entry_records(pushed)[k] == entry_records(
        entries,
    ).insert(key, record@)[k] by {
        let j = lemma_entry_of(pushed, k);
        if j < entries.len() {
            lemma_entry_at(entries, j);
        }
    }
}

} // verus!
