//! Firewall messages: connection lifecycle events and traffic samples.
//!
//! Every message carries the raw addressing fields of the connection it
//! reports on. Deriving the [`FirewallKey`] from them is total: fields that
//! cannot be interpreted are replaced by fixed values instead of failing.
use vstd::prelude::*;

verus! {

/// Layer-3 protocol tag of an IPv4 connection.
pub const L3_PROTO_IPV4: u8 = 0;

/// Layer-3 protocol tag of an IPv6 connection.
pub const L3_PROTO_IPV6: u8 = 1;

/// Mask selecting the 32 bits of a raw address that an IPv4 address occupies.
pub const IPV4_ADDR_MASK: u128 = 0xffff_ffff;

/// The address a connection is keyed by, given the raw 128-bit address field
/// and the layer-3 protocol tag it came with.
///
/// An IPv4 address is the low 32 bits of the field, an IPv6 address is the
/// whole field. Under any other tag the field cannot be read as an address,
/// and the unspecified address `0` stands in for it.
pub open spec fn spec_key_addr(l3_proto: u8, raw: u128) -> u128 {
    if l3_proto == L3_PROTO_IPV4 {
        raw & IPV4_ADDR_MASK
    } else if l3_proto == L3_PROTO_IPV6 {
        raw
    } else {
        0
    }
}

/// Computes [`spec_key_addr`].
pub fn key_addr(l3_proto: u8, raw: u128) -> (addr: u128)
    ensures
        addr == spec_key_addr(l3_proto, raw),
{
    if l3_proto == L3_PROTO_IPV4 {
        raw & IPV4_ADDR_MASK
    } else if l3_proto == L3_PROTO_IPV6 {
        raw
    } else {
        0
    }
}

/// Identity of a tracked connection.
#[derive(Clone, Copy, Debug, PartialEq, Eq, Hash, Structural)]
pub struct FirewallKey {
    pub src_ip: u128,
    pub dst_ip: u128,
    pub src_port: u16,
    pub dst_port: u16,
    pub l4_proto: u8,
    pub l3_proto: u8,
    pub flow_id: u8,
    pub trace_id: u8,
}

/// What a lifecycle event reports about its connection.
#[derive(Clone, Copy, Debug, PartialEq, Eq, Hash, Structural)]
pub enum FirewallEventType {
    Unknow,
    CreateConnect,
    DisConnct,
}

impl FirewallKey {
    /// The key of the connection that the given raw fields describe.
    ///
    /// Both addresses are read under `l3_proto` as [`spec_key_addr`] says; the
    /// remaining fields are taken as they are. Raw fields under an unknown
    /// layer-3 tag therefore give the degenerate key with both addresses `0`.
    pub open spec fn spec_derive(
        src_ip: u128,
        dst_ip: u128,
        src_port: u16,
        dst_port: u16,
        l4_proto: u8,
        l3_proto: u8,
        flow_id: u8,
        trace_id: u8,
    ) -> FirewallKey {
        FirewallKey {
            src_ip: spec_key_addr(l3_proto, src_ip),
            dst_ip: spec_key_addr(l3_proto, dst_ip),
            src_port,
            dst_port,
            l4_proto,
            l3_proto,
            flow_id,
            trace_id,
        }
    }

    /// Whether a key is in the form that derivation produces: its addresses
    /// are unchanged by reading them again under the key's own layer-3 tag.
    pub open spec fn is_canonical(self) -> bool {
        &&& self.src_ip == spec_key_addr(self.l3_proto, self.src_ip)
        &&& self.dst_ip == spec_key_addr(self.l3_proto, self.dst_ip)
    }

    /// Derives the key of the connection that the given raw fields describe.
    /// Never fails.
    pub fn derive(
        src_ip: u128,
        dst_ip: u128,
        src_port: u16,
        dst_port: u16,
        l4_proto: u8,
        l3_proto: u8,
        flow_id: u8,
        trace_id: u8,
    ) -> (key: FirewallKey)
        ensures
            key == Self::spec_derive(
                src_ip,
                dst_ip,
                src_port,
                dst_port,
                l4_proto,
                l3_proto,
                flow_id,
                trace_id,
            ),
            key.is_canonical(),
    {
        proof {
            lemma_key_addr_idempotent(l3_proto, src_ip);
            lemma_key_addr_idempotent(l3_proto, dst_ip);
        }
        FirewallKey {
            src_ip: key_addr(l3_proto, src_ip),
            dst_ip: key_addr(l3_proto, dst_ip),
            src_port,
            dst_port,
            l4_proto,
            l3_proto,
            flow_id,
            trace_id,
        }
    }
}

/// Reading an address that was already read under the same tag changes
/// nothing, and an address read as IPv4 fits in 32 bits.
pub proof fn lemma_key_addr_idempotent(l3_proto: u8, raw: u128)
    ensures
        spec_key_addr(l3_proto, spec_key_addr(l3_proto, raw)) == spec_key_addr(l3_proto, raw),
        l3_proto == L3_PROTO_IPV4 ==> spec_key_addr(l3_proto, raw) <= IPV4_ADDR_MASK,
{
    assert((raw & 0xffff_ffff) & 0xffff_ffff == raw & 0xffff_ffff) by (bit_vector);
    assert(raw & 0xffff_ffff <= 0xffff_ffff) by (bit_vector);
}

/// A connection lifecycle event as the packet path reports it.
#[derive(Clone, Copy, Debug, PartialEq, Eq, Structural)]
pub struct FirewallEvent {
    pub src_ip: u128,
    pub dst_ip: u128,
    pub src_port: u16,
    pub dst_port: u16,
    pub l4_proto: u8,
    pub l3_proto: u8,
    pub flow_id: u8,
    pub trace_id: u8,
    pub create_time: u64,
    pub report_time: u64,
    pub event_type: FirewallEventType,
}

impl FirewallEvent {
    /// The key of the connection this event is about.
    pub open spec fn key(self) -> FirewallKey {
        FirewallKey::spec_derive(
            self.src_ip,
            self.dst_ip,
            self.src_port,
            self.dst_port,
            self.l4_proto,
            self.l3_proto,
            self.flow_id,
            self.trace_id,
        )
    }

    /// Splits the event into the connection it is about and what it reports.
    pub fn convert_to_key(&self) -> (r: (FirewallKey, FirewallEventType))
        ensures
            r.0 == self.key(),
            r.1 == self.event_type,
    {
        let key = FirewallKey::derive(
            self.src_ip,
            self.dst_ip,
            self.src_port,
            self.dst_port,
            self.l4_proto,
            self.l3_proto,
            self.flow_id,
            self.trace_id,
        );
        (key, self.event_type)
    }
}

/// The sum of two counters, held at `u64::MAX` once it no longer fits.
pub open spec fn spec_counter_sum(a: u64, b: u64) -> u64 {
    if a + b > u64::MAX {
        u64::MAX
    } else {
        (a + b) as u64
    }
}

/// Running traffic totals of one connection.
#[derive(Clone, Copy, Debug, PartialEq, Eq, Structural)]
pub struct ConnectMetric {
    pub ingress_bytes: u64,
    pub ingress_packets: u64,
    pub egress_bytes: u64,
    pub egress_packets: u64,
}

impl ConnectMetric {
    /// The totals after `other` has been merged into `self`: each counter is
    /// the sum of the two, held at `u64::MAX` once it no longer fits.
    pub open spec fn merged(self, other: ConnectMetric) -> ConnectMetric {
        ConnectMetric {
            ingress_bytes: spec_counter_sum(self.ingress_bytes, other.ingress_bytes),
            ingress_packets: spec_counter_sum(self.ingress_packets, other.ingress_packets),
            egress_bytes: spec_counter_sum(self.egress_bytes, other.egress_bytes),
            egress_packets: spec_counter_sum(self.egress_packets, other.egress_packets),
        }
    }

    /// The totals of a connection on which nothing was measured yet.
    pub open spec fn zero() -> ConnectMetric {
        ConnectMetric { ingress_bytes: 0, ingress_packets: 0, egress_bytes: 0, egress_packets: 0 }
    }

    /// Merges `other` into `self`.
    pub fn append_other(&mut self, other: &ConnectMetric)
        ensures
            *final(self) == old(self).merged(*other),
    {
        self.ingress_bytes = self.ingress_bytes.saturating_add(other.ingress_bytes);
        self.ingress_packets = self.ingress_packets.saturating_add(other.ingress_packets);
        self.egress_bytes = self.egress_bytes.saturating_add(other.egress_bytes);
        self.egress_packets = self.egress_packets.saturating_add(other.egress_packets);
    }
}

/// Merging into totals of zero gives what was merged, and merging zero
/// totals changes nothing.
pub proof fn lemma_merge_zero(m: ConnectMetric)
    ensures
        ConnectMetric::zero().merged(m) == m,
        m.merged(ConnectMetric::zero()) == m,
{
}

/// Merging is associative: how a run of samples is grouped does not matter.
pub proof fn lemma_merge_associative(a: ConnectMetric, b: ConnectMetric, c: ConnectMetric)
    ensures
        a.merged(b).merged(c) == a.merged(b.merged(c)),
{
}

/// Merging is commutative.
pub proof fn lemma_merge_commutative(a: ConnectMetric, b: ConnectMetric)
    ensures
        a.merged(b) == b.merged(a),
{
}

/// One traffic measurement of a connection.
#[derive(Clone, Copy, Debug, PartialEq, Eq, Structural)]
pub struct FirewallMetric {
    pub src_ip: u128,
    pub dst_ip: u128,
    pub src_port: u16,
    pub dst_port: u16,
    pub l4_proto: u8,
    pub l3_proto: u8,
    pub flow_id: u8,
    pub trace_id: u8,
    pub create_time: u64,
    pub report_time: u64,
    pub ingress_bytes: u64,
    pub ingress_packets: u64,
    pub egress_bytes: u64,
    pub egress_packets: u64,
}

impl FirewallMetric {
    /// The key of the connection this sample measures.
    pub open spec fn key(self) -> FirewallKey {
        FirewallKey::spec_derive(
            self.src_ip,
            self.dst_ip,
            self.src_port,
            self.dst_port,
            self.l4_proto,
            self.l3_proto,
            self.flow_id,
            self.trace_id,
        )
    }

    /// The counters this sample contributes to its connection's totals.
    pub open spec fn metric(self) -> ConnectMetric {
        ConnectMetric {
            ingress_bytes: self.ingress_bytes,
            ingress_packets: self.ingress_packets,
            egress_bytes: self.egress_bytes,
            egress_packets: self.egress_packets,
        }
    }

    /// Splits the sample into the connection it measures and its counters.
    pub fn convert_to_key(&self) -> (r: (FirewallKey, ConnectMetric))
        ensures
            r.0 == self.key(),
            r.1 == self.metric(),
    {
        let key = FirewallKey::derive(
            self.src_ip,
            self.dst_ip,
            self.src_port,
            self.dst_port,
            self.l4_proto,
            self.l3_proto,
            self.flow_id,
            self.trace_id,
        );
        let metric = ConnectMetric {
            ingress_bytes: self.ingress_bytes,
            ingress_packets: self.ingress_packets,
            egress_bytes: self.egress_bytes,
            egress_packets: self.egress_packets,
        };
        (key, metric)
    }
}

/// What the packet path hands to the metric service.
#[derive(Clone, Copy, Debug, PartialEq, Eq, Structural)]
pub enum FirewallMessage {
    Event(FirewallEvent),
    Metric(FirewallMetric),
}

} // verus!
