use std::sync::Arc;

use landscape_common::event::firewall::{
    FirewallEvent, FirewallEventType, FirewallKey, FirewallMessage, FirewallMetric, L3_PROTO_IPV6,
};
use landscape_common::metric::firewall::{FirewallMetricServiceData, CHANNEL_SIZE};
use tokio::sync::{mpsc, RwLock};

fn lifecycle(conn: u16, event_type: FirewallEventType) -> FirewallMessage {
    FirewallMessage::Event(FirewallEvent {
        src_ip: 0x2001_0db8_0000_0000_0000_0000_0000_0000 + conn as u128,
        dst_ip: 0x2001_0db8_0000_0000_0000_0000_0000_ffff,
        src_port: conn,
        dst_port: 53,
        l4_proto: 17,
        l3_proto: L3_PROTO_IPV6,
        flow_id: 1,
        trace_id: 0,
        create_time: 10,
        report_time: 10,
        event_type,
    })
}

fn traffic(conn: u16, seq: u64) -> FirewallMetric {
    FirewallMetric {
        src_ip: 0x2001_0db8_0000_0000_0000_0000_0000_0000 + conn as u128,
        dst_ip: 0x2001_0db8_0000_0000_0000_0000_0000_ffff,
        src_port: conn,
        dst_port: 53,
        l4_proto: 17,
        l3_proto: L3_PROTO_IPV6,
        flow_id: 1,
        trace_id: 0,
        create_time: 10,
        report_time: 10 + seq,
        ingress_bytes: seq,
        ingress_packets: 1,
        egress_bytes: 2 * seq,
        egress_packets: 1,
    }
}

fn key_of(conn: u16) -> FirewallKey {
    traffic(conn, 0).convert_to_key().0
}

/// One writer task behind a bounded channel, the state behind a
/// reader-writer lock.
fn start(
    runtime: &tokio::runtime::Runtime,
) -> (Arc<RwLock<FirewallMetricServiceData>>, mpsc::Sender<FirewallMessage>, tokio::task::JoinHandle<()>) {
    let data = Arc::new(RwLock::new(FirewallMetricServiceData::default()));
    let (tx, mut rx) = mpsc::channel::<FirewallMessage>(CHANNEL_SIZE);
    let shared = data.clone();
    let writer = runtime.spawn(async move {
        while let Some(msg) = rx.recv().await {
            let mut write = shared.write().await;
            write.apply_message(msg);
        }
    });
    (data, tx, writer)
}

#[test]
fn queued_messages_are_applied_in_order() {
    let runtime = tokio::runtime::Builder::new_current_thread().build().unwrap();
    let (data, tx, writer) = start(&runtime);
    runtime.block_on(async {
        tx.try_send(lifecycle(1, FirewallEventType::CreateConnect)).unwrap();
        tx.try_send(FirewallMessage::Metric(traffic(1, 1))).unwrap();
        tx.try_send(FirewallMessage::Metric(traffic(1, 2))).unwrap();
        tx.try_send(lifecycle(2, FirewallEventType::CreateConnect)).unwrap();
        tx.try_send(lifecycle(1, FirewallEventType::DisConnct)).unwrap();
        tx.try_send(FirewallMessage::Metric(traffic(1, 3))).unwrap();
        drop(tx);
        writer.await.unwrap();

        let front = data.read().await.convert_to_front_formart();
        assert_eq!(front.connects, vec![key_of(2)]);
        assert_eq!(front.connect_metrics.len(), 1);
        assert_eq!(front.connect_metrics[0].key, key_of(1));
        let history: Vec<FirewallMetric> =
            front.connect_metrics[0].value.metrics().iter().copied().collect();
        assert_eq!(history, vec![traffic(1, 3)]);
        assert_eq!(front.connect_metrics[0].value.agg().ingress_bytes, 3);
    });
}

#[test]
fn snapshots_share_the_lock_and_see_whole_messages() {
    let runtime = tokio::runtime::Builder::new_current_thread().build().unwrap();
    let (data, tx, writer) = start(&runtime);
    runtime.block_on(async {
        for seq in 1..=100u64 {
            tx.try_send(FirewallMessage::Metric(traffic(7, seq))).unwrap();
            if seq % 10 == 0 {
                // two readers at once
                let first = data.read().await;
                let second = data.read().await;
                let a = first.convert_to_front_formart();
                let b = second.convert_to_front_formart();
                assert!(data.try_write().is_err());
                drop(first);
                drop(second);
                assert_eq!(a.connect_metrics.len(), b.connect_metrics.len());
                for (x, y) in a.connect_metrics.iter().zip(b.connect_metrics.iter()) {
                    assert_eq!(x.key, y.key);
                    assert_eq!(x.value.agg(), y.value.agg());
                    // a record always holds whole samples: as many as were
                    // merged, up to the capacity, ending with the last merged
                    let n = x.value.agg().ingress_packets;
                    assert!(n >= 1 && n <= seq);
                    assert_eq!(x.value.agg().ingress_bytes, n * (n + 1) / 2);
                    assert_eq!(x.value.metrics().len() as u64, n.min(60));
                    assert_eq!(x.value.metrics().back(), Some(&traffic(7, n)));
                    assert_eq!(y.value.metrics().back(), Some(&traffic(7, n)));
                }
                tokio::task::yield_now().await;
            }
        }
        drop(tx);
        writer.await.unwrap();
        let front = data.read().await.convert_to_front_formart();
        assert_eq!(front.connect_metrics.len(), 1);
        assert_eq!(front.connect_metrics[0].value.agg().ingress_packets, 100);
        assert_eq!(front.connect_metrics[0].value.agg().ingress_bytes, 5050);
    });
}

#[test]
fn a_full_queue_refuses_without_waiting() {
    let runtime = tokio::runtime::Builder::new_current_thread().build().unwrap();
    let (data, tx, writer) = start(&runtime);
    runtime.block_on(async {
        // the writer has not run yet: nothing drains the queue
        let mut refused: u64 = 0;
        for seq in 1..=(CHANNEL_SIZE as u64 + 5) {
            if tx.try_send(FirewallMessage::Metric(traffic(9, seq))).is_err() {
                refused += 1;
            }
        }
        assert_eq!(refused, 5);
        drop(tx);
        writer.await.unwrap();
        let front = data.read().await.convert_to_front_formart();
        assert_eq!(front.connect_metrics.len(), 1);
        let record = &front.connect_metrics[0].value;
        assert_eq!(record.agg().ingress_packets, CHANNEL_SIZE as u64);
        assert_eq!(record.metrics().back(), Some(&traffic(9, CHANNEL_SIZE as u64)));
    });
}
