//! Change fan-out: fire-and-forget publishes, late subscribers, device
//! filters, and lagging-subscriber drops.

use homeapi::pubsub::{Broker, PubSub};
use homeapi::records::Electricity;

fn s(x: &str) -> String {
    String::from(x)
}

fn reading(device: &str, ts: &str) -> Electricity {
    Electricity {
        device: s(device),
        timestamp: s(ts),
        place: s(""),
        cumulative_kwh_p: None,
        cumulative_kwh_n: None,
        current_w: None,
    }
}

#[test]
fn publish_with_zero_subscribers_is_fine() {
    let mut b: Broker<u64> = Broker::new(4);
    b.publish(s("dev"), 1);
    b.publish(s("dev"), 2);
    assert_eq!(b.log.len(), 2);
}

#[test]
fn late_subscriber_never_sees_earlier_events() {
    let mut b: Broker<u64> = Broker::new(4);
    b.publish(s("dev"), 1);
    let mut sub = b.subscribe(None);
    assert!(b.poll(&mut sub).is_none());
    b.publish(s("dev"), 2);
    assert_eq!(b.poll(&mut sub).copied(), Some(2));
    assert!(b.poll(&mut sub).is_none());
}

#[test]
fn events_arrive_in_publish_order() {
    let mut b: Broker<u64> = Broker::new(10);
    let mut sub = b.subscribe(None);
    for v in [10, 20, 30] {
        b.publish(s("dev"), v);
    }
    assert_eq!(b.poll(&mut sub).copied(), Some(10));
    assert_eq!(b.poll(&mut sub).copied(), Some(20));
    assert_eq!(b.poll(&mut sub).copied(), Some(30));
    assert!(b.poll(&mut sub).is_none());
}

#[test]
fn device_filter_drops_other_devices_silently() {
    let mut b: Broker<u64> = Broker::new(10);
    let mut sub = b.subscribe(Some(s("mine")));
    b.publish(s("other"), 1);
    b.publish(s("mine"), 2);
    b.publish(s("other"), 3);
    b.publish(s("mine"), 4);
    assert_eq!(b.poll(&mut sub).copied(), Some(2));
    assert_eq!(b.poll(&mut sub).copied(), Some(4));
    assert!(b.poll(&mut sub).is_none());
}

#[test]
fn lagging_subscriber_drops_oldest_unread() {
    let mut b: Broker<u64> = Broker::new(3);
    let mut sub = b.subscribe(None);
    for v in 1..=10u64 {
        b.publish(s("dev"), v);
    }
    // ten behind with capacity three: the oldest seven are dropped
    assert_eq!(b.poll(&mut sub).copied(), Some(8));
    assert_eq!(b.poll(&mut sub).copied(), Some(9));
    assert_eq!(b.poll(&mut sub).copied(), Some(10));
    assert!(b.poll(&mut sub).is_none());
}

#[test]
fn channels_are_independent() {
    let mut ps = PubSub::new();
    let sub_before = ps.subscribe_electricity();
    ps.publish_electricity(reading("dev1", "t1"));
    let sub_after = ps.subscribe_electricity();
    assert_eq!(ps.electricity_sender.log.len(), 1);
    assert_eq!(ps.final_electricity_sender.log.len(), 0);
    assert_eq!(ps.place_condition_sender.log.len(), 0);
    // the earlier subscriber sees the event; the later one never does
    let mut sb = sub_before;
    let mut sa = sub_after;
    assert!(ps.electricity_sender.poll(&mut sb).is_some());
    assert!(ps.electricity_sender.poll(&mut sa).is_none());
}
