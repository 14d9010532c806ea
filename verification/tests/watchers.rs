use atomic_controller::group::{Scaling, ScalingRule};
use atomic_controller::event::EventKey;
use atomic_controller::watcher::{SubscriberManager, Watcher};

#[test]
fn scoped_subscribers_hear_first_then_everyone() {
    let mut w = Watcher::new();
    w.subscribe(1);
    w.subscribe_to_scope(EventKey::Channel("chat".to_string()), 2);
    w.subscribe_to_scope(EventKey::Channel("news".to_string()), 3);
    w.subscribe_to_scope(EventKey::Channel("chat".to_string()), 4);
    assert_eq!(w.publish_to_scope(&EventKey::Channel("chat".to_string())), vec![2, 4, 1]);
    assert_eq!(w.publish_to_scope(&EventKey::Channel("other".to_string())), vec![1]);
    assert_eq!(w.publish_to_scope(&EventKey::Transfer(7)), vec![1]);
    assert_eq!(w.publish(), vec![1]);
}

#[test]
fn gone_subscribers_are_dropped_everywhere() {
    let mut m = SubscriberManager::init();
    m.channel.subscribe(1);
    m.channel.subscribe(5);
    m.channel.subscribe_to_scope(EventKey::Channel("chat".to_string()), 2);
    m.channel.subscribe_to_scope(EventKey::Channel("chat".to_string()), 3);
    m.transfer.subscribe_to_scope(EventKey::Transfer(9), 2);
    m.tick(&vec![2, 5]);
    assert_eq!(m.channel.publish_to_scope(&EventKey::Channel("chat".to_string())), vec![3, 1]);
    assert!(m.transfer.publish_to_scope(&EventKey::Transfer(9)).is_empty());
}

#[test]
fn scaling_policy_is_reported_as_it_is() {
    let r = ScalingRule { enabled: true, start_threshold: 0.7f32.to_bits(), stop_empty: false };
    assert_eq!(r.to_grpc(), Scaling { enabled: true, start_threshold: 0.7f32.to_bits(), stop_empty: false });
}
