use seed::orders::{Effect, OrdersContainer};
use seed::subs::SubManager;

#[derive(Debug, PartialEq, Eq, Clone, Copy)]
enum BusMsg {
    Got(u32),
    Doubled(u32),
}

fn got(v: u32) -> BusMsg {
    BusMsg::Got(v)
}

fn doubled(v: u32) -> BusMsg {
    BusMsg::Doubled(v * 2)
}

fn drain(orders: &mut OrdersContainer<BusMsg, ()>) -> Vec<BusMsg> {
    let mut out = Vec::new();
    while !orders.effects.is_empty() {
        match orders.effects.remove(0) {
            Effect::Msg(m) => out.push(m),
            _ => panic!("a notification enqueues plain messages only"),
        }
    }
    out
}

#[test]
fn every_live_subscriber_receives_each_notification() {
    let mut bus: SubManager<u32, BusMsg, fn(u32) -> BusMsg> = SubManager::new();
    let _keep_a = bus.subscribe(got);
    let _keep_b = bus.subscribe(doubled);
    let mut orders: OrdersContainer<BusMsg, ()> = OrdersContainer::new();
    bus.notify(5, &mut orders);
    assert_eq!(drain(&mut orders), vec![BusMsg::Got(5), BusMsg::Doubled(10)]);
}

#[test]
fn released_handle_is_never_invoked_again() {
    let mut bus: SubManager<u32, BusMsg, fn(u32) -> BusMsg> = SubManager::new();
    let first = bus.subscribe_with_handle(got);
    let _keep = bus.subscribe_with_handle(doubled);
    let mut orders: OrdersContainer<BusMsg, ()> = OrdersContainer::new();
    bus.notify(1, &mut orders);
    assert_eq!(drain(&mut orders), vec![BusMsg::Got(1), BusMsg::Doubled(2)]);
    bus.release(first);
    bus.notify(3, &mut orders);
    assert_eq!(drain(&mut orders), vec![BusMsg::Doubled(6)]);
}

#[test]
fn fresh_subscription_misses_earlier_notifications() {
    let mut bus: SubManager<u32, BusMsg, fn(u32) -> BusMsg> = SubManager::new();
    let mut orders: OrdersContainer<BusMsg, ()> = OrdersContainer::new();
    bus.notify(9, &mut orders);
    assert_eq!(drain(&mut orders), vec![]);
    let _late = bus.subscribe(got);
    bus.notify(10, &mut orders);
    assert_eq!(drain(&mut orders), vec![BusMsg::Got(10)]);
}

#[test]
fn release_of_unknown_handle_changes_nothing() {
    let mut bus: SubManager<u32, BusMsg, fn(u32) -> BusMsg> = SubManager::new();
    let handle = bus.subscribe(got);
    bus.release(handle);
    // releasing twice is harmless: the registry no longer holds the id
    let again = bus.subscribe(doubled);
    let mut orders: OrdersContainer<BusMsg, ()> = OrdersContainer::new();
    bus.notify(4, &mut orders);
    assert_eq!(drain(&mut orders), vec![BusMsg::Doubled(8)]);
    bus.release(again);
    bus.notify(4, &mut orders);
    assert_eq!(drain(&mut orders), vec![]);
}
