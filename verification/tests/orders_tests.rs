use seed::orders::{Effect, OrdersContainer, ShouldRender};

#[derive(Debug, PartialEq, Eq, Clone, Copy)]
struct Leaf(u32);

#[derive(Debug, PartialEq, Eq, Clone, Copy)]
enum Mid {
    Leaf(Leaf),
}

#[derive(Debug, PartialEq, Eq, Clone, Copy)]
enum Outer {
    Mid(Mid),
    Plain(u32),
}

#[test]
fn chained_sends_keep_call_order() {
    let mut orders: OrdersContainer<Outer, ()> = OrdersContainer::new();
    orders
        .send_msg(Outer::Plain(1))
        .perform_cmd(77)
        .send_msg(Outer::Plain(2));
    assert_eq!(orders.effects.len(), 3);
    assert!(matches!(orders.effects[0], Effect::Msg(Outer::Plain(1))));
    assert!(matches!(orders.effects[1], Effect::Cmd(77)));
    assert!(matches!(orders.effects[2], Effect::Msg(Outer::Plain(2))));
}

#[test]
fn render_directive_defaults_to_render() {
    let orders: OrdersContainer<Outer, ()> = OrdersContainer::new();
    assert_eq!(orders.should_render, ShouldRender::Render);
}

#[test]
fn later_directive_overwrites_earlier() {
    let mut orders: OrdersContainer<Outer, ()> = OrdersContainer::new();
    orders.render().skip();
    assert_eq!(orders.should_render, ShouldRender::Skip);
    orders.skip().render();
    assert_eq!(orders.should_render, ShouldRender::Render);
    orders.force_render_now();
    assert_eq!(orders.should_render, ShouldRender::ForceRenderNow);
}

#[test]
fn proxy_lifts_child_messages() {
    let mut orders: OrdersContainer<Outer, ()> = OrdersContainer::new();
    let mut proxy = orders.proxy(Outer::Plain);
    proxy.send_msg(9);
    assert_eq!(orders.effects.len(), 1);
    assert!(matches!(orders.effects[0], Effect::Msg(Outer::Plain(9))));
}

#[test]
fn nested_proxies_compose_lifts_once_per_level() {
    let mut orders: OrdersContainer<Outer, ()> = OrdersContainer::new();
    {
        let level_one = orders.proxy(Outer::Mid);
        let mut level_two = level_one.proxy(Mid::Leaf);
        level_two.send_msg(Leaf(5)).perform_cmd(3);
    }
    assert_eq!(orders.effects.len(), 2);
    assert!(matches!(
        orders.effects[0],
        Effect::Msg(Outer::Mid(Mid::Leaf(Leaf(5))))
    ));
    assert!(matches!(orders.effects[1], Effect::Cmd(3)));
}

#[test]
fn proxy_steers_the_shared_directive() {
    let mut orders: OrdersContainer<Outer, ()> = OrdersContainer::new();
    {
        let level_one = orders.proxy(Outer::Mid);
        let mut level_two = level_one.proxy(Mid::Leaf);
        level_two.skip();
    }
    assert_eq!(orders.should_render, ShouldRender::Skip);
}

#[test]
fn global_effects_bypass_lifting() {
    let mut orders: OrdersContainer<Outer, u32> = OrdersContainer::new();
    let mut proxy = orders.proxy(Outer::Plain);
    proxy.send_g_msg(42);
    proxy.perform_g_cmd(13);
    assert_eq!(orders.effects.len(), 2);
    assert!(matches!(orders.effects[0], Effect::GMsg(42)));
    assert!(matches!(orders.effects[1], Effect::GCmd(13)));
}
