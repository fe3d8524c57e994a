use seed::live::{LiveNode, TargetOp};
use seed::orders::{OrdersContainer, ShouldRender};
use seed::runtime::{AppLogic, Runtime, RuntimeError, ScheduledCmd};
use seed::tree::{Element, Node};

fn div(children: Vec<Node>) -> Node {
    Node::Element(Element {
        tag: "div".to_string(),
        attrs: vec![],
        styles: vec![],
        listeners: vec![],
        children,
        key: None,
        ref_slot: None,
    })
}

fn keyed_li(key: u64, label: &str) -> Node {
    Node::Element(Element {
        tag: "li".to_string(),
        attrs: vec![],
        styles: vec![],
        listeners: vec![],
        children: vec![Node::Text(label.to_string())],
        key: Some(key),
        ref_slot: None,
    })
}

// ---- message ordering ----

enum OrderMsg {
    Start,
    Add(u64),
}

struct OrderLogic;

impl AppLogic<OrderMsg, ()> for OrderLogic {
    type Mdl = u64;

    fn update(&self, msg: OrderMsg, model: &mut u64, orders: &mut OrdersContainer<OrderMsg, ()>) {
        match msg {
            OrderMsg::Start => {
                orders.send_msg(OrderMsg::Add(1)).send_msg(OrderMsg::Add(2));
            }
            OrderMsg::Add(n) => {
                *model = *model * 10 + n;
            }
        }
    }

    fn handle_g_msg(&self, _g: (), _model: &mut u64, _orders: &mut OrdersContainer<OrderMsg, ()>) {}

    fn view(&self, _model: &u64) -> Node {
        Node::Empty
    }
}

#[test]
fn messages_drain_in_send_order() {
    let mut rt = Runtime::new(0u64, "main".to_string(), 64);
    let outcome = rt.dispatch(&OrderLogic, OrderMsg::Start).0;
    assert!(outcome.is_ok());
    // Add(1) was applied before Add(2): 0 -> 1 -> 12, never 0 -> 2 -> 21.
    assert_eq!(*rt.model_ref(), 12);
}

// ---- render coalescing ----

enum StepMsg {
    Start,
    Step(u32),
    LastSkips,
    LastRenders,
}

struct CoalesceLogic {
    skip_at_end: bool,
}

impl AppLogic<StepMsg, ()> for CoalesceLogic {
    type Mdl = u32;

    fn update(&self, msg: StepMsg, model: &mut u32, orders: &mut OrdersContainer<StepMsg, ()>) {
        match msg {
            StepMsg::Start => {
                orders
                    .send_msg(StepMsg::Step(1))
                    .send_msg(StepMsg::Step(2))
                    .send_msg(StepMsg::Step(3))
                    .send_msg(StepMsg::Step(4));
                if self.skip_at_end {
                    orders.send_msg(StepMsg::LastSkips);
                } else {
                    orders.send_msg(StepMsg::LastRenders);
                }
            }
            StepMsg::Step(n) => {
                *model += n;
                if n <= 3 {
                    orders.render();
                }
            }
            StepMsg::LastSkips => {
                orders.skip();
            }
            StepMsg::LastRenders => {
                orders.render();
            }
        }
    }

    fn handle_g_msg(&self, _g: (), _model: &mut u32, _orders: &mut OrdersContainer<StepMsg, ()>) {}

    fn view(&self, model: &u32) -> Node {
        div(vec![Node::Text(format!("{}", model))])
    }
}

#[test]
fn final_skip_suppresses_the_render() {
    let mut rt = Runtime::new(0u32, "main".to_string(), 64);
    let (directive, _cmds) = rt.dispatch(&CoalesceLogic { skip_at_end: true }, StepMsg::Start).0.unwrap();
    assert_eq!(directive, ShouldRender::Skip);
    assert_eq!(rt.render_frame(&CoalesceLogic { skip_at_end: true }).unwrap(), false);
    assert_eq!(rt.render_count(), 0);
}

#[test]
fn many_render_requests_coalesce_into_one_patch_cycle() {
    let logic = CoalesceLogic { skip_at_end: false };
    let mut rt = Runtime::new(0u32, "main".to_string(), 64);
    let (directive, _cmds) = rt.dispatch(&logic, StepMsg::Start).0.unwrap();
    assert_eq!(directive, ShouldRender::Render);
    assert_eq!(rt.render_count(), 0);
    assert_eq!(rt.render_frame(&logic).unwrap(), true);
    assert_eq!(rt.render_count(), 1);
    // nothing further is pending
    assert_eq!(rt.render_frame(&logic).unwrap(), false);
    assert_eq!(rt.render_count(), 1);
}

// ---- counter end to end ----

enum CounterMsg {
    Increment,
}

struct CounterLogic;

impl AppLogic<CounterMsg, ()> for CounterLogic {
    type Mdl = u32;

    fn update(&self, msg: CounterMsg, model: &mut u32, orders: &mut OrdersContainer<CounterMsg, ()>) {
        match msg {
            CounterMsg::Increment => {
                *model += 1;
                orders.render();
            }
        }
    }

    fn handle_g_msg(&self, _g: (), _model: &mut u32, _orders: &mut OrdersContainer<CounterMsg, ()>) {}

    fn view(&self, model: &u32) -> Node {
        div(vec![Node::Text(format!("{}", model))])
    }
}

#[test]
fn counter_reaches_three_in_three_patch_cycles() {
    let mut rt = Runtime::new(0u32, "main".to_string(), 64);
    for _ in 0..3 {
        rt.dispatch(&CounterLogic, CounterMsg::Increment).0.unwrap();
        rt.render_frame(&CounterLogic).unwrap();
    }
    assert_eq!(rt.render_count(), 3);
    let app = rt.root().child_at(0).expect("mount container holds the app tree");
    let text = app.child_at(0).expect("the view has one text child");
    assert_eq!(text.text_payload().expect("a text node").as_str(), "3");
}

// ---- a patch of an unchanged view performs zero operations ----

enum PokeMsg {
    Poke,
}

struct StaticLogic;

impl AppLogic<PokeMsg, ()> for StaticLogic {
    type Mdl = ();

    fn update(&self, _msg: PokeMsg, _model: &mut (), orders: &mut OrdersContainer<PokeMsg, ()>) {
        orders.render();
    }

    fn handle_g_msg(&self, _g: (), _model: &mut (), _orders: &mut OrdersContainer<PokeMsg, ()>) {}

    fn view(&self, _model: &()) -> Node {
        div(vec![Node::Text("static".to_string())])
    }
}

#[test]
fn unchanged_view_patches_with_zero_operations() {
    let mut rt = Runtime::new((), "main".to_string(), 64);
    rt.dispatch(&StaticLogic, PokeMsg::Poke).0.unwrap();
    rt.render_frame(&StaticLogic).unwrap();
    let ops_after_first = rt.target().op_count();
    assert!(ops_after_first > 0);
    rt.dispatch(&StaticLogic, PokeMsg::Poke).0.unwrap();
    rt.render_frame(&StaticLogic).unwrap();
    assert_eq!(rt.render_count(), 2);
    assert_eq!(rt.target().op_count(), ops_after_first);
}

// ---- identity preservation across a keyed move ----

enum FlipMsg {
    Flip,
}

struct FlipLogic;

impl AppLogic<FlipMsg, ()> for FlipLogic {
    type Mdl = bool;

    fn update(&self, _msg: FlipMsg, model: &mut bool, orders: &mut OrdersContainer<FlipMsg, ()>) {
        *model = !*model;
        orders.render();
    }

    fn handle_g_msg(&self, _g: (), _model: &mut bool, _orders: &mut OrdersContainer<FlipMsg, ()>) {}

    fn view(&self, model: &bool) -> Node {
        if *model {
            div(vec![keyed_li(2, "b"), keyed_li(1, "a")])
        } else {
            div(vec![keyed_li(1, "a"), keyed_li(2, "b")])
        }
    }
}

fn child_id(root: &LiveNode, i: usize) -> u64 {
    root.child_at(0).unwrap().child_at(i).unwrap().id()
}

#[test]
fn keyed_move_keeps_the_same_live_nodes() {
    let mut rt = Runtime::new(false, "main".to_string(), 64);
    rt.dispatch(&FlipLogic, FlipMsg::Flip).0.unwrap();
    rt.render_frame(&FlipLogic).unwrap();
    // after the first render the model is true: [b(key 2), a(key 1)]
    let id_b = child_id(rt.root(), 0);
    let id_a = child_id(rt.root(), 1);
    assert_ne!(id_a, id_b);
    let ops_before = rt.target().op_count();
    rt.dispatch(&FlipLogic, FlipMsg::Flip).0.unwrap();
    rt.render_frame(&FlipLogic).unwrap();
    // now the model is false: [a(key 1), b(key 2)] — the same live nodes, moved
    assert_eq!(child_id(rt.root(), 0), id_a);
    assert_eq!(child_id(rt.root(), 1), id_b);
    // nothing was created in that cycle: moves reuse, never rebuild
    let target = rt.target();
    for i in ops_before..target.op_count() {
        assert!(!matches!(target.op_at(i), TargetOp::Create { .. }));
    }
}

// ---- framework invariant violations abort the cycle ----

enum LoopMsg {
    Echo,
}

struct EchoLogic;

impl AppLogic<LoopMsg, ()> for EchoLogic {
    type Mdl = u32;

    fn update(&self, _msg: LoopMsg, model: &mut u32, orders: &mut OrdersContainer<LoopMsg, ()>) {
        *model += 1;
        orders.send_msg(LoopMsg::Echo);
    }

    fn handle_g_msg(&self, _g: (), _model: &mut u32, _orders: &mut OrdersContainer<LoopMsg, ()>) {}

    fn view(&self, _model: &u32) -> Node {
        Node::Empty
    }
}

#[test]
fn runaway_feedback_hits_the_effect_budget() {
    let mut rt = Runtime::new(0u32, "main".to_string(), 8);
    let outcome = rt.dispatch(&EchoLogic, LoopMsg::Echo).0;
    assert!(matches!(outcome, Err(RuntimeError::EffectOverflow)));
}

enum BadMsg {
    Render,
}

struct DuplicateKeyLogic;

impl AppLogic<BadMsg, ()> for DuplicateKeyLogic {
    type Mdl = ();

    fn update(&self, _msg: BadMsg, _model: &mut (), orders: &mut OrdersContainer<BadMsg, ()>) {
        orders.force_render_now();
    }

    fn handle_g_msg(&self, _g: (), _model: &mut (), _orders: &mut OrdersContainer<BadMsg, ()>) {}

    fn view(&self, _model: &()) -> Node {
        // two siblings with the same key: reconciliation would be ambiguous
        div(vec![keyed_li(1, "a"), keyed_li(1, "b")])
    }
}

#[test]
fn duplicate_keys_abort_the_cycle() {
    let mut rt = Runtime::new((), "main".to_string(), 8);
    let outcome = rt.dispatch(&DuplicateKeyLogic, BadMsg::Render).0;
    assert!(matches!(outcome, Err(RuntimeError::InvalidTree)));
    assert_eq!(rt.render_count(), 0);
}

#[test]
fn forced_render_patches_before_dispatch_returns() {
    struct ForceLogic;
    impl AppLogic<BadMsg, ()> for ForceLogic {
        type Mdl = ();
        fn update(&self, _msg: BadMsg, _model: &mut (), orders: &mut OrdersContainer<BadMsg, ()>) {
            orders.force_render_now();
        }
        fn handle_g_msg(&self, _g: (), _model: &mut (), _o: &mut OrdersContainer<BadMsg, ()>) {}
        fn view(&self, _model: &()) -> Node {
            div(vec![Node::Text("now".to_string())])
        }
    }
    let mut rt = Runtime::new((), "main".to_string(), 8);
    let (directive, _cmds) = rt.dispatch(&ForceLogic, BadMsg::Render).0.unwrap();
    assert_eq!(directive, ShouldRender::ForceRenderNow);
    assert_eq!(rt.render_count(), 1);
}

#[test]
fn framework_errors_carry_diagnostics() {
    assert_eq!(
        RuntimeError::InvalidTree.describe(),
        "view produced a tree with duplicate keys or names"
    );
    assert_eq!(
        RuntimeError::EffectOverflow.describe(),
        "effect queue exceeded the drain budget"
    );
}

// ---- cross-cutting messages and scheduled commands ----

enum MixMsg {
    Kick,
}

struct MixLogic;

impl AppLogic<MixMsg, u32> for MixLogic {
    type Mdl = Vec<u32>;

    fn update(&self, _msg: MixMsg, _model: &mut Vec<u32>, orders: &mut OrdersContainer<MixMsg, u32>) {
        orders.send_g_msg(7).perform_cmd(21).perform_g_cmd(22);
        orders.skip();
    }

    fn handle_g_msg(&self, g: u32, model: &mut Vec<u32>, _orders: &mut OrdersContainer<MixMsg, u32>) {
        model.push(g);
    }

    fn view(&self, _model: &Vec<u32>) -> Node {
        Node::Empty
    }
}

#[test]
fn global_messages_reach_the_sink_and_commands_come_back_in_order() {
    let mut rt = Runtime::new(Vec::new(), "main".to_string(), 16);
    let (_directive, cmds) = rt.dispatch(&MixLogic, MixMsg::Kick).0.unwrap();
    assert_eq!(rt.model_ref(), &vec![7u32]);
    assert_eq!(cmds, vec![ScheduledCmd::Cmd(21), ScheduledCmd::GCmd(22)]);
}
