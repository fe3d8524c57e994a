//! The runtime loop: owns the application state, the stored tree and the
//! live target. A dispatched message runs the update function with a fresh
//! effect queue, then the queue is drained in FIFO order — each drained
//! message re-enters the update function, and effects it produces are
//! appended to the end of the same queue, never interleaved ahead of
//! earlier ones. Commands are handed back to the caller as tokens to run
//! asynchronously. When the queue is empty, the final render directive of
//! the cycle governs: skip ends the cycle with nothing patched, a forced
//! render patches synchronously, and an ordinary render is coalesced — no
//! matter how many render requests the cycle made, at most one patch cycle
//! runs before the loop is idle again.

use vstd::prelude::*;
use crate::diff::diff;
use crate::live::{
    ids_below, live_node_id, live_rep, live_wf, Adapter, LiveElement, LiveNode, TargetOp,
};
use crate::orders::{Effect, OrdersContainer, ShouldRender};
use crate::patcher::apply;
use crate::assoc::kvs_view;
use crate::tree::{check_wf, node_wf, Node};

verus! {

/// The state of the runtime loop between calls.
#[derive(PartialEq, Eq, Structural, Clone, Copy, Debug)]
pub enum LoopState {
    Idle,
    Updating,
    RenderScheduled,
    Rendering,
}

/// An unrecoverable framework condition: it aborts the current cycle with
/// a diagnostic and is not delivered through the ordinary message channel.
#[derive(PartialEq, Eq, Structural, Clone, Copy, Debug)]
pub enum RuntimeError {
    /// The view returned a tree with duplicate keys or duplicate names:
    /// reconciliation would be ambiguous.
    InvalidTree,
    /// Draining one dispatch exceeded the effect budget: the update
    /// functions feed the queue faster than it drains.
    EffectOverflow,
}

impl RuntimeError {
    /// The diagnostic the aborted cycle reports.
    pub fn describe(&self) -> (r: &'static str)
        ensures
            *self is InvalidTree ==> r@ == "view produced a tree with duplicate keys or names"@,
            *self is EffectOverflow ==> r@ == "effect queue exceeded the drain budget"@,
    {
        match self {
            RuntimeError::InvalidTree => "view produced a tree with duplicate keys or names",
            RuntimeError::EffectOverflow => "effect queue exceeded the drain budget",
        }
    }
}

/// A command the caller must run asynchronously; its resolution comes back
/// later as an ordinary dispatch. Nothing orders two commands against each
/// other.
#[derive(PartialEq, Eq, Structural, Clone, Copy, Debug)]
pub enum ScheduledCmd {
    /// Resolves to an ordinary message, identified by its token.
    Cmd(u64),
    /// Resolves to a cross-cutting message, identified by its token.
    GCmd(u64),
}

/// The application logic the runtime drives: an update function, a handler
/// for cross-cutting messages, and a pure view. These are the caller's
/// code; the runtime assumes nothing about what they do to the model or
/// the queue.
pub trait AppLogic<Ms, GMs> {
    type Mdl;

    /// Mutates the model in response to one message and may enqueue
    /// effects or steer the render directive.
    fn update(&self, msg: Ms, model: &mut Self::Mdl, orders: &mut OrdersContainer<Ms, GMs>);

    /// Handles one cross-cutting message.
    fn handle_g_msg(&self, g_msg: GMs, model: &mut Self::Mdl, orders: &mut OrdersContainer<Ms, GMs>);

    /// Renders the model as a declarative tree. Called once per patch
    /// cycle.
    fn view(&self, model: &Self::Mdl) -> Node;
}

/// One recorded step of a dispatch cycle's drain: the effect handled, and
/// the model and queue on either side of handling it. The dispatched
/// message itself is the first step, handled over a fresh queue.
pub ghost struct DrainStep<Ms, GMs, Mdl> {
    pub effect: Effect<Ms, GMs>,
    pub model_before: Mdl,
    pub model_after: Mdl,
    pub queue_before: OrdersContainer<Ms, GMs>,
    pub queue_after: OrdersContainer<Ms, GMs>,
}

/// A drain transcript for a dispatch of `msg`: the first step handles the
/// message itself over a fresh queue, each later step handles exactly the
/// front of its predecessor's queue — strict FIFO — carrying the rest of
/// the queue and its directive forward, and a command step touches
/// neither model nor queue: its token is merely collected. That message
/// steps really reach the update function and the sink is stated by the
/// dispatching function itself, over this transcript.
pub open spec fn drain_trace_ok<Ms, GMs, Mdl>(
    msg: Ms,
    tr: Seq<DrainStep<Ms, GMs, Mdl>>,
) -> bool {
    &&& tr.len() >= 1
    &&& tr[0].effect == Effect::<Ms, GMs>::Msg(msg)
    &&& tr[0].queue_before.effects@ == Seq::<Effect<Ms, GMs>>::empty()
    &&& tr[0].queue_before.should_render == ShouldRender::Render
    &&& forall|i: int|
        0 <= i < tr.len() ==> match (#[trigger] tr[i]).effect {
            Effect::Cmd(_) => tr[i].model_after == tr[i].model_before && tr[i].queue_after
                == tr[i].queue_before,
            Effect::GCmd(_) => tr[i].model_after == tr[i].model_before && tr[i].queue_after
                == tr[i].queue_before,
            _ => true,
        }
    &&& forall|i: int|
        1 <= i < tr.len() ==> {
            &&& (#[trigger] tr[i]).model_before == tr[i - 1].model_after
            &&& tr[i - 1].queue_after.effects@.len() > 0
            &&& tr[i].effect == tr[i - 1].queue_after.effects@[0]
            &&& tr[i].queue_before.effects@ == tr[i - 1].queue_after.effects@.subrange(
                1,
                tr[i - 1].queue_after.effects@.len() as int,
            )
            &&& tr[i].queue_before.should_render == tr[i - 1].queue_after.should_render
        }
}

/// The command tokens a transcript schedules, in drain order.
pub open spec fn trace_cmds<Ms, GMs, Mdl>(tr: Seq<DrainStep<Ms, GMs, Mdl>>) -> Seq<ScheduledCmd>
    decreases tr.len(),
{
    if tr.len() == 0 {
        Seq::<ScheduledCmd>::empty()
    } else {
        let rest = trace_cmds(tr.drop_last());
        match tr.last().effect {
            Effect::Cmd(t) => rest.push(ScheduledCmd::Cmd(t)),
            Effect::GCmd(t) => rest.push(ScheduledCmd::GCmd(t)),
            _ => rest,
        }
    }
}

/// The runtime: application model, stored tree, live target and loop
/// bookkeeping. Between public calls the loop is idle or holds one
/// coalesced render request, and the live target always shows the stored
/// tree.
pub struct Runtime<Mdl> {
    pub model: Mdl,
    pub stored: Node,
    pub live_root: LiveNode,
    pub adapter: Adapter,
    pub state: LoopState,
    pub render_pending: bool,
    pub renders: Vec<u64>,
    pub effect_budget: u64,
}

    /// Drains the queue one effect at a time, strict FIFO, within the
    /// effect budget: each drained message re-enters the update function,
    /// each cross-cutting message the sink, and each command token is
    /// merely collected. The transcript grows by one step per effect.
    /// Hands back whether the queue fully drained, the collected tokens,
    /// and the transcript; nothing but the model is touched.
#[verifier::rlimit(100)]
#[verifier::spinoff_prover]
fn drain_queue<Ms, GMs, L: AppLogic<Ms, GMs>>(
    logic: &L,
    model: &mut L::Mdl,
    budget: u64,
    orders: &mut OrdersContainer<Ms, GMs>,
    Ghost(msg0): Ghost<Ms>,
    Ghost(tr0): Ghost<Seq<DrainStep<Ms, GMs, L::Mdl>>>,
) -> (out: (bool, Vec<ScheduledCmd>, Ghost<Seq<DrainStep<Ms, GMs, L::Mdl>>>))
        requires
            drain_trace_ok(msg0, tr0),
            trace_cmds(tr0) == Seq::<ScheduledCmd>::empty(),
            tr0.last().queue_after == *old(orders),
            tr0.last().model_after == *old(model),
        ensures
            drain_trace_ok(msg0, out.2@),
            out.2@[0] == tr0[0],
            out.2@.last().queue_after == *final(orders),
            out.2@.last().model_after == *final(model),
            out.1@ == trace_cmds(out.2@),
            out.0 ==> final(orders).effects@.len() == 0,
            !out.0 ==> final(orders).effects@.len() > 0,
    {
        let ghost mut trace: Seq<DrainStep<Ms, GMs, L::Mdl>> = tr0;
        let mut cmds: Vec<ScheduledCmd> = Vec::new();
        let mut steps: u64 = 0;
        while orders.effects.len() > 0
            invariant
                steps <= budget,
                drain_trace_ok(msg0, trace),
                trace[0] == tr0[0],
                trace.last().model_after == *model,
                trace.last().queue_after == *orders,
                cmds@ == trace_cmds(trace),
            decreases budget - steps,
        {
            if steps >= budget {
                return (false, cmds, Ghost(trace));
            }
            steps = steps + 1;
            let ghost trace0 = trace;
            let ghost m_pre = *model;
            let effect = orders.take_next();
            let ghost eff0 = effect;
            let ghost q_pre = *orders;
            match effect {
                Effect::Msg(m) => {
                    let update_fn = L::update;
                    update_fn(logic, m, model, orders);
                },
                Effect::GMsg(g) => {
                    let sink_fn = L::handle_g_msg;
                    sink_fn(logic, g, model, orders);
                },
                Effect::Cmd(token) => {
                    cmds.push(ScheduledCmd::Cmd(token));
                },
                Effect::GCmd(token) => {
                    cmds.push(ScheduledCmd::GCmd(token));
                },
            }
            proof {
                let step = DrainStep {
                    effect: eff0,
                    model_before: m_pre,
                    model_after: *model,
                    queue_before: q_pre,
                    queue_after: *orders,
                };
                trace = trace0.push(step);
                assert forall|i: int| 1 <= i < trace.len() implies {
                    &&& (#[trigger] trace[i]).model_before == trace[i - 1].model_after
                    &&& trace[i - 1].queue_after.effects@.len() > 0
                    &&& trace[i].effect == trace[i - 1].queue_after.effects@[0]
                    &&& trace[i].queue_before.effects@ == trace[i - 1].queue_after.effects@.subrange(
                        1,
                        trace[i - 1].queue_after.effects@.len() as int,
                    )
                    &&& trace[i].queue_before.should_render == trace[i
                        - 1].queue_after.should_render
                } by {
                    if i < trace0.len() {
                        assert(trace[i] == trace0[i]);
                        assert(trace[i - 1] == trace0[i - 1]);
                    } else {
                        assert(trace[i - 1] == trace0.last());
                    }
                }
                assert(trace.drop_last() =~= trace0);
                assert(cmds@ =~= trace_cmds(trace));
            }
        }
        (true, cmds, Ghost(trace))
    }


impl<Mdl> Runtime<Mdl> {
    /// The invariant between public calls: the live root is the mount
    /// container with exactly one child showing the stored tree, the
    /// stored tree is well formed, every live identity came from the
    /// adapter, and the loop state mirrors whether a render is pending.
    pub open spec fn tree_ok(self) -> bool {
        &&& (match self.live_root {
            LiveNode::Element(c) => c.children@.len() == 1 && live_rep(
                c.children@[0],
                self.stored,
            ),
            _ => false,
        })
        &&& live_wf(self.live_root)
        &&& ids_below(self.live_root, self.adapter@.len() as int)
        &&& node_wf(self.stored)
    }

    pub open spec fn wf(self) -> bool {
        &&& self.tree_ok()
        &&& self.state == (if self.render_pending {
            LoopState::RenderScheduled
        } else {
            LoopState::Idle
        })
    }

    /// Mounts a runtime on a fresh output root: the container element is
    /// created with an empty placeholder child, so that the first render
    /// replaces that placeholder wholesale with the first view output.
    pub fn new(model: Mdl, mount_tag: String, effect_budget: u64) -> (r: Runtime<Mdl>)
        ensures
            r.wf(),
            r.model == model,
            r.stored is Empty,
            r.renders@ == Seq::<u64>::empty(),
            r.render_pending == false,
            r.effect_budget == effect_budget,
    {
        let mut adapter = Adapter::new();
        let container_id = adapter.fresh_id();
        adapter.record(TargetOp::Create { node: container_id });
        let child_id = adapter.fresh_id();
        adapter.record(TargetOp::Create { node: child_id });
        adapter.record(
            TargetOp::InsertChild { parent: container_id, child: child_id, index: 0 },
        );
        let mut children: Vec<LiveNode> = Vec::new();
        children.push(LiveNode::Empty { id: child_id });
        let live_root = LiveNode::Element(
            LiveElement {
                id: container_id,
                tag: mount_tag,
                attrs: Vec::new(),
                styles: Vec::new(),
                listeners: Vec::new(),
                children,
            },
        );
        proof {
            let root = live_root;
            match root {
                LiveNode::Element(c) => {
                    assert(kvs_view(c.attrs@) =~= Seq::<(Seq<char>, Seq<char>)>::empty());
                    assert(kvs_view(c.styles@) =~= Seq::<(Seq<char>, Seq<char>)>::empty());
                    assert(kvs_view(c.listeners@) =~= Seq::<(Seq<char>, u64)>::empty());
                    assert(c.children@.len() == 1);
                    assert(ids_below(c.children@[0], adapter@.len() as int));
                    assert(live_wf(c.children@[0]));
                },
                _ => {},
            }
        }
        Runtime {
            model,
            stored: Node::Empty,
            live_root,
            adapter,
            state: LoopState::Idle,
            render_pending: false,
            renders: Vec::new(),
            effect_budget,
        }
    }

    /// Runs one patch cycle: renders the view, validates it, computes the
    /// patch against the stored tree and replays it on the live child.
    /// Exactly one entry is appended to the render record; the operation
    /// log only ever grows.
    fn render_cycle<Ms, GMs, L: AppLogic<Ms, GMs, Mdl = Mdl>>(&mut self, logic: &L) -> (r: Result<
        (),
        RuntimeError,
    >)
        requires
            old(self).tree_ok(),
        ensures
            final(self).tree_ok(),
            final(self).model == old(self).model,
            final(self).render_pending == old(self).render_pending,
            final(self).state == old(self).state,
            final(self).effect_budget == old(self).effect_budget,
            old(self).adapter@.is_prefix_of(final(self).adapter@),
            match r {
                Ok(()) => final(self).renders@.len() == old(self).renders@.len() + 1 && exists|
                    mref: &Mdl,
                    n: Node,
                |
                    *mref == old(self).model && node_wf(n) && final(self).stored == n
                        && #[trigger] call_ensures(L::view, (logic, mref), n),
                Err(e) => e is InvalidTree && final(self).renders@ == old(self).renders@ && final(self).adapter@ == old(self).adapter@ && final(self).stored == old(self).stored && exists|
                    mref: &Mdl,
                    n: Node,
                |
                    *mref == old(self).model && !node_wf(n) && #[trigger] call_ensures(
                        L::view,
                        (logic, mref),
                        n,
                    ),
            },
    {
        let view_fn = L::view;
        let new_tree = view_fn(logic, &self.model);
        if !check_wf(&new_tree) {
            proof {
                crate::live::lemma_prefix_refl(self.adapter@);
            }
            return Err(RuntimeError::InvalidTree);
        }
        let patch = diff(&self.stored, &new_tree);
        let ghost old_stored = self.stored;
        match &mut self.live_root {
            LiveNode::Element(container) => {
                let container_id = container.id;
                let child = &mut container.children[0];
                apply(
                    child,
                    &patch,
                    container_id,
                    &mut self.adapter,
                    Ghost(old_stored),
                    Ghost(new_tree),
                );
            },
            _ => {
                proof {
                    assert(false);
                }
            },
        }
        self.stored = new_tree;
        let ops = self.adapter.op_count();
        self.renders.push(ops as u64);
        proof {
            let root = self.live_root;
            match root {
                LiveNode::Element(c) => {
                    assert((live_node_id(root) as int) < self.adapter@.len());
                    assert forall|i: int| 0 <= i < c.children@.len() implies ids_below(
                        #[trigger] c.children@[i],
                        self.adapter@.len() as int,
                    ) by {}
                },
                _ => {},
            }
        }
        Ok(())
    }

    /// Dispatches one message: runs the update function with a fresh
    /// effect queue, drains the queue in FIFO order — every drained
    /// message re-enters the update function and whatever it enqueues
    /// joins the back of the same queue — collects the scheduled commands,
    /// and lets the cycle's final render directive govern what happens
    /// next. The directive and the commands are handed back.
    ///
    /// Whatever the cycle asked for, at most one patch cycle runs: none
    /// when the directive is skip or an ordinary (coalesced) render, and
    /// exactly one when a render was forced. An ordinary render only marks
    /// the request pending; the next frame signal performs it.
    #[verifier::rlimit(100)]
    #[verifier::spinoff_prover]
    pub fn dispatch<Ms, GMs, L: AppLogic<Ms, GMs, Mdl = Mdl>>(&mut self, logic: &L, msg: Ms) -> (r:
        (Result<(ShouldRender, Vec<ScheduledCmd>), RuntimeError>, Ghost<
            Seq<DrainStep<Ms, GMs, Mdl>>,
        >))
        requires
            old(self).wf(),
        ensures
            final(self).wf(),
            final(self).effect_budget == old(self).effect_budget,
            old(self).adapter@.is_prefix_of(final(self).adapter@),
            final(self).renders@.len() <= old(self).renders@.len() + 1,
            drain_trace_ok(msg, r.1@),
            exists|mr: &mut Mdl, qr: &mut OrdersContainer<Ms, GMs>|
                mut_ref_current(mr) == r.1@[0].model_before && mut_ref_future(mr)
                    == r.1@[0].model_after && mut_ref_current(qr) == r.1@[0].queue_before
                    && mut_ref_future(qr) == r.1@[0].queue_after && #[trigger] call_ensures(
                    L::update,
                    (logic, r.1@[0].effect->Msg_0, mr, qr),
                    (),
                ),
            r.1@[0].model_before == old(self).model,
            final(self).model == r.1@.last().model_after,
            match r.0 {
                Ok((directive, cmds)) => {
                    &&& r.1@.last().queue_after.effects@.len() == 0
                    &&& directive == r.1@.last().queue_after.should_render
                    &&& cmds@ == trace_cmds(r.1@)
                    &&& (directive == ShouldRender::Skip ==> final(self).renders@ == old(self).renders@ && final(self).adapter@ == old(self).adapter@ && final(self).render_pending == old(self).render_pending)
                    &&& (directive == ShouldRender::Render ==> final(self).render_pending
                        && final(self).renders@ == old(self).renders@ && final(self).adapter@
                        == old(self).adapter@)
                    &&& (directive == ShouldRender::ForceRenderNow ==> final(self).renders@.len()
                        == old(self).renders@.len() + 1 && final(self).render_pending == old(self).render_pending && (exists|mref: &Mdl, n: Node|
                        *mref == final(self).model && node_wf(n) && final(self).stored == n
                            && #[trigger] call_ensures(L::view, (logic, mref), n)))
                },
                Err(e) => {
                    &&& final(self).renders@ == old(self).renders@
                    &&& final(self).adapter@ == old(self).adapter@
                    &&& final(self).render_pending == old(self).render_pending
                    &&& (e is EffectOverflow ==> r.1@.last().queue_after.effects@.len() > 0)
                    &&& (e is InvalidTree ==> r.1@.last().queue_after.effects@.len() == 0
                        && r.1@.last().queue_after.should_render == ShouldRender::ForceRenderNow
                        && (exists|mref: &Mdl, n: Node|
                        *mref == final(self).model && !node_wf(n) && #[trigger] call_ensures(
                            L::view,
                            (logic, mref),
                            n,
                        )))
                },
            },
    {
        self.state = LoopState::Updating;
        let mut orders: OrdersContainer<Ms, GMs> = OrdersContainer::new();
        let ghost q0 = orders;
        let ghost m0 = self.model;
        let ghost msg0 = msg;
        let first_update = L::update;
        first_update(logic, msg, &mut self.model, &mut orders);
        let ghost mut trace: Seq<DrainStep<Ms, GMs, Mdl>> = Seq::empty();
        proof {
            trace = trace.push(
                DrainStep {
                    effect: Effect::<Ms, GMs>::Msg(msg0),
                    model_before: m0,
                    model_after: self.model,
                    queue_before: q0,
                    queue_after: orders,
                },
            );
            assert(trace[0].effect->Msg_0 == msg0);
            assert(exists|mr: &mut Mdl, qr: &mut OrdersContainer<Ms, GMs>|
                mut_ref_current(mr) == trace[0].model_before && mut_ref_future(mr)
                    == trace[0].model_after && mut_ref_current(qr) == trace[0].queue_before
                    && mut_ref_future(qr) == trace[0].queue_after && #[trigger] call_ensures(
                    L::update,
                    (logic, trace[0].effect->Msg_0, mr, qr),
                    (),
                ));
            assert(trace_cmds(trace) =~= Seq::<ScheduledCmd>::empty()) by {
                assert(trace.drop_last() =~= Seq::<DrainStep<Ms, GMs, Mdl>>::empty());
                assert(trace_cmds(Seq::<DrainStep<Ms, GMs, Mdl>>::empty())
                    =~= Seq::<ScheduledCmd>::empty());
            }
        }
        proof {
            assert(drain_trace_ok(msg0, trace));
        }
        let budget = self.effect_budget;
        let drained = drain_queue(logic, &mut self.model, budget, &mut orders, Ghost(msg0), Ghost(trace));
        let completed = drained.0;
        let cmds = drained.1;
        proof {
            trace = drained.2@;
        }
        if !completed {
            self.state = if self.render_pending {
                LoopState::RenderScheduled
            } else {
                LoopState::Idle
            };
            return (Err(RuntimeError::EffectOverflow), Ghost(trace));
        }
        proof {
            crate::live::lemma_prefix_refl(self.adapter@);
        }
        let directive = orders.should_render;
        match directive {
            ShouldRender::Skip => {
                self.state = if self.render_pending {
                    LoopState::RenderScheduled
                } else {
                    LoopState::Idle
                };
                (Ok((directive, cmds)), Ghost(trace))
            },
            ShouldRender::Render => {
                self.render_pending = true;
                self.state = LoopState::RenderScheduled;
                (Ok((directive, cmds)), Ghost(trace))
            },
            ShouldRender::ForceRenderNow => {
                self.state = LoopState::Rendering;
                match self.render_cycle(logic) {
                    Ok(()) => {
                        self.state = if self.render_pending {
                            LoopState::RenderScheduled
                        } else {
                            LoopState::Idle
                        };
                        (Ok((directive, cmds)), Ghost(trace))
                    },
                    Err(e) => {
                        self.state = if self.render_pending {
                            LoopState::RenderScheduled
                        } else {
                            LoopState::Idle
                        };
                        (Err(e), Ghost(trace))
                    },
                }
            },
        }
    }

    /// The next-frame signal: if a coalesced render is pending, runs
    /// exactly one patch cycle and clears the request; otherwise does
    /// nothing at all. However many dispatches asked for a render since
    /// the last frame, this patches once.
    pub fn render_frame<Ms, GMs, L: AppLogic<Ms, GMs, Mdl = Mdl>>(&mut self, logic: &L) -> (r:
        Result<bool, RuntimeError>)
        requires
            old(self).wf(),
        ensures
            final(self).wf(),
            final(self).model == old(self).model,
            final(self).effect_budget == old(self).effect_budget,
            old(self).adapter@.is_prefix_of(final(self).adapter@),
            final(self).render_pending == false || (final(self).render_pending == old(self).render_pending && r matches Err(_)),
            !old(self).render_pending ==> r == Ok::<bool, RuntimeError>(false),
            match r {
                Ok(true) => old(self).render_pending && final(self).renders@.len() == old(self).renders@.len() + 1 && final(self).render_pending == false && (exists|
                    mref: &Mdl,
                    n: Node,
                |
                    *mref == final(self).model && node_wf(n) && final(self).stored == n
                        && #[trigger] call_ensures(L::view, (logic, mref), n)),
                Ok(false) => !old(self).render_pending && final(self).renders@ == old(self).renders@ && final(self).adapter@ == old(self).adapter@ && *final(self) == *old(self),
                Err(e) => e is InvalidTree && final(self).renders@ == old(self).renders@ && final(self).adapter@ == old(self).adapter@ && (exists|
                    mref: &Mdl,
                    n: Node,
                |
                    *mref == final(self).model && !node_wf(n) && #[trigger] call_ensures(
                        L::view,
                        (logic, mref),
                        n,
                    )),
            },
    {
        if !self.render_pending {
            proof {
                crate::live::lemma_prefix_refl(self.adapter@);
            }
            return Ok(false);
        }
        self.state = LoopState::Rendering;
        match self.render_cycle(logic) {
            Ok(()) => {
                self.render_pending = false;
                self.state = LoopState::Idle;
                Ok(true)
            },
            Err(e) => {
                self.state = LoopState::RenderScheduled;
                Err(e)
            },
        }
    }

    /// How many patch cycles have run.
    pub fn render_count(&self) -> (r: usize)
        ensures
            r == self.renders@.len(),
    {
        self.renders.len()
    }

    /// The live mount container, for inspection.
    pub fn root(&self) -> (r: &LiveNode)
        ensures
            *r == self.live_root,
    {
        &self.live_root
    }

    /// The operation log, for inspection.
    pub fn target(&self) -> (r: &Adapter)
        ensures
            *r == self.adapter,
    {
        &self.adapter
    }

    /// The application model, for inspection.
    pub fn model_ref(&self) -> (r: &Mdl)
        ensures
            *r == self.model,
    {
        &self.model
    }
}

} // verus!
