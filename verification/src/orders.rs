//! The per-cycle effect queue ("orders"): the API an update function uses
//! to emit follow-up messages, schedule asynchronous commands, and steer
//! whether the cycle ends in a render. A proxy wraps the queue for a child
//! component under a message-lifting function, composably: a message sent
//! three component levels deep is lifted exactly three times, once per
//! level, and delivery order always matches call order.

use vstd::prelude::*;

verus! {

/// The render directive in force at the end of an update cycle. Later
/// writes within one cycle overwrite earlier ones: the last write wins.
#[derive(PartialEq, Eq, Structural, Clone, Copy, Debug)]
pub enum ShouldRender {
    /// Coalesce with any pending request and schedule a render.
    Render,
    /// Patch synchronously, bypassing coalescing.
    ForceRenderNow,
    /// Suppress render scheduling for this cycle.
    Skip,
}

/// One deferred unit of work produced during an update. A command is
/// identified by a token: the driver that owns the asynchronous work maps
/// the token to a task whose resolution is delivered later as an ordinary
/// message.
pub enum Effect<Ms, GMs> {
    /// A synchronous follow-up message, drained in order within the cycle.
    Msg(Ms),
    /// A synchronous follow-up for the cross-cutting message type.
    GMsg(GMs),
    /// A deferred command resolving to an ordinary message.
    Cmd(u64),
    /// A deferred command resolving to a cross-cutting message.
    GCmd(u64),
}

/// The root effect queue of one update cycle: a FIFO buffer of effects
/// plus the cycle's render directive.
pub struct OrdersContainer<Ms, GMs> {
    pub should_render: ShouldRender,
    pub effects: Vec<Effect<Ms, GMs>>,
}

impl<Ms, GMs> OrdersContainer<Ms, GMs> {
    /// A fresh queue: no effects, and rendering is the default directive.
    pub fn new() -> (r: OrdersContainer<Ms, GMs>)
        ensures
            r.should_render == ShouldRender::Render,
            r.effects@ == Seq::<Effect<Ms, GMs>>::empty(),
    {
        OrdersContainer { should_render: ShouldRender::Render, effects: Vec::new() }
    }

    /// Asks for a coalesced render at the end of the cycle.
    pub fn render(&mut self) -> (r: &mut OrdersContainer<Ms, GMs>)
        ensures
            r.should_render == ShouldRender::Render,
            r.effects@ == old(self).effects@,
            *final(self) == *final(r),
    {
        self.should_render = ShouldRender::Render;
        self
    }

    /// Asks for a synchronous render before the cycle returns.
    pub fn force_render_now(&mut self) -> (r: &mut OrdersContainer<Ms, GMs>)
        ensures
            r.should_render == ShouldRender::ForceRenderNow,
            r.effects@ == old(self).effects@,
            *final(self) == *final(r),
    {
        self.should_render = ShouldRender::ForceRenderNow;
        self
    }

    /// Suppresses rendering for this cycle.
    pub fn skip(&mut self) -> (r: &mut OrdersContainer<Ms, GMs>)
        ensures
            r.should_render == ShouldRender::Skip,
            r.effects@ == old(self).effects@,
            *final(self) == *final(r),
    {
        self.should_render = ShouldRender::Skip;
        self
    }

    /// Enqueues a follow-up message. Messages are delivered in the order
    /// they were sent.
    pub fn send_msg(&mut self, msg: Ms) -> (r: &mut OrdersContainer<Ms, GMs>)
        ensures
            r.should_render == old(self).should_render,
            r.effects@ == old(self).effects@.push(Effect::Msg(msg)),
            *final(self) == *final(r),
    {
        self.effects.push(Effect::Msg(msg));
        self
    }

    /// Schedules the command named by `token`. Commands are handed to the
    /// driver in the order they were scheduled.
    pub fn perform_cmd(&mut self, token: u64) -> (r: &mut OrdersContainer<Ms, GMs>)
        ensures
            r.should_render == old(self).should_render,
            r.effects@ == old(self).effects@.push(Effect::Cmd(token)),
            *final(self) == *final(r),
    {
        self.effects.push(Effect::Cmd(token));
        self
    }

    /// Enqueues a follow-up for the cross-cutting message type.
    pub fn send_g_msg(&mut self, g_msg: GMs) -> (r: &mut OrdersContainer<Ms, GMs>)
        ensures
            r.should_render == old(self).should_render,
            r.effects@ == old(self).effects@.push(Effect::GMsg(g_msg)),
            *final(self) == *final(r),
    {
        self.effects.push(Effect::GMsg(g_msg));
        self
    }

    /// Schedules a command resolving to a cross-cutting message.
    pub fn perform_g_cmd(&mut self, token: u64) -> (r: &mut OrdersContainer<Ms, GMs>)
        ensures
            r.should_render == old(self).should_render,
            r.effects@ == old(self).effects@.push(Effect::GCmd(token)),
            *final(self) == *final(r),
    {
        self.effects.push(Effect::GCmd(token));
        self
    }

    /// Hands out the oldest effect: the queue drains strictly in the
    /// order effects were enqueued, so a message sent earlier is always
    /// delivered before one sent later.
    pub fn take_next(&mut self) -> (e: Effect<Ms, GMs>)
        requires
            old(self).effects@.len() > 0,
        ensures
            e == old(self).effects@[0],
            final(self).effects@ == old(self).effects@.subrange(
                1,
                old(self).effects@.len() as int,
            ),
            final(self).should_render == old(self).should_render,
    {
        let e = self.effects.remove(0);
        proof {
            assert(self.effects@ =~= old(self).effects@.subrange(
                1,
                old(self).effects@.len() as int,
            ));
        }
        e
    }

    /// Nests the queue under a message-lifting function for a child
    /// component.
    pub fn proxy<ChildMs, F: Fn(ChildMs) -> Ms>(&mut self, f: F) -> (r: OrdersProxy<
        '_,
        ChildMs,
        Ms,
        GMs,
        F,
    >)
        ensures
            r.container.should_render == old(self).should_render,
            r.container.effects@ == old(self).effects@,
            r.f == f,
            *final(self) == *final(r.container),
    {
        OrdersProxy::new(self, f)
    }
}

/// A child component's view of the effect queue: every message sent
/// through it is lifted into the parent's message type before it reaches
/// the shared buffer.
#[verifier::reject_recursive_types(AppMs)]
#[verifier::reject_recursive_types(GMs)]
pub struct OrdersProxy<'a, Ms, AppMs, GMs, F: Fn(Ms) -> AppMs> {
    pub container: &'a mut OrdersContainer<AppMs, GMs>,
    pub f: F,
    pub child: core::marker::PhantomData<Ms>,
}

impl<'a, Ms, AppMs, GMs, F: Fn(Ms) -> AppMs> OrdersProxy<'a, Ms, AppMs, GMs, F> {
    /// Wraps a queue under a lifting function.
    pub fn new(container: &'a mut OrdersContainer<AppMs, GMs>, f: F) -> (r: OrdersProxy<
        'a,
        Ms,
        AppMs,
        GMs,
        F,
    >)
        ensures
            r.container.should_render == old(container).should_render,
            r.container.effects@ == old(container).effects@,
            r.f == f,
            *final(container) == *final(r.container),
    {
        OrdersProxy { container, f, child: core::marker::PhantomData }
    }

    /// Asks for a coalesced render at the end of the cycle.
    pub fn render(&mut self) -> (r: &mut OrdersProxy<'a, Ms, AppMs, GMs, F>)
        ensures
            r.container.should_render == ShouldRender::Render,
            r.container.effects@ == old(self).container.effects@,
            r.f == old(self).f,
            *final(self) == *final(r),
    {
        self.container.should_render = ShouldRender::Render;
        self
    }

    /// Asks for a synchronous render before the cycle returns.
    pub fn force_render_now(&mut self) -> (r: &mut OrdersProxy<'a, Ms, AppMs, GMs, F>)
        ensures
            r.container.should_render == ShouldRender::ForceRenderNow,
            r.container.effects@ == old(self).container.effects@,
            r.f == old(self).f,
            *final(self) == *final(r),
    {
        self.container.should_render = ShouldRender::ForceRenderNow;
        self
    }

    /// Suppresses rendering for this cycle.
    pub fn skip(&mut self) -> (r: &mut OrdersProxy<'a, Ms, AppMs, GMs, F>)
        ensures
            r.container.should_render == ShouldRender::Skip,
            r.container.effects@ == old(self).container.effects@,
            r.f == old(self).f,
            *final(self) == *final(r),
    {
        self.container.should_render = ShouldRender::Skip;
        self
    }

    /// Enqueues a child message: it is lifted through this proxy's
    /// function and lands at the back of the shared buffer, so delivery
    /// order matches call order across the whole component tree.
    pub fn send_msg(&mut self, msg: Ms) -> (r: &mut OrdersProxy<'a, Ms, AppMs, GMs, F>)
        requires
            call_requires(old(self).f, (msg,)),
        ensures
            r.container.should_render == old(self).container.should_render,
            r.f == old(self).f,
            exists|lifted: AppMs|
                call_ensures(old(self).f, (msg,), lifted) && r.container.effects@ == old(
                    self,
                ).container.effects@.push(Effect::Msg(lifted)),
            *final(self) == *final(r),
    {
        let lifted = (self.f)(msg);
        self.container.effects.push(Effect::Msg(lifted));
        self
    }

    /// Schedules the command named by `token` on the shared buffer. The
    /// driver lifts its eventual result the way this proxy would.
    pub fn perform_cmd(&mut self, token: u64) -> (r: &mut OrdersProxy<'a, Ms, AppMs, GMs, F>)
        ensures
            r.container.should_render == old(self).container.should_render,
            r.f == old(self).f,
            r.container.effects@ == old(self).container.effects@.push(
                Effect::Cmd(token),
            ),
            *final(self) == *final(r),
    {
        self.container.effects.push(Effect::Cmd(token));
        self
    }

    /// Enqueues a cross-cutting message, which no lifting touches.
    pub fn send_g_msg(&mut self, g_msg: GMs) -> (r: &mut OrdersProxy<'a, Ms, AppMs, GMs, F>)
        ensures
            r.container.should_render == old(self).container.should_render,
            r.f == old(self).f,
            r.container.effects@ == old(self).container.effects@.push(
                Effect::GMsg(g_msg),
            ),
            *final(self) == *final(r),
    {
        self.container.effects.push(Effect::GMsg(g_msg));
        self
    }

    /// Applies this proxy's lifting function to one message without
    /// enqueueing it: the driver of a scheduled command uses this to lift
    /// the command's eventual resolution exactly as a message sent
    /// through this proxy would have been lifted.
    pub fn lift(&self, msg: Ms) -> (r: AppMs)
        requires
            call_requires(self.f, (msg,)),
        ensures
            call_ensures(self.f, (msg,), r),
    {
        (self.f)(msg)
    }

    /// Nests one level deeper: the child's messages are lifted by `g`
    /// and then by this proxy's own function, so a message produced
    /// several component levels deep is wrapped once per level, in order.
    pub fn proxy<ChildMs, G: Fn(ChildMs) -> Ms>(self, g: G) -> (r: OrdersProxy<
        'a,
        ChildMs,
        AppMs,
        GMs,
        impl Fn(ChildMs) -> AppMs,
    >) where F: Copy, G: Copy
        ensures
            r.container.should_render == old(self.container).should_render,
            r.container.effects@ == old(self.container).effects@,
            *final(self.container) == *final(r.container),
            forall|c: ChildMs|
                (call_requires(g, (c,)) && (forall|m: Ms|
                    call_ensures(g, (c,), m) ==> call_requires(self.f, (m,)))) ==> call_requires(
                    r.f,
                    (c,),
                ),
            forall|c: ChildMs, a: AppMs|
                call_ensures(r.f, (c,), a) ==> exists|m: Ms|
                    call_ensures(g, (c,), m) && call_ensures(self.f, (m,), a),
    {
        let outer = self.f;
        let composed = move |c: ChildMs| -> (a: AppMs)
            requires
                call_requires(g, (c,)),
                forall|m: Ms| call_ensures(g, (c,), m) ==> call_requires(outer, (m,)),
            ensures
                exists|m: Ms| call_ensures(g, (c,), m) && call_ensures(outer, (m,), a),
            {
                let m = g(c);
                outer(m)
            };
        OrdersProxy { container: self.container, f: composed, child: core::marker::PhantomData }
    }

    /// Schedules a command resolving to a cross-cutting message.
    pub fn perform_g_cmd(&mut self, token: u64) -> (r: &mut OrdersProxy<'a, Ms, AppMs, GMs, F>)
        ensures
            r.container.should_render == old(self).container.should_render,
            r.f == old(self).f,
            r.container.effects@ == old(self).container.effects@.push(
                Effect::GCmd(token),
            ),
            *final(self) == *final(r),
    {
        self.container.effects.push(Effect::GCmd(token));
        self
    }
}

} // verus!
