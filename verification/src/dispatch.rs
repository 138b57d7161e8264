//! Interrupt dispatch protocol.
//!
//! One interrupt is serviced on one context in this order: the source is
//! claimed; its priority is read and the threshold of the context saved; the
//! threshold is raised to that priority, so that only a source of a strictly
//! higher priority can preempt the handler; the handler runs; the threshold
//! goes back to the saved value; the source is completed. A claim that finds
//! no source ends the service at once.
//!
//! The protocol is a state machine: the [`Dispatcher`] decides, and whoever
//! runs it touches the controller and runs the handler. Every [`Action`] is
//! one operation of the driver or one handler invocation, and the [`Event`]
//! that answers it carries what the operation gave.

use crate::controller::Plic;
use crate::layout::SOURCES;
use crate::model::{
    lemma_claimed, lemma_completed, lemma_not_offered_in_service, lemma_threshold,
    lemma_threshold_set, lemma_winner, lemma_with_pending, Model,
};
use crate::nr::Nr;
use crate::priority::Priority;
use crate::registry::{ran, Bound, Handler, Registry};
use vstd::prelude::*;

verus! {

/// What the dispatcher asks for next.
#[derive(Clone, Copy, PartialEq, Eq, Debug)]
pub enum Action<const B: usize> {
    /// Claim an interrupt on the context.
    Claim,
    /// Read the priority of this source.
    ReadPriority(Nr),
    /// Read the threshold of the context.
    ReadThreshold,
    /// Set the threshold of the context to this priority.
    WriteThreshold(Priority<B>),
    /// Run the handler that is bound to this source.
    Invoke(Nr),
    /// Complete this source on the context.
    Complete(Nr),
    /// Leave the trap entry: the service is over.
    Return,
}

/// What happened since the last action was asked for.
#[derive(Clone, Copy, PartialEq, Eq, Debug)]
pub enum Event<const B: usize> {
    /// The hardware trapped into the entry point.
    Trap,
    /// The claim gave this source, or none.
    Claimed(Option<Nr>),
    /// The priority register held this priority.
    Priority(Priority<B>),
    /// The threshold register held this priority.
    Threshold(Priority<B>),
    /// The threshold is written, the handler has returned, or the source is
    /// completed.
    Done,
}

/// How far the service of an interrupt has come.
///
/// A service passes through the states in the order in which they stand
/// here, and ends in `Idle` again. Every state but `Idle` waits for the answer
/// to the action that was asked for on entering it: the source is claimed
/// when `Claiming` ends, the threshold is raised when `Raising` ends and
/// restored when `Restoring` ends, and the source is completed when
/// `Completing` ends.
#[derive(Clone, Copy, PartialEq, Eq, Debug)]
pub enum State<const B: usize> {
    /// No interrupt is being serviced.
    Idle,
    /// A trap came in and the claim is under way.
    Claiming,
    /// `source` is claimed; its priority is being read.
    Claimed { source: Nr },
    /// The priority of `source` is known; the threshold is being read.
    Saving { source: Nr, priority: Priority<B> },
    /// The old threshold is saved; the threshold is being raised.
    Raising { source: Nr, saved: Priority<B> },
    /// The threshold is raised; the handler of `source` is running.
    HandlerRunning { source: Nr, saved: Priority<B> },
    /// The handler has returned; the threshold is being restored.
    Restoring { source: Nr },
    /// The threshold is restored; `source` is being completed.
    Completing { source: Nr },
}

/// An event came in that the state of the dispatcher does not wait for.
#[derive(Clone, Copy, PartialEq, Eq, Debug, Structural)]
pub struct Unexpected;

/// The transitions of the protocol: the state that follows `state` on `event`
/// and the action to take, or `None` where `state` does not wait for `event`.
pub open spec fn next<const B: usize>(state: State<B>, event: Event<B>) -> Option<
    (State<B>, Action<B>),
> {
    match (state, event) {
        (State::Idle, Event::Trap) => Some((State::Claiming, Action::Claim)),
        (State::Claiming, Event::Claimed(None)) => Some((State::Idle, Action::Return)),
        (State::Claiming, Event::Claimed(Some(source))) => Some(
            (State::Claimed { source }, Action::ReadPriority(source)),
        ),
        (State::Claimed { source }, Event::Priority(priority)) => Some(
            (State::Saving { source, priority }, Action::ReadThreshold),
        ),
        (State::Saving { source, priority }, Event::Threshold(saved)) => Some(
            (State::Raising { source, saved }, Action::WriteThreshold(priority)),
        ),
        (State::Raising { source, saved }, Event::Done) => Some(
            (State::HandlerRunning { source, saved }, Action::Invoke(source)),
        ),
        (State::HandlerRunning { source, saved }, Event::Done) => Some(
            (State::Restoring { source }, Action::WriteThreshold(saved)),
        ),
        (State::Restoring { source }, Event::Done) => Some(
            (State::Completing { source }, Action::Complete(source)),
        ),
        (State::Completing { source }, Event::Done) => Some((State::Idle, Action::Return)),
        _ => None,
    }
}

/// The number of actions that a service in `state` has still to ask for.
pub open spec fn remaining<const B: usize>(state: State<B>) -> nat {
    match state {
        State::Idle => 0,
        State::Claiming => 7,
        State::Claimed { .. } => 6,
        State::Saving { .. } => 5,
        State::Raising { .. } => 4,
        State::HandlerRunning { .. } => 3,
        State::Restoring { .. } => 2,
        State::Completing { .. } => 1,
    }
}

/// The dispatch protocol of one context.
pub struct Dispatcher<const B: usize> {
    context: usize,
    state: State<B>,
}

impl<const B: usize> Dispatcher<B> {
    /// The context that the dispatcher serves.
    pub closed spec fn context_of(&self) -> usize {
        self.context
    }

    /// The state of the dispatcher.
    pub closed spec fn state_of(&self) -> State<B> {
        self.state
    }

    /// An idle dispatcher for `context`.
    pub fn new(context: usize) -> (r: Self)
        ensures
            r.context_of() == context,
            r.state_of() == State::<B>::Idle,
    {
        Dispatcher { context, state: State::Idle }
    }

    /// The context that the dispatcher serves.
    pub fn context(&self) -> (r: usize)
        ensures
            r == self.context_of(),
    {
        self.context
    }

    /// The state of the dispatcher.
    pub fn state(&self) -> (r: State<B>)
        ensures
            r == self.state_of(),
    {
        self.state
    }

    /// Tells whether no interrupt is being serviced.
    pub fn is_idle(&self) -> (r: bool)
        ensures
            r == (self.state_of() == State::<B>::Idle),
    {
        match self.state {
            State::Idle => true,
            _ => false,
        }
    }

    /// Takes an event and gives the action that the protocol asks for next.
    ///
    /// An event that the state does not wait for is refused and changes
    /// nothing.
    pub fn step(&mut self, event: Event<B>) -> (r: Result<Action<B>, Unexpected>)
        ensures
            final(self).context_of() == old(self).context_of(),
            match next(old(self).state_of(), event) {
                Some((state, action)) => final(self).state_of() == state && r == Ok::<
                    Action<B>,
                    Unexpected,
                >(action),
                None => final(self).state_of() == old(self).state_of() && r == Err::<
                    Action<B>,
                    Unexpected,
                >(Unexpected),
            },
    {
        let (state, action) = match (self.state, event) {
            (State::Idle, Event::Trap) => (State::Claiming, Action::Claim),
            (State::Claiming, Event::Claimed(None)) => (State::Idle, Action::Return),
            (State::Claiming, Event::Claimed(Some(source))) => (
                State::Claimed { source },
                Action::ReadPriority(source),
            ),
            (State::Claimed { source }, Event::Priority(priority)) => (
                State::Saving { source, priority },
                Action::ReadThreshold,
            ),
            (State::Saving { source, priority }, Event::Threshold(saved)) => (
                State::Raising { source, saved },
                Action::WriteThreshold(priority),
            ),
            (State::Raising { source, saved }, Event::Done) => (
                State::HandlerRunning { source, saved },
                Action::Invoke(source),
            ),
            (State::HandlerRunning { source, saved }, Event::Done) => (
                State::Restoring { source },
                Action::WriteThreshold(saved),
            ),
            (State::Restoring { source }, Event::Done) => (
                State::Completing { source },
                Action::Complete(source),
            ),
            (State::Completing { source }, Event::Done) => (State::Idle, Action::Return),
            _ => {
                return Err(Unexpected);
            },
        };
        self.state = state;
        Ok(action)
    }
}

/// What the dispatcher does in `state` when the events of `events` come in
/// one after the other: the state that it ends in and the actions that it asks
/// for, or `None` where one of the events is not the one awaited.
pub open spec fn run<const B: usize>(state: State<B>, events: Seq<Event<B>>) -> Option<
    (State<B>, Seq<Action<B>>),
>
    decreases events.len(),
{
    if events.len() == 0 {
        Some((state, Seq::empty()))
    } else {
        match run(state, events.drop_last()) {
            Some((reached, actions)) => match next(reached, events.last()) {
                Some((following, action)) => Some((following, actions.push(action))),
                None => None,
            },
            None => None,
        }
    }
}

/// A trap whose claim finds no source is spurious: the dispatcher asks for
/// the claim and for nothing else, and is idle again.
pub proof fn lemma_spurious<const B: usize>()
    ensures
        run(State::<B>::Idle, seq![Event::<B>::Trap, Event::<B>::Claimed(None)]) == Some(
            (State::<B>::Idle, seq![Action::<B>::Claim, Action::<B>::Return]),
        ),
{
    let e = seq![Event::<B>::Trap, Event::<B>::Claimed(None)];
    let a = seq![Action::<B>::Claim, Action::<B>::Return];
    let idle = State::<B>::Idle;
    assert(run(idle, e.take(0)) == Some((idle, a.take(0)))) by {
        assert(e.take(0) =~= Seq::<Event<B>>::empty());
        assert(a.take(0) =~= Seq::<Action<B>>::empty());
    }
    lemma_run_step(idle, e, a, 0, idle, State::<B>::Claiming);
    lemma_run_step(idle, e, a, 1, State::<B>::Claiming, idle);
    assert(e.take(2) =~= e);
    assert(a.take(2) =~= a);
}

/// The service of a claimed source: whatever the source, its priority and the
/// threshold found, the dispatcher asks in this order for the claim, the
/// priority of the source, the threshold, the threshold raised to that
/// priority, the handler of the source, the threshold put back to what it was,
/// and the completion of the source; then it is idle again.
pub proof fn lemma_service<const B: usize>(source: Nr, priority: Priority<B>, saved: Priority<B>)
    ensures
        run(
            State::<B>::Idle,
            seq![
                Event::<B>::Trap,
                Event::<B>::Claimed(Some(source)),
                Event::<B>::Priority(priority),
                Event::<B>::Threshold(saved),
                Event::<B>::Done,
                Event::<B>::Done,
                Event::<B>::Done,
                Event::<B>::Done,
            ],
        ) == Some(
            (
                State::<B>::Idle,
                seq![
                    Action::<B>::Claim,
                    Action::<B>::ReadPriority(source),
                    Action::<B>::ReadThreshold,
                    Action::<B>::WriteThreshold(priority),
                    Action::<B>::Invoke(source),
                    Action::<B>::WriteThreshold(saved),
                    Action::<B>::Complete(source),
                    Action::<B>::Return,
                ],
            ),
        ),
{
    let e = seq![
        Event::<B>::Trap,
        Event::<B>::Claimed(Some(source)),
        Event::<B>::Priority(priority),
        Event::<B>::Threshold(saved),
        Event::<B>::Done,
        Event::<B>::Done,
        Event::<B>::Done,
        Event::<B>::Done,
    ];
    let a = seq![
        Action::<B>::Claim,
        Action::<B>::ReadPriority(source),
        Action::<B>::ReadThreshold,
        Action::<B>::WriteThreshold(priority),
        Action::<B>::Invoke(source),
        Action::<B>::WriteThreshold(saved),
        Action::<B>::Complete(source),
        Action::<B>::Return,
    ];
    let idle = State::<B>::Idle;
    assert(run(idle, e.take(0)) == Some((idle, a.take(0)))) by {
        assert(e.take(0) =~= Seq::<Event<B>>::empty());
        assert(a.take(0) =~= Seq::<Action<B>>::empty());
    }
    lemma_run_step(idle, e, a, 0, idle, State::<B>::Claiming);
    lemma_run_step(idle, e, a, 1, State::<B>::Claiming, State::<B>::Claimed { source });
    lemma_run_step(
        idle,
        e,
        a,
        2,
        State::<B>::Claimed { source },
        State::<B>::Saving { source, priority },
    );
    lemma_run_step(
        idle,
        e,
        a,
        3,
        State::<B>::Saving { source, priority },
        State::<B>::Raising { source, saved },
    );
    lemma_run_step(
        idle,
        e,
        a,
        4,
        State::<B>::Raising { source, saved },
        State::<B>::HandlerRunning { source, saved },
    );
    lemma_run_step(
        idle,
        e,
        a,
        5,
        State::<B>::HandlerRunning { source, saved },
        State::<B>::Restoring { source },
    );
    lemma_run_step(
        idle,
        e,
        a,
        6,
        State::<B>::Restoring { source },
        State::<B>::Completing { source },
    );
    lemma_run_step(idle, e, a, 7, State::<B>::Completing { source }, idle);
    assert(e.take(8) =~= e);
    assert(a.take(8) =~= a);
}

/// One more event of a run.
proof fn lemma_run_step<const B: usize>(
    start: State<B>,
    events: Seq<Event<B>>,
    actions: Seq<Action<B>>,
    k: int,
    reached: State<B>,
    following: State<B>,
)
    requires
        0 <= k < events.len(),
        k < actions.len(),
        run(start, events.take(k)) == Some((reached, actions.take(k))),
        next(reached, events[k]) == Some((following, actions[k])),
    ensures
        run(start, events.take(k + 1)) == Some((following, actions.take(k + 1))),
{
    assert(events.take(k + 1).drop_last() =~= events.take(k));
    assert(actions.take(k).push(actions[k]) =~= actions.take(k + 1));
}

/// Every transition but the trap brings the service one action closer to its
/// end, and the service is over exactly when the dispatcher asks to return.
pub proof fn lemma_progress<const B: usize>(state: State<B>, event: Event<B>)
    requires
        next(state, event) is Some,
    ensures
        state != State::<B>::Idle ==> remaining(next(state, event).unwrap().0) < remaining(state),
        next(state, event).unwrap().1 == Action::<B>::Return <==> next(state, event).unwrap().0
            == State::<B>::Idle,
{
}

/// The controller while the handler of source `s` runs on context `c`, where
/// `m` is the controller that the trap found: the source is claimed, and the
/// threshold of the context is the priority of the source.
pub open spec fn handling(m: Model, c: int, s: int) -> Model {
    m.claimed(c, s).with_threshold(c, m.priority[s] as nat)
}

/// The controller after the service of source `s` on context `c`, where `m`
/// is the controller that the trap found: after the handler has run, the
/// threshold of the context is what it was in `m`, and the source is
/// completed.
pub open spec fn serviced(m: Model, c: int, s: int) -> Model {
    handling(m, c, s).with_threshold(c, m.threshold[c] as nat).completed(c, s)
}

/// A service leaves the controller as the trap found it, but for the pending
/// bit of the source: every priority, enable bit and threshold is as before,
/// the source is out of service again, and it is pending only if its
/// interrupt line is still asserted.
pub proof fn lemma_serviced(m: Model, c: int)
    requires
        m.wf(),
        0 <= c < m.contexts(),
        m.winner(c) != 0,
    ensures
        serviced(m, c, m.winner(c)).wf(),
        serviced(m, c, m.winner(c)).priority == m.priority,
        serviced(m, c, m.winner(c)).enables == m.enables,
        serviced(m, c, m.winner(c)).threshold == m.threshold,
        serviced(m, c, m.winner(c)).asserted == m.asserted,
        serviced(m, c, m.winner(c)).claimant == m.claimant,
        serviced(m, c, m.winner(c)).is_pending(m.winner(c)) == m.asserted[m.winner(c)],
        forall|t: int|
            0 <= t < SOURCES && t != m.winner(c) ==> serviced(m, c, m.winner(c)).is_pending(t)
                == m.is_pending(t),
{
    let s = m.winner(c);
    lemma_winner(m, c);
    lemma_claimed(m, c, s);
    let claimed = m.claimed(c, s);
    lemma_threshold_set(claimed, c, m.priority[s] as nat);
    let raised = handling(m, c, s);
    assert(raised.wf());
    lemma_threshold_set(raised, c, m.threshold[c] as nat);
    let restored = raised.with_threshold(c, m.threshold[c] as nat);
    assert(restored.threshold =~= m.threshold);
    assert(restored.wf());
    lemma_completed(restored, c, s);
    let done = serviced(m, c, s);
    assert(done.claimant =~= m.claimant);
    let open = Model { claimant: restored.claimant.update(s, None), ..restored };
    assert forall|t: int| 0 <= t < SOURCES implies done.is_pending(t) == (if t == s {
        m.asserted[s]
    } else {
        m.is_pending(t)
    }) by {
        lemma_with_pending(m, s, false, t);
        if m.asserted[s] {
            lemma_with_pending(open, s, true, t);
        }
    }
}

/// While the handler of a claimed source runs, the threshold of the context
/// is the priority of that source: a claim of the context gives only a
/// source of a strictly higher priority, and never the source in service.
pub proof fn lemma_preemption(m: Model, c: int)
    requires
        m.wf(),
        0 <= c < m.contexts(),
        m.winner(c) != 0,
    ensures
        handling(m, c, m.winner(c)).wf(),
        handling(m, c, m.winner(c)).threshold[c] == m.priority[m.winner(c)],
        handling(m, c, m.winner(c)).in_service(m.winner(c)),
        handling(m, c, m.winner(c)).winner(c) != m.winner(c),
        handling(m, c, m.winner(c)).winner(c) != 0 ==> m.priority[handling(
            m,
            c,
            m.winner(c),
        ).winner(c)] > m.priority[m.winner(c)],
{
    let s = m.winner(c);
    lemma_winner(m, c);
    lemma_claimed(m, c, s);
    let claimed = m.claimed(c, s);
    lemma_threshold_set(claimed, c, m.priority[s] as nat);
    let raised = handling(m, c, s);
    assert(raised.wf());
    lemma_not_offered_in_service(raised, s, c);
    if raised.winner(c) != 0 {
        lemma_threshold(raised, c);
    }
}

/// What holds of controller, registry and dispatcher when `event` comes in,
/// in a service that found the controller `m` and the registry `g`.
spec fn awaited<const B: usize, H: Handler<V>, V>(
    state: State<B>,
    event: Event<B>,
    m: Model,
    g: Map<nat, Bound<H, V>>,
    c: int,
    now: Model,
    bound: Map<nat, Bound<H, V>>,
) -> bool {
    let s = m.winner(c);
    match state {
        State::Idle => event == Event::<B>::Trap && now == m && bound == g,
        State::Claiming => {
            &&& bound == g
            &&& match event {
                Event::Claimed(None) => s == 0 && now == m,
                Event::Claimed(Some(source)) => source@ == s && s != 0 && now == m.claimed(c, s),
                _ => false,
            }
        },
        State::Claimed { source } => {
            &&& event matches Event::Priority(priority)
            &&& priority@ == m.priority[s]
            &&& source@ == s
            &&& now == m.claimed(c, s)
            &&& bound == g
        },
        State::Saving { source, priority } => {
            &&& event matches Event::Threshold(saved)
            &&& saved@ == m.threshold[c]
            &&& priority@ == m.priority[s]
            &&& source@ == s
            &&& now == m.claimed(c, s)
            &&& bound == g
        },
        State::Raising { source, saved } => {
            &&& event == Event::<B>::Done
            &&& saved@ == m.threshold[c]
            &&& source@ == s
            &&& now == handling(m, c, s)
            &&& bound == g
        },
        State::HandlerRunning { source, saved } => {
            &&& event == Event::<B>::Done
            &&& saved@ == m.threshold[c]
            &&& source@ == s
            &&& now == handling(m, c, s)
            &&& ran(g, bound, s as nat)
        },
        State::Restoring { source } => {
            &&& event == Event::<B>::Done
            &&& source@ == s
            &&& now == handling(m, c, s).with_threshold(c, m.threshold[c] as nat)
            &&& ran(g, bound, s as nat)
        },
        State::Completing { source } => {
            &&& event == Event::<B>::Done
            &&& source@ == s
            &&& now == serviced(m, c, s)
            &&& ran(g, bound, s as nat)
        },
    }
}

/// Services one trap of `context`: runs the dispatch protocol on the
/// controller, with the handlers of the registry.
///
/// A trap that finds no source to claim changes nothing. Else the source that
/// wins the claim is serviced: it is claimed, the threshold of the context is
/// raised to its priority, its handler runs once on its own cells, the
/// threshold goes back to what it was, and the source is completed.
///
/// A claimed source without a handler has no service: the source that wins
/// the claim, if there is one, must be bound.
pub fn service<const P: usize, const B: usize, H: Handler<V>, V>(
    plic: &mut Plic<P, B>,
    registry: &mut Registry<H, V>,
    context: usize,
) -> (r: Option<Nr>)
    requires
        old(plic).wf(),
        old(registry).wf(),
        context < old(plic)@.contexts(),
        old(plic)@.winner(context as int) != 0 ==> old(registry)@.contains_key(
            old(plic)@.winner(context as int) as nat,
        ),
    ensures
        final(plic).wf(),
        final(registry).wf(),
        match r {
            None => {
                &&& old(plic)@.winner(context as int) == 0
                &&& final(plic)@ == old(plic)@
                &&& final(registry)@ == old(registry)@
            },
            Some(source) => {
                &&& source@ == old(plic)@.winner(context as int)
                &&& final(plic)@ == serviced(old(plic)@, context as int, source@ as int)
                &&& ran(old(registry)@, final(registry)@, source@)
            },
        },
{
    let ghost m = plic@;
    let ghost g = registry@;
    let ghost c = context as int;
    proof {
        plic.lemma_wf();
        lemma_winner(m, c);
    }
    let mut dispatcher = Dispatcher::<B>::new(context);
    let mut claimed: Option<Nr> = None;
    let mut event = Event::<B>::Trap;
    loop
        invariant
            m == old(plic)@,
            g == old(registry)@,
            c == context,
            plic.wf(),
            registry.wf(),
            m.wf(),
            0 <= c < m.contexts(),
            plic@.contexts() == m.contexts(),
            m.winner(c) != 0 ==> g.contains_key(m.winner(c) as nat),
            awaited(dispatcher.state_of(), event, m, g, c, plic@, registry@),
            match dispatcher.state_of() {
                State::Idle => true,
                State::Claiming => event == Event::<B>::Claimed(claimed),
                _ => claimed matches Some(source) && source@ == m.winner(c) && m.winner(c) != 0,
            },
        decreases
            if dispatcher.state_of() == State::<B>::Idle {
                8
            } else {
                remaining(dispatcher.state_of())
            },
    {
        let action = dispatcher.step(event).unwrap();
        event = match action {
            Action::Claim => {
                claimed = plic.claim(context);
                Event::Claimed(claimed)
            },
            Action::ReadPriority(source) => Event::Priority(plic.get_priority(source)),
            Action::ReadThreshold => Event::Threshold(plic.get_threshold(context)),
            Action::WriteThreshold(priority) => {
                plic.set_threshold(context, priority);
                Event::Done
            },
            Action::Invoke(source) => {
                registry.invoke(source);
                Event::Done
            },
            Action::Complete(source) => {
                plic.complete(context, source);
                Event::Done
            },
            Action::Return => {
                return claimed;
            },
        };
    }
}

} // verus!
