//! The orchestrator: it owns the action queue and the ordered components,
//! makes every decision of the main loop, and leaves the outside work —
//! awaiting the next event, running persistence, pushing a frame to the
//! terminal — to its caller, which performs each returned [`Directive`].
//!
//! A ghost trace of [`Mark`]s records what the loop has done: every dispatched
//! action in dispatch order, and every persistence request. The
//! well-formedness predicate [`App::wf`] ties the trace to the queue — what
//! was dispatched plus what is pending is exactly what was submitted, in
//! order — and pins when persistence may be requested. A second ghost record,
//! the journal of [`Call`]s, fixes the fan-out discipline: every startup,
//! event, update and draw pass reaches the main component first and then each
//! attached component in order, exactly once, whatever any single call
//! returns.

use vstd::prelude::*;

use crate::component::Component;
use crate::layout::{left_pane, right_pane, split_panes};
use crate::queue::{queue_contents, ActionQueue};
use crate::types::{Action, Event, KeyCode, KeyEvent, KeyMods, Rect, Size};

verus! {

/// Where the orchestrator stands between two directives.
#[derive(Clone, Copy, Debug, PartialEq, Eq, Structural)]
pub enum Phase {
    /// Processing events and draining the queue.
    Running,
    /// A tick that is a multiple of ten was dispatched; persistence is in
    /// flight.
    SavingTick,
    /// The queue was drained with quit requested; the last persistence is in
    /// flight.
    SavingFinal,
    /// The loop is over.
    Stopped,
}

/// What the caller must do before asking the orchestrator again.
#[derive(Clone, Copy, Debug, PartialEq, Eq, Structural)]
pub enum Directive {
    /// Queued actions may remain: call [`App::next`] again.
    Continue,
    /// The queue is drained: await the next event and report it through
    /// [`App::on_event`].
    Wait,
    /// Run the main component's persistence, then report back through
    /// [`App::on_saved`].
    Save,
    /// Render one frame through [`App::render`], then call [`App::next`]
    /// again.
    Draw,
    /// The loop is over: restore the terminal.
    Exit,
}

/// One entry of the loop's ghost trace.
pub enum Mark {
    /// An action was dequeued and handled.
    Dispatched(Action),
    /// Persistence was requested because a due tick was dispatched.
    SaveDue,
    /// The one persistence request that precedes shutdown.
    FinalSave,
}

/// Which component a call of the ghost journal went to.
pub enum Slot {
    /// The main component.
    Main,
    /// The log pane.
    Log,
    /// The attached component at this position of the attachment order.
    Attached(int),
}

/// One entry of the ghost journal of component calls: which lifecycle method
/// the orchestrator invoked, on which component, with what.
pub enum Call {
    /// `init`, during the startup fan-out.
    Init(Slot),
    /// `handle_events`, with the event fanned out.
    Handle(Slot, Event),
    /// `update`, with the action fanned out.
    Update(Slot, Action),
    /// `draw`, into the given region.
    Draw(Slot, Rect),
}

/// The calls of one startup fan-out that reached the first `k` attached
/// components: the main component first, then each attached one in order.
pub open spec fn startup_pass(k: int) -> Seq<Call> {
    seq![Call::Init(Slot::Main)] + Seq::new(k as nat, |j: int| Call::Init(Slot::Attached(j)))
}

/// The calls of one event fan-out over `n` attached components: the main
/// component first, then each attached one in order, all with the same event.
pub open spec fn handle_pass(e: Event, n: int) -> Seq<Call> {
    seq![Call::Handle(Slot::Main, e)] + Seq::new(
        n as nat,
        |j: int| Call::Handle(Slot::Attached(j), e),
    )
}

/// The calls of one update fan-out over `n` attached components: the main
/// component first, then each attached one in order, all with the same
/// action.
pub open spec fn update_pass(a: Action, n: int) -> Seq<Call> {
    seq![Call::Update(Slot::Main, a)] + Seq::new(
        n as nat,
        |j: int| Call::Update(Slot::Attached(j), a),
    )
}

/// The calls of one full render pass over `n` attached components: the main
/// component into the left pane, the log pane into the right pane, then
/// every attached component into the left pane, in order — whatever any
/// single draw returns.
pub open spec fn draw_pass(area: Rect, n: int) -> Seq<Call> {
    seq![Call::Draw(Slot::Main, left_pane(area)), Call::Draw(Slot::Log, right_pane(area))]
        + Seq::new(n as nat, |j: int| Call::Draw(Slot::Attached(j), left_pane(area)))
}

/// The actions whose dispatch triggers persistence: exactly the ticks whose
/// sequence number is a multiple of ten.
pub open spec fn saves_on(a: Action) -> bool {
    match a {
        Action::Tick(i) => i % 10 == 0,
        _ => false,
    }
}

/// The actions dispatched so far, in dispatch order, read off a trace.
pub open spec fn dispatched_of(t: Seq<Mark>) -> Seq<Action>
    decreases t.len(),
{
    if t.len() == 0 {
        Seq::empty()
    } else {
        match t.last() {
            Mark::Dispatched(a) => dispatched_of(t.drop_last()).push(a),
            _ => dispatched_of(t.drop_last()),
        }
    }
}

/// Every tick-driven persistence request in a trace sits right after the
/// dispatch of a due tick — no other action kind ever causes one.
pub open spec fn saves_wf(t: Seq<Mark>) -> bool {
    forall|j: int| #![trigger t[j]]
        0 <= j < t.len() && t[j] is SaveDue
            ==> j >= 1 && (t[j - 1] matches Mark::Dispatched(a) && saves_on(a))
}

/// The final persistence request appears only while the loop is stopping, and
/// then exactly once, as the last entry of the trace.
pub open spec fn final_wf(t: Seq<Mark>, stopping: bool) -> bool {
    &&& (forall|j: int| #![trigger t[j]]
            0 <= j < t.len() && t[j] is FinalSave ==> stopping && j == t.len() - 1)
    &&& (stopping ==> t.len() >= 1 && t.last() is FinalSave)
}

/// The quit hotkey: a control-modified 'q' or 'c', with no other modifier.
pub open spec fn is_quit_key(k: KeyEvent) -> bool {
    (k.code == KeyCode::Char('q') || k.code == KeyCode::Char('c'))
        && k.mods == (KeyMods { control: true, alt: false, shift: false })
}

/// The at-most-one action the orchestrator itself derives from an event
/// before fanning the event out to the components.
pub open spec fn intercept(e: Event) -> Option<Action> {
    match e {
        Event::Tick(i) => Some(Action::Tick(i)),
        Event::Render => Some(Action::Render),
        Event::Key(k) => if is_quit_key(k) {
            Some(Action::Quit)
        } else {
            None
        },
        _ => None,
    }
}

/// [`intercept`], as the sequence of actions it contributes to the queue.
pub open spec fn intercept_seq(e: Event) -> Seq<Action> {
    match intercept(e) {
        Some(a) => seq![a],
        None => Seq::empty(),
    }
}

proof fn lemma_prefix_refl(p: Seq<Action>)
    ensures
        p.is_prefix_of(p),
{
    assert(p =~= p.subrange(0, p.len() as int));
}

proof fn lemma_prefix_push(p: Seq<Action>, q: Seq<Action>, x: Action)
    requires
        p.is_prefix_of(q),
    ensures
        p.is_prefix_of(q.push(x)),
{
    let qx = q.push(x);
    assert(p =~= q.subrange(0, p.len() as int));
    assert(p =~= qx.subrange(0, p.len() as int)) by {
        assert forall|i: int| 0 <= i < p.len() implies p[i] == qx[i] by {
            assert(qx[i] == q[i]);
        }
    }
}

proof fn lemma_dispatched_push(t: Seq<Mark>, m: Mark)
    ensures
        dispatched_of(t.push(m)) == (match m {
            Mark::Dispatched(a) => dispatched_of(t).push(a),
            _ => dispatched_of(t),
        }),
{
    assert(t.push(m).drop_last() =~= t);
    assert(t.push(m).last() == m);
}

proof fn lemma_marks_push_dispatch(t: Seq<Mark>, a: Action)
    requires
        saves_wf(t),
        final_wf(t, false),
    ensures
        saves_wf(t.push(Mark::Dispatched(a))),
        final_wf(t.push(Mark::Dispatched(a)), false),
{
    let t2 = t.push(Mark::Dispatched(a));
    assert forall|j: int| 0 <= j < t2.len() && t2[j] is SaveDue
        implies j >= 1 && (t2[j - 1] matches Mark::Dispatched(b) && saves_on(b)) by {
        if j < t.len() {
            assert(t2[j] == t[j]);
            assert(t2[j - 1] == t[j - 1]);
        } else {
            assert(t2[j] == Mark::Dispatched(a));
        }
    }
    assert forall|j: int| 0 <= j < t2.len() && t2[j] is FinalSave implies false by {
        if j < t.len() {
            assert(t2[j] == t[j]);
        } else {
            assert(t2[j] == Mark::Dispatched(a));
        }
    }
}

proof fn lemma_marks_push_due(t: Seq<Mark>)
    requires
        saves_wf(t),
        final_wf(t, false),
        t.len() >= 1,
        t.last() matches Mark::Dispatched(a) && saves_on(a),
    ensures
        saves_wf(t.push(Mark::SaveDue)),
        final_wf(t.push(Mark::SaveDue), false),
{
    let t2 = t.push(Mark::SaveDue);
    assert forall|j: int| 0 <= j < t2.len() && t2[j] is SaveDue
        implies j >= 1 && (t2[j - 1] matches Mark::Dispatched(b) && saves_on(b)) by {
        if j < t.len() {
            assert(t2[j] == t[j]);
            assert(t2[j - 1] == t[j - 1]);
        } else {
            assert(t2[j - 1] == t.last());
        }
    }
    assert forall|j: int| 0 <= j < t2.len() && t2[j] is FinalSave implies false by {
        if j < t.len() {
            assert(t2[j] == t[j]);
        } else {
            assert(t2[j] == Mark::SaveDue);
        }
    }
}

proof fn lemma_marks_push_final(t: Seq<Mark>)
    requires
        saves_wf(t),
        final_wf(t, false),
    ensures
        saves_wf(t.push(Mark::FinalSave)),
        final_wf(t.push(Mark::FinalSave), true),
{
    let t2 = t.push(Mark::FinalSave);
    assert forall|j: int| 0 <= j < t2.len() && t2[j] is SaveDue
        implies j >= 1 && (t2[j - 1] matches Mark::Dispatched(b) && saves_on(b)) by {
        if j < t.len() {
            assert(t2[j] == t[j]);
            assert(t2[j - 1] == t[j - 1]);
        } else {
            assert(t2[j] == Mark::FinalSave);
        }
    }
    assert forall|j: int| 0 <= j < t2.len() && t2[j] is FinalSave
        implies true && j == t2.len() - 1 by {
        if j < t.len() {
            assert(t2[j] == t[j]);
        }
    }
}

/// The orchestrator. `M` is the main component, `L` the log pane drawn on the
/// right, `C` the type of the attached components drawn over the main region.
pub struct App<M: Component, L: Component, C: Component> {
    main: M,
    log: L,
    components: Vec<C>,
    queue: ActionQueue,
    should_quit: bool,
    phase: Phase,
    history: Ghost<Seq<Mark>>,
    intake: Ghost<Seq<Action>>,
    journal: Ghost<Seq<Call>>,
}

impl<M: Component, L: Component, C: Component> App<M, L, C> {
    /// The actions waiting in the queue, oldest first.
    pub closed spec fn pending(self) -> Seq<Action> {
        queue_contents(self.queue)
    }

    /// Every action ever put on the queue, in queue order.
    pub closed spec fn submitted(self) -> Seq<Action> {
        self.intake@
    }

    /// The ghost trace of what the loop has done so far.
    pub closed spec fn trace(self) -> Seq<Mark> {
        self.history@
    }

    /// The actions dispatched so far, in dispatch order.
    pub open spec fn processed(self) -> Seq<Action> {
        dispatched_of(self.trace())
    }

    /// The phase the orchestrator is in.
    pub closed spec fn phase(self) -> Phase {
        self.phase
    }

    /// Whether a `Quit` action has been dispatched.
    pub closed spec fn quit_requested(self) -> bool {
        self.should_quit
    }

    /// The ghost journal of every component call the orchestrator has made.
    pub closed spec fn calls(self) -> Seq<Call> {
        self.journal@
    }

    /// The attached components, in attachment order.
    pub closed spec fn attached(self) -> Seq<C> {
        self.components@
    }

    /// How many components are attached beside the main and log components.
    pub open spec fn component_count(self) -> nat {
        self.attached().len()
    }

    /// The loop is past its last drain: only the final persistence and the
    /// exit remain.
    pub open spec fn stopping(self) -> bool {
        self.phase() is SavingFinal || self.phase() is Stopped
    }

    /// The main component's state, for relating it across [`App::main_mut`].
    pub closed spec fn main_state(self) -> M {
        self.main
    }

    /// The log pane's state, for relating it across construction.
    pub closed spec fn log_state(self) -> L {
        self.log
    }

    /// The loop state other than the queue and the trace.
    pub open spec fn same_core(self, o: Self) -> bool {
        &&& self.pending() == o.pending()
        &&& self.submitted() == o.submitted()
        &&& self.trace() == o.trace()
        &&& self.phase() == o.phase()
        &&& self.quit_requested() == o.quit_requested()
        &&& self.component_count() == o.component_count()
    }

    /// Well-formedness: the FIFO accounting — dispatched, then pending, is
    /// exactly what was submitted, in order — and the persistence discipline
    /// of the trace.
    pub open spec fn wf(self) -> bool {
        &&& self.processed() + self.pending() == self.submitted()
        &&& saves_wf(self.trace())
        &&& final_wf(self.trace(), self.stopping())
        &&& (self.stopping() ==> self.quit_requested())
    }

    /// A fresh orchestrator holding exactly the main and log components it
    /// was given: empty queue, empty trace, no calls made, running, not
    /// quitting.
    pub fn new(main: M, log: L) -> (app: Self)
        ensures
            app.wf(),
            app.main_state() == main,
            app.log_state() == log,
            app.pending() == Seq::<Action>::empty(),
            app.submitted() == Seq::<Action>::empty(),
            app.trace() == Seq::<Mark>::empty(),
            app.calls() == Seq::<Call>::empty(),
            app.phase() is Running,
            !app.quit_requested(),
            app.component_count() == 0,
    {
        let app = App {
            main,
            log,
            components: Vec::new(),
            queue: ActionQueue::new(),
            should_quit: false,
            phase: Phase::Running,
            history: Ghost(Seq::empty()),
            intake: Ghost(Seq::empty()),
            journal: Ghost(Seq::empty()),
        };
        proof {
            assert(app.processed() + app.pending() =~= app.submitted());
        }
        app
    }

    /// Attach one more component; it is fanned out to and drawn after all
    /// previously attached ones.
    pub fn attach(&mut self, component: C)
        requires
            old(self).wf(),
        ensures
            final(self).wf(),
            final(self).attached() == old(self).attached().push(component),
            final(self).component_count() == old(self).component_count() + 1,
            final(self).pending() == old(self).pending(),
            final(self).submitted() == old(self).submitted(),
            final(self).trace() == old(self).trace(),
            final(self).calls() == old(self).calls(),
            final(self).phase() == old(self).phase(),
            final(self).quit_requested() == old(self).quit_requested(),
    {
        self.components.push(component);
    }

    /// Put one action on the queue. This is the producer side of the intent
    /// channel: the orchestrator calls it for every action it or a component
    /// derives, and a caller may inject an intent of its own with it.
    pub fn enqueue(&mut self, action: Action)
        requires
            old(self).wf(),
        ensures
            final(self).wf(),
            final(self).pending() == old(self).pending().push(action),
            final(self).submitted() == old(self).submitted().push(action),
            final(self).trace() == old(self).trace(),
            final(self).calls() == old(self).calls(),
            final(self).phase() == old(self).phase(),
            final(self).quit_requested() == old(self).quit_requested(),
            final(self).component_count() == old(self).component_count(),
    {
        self.queue.send(action);
        self.intake = Ghost(self.intake@.push(action));
        proof {
            assert(self.processed() + self.pending() =~= old(self).submitted().push(action));
        }
    }

    /// Global key interception: only the quit hotkey maps to an action, and
    /// that action is always `Quit`.
    pub fn handle_key_events(&self, key: KeyEvent) -> (r: Option<Action>)
        ensures
            r == if is_quit_key(key) { Some(Action::Quit) } else { None::<Action> },
    {
        let control_only = key.mods.control && !key.mods.alt && !key.mods.shift;
        let hotkey_char = match key.code {
            KeyCode::Char(c) => c == 'q' || c == 'c',
            _ => false,
        };
        if hotkey_char && control_only {
            Some(Action::Quit)
        } else {
            None
        }
    }

    /// The orchestrator-level action derived from one event: ticks and render
    /// requests pass through, the quit hotkey maps to `Quit`, everything else
    /// is left to the components.
    pub fn handle_events(&self, event: Event) -> (r: Option<Action>)
        ensures
            r == intercept(event),
    {
        match event {
            Event::Tick(i) => Some(Action::Tick(i)),
            Event::Render => Some(Action::Render),
            Event::Key(k) => self.handle_key_events(k),
            _ => None,
        }
    }

    /// Take in one awaited event: enqueue the intercepted action, if any, then
    /// fan the event out to the main component and to every attached
    /// component in order, enqueueing each action they derive. Nothing is
    /// dispatched here; outside the running phase the event is dropped.
    pub fn on_event(&mut self, event: Event)
        requires
            old(self).wf(),
        ensures
            final(self).wf(),
            final(self).trace() == old(self).trace(),
            final(self).phase() == old(self).phase(),
            final(self).quit_requested() == old(self).quit_requested(),
            final(self).component_count() == old(self).component_count(),
            !(old(self).phase() is Running) ==> final(self).pending() == old(self).pending()
                && final(self).submitted() == old(self).submitted()
                && final(self).calls() == old(self).calls(),
            old(self).phase() is Running ==> final(self).calls()
                == old(self).calls() + handle_pass(event, old(self).component_count() as int),
            old(self).phase() is Running
                ==> (old(self).pending() + intercept_seq(event)).is_prefix_of(final(self).pending()),
            old(self).phase() is Running ==> final(self).pending().len()
                <= old(self).pending().len() + intercept_seq(event).len() + 1
                    + old(self).component_count(),
            old(self).submitted().is_prefix_of(final(self).submitted()),
    {
        proof {
            lemma_prefix_refl(self.submitted());
        }
        match self.phase {
            Phase::Running => {}
            _ => {
                return;
            }
        }
        if let Some(a) = self.handle_events(event) {
            self.enqueue(a);
        }
        proof {
            assert((old(self).pending() + intercept_seq(event)) =~= self.pending());
            lemma_prefix_refl(self.pending());
            assert((old(self).pending() + intercept_seq(event)).is_prefix_of(self.pending()));
        }
        self.journal = Ghost(self.journal@.push(Call::Handle(Slot::Main, event)));
        proof {
            assert(self.calls() =~= old(self).calls() + handle_pass(event, 0));
        }
        if let Some(a) = self.main.handle_events(Some(event)) {
            let ghost before = self.pending();
            let ghost sbefore = self.submitted();
            self.enqueue(a);
            proof {
                lemma_prefix_push(old(self).pending() + intercept_seq(event), before, a);
                lemma_prefix_push(old(self).submitted(), sbefore, a);
            }
        }
        let n = self.components.len();
        let mut i: usize = 0;
        while i < n
            invariant
                self.wf(),
                self.components@.len() == n,
                i <= n,
                self.trace() == old(self).trace(),
                self.phase() == old(self).phase(),
                self.quit_requested() == old(self).quit_requested(),
                (old(self).pending() + intercept_seq(event)).is_prefix_of(self.pending()),
                self.pending().len()
                    <= old(self).pending().len() + intercept_seq(event).len() + 1 + i,
                old(self).submitted().is_prefix_of(self.submitted()),
                self.calls() == old(self).calls() + handle_pass(event, i as int),
            decreases n - i,
        {
            self.journal = Ghost(self.journal@.push(Call::Handle(Slot::Attached(i as int), event)));
            proof {
                assert(self.calls() =~= old(self).calls() + handle_pass(event, i + 1));
            }
            if let Some(a) = self.components[i].handle_events(Some(event)) {
                let ghost before = self.pending();
                let ghost sbefore = self.submitted();
                self.enqueue(a);
                proof {
                    lemma_prefix_push(old(self).pending() + intercept_seq(event), before, a);
                    lemma_prefix_push(old(self).submitted(), sbefore, a);
                }
            }
            i = i + 1;
        }
    }

    /// Dispatch one non-built-in action: fan it out to the main component's
    /// update handler, then to every attached component's in order, enqueueing
    /// each follow-up action so that it is drained within the same pass.
    fn fan_out_update(&mut self, action: Action)
        requires
            old(self).wf(),
        ensures
            final(self).wf(),
            final(self).trace() == old(self).trace(),
            final(self).phase() == old(self).phase(),
            final(self).quit_requested() == old(self).quit_requested(),
            final(self).component_count() == old(self).component_count(),
            old(self).pending().is_prefix_of(final(self).pending()),
            final(self).pending().len()
                <= old(self).pending().len() + 1 + old(self).component_count(),
            old(self).submitted().is_prefix_of(final(self).submitted()),
            final(self).calls() == old(self).calls()
                + update_pass(action, old(self).component_count() as int),
    {
        proof {
            lemma_prefix_refl(self.pending());
            lemma_prefix_refl(self.submitted());
        }
        self.journal = Ghost(self.journal@.push(Call::Update(Slot::Main, action)));
        proof {
            assert(self.calls() =~= old(self).calls() + update_pass(action, 0));
        }
        if let Some(follow) = self.main.update(action.clone()) {
            let ghost before = self.pending();
            let ghost sbefore = self.submitted();
            self.enqueue(follow);
            proof {
                lemma_prefix_push(old(self).pending(), before, follow);
                lemma_prefix_push(old(self).submitted(), sbefore, follow);
            }
        }
        let n = self.components.len();
        let mut i: usize = 0;
        while i < n
            invariant
                self.wf(),
                self.components@.len() == n,
                i <= n,
                self.trace() == old(self).trace(),
                self.phase() == old(self).phase(),
                self.quit_requested() == old(self).quit_requested(),
                old(self).pending().is_prefix_of(self.pending()),
                self.pending().len() <= old(self).pending().len() + 1 + i,
                old(self).submitted().is_prefix_of(self.submitted()),
                self.calls() == old(self).calls() + update_pass(action, i as int),
            decreases n - i,
        {
            self.journal = Ghost(self.journal@.push(Call::Update(Slot::Attached(i as int), action)));
            proof {
                assert(self.calls() =~= old(self).calls() + update_pass(action, i + 1));
            }
            if let Some(follow) = self.components[i].update(action.clone()) {
                let ghost before = self.pending();
                let ghost sbefore = self.submitted();
                self.enqueue(follow);
                proof {
                    lemma_prefix_push(old(self).pending(), before, follow);
                    lemma_prefix_push(old(self).submitted(), sbefore, follow);
                }
            }
            i = i + 1;
        }
    }

    /// One step of the drain. Dequeues at most one action and handles it:
    /// `Quit` raises the quit flag and draining goes on; a tick that is a
    /// multiple of ten requests persistence; `Render` asks the caller for one
    /// frame; every other action is fanned out to the components. Once the
    /// queue reports empty, the step asks the caller to wait for the next
    /// event — or, with quit requested, requests the final persistence and
    /// stops.
    pub fn next(&mut self) -> (d: Directive)
        requires
            old(self).wf(),
        ensures
            final(self).wf(),
            final(self).component_count() == old(self).component_count(),
            !(old(self).phase() is Running && old(self).pending().len() > 0
                && (old(self).pending()[0] is Error || old(self).pending()[0] is Custom))
                ==> final(self).calls() == old(self).calls(),
            old(self).phase() is Running && old(self).pending().len() > 0
                && (old(self).pending()[0] is Error || old(self).pending()[0] is Custom)
                ==> final(self).calls() == old(self).calls()
                    + update_pass(old(self).pending()[0], old(self).component_count() as int),
            old(self).phase() is Stopped ==> d is Exit && final(self).same_core(*old(self)),
            old(self).phase() is SavingTick || old(self).phase() is SavingFinal
                ==> d is Save && final(self).same_core(*old(self)),
            old(self).phase() is Running && old(self).pending().len() == 0
                && !old(self).quit_requested() ==> d is Wait && final(self).same_core(*old(self)),
            old(self).phase() is Running && old(self).pending().len() == 0
                && old(self).quit_requested() ==> ({
                &&& d is Save
                &&& final(self).phase() is SavingFinal
                &&& final(self).trace() == old(self).trace().push(Mark::FinalSave)
                &&& final(self).pending() == old(self).pending()
                &&& final(self).submitted() == old(self).submitted()
                &&& final(self).quit_requested()
            }),
            old(self).phase() is Running && old(self).pending().len() > 0 ==> ({
                let a = old(self).pending()[0];
                &&& final(self).trace() == (if saves_on(a) {
                    old(self).trace().push(Mark::Dispatched(a)).push(Mark::SaveDue)
                } else {
                    old(self).trace().push(Mark::Dispatched(a))
                })
                &&& (a is Quit ==> d is Continue && final(self).phase() is Running
                    && final(self).quit_requested()
                    && final(self).pending() == old(self).pending().drop_first()
                    && final(self).submitted() == old(self).submitted())
                &&& (a is Tick ==> final(self).quit_requested() == old(self).quit_requested()
                    && final(self).pending() == old(self).pending().drop_first()
                    && final(self).submitted() == old(self).submitted()
                    && (if saves_on(a) {
                        d is Save && final(self).phase() is SavingTick
                    } else {
                        d is Continue && final(self).phase() is Running
                    }))
                &&& (a is Render ==> d is Draw && final(self).phase() is Running
                    && final(self).quit_requested() == old(self).quit_requested()
                    && final(self).pending() == old(self).pending().drop_first()
                    && final(self).submitted() == old(self).submitted())
                &&& (a is Error || a is Custom ==> d is Continue
                    && final(self).phase() is Running
                    && final(self).quit_requested() == old(self).quit_requested()
                    && old(self).pending().drop_first().is_prefix_of(final(self).pending())
                    && final(self).pending().len()
                        <= old(self).pending().len() + old(self).component_count()
                    && old(self).submitted().is_prefix_of(final(self).submitted()))
            }),
    {
        match self.phase {
            Phase::Stopped => Directive::Exit,
            Phase::SavingTick | Phase::SavingFinal => Directive::Save,
            Phase::Running => {
                let received = self.queue.try_recv();
                match received {
                    None => {
                        if self.should_quit {
                            proof {
                                lemma_marks_push_final(self.history@);
                                lemma_dispatched_push(self.history@, Mark::FinalSave);
                            }
                            self.history = Ghost(self.history@.push(Mark::FinalSave));
                            self.phase = Phase::SavingFinal;
                            Directive::Save
                        } else {
                            Directive::Wait
                        }
                    }
                    Some(action) => {
                        proof {
                            lemma_marks_push_dispatch(self.history@, action);
                            lemma_dispatched_push(self.history@, Mark::Dispatched(action));
                        }
                        self.history = Ghost(self.history@.push(Mark::Dispatched(action)));
                        proof {
                            assert(self.processed() + self.pending() =~= self.submitted());
                        }
                        match action {
                            Action::Quit => {
                                self.should_quit = true;
                                Directive::Continue
                            }
                            Action::Tick(i) => {
                                if i % 10 == 0 {
                                    proof {
                                        lemma_marks_push_due(self.history@);
                                        lemma_dispatched_push(self.history@, Mark::SaveDue);
                                    }
                                    self.history = Ghost(self.history@.push(Mark::SaveDue));
                                    self.phase = Phase::SavingTick;
                                    Directive::Save
                                } else {
                                    Directive::Continue
                                }
                            }
                            Action::Render => Directive::Draw,
                            other => {
                                self.fan_out_update(other);
                                Directive::Continue
                            }
                        }
                    }
                }
            }
        }
    }

    /// Report that the persistence requested by the last `Save` directive has
    /// completed: a tick-driven save resumes the drain, the final save stops
    /// the loop.
    pub fn on_saved(&mut self)
        requires
            old(self).wf(),
        ensures
            final(self).wf(),
            final(self).pending() == old(self).pending(),
            final(self).submitted() == old(self).submitted(),
            final(self).trace() == old(self).trace(),
            final(self).calls() == old(self).calls(),
            final(self).quit_requested() == old(self).quit_requested(),
            final(self).component_count() == old(self).component_count(),
            final(self).phase() == (match old(self).phase() {
                Phase::SavingTick => Phase::Running,
                Phase::SavingFinal => Phase::Stopped,
                p => p,
            }),
    {
        match self.phase {
            Phase::SavingTick => {
                self.phase = Phase::Running;
            }
            Phase::SavingFinal => {
                self.phase = Phase::Stopped;
            }
            _ => {}
        }
    }

    /// Enqueue the failure of one draw call as a recoverable error action.
    fn push_draw_error(&mut self, msg: String)
        requires
            old(self).wf(),
        ensures
            final(self).wf(),
            final(self).pending() == old(self).pending().push(Action::Error(msg)),
            final(self).submitted() == old(self).submitted().push(Action::Error(msg)),
            final(self).trace() == old(self).trace(),
            final(self).calls() == old(self).calls(),
            final(self).phase() == old(self).phase(),
            final(self).quit_requested() == old(self).quit_requested(),
            final(self).component_count() == old(self).component_count(),
    {
        self.enqueue(Action::Error(msg));
    }

    /// One full render pass into `frame`: split the area, draw the main
    /// component on the left, the log pane on the right, then every attached
    /// component over the main region in order. A failing draw only enqueues
    /// an `Action::Error` — it never keeps a later component from being
    /// drawn, and it changes nothing else in the loop state.
    pub fn render(&mut self, frame: &mut ratatui::Frame<'_>, area: Rect)
        requires
            old(self).wf(),
            area.x + area.width <= u16::MAX,
        ensures
            final(self).wf(),
            final(self).trace() == old(self).trace(),
            final(self).phase() == old(self).phase(),
            final(self).quit_requested() == old(self).quit_requested(),
            final(self).component_count() == old(self).component_count(),
            old(self).pending().is_prefix_of(final(self).pending()),
            forall|j: int| old(self).pending().len() <= j < final(self).pending().len()
                ==> (#[trigger] final(self).pending()[j]) is Error,
            final(self).pending().len()
                <= old(self).pending().len() + 2 + old(self).component_count(),
            old(self).submitted().is_prefix_of(final(self).submitted()),
            final(self).calls() == old(self).calls()
                + draw_pass(area, old(self).component_count() as int),
    {
        proof {
            lemma_prefix_refl(self.pending());
            lemma_prefix_refl(self.submitted());
        }
        let (left, right) = split_panes(area);
        self.journal = Ghost(self.journal@.push(Call::Draw(Slot::Main, left)));
        if let Err(msg) = self.main.draw(frame, left) {
            let ghost before = self.pending();
            let ghost sbefore = self.submitted();
            self.push_draw_error(msg);
            proof {
                lemma_prefix_push(old(self).pending(), before, self.pending().last());
                lemma_prefix_push(old(self).submitted(), sbefore, self.submitted().last());
            }
        }
        self.journal = Ghost(self.journal@.push(Call::Draw(Slot::Log, right)));
        proof {
            assert(self.calls() =~= old(self).calls() + draw_pass(area, 0));
        }
        if let Err(msg) = self.log.draw(frame, right) {
            let ghost before = self.pending();
            let ghost sbefore = self.submitted();
            self.push_draw_error(msg);
            proof {
                lemma_prefix_push(old(self).pending(), before, self.pending().last());
                lemma_prefix_push(old(self).submitted(), sbefore, self.submitted().last());
            }
        }
        let n = self.components.len();
        let mut i: usize = 0;
        while i < n
            invariant
                self.wf(),
                self.components@.len() == n,
                i <= n,
                self.trace() == old(self).trace(),
                self.phase() == old(self).phase(),
                self.quit_requested() == old(self).quit_requested(),
                old(self).pending().is_prefix_of(self.pending()),
                forall|j: int| old(self).pending().len() <= j < self.pending().len()
                    ==> (#[trigger] self.pending()[j]) is Error,
                self.pending().len() <= old(self).pending().len() + 2 + i,
                old(self).submitted().is_prefix_of(self.submitted()),
                left == left_pane(area),
                self.calls() == old(self).calls() + draw_pass(area, i as int),
            decreases n - i,
        {
            self.journal = Ghost(self.journal@.push(Call::Draw(Slot::Attached(i as int), left)));
            proof {
                assert(self.calls() =~= old(self).calls() + draw_pass(area, i + 1));
            }
            if let Err(msg) = self.components[i].draw(frame, left) {
                let ghost before = self.pending();
                let ghost sbefore = self.submitted();
                self.push_draw_error(msg);
                proof {
                    lemma_prefix_push(old(self).pending(), before, self.pending().last());
                    lemma_prefix_push(old(self).submitted(), sbefore, self.submitted().last());
                }
            }
            i = i + 1;
        }
    }

    /// Startup fan-out of synchronous initialization: the main component is
    /// initialized before every attached component, in attachment order, and
    /// the first failure aborts the fan-out where it stands. On success every
    /// component was initialized. The loop state is untouched.
    pub fn init(&mut self, size: Size) -> (r: Result<(), String>)
        requires
            old(self).wf(),
        ensures
            final(self).wf(),
            final(self).same_core(*old(self)),
            exists|k: int|
                #![auto]
                0 <= k <= old(self).component_count() && final(self).calls() == old(self).calls()
                    + startup_pass(k),
            r is Ok ==> final(self).calls() == old(self).calls() + startup_pass(
                old(self).component_count() as int,
            ),
    {
        self.journal = Ghost(self.journal@.push(Call::Init(Slot::Main)));
        proof {
            assert(self.calls() =~= old(self).calls() + startup_pass(0));
        }
        if let Err(e) = self.main.init(size) {
            return Err(e);
        }
        let n = self.components.len();
        let mut i: usize = 0;
        while i < n
            invariant
                self.wf(),
                self.components@.len() == n,
                i <= n,
                self.same_core(*old(self)),
                self.calls() == old(self).calls() + startup_pass(i as int),
            decreases n - i,
        {
            self.journal = Ghost(self.journal@.push(Call::Init(Slot::Attached(i as int))));
            proof {
                assert(self.calls() =~= old(self).calls() + startup_pass(i + 1));
            }
            if let Err(e) = self.components[i].init(size) {
                return Err(e);
            }
            i = i + 1;
        }
        Ok(())
    }

    /// Mutable access to the main component, e.g. to run its persistence when
    /// a `Save` directive was returned. The loop state is untouched, whatever
    /// the caller does with the reference.
    pub fn main_mut(&mut self) -> (m: &mut M)
        ensures
            *m == old(self).main_state(),
            final(self).main_state() == *final(m),
            final(self).pending() == old(self).pending(),
            final(self).submitted() == old(self).submitted(),
            final(self).trace() == old(self).trace(),
            final(self).calls() == old(self).calls(),
            final(self).phase() == old(self).phase(),
            final(self).quit_requested() == old(self).quit_requested(),
            final(self).component_count() == old(self).component_count(),
            old(self).wf() ==> final(self).wf(),
    {
        &mut self.main
    }
}

/// Law: the drain is first-in-first-out. In every well-formed state the
/// dispatched actions are exactly the first `processed().len()` submitted
/// actions, in submission order, and the pending actions are exactly the
/// rest — so no action is dispatched early, late, or twice, including
/// actions submitted while earlier ones were being dispatched.
pub proof fn lemma_fifo_order<M: Component, L: Component, C: Component>(app: App<M, L, C>)
    requires
        app.wf(),
    ensures
        app.processed() == app.submitted().take(app.processed().len() as int),
        app.pending() == app.submitted().skip(app.processed().len() as int),
{
    assert(app.processed() =~= (app.processed() + app.pending()).take(
        app.processed().len() as int,
    ));
    assert(app.pending() =~= (app.processed() + app.pending()).skip(
        app.processed().len() as int,
    ));
}

/// Law: persistence is tick-driven. Wherever the trace requests a save
/// outside shutdown, the entry right before it is the dispatch of a tick
/// whose sequence number is a multiple of ten — no other action kind ever
/// triggers persistence.
pub proof fn lemma_save_only_on_due_tick<M: Component, L: Component, C: Component>(
    app: App<M, L, C>,
    j: int,
)
    requires
        app.wf(),
        0 <= j < app.trace().len(),
        app.trace()[j] is SaveDue,
    ensures
        j >= 1,
        app.trace()[j - 1] matches Mark::Dispatched(a) && a matches Action::Tick(i) && i % 10
            == 0,
{
    assert(app.trace()[j] is SaveDue);
}

/// Law: quit persists exactly once more. While the loop is stopping or
/// stopped, the final persistence request is the last trace entry, and no
/// earlier entry is one — so the save runs once after the drain that saw the
/// quit, whatever the last tick was.
pub proof fn lemma_final_save_once<M: Component, L: Component, C: Component>(app: App<M, L, C>)
    requires
        app.wf(),
        app.stopping(),
    ensures
        app.trace().len() >= 1,
        app.trace().last() is FinalSave,
        forall|j: int| 0 <= j < app.trace().len() - 1
            ==> !((#[trigger] app.trace()[j]) is FinalSave),
{
    assert forall|j: int| 0 <= j < app.trace().len() - 1
        implies !(app.trace()[j] is FinalSave) by {
        if app.trace()[j] is FinalSave {
            assert(j == app.trace().len() - 1);
        }
    }
}

/// Law: the quit hotkey always yields exactly one `Quit`. A key event that
/// carries the control modifier with a designated character is intercepted as
/// the single action `Quit`, whatever any component derives from the same
/// event.
pub proof fn lemma_quit_key_intercepted(e: Event)
    requires
        e matches Event::Key(k) && is_quit_key(k),
    ensures
        intercept_seq(e) == seq![Action::Quit],
{
    assert(intercept_seq(e) =~= seq![Action::Quit]);
}

} // verus!
