//! Scenario tests for the drain loop: FIFO dispatch, tick-driven persistence,
//! the quit lifecycle, and draw-failure isolation.

use std::cell::RefCell;
use std::rc::Rc;

use tui_core::app::{App, Directive};
use tui_core::component::Component;
use tui_core::types::{Action, Event, KeyCode, KeyEvent, KeyMods, Rect, Size};

/// A component that records every update and draw it receives, and can be
/// told what to answer.
struct Probe {
    label: &'static str,
    seen: Rc<RefCell<Vec<(&'static str, Action)>>>,
    drawn: Rc<RefCell<Vec<&'static str>>>,
    update_reply: Option<fn(&Action) -> Option<Action>>,
    event_reply: Option<fn(&Event) -> Option<Action>>,
    draw_err: Option<&'static str>,
}

impl Probe {
    fn new(
        label: &'static str,
        seen: &Rc<RefCell<Vec<(&'static str, Action)>>>,
        drawn: &Rc<RefCell<Vec<&'static str>>>,
    ) -> Self {
        Probe {
            label,
            seen: Rc::clone(seen),
            drawn: Rc::clone(drawn),
            update_reply: None,
            event_reply: None,
            draw_err: None,
        }
    }
}

impl Component for Probe {
    fn init(&mut self, _size: Size) -> Result<(), String> {
        Ok(())
    }

    fn handle_events(&mut self, event: Option<Event>) -> Option<Action> {
        match (&self.event_reply, event) {
            (Some(f), Some(e)) => f(&e),
            _ => None,
        }
    }

    fn update(&mut self, action: Action) -> Option<Action> {
        self.seen.borrow_mut().push((self.label, action.clone()));
        match &self.update_reply {
            Some(f) => f(&action),
            None => None,
        }
    }

    fn draw(&mut self, _frame: &mut ratatui::Frame<'_>, _area: Rect) -> Result<(), String> {
        self.drawn.borrow_mut().push(self.label);
        match self.draw_err {
            Some(e) => Err(e.to_string()),
            None => Ok(()),
        }
    }
}

struct Pumped {
    saves: usize,
    draws: usize,
    exited: bool,
}

/// Drive the orchestrator until it asks to wait for an event or exits,
/// acknowledging every save and skipping the actual rendering.
fn pump(app: &mut App<Probe, Probe, Probe>) -> Pumped {
    let mut out = Pumped { saves: 0, draws: 0, exited: false };
    loop {
        match app.next() {
            Directive::Continue => {}
            Directive::Wait => return out,
            Directive::Save => {
                out.saves += 1;
                app.on_saved();
            }
            Directive::Draw => out.draws += 1,
            Directive::Exit => {
                out.exited = true;
                return out;
            }
        }
    }
}

struct Rig {
    app: App<Probe, Probe, Probe>,
    seen: Rc<RefCell<Vec<(&'static str, Action)>>>,
    drawn: Rc<RefCell<Vec<&'static str>>>,
}

/// An orchestrator with a probe main component, a probe log pane, and one
/// attached probe component.
fn rig(configure_main: fn(&mut Probe)) -> Rig {
    let seen = Rc::new(RefCell::new(Vec::new()));
    let drawn = Rc::new(RefCell::new(Vec::new()));
    let mut main = Probe::new("main", &seen, &drawn);
    configure_main(&mut main);
    let log = Probe::new("log", &seen, &drawn);
    let mut app = App::new(main, log);
    app.attach(Probe::new("attached", &seen, &drawn));
    Rig { app, seen, drawn }
}

fn ctrl_q() -> Event {
    Event::Key(KeyEvent {
        code: KeyCode::Char('q'),
        mods: KeyMods { control: true, alt: false, shift: false },
    })
}

#[test]
fn due_tick_saves_exactly_once() {
    let mut r = rig(|_| {});
    r.app.enqueue(Action::Tick(10));
    let out = pump(&mut r.app);
    assert_eq!(out.saves, 1);
    assert_eq!(out.draws, 0);
    assert!(!out.exited);
    // Built-in actions are not fanned out to the components.
    assert!(r.seen.borrow().is_empty());
}

#[test]
fn odd_tick_never_saves() {
    let mut r = rig(|_| {});
    r.app.enqueue(Action::Tick(7));
    let out = pump(&mut r.app);
    assert_eq!(out.saves, 0);
    assert!(!out.exited);
    assert!(r.seen.borrow().is_empty());
}

#[test]
fn every_tenth_tick_saves() {
    let mut r = rig(|_| {});
    for i in 0..25u64 {
        r.app.enqueue(Action::Tick(i));
    }
    let out = pump(&mut r.app);
    // Ticks 0, 10 and 20 are due.
    assert_eq!(out.saves, 3);
}

#[test]
fn quit_hotkey_saves_once_then_exits() {
    let mut r = rig(|_| {});
    r.app.on_event(ctrl_q());
    let out = pump(&mut r.app);
    assert_eq!(out.saves, 1);
    assert!(out.exited);
    // Once stopped, the orchestrator only ever asks to exit.
    assert_eq!(r.app.next(), Directive::Exit);
}

#[test]
fn quit_drains_queue_before_exit() {
    let mut r = rig(|_| {});
    r.app.enqueue(Action::Custom(1));
    r.app.enqueue(Action::Quit);
    r.app.enqueue(Action::Custom(2));
    let out = pump(&mut r.app);
    assert!(out.exited);
    assert_eq!(out.saves, 1);
    // Both surrounding actions were fanned out, in order, to the main and
    // the attached component; `Quit` itself is built in and is not.
    let seen = r.seen.borrow();
    let order: Vec<&(&str, Action)> = seen.iter().collect();
    assert_eq!(order.len(), 4);
    assert_eq!(*order[0], ("main", Action::Custom(1)));
    assert_eq!(*order[1], ("attached", Action::Custom(1)));
    assert_eq!(*order[2], ("main", Action::Custom(2)));
    assert_eq!(*order[3], ("attached", Action::Custom(2)));
}

#[test]
fn follow_up_actions_drain_in_the_same_pass() {
    // The main component answers Custom(1) with Custom(10): the follow-up is
    // enqueued behind Custom(2) and still dispatched before the pass ends.
    let mut r = rig(|main| {
        main.update_reply = Some(|a| match a {
            Action::Custom(1) => Some(Action::Custom(10)),
            _ => None,
        });
    });
    r.app.enqueue(Action::Custom(1));
    r.app.enqueue(Action::Custom(2));
    let out = pump(&mut r.app);
    assert!(!out.exited);
    let seen = r.seen.borrow();
    let attached: Vec<u64> = seen
        .iter()
        .filter(|(who, _)| *who == "attached")
        .map(|(_, a)| match a {
            Action::Custom(i) => *i,
            _ => panic!("unexpected action kind"),
        })
        .collect();
    assert_eq!(attached, vec![1, 2, 10]);
}

#[test]
fn error_action_is_fanned_out_exactly_once() {
    // The main component answers Custom(5) with Error("x"); the error is
    // drained and fanned out to every component once, in the same pass.
    let mut r = rig(|main| {
        main.update_reply = Some(|a| match a {
            Action::Custom(5) => Some(Action::Error("x".to_string())),
            _ => None,
        });
    });
    r.app.enqueue(Action::Custom(5));
    let out = pump(&mut r.app);
    assert!(!out.exited);
    assert_eq!(out.saves, 0);
    let seen = r.seen.borrow();
    let errors: Vec<&(&str, Action)> = seen
        .iter()
        .filter(|(_, a)| matches!(a, Action::Error(_)))
        .collect();
    assert_eq!(errors.len(), 2);
    assert_eq!(*errors[0], ("main", Action::Error("x".to_string())));
    assert_eq!(*errors[1], ("attached", Action::Error("x".to_string())));
}

#[test]
fn component_reaction_to_hotkey_does_not_double_quit() {
    // The attached component reacts to the quit key event with its own
    // action; interception still produces exactly one Quit, the loop drains
    // the component's action, saves once and exits.
    let seen = Rc::new(RefCell::new(Vec::new()));
    let drawn = Rc::new(RefCell::new(Vec::new()));
    let main = Probe::new("main", &seen, &drawn);
    let log = Probe::new("log", &seen, &drawn);
    let mut app = App::new(main, log);
    let mut reactive = Probe::new("attached", &seen, &drawn);
    reactive.event_reply = Some(|e| match e {
        Event::Key(_) => Some(Action::Custom(42)),
        _ => None,
    });
    app.attach(reactive);
    app.on_event(ctrl_q());
    let out = pump(&mut app);
    assert_eq!(out.saves, 1);
    assert!(out.exited);
    let seen = seen.borrow();
    assert_eq!(seen.len(), 2);
    assert_eq!(seen[0], ("main", Action::Custom(42)));
    assert_eq!(seen[1], ("attached", Action::Custom(42)));
}

#[test]
fn direct_error_action_is_drained_and_fanned_out() {
    let mut r = rig(|_| {});
    r.app.enqueue(Action::Error("x".to_string()));
    let out = pump(&mut r.app);
    assert!(!out.exited);
    assert_eq!(out.saves, 0);
    let seen = r.seen.borrow();
    assert_eq!(seen.len(), 2);
    assert_eq!(seen[0], ("main", Action::Error("x".to_string())));
    assert_eq!(seen[1], ("attached", Action::Error("x".to_string())));
}

#[test]
fn stopped_loop_only_exits() {
    let mut r = rig(|_| {});
    r.app.enqueue(Action::Quit);
    let out = pump(&mut r.app);
    assert!(out.exited);
    // Even with a due tick enqueued afterwards, a stopped orchestrator never
    // saves or dispatches again.
    r.app.enqueue(Action::Tick(10));
    assert_eq!(r.app.next(), Directive::Exit);
}

#[test]
fn render_event_asks_for_one_draw() {
    let mut r = rig(|_| {});
    r.app.on_event(Event::Render);
    let out = pump(&mut r.app);
    assert_eq!(out.draws, 1);
    assert_eq!(out.saves, 0);
    assert!(!out.exited);
}

#[test]
fn tick_event_reaches_persistence_through_the_queue() {
    let mut r = rig(|_| {});
    r.app.on_event(Event::Tick(30));
    let out = pump(&mut r.app);
    assert_eq!(out.saves, 1);
}

#[test]
fn failing_draw_never_hides_the_other_panes() {
    let seen = Rc::new(RefCell::new(Vec::new()));
    let drawn = Rc::new(RefCell::new(Vec::new()));
    let mut main = Probe::new("main", &seen, &drawn);
    main.draw_err = Some("boom");
    let log = Probe::new("log", &seen, &drawn);
    let mut app = App::new(main, log);
    app.attach(Probe::new("attached", &seen, &drawn));

    let backend = ratatui::backend::TestBackend::new(100, 20);
    let mut terminal = ratatui::Terminal::new(backend).unwrap();
    terminal
        .draw(|f| {
            app.render(f, Rect { x: 0, y: 0, width: 100, height: 20 });
        })
        .unwrap();

    // Every pane was still drawn, in order, past the failure.
    assert_eq!(*drawn.borrow(), vec!["main", "log", "attached"]);

    // The failure came back as an Error action, fanned out once per
    // updatable component, and the loop goes on waiting for events.
    let out = pump(&mut app);
    assert!(!out.exited);
    let seen = seen.borrow();
    assert_eq!(seen.len(), 2);
    assert_eq!(seen[0], ("main", Action::Error("boom".to_string())));
    assert_eq!(seen[1], ("attached", Action::Error("boom".to_string())));
}

#[test]
fn init_runs_main_first_and_stops_on_failure() {
    struct CountingInit {
        order: Rc<RefCell<Vec<&'static str>>>,
        label: &'static str,
        fail: bool,
    }
    impl Component for CountingInit {
        fn init(&mut self, _size: Size) -> Result<(), String> {
            self.order.borrow_mut().push(self.label);
            if self.fail {
                Err(format!("{} failed", self.label))
            } else {
                Ok(())
            }
        }
        fn handle_events(&mut self, _event: Option<Event>) -> Option<Action> {
            None
        }
        fn update(&mut self, _action: Action) -> Option<Action> {
            None
        }
        fn draw(&mut self, _f: &mut ratatui::Frame<'_>, _a: Rect) -> Result<(), String> {
            Ok(())
        }
    }
    let order = Rc::new(RefCell::new(Vec::new()));
    let main = CountingInit { order: Rc::clone(&order), label: "main", fail: false };
    let log = CountingInit { order: Rc::clone(&order), label: "log", fail: false };
    let mut app = App::new(main, log);
    app.attach(CountingInit { order: Rc::clone(&order), label: "first", fail: true });
    app.attach(CountingInit { order: Rc::clone(&order), label: "second", fail: false });
    let r = app.init(Size { width: 80, height: 24 });
    assert_eq!(r, Err("first failed".to_string()));
    // Main is initialized before the attached components; the failure stops
    // the fan-out before the second attached component.
    assert_eq!(*order.borrow(), vec!["main", "first"]);
}
