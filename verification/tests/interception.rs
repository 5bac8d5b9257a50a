//! Unit tests for the orchestrator's event interception and the split-pane
//! layout.

use tui_core::app::App;
use tui_core::component::Component;
use tui_core::layout::{split_panes, LOG_PANE_WIDTH};
use tui_core::types::{Action, Event, KeyCode, KeyEvent, KeyMods, Rect, Size};

struct Inert;

impl Component for Inert {
    fn init(&mut self, _size: Size) -> Result<(), String> {
        Ok(())
    }
    fn handle_events(&mut self, _event: Option<Event>) -> Option<Action> {
        None
    }
    fn update(&mut self, _action: Action) -> Option<Action> {
        None
    }
    fn draw(&mut self, _frame: &mut ratatui::Frame<'_>, _area: Rect) -> Result<(), String> {
        Ok(())
    }
}

fn inert_app() -> App<Inert, Inert, Inert> {
    App::new(Inert, Inert)
}

fn key(code: KeyCode, control: bool, alt: bool, shift: bool) -> Event {
    Event::Key(KeyEvent { code, mods: KeyMods { control, alt, shift } })
}

#[test]
fn ctrl_q_maps_to_quit() {
    let app = inert_app();
    let r = app.handle_events(key(KeyCode::Char('q'), true, false, false));
    assert_eq!(r, Some(Action::Quit));
}

#[test]
fn ctrl_c_maps_to_quit() {
    let app = inert_app();
    let r = app.handle_events(key(KeyCode::Char('c'), true, false, false));
    assert_eq!(r, Some(Action::Quit));
}

#[test]
fn plain_q_is_left_to_components() {
    let app = inert_app();
    let r = app.handle_events(key(KeyCode::Char('q'), false, false, false));
    assert_eq!(r, None);
}

#[test]
fn ctrl_shift_q_is_not_the_hotkey() {
    let app = inert_app();
    let r = app.handle_events(key(KeyCode::Char('q'), true, false, true));
    assert_eq!(r, None);
}

#[test]
fn ctrl_other_char_is_not_the_hotkey() {
    let app = inert_app();
    let r = app.handle_events(key(KeyCode::Char('x'), true, false, false));
    assert_eq!(r, None);
}

#[test]
fn tick_event_passes_through() {
    let app = inert_app();
    let r = app.handle_events(Event::Tick(37));
    assert_eq!(r, Some(Action::Tick(37)));
}

#[test]
fn render_event_passes_through() {
    let app = inert_app();
    let r = app.handle_events(Event::Render);
    assert_eq!(r, Some(Action::Render));
}

#[test]
fn resize_derives_no_action() {
    let app = inert_app();
    assert_eq!(app.handle_events(Event::Resize(80, 24)), None);
    assert_eq!(app.handle_events(Event::Mouse(3, 4)), None);
    assert_eq!(app.handle_events(Event::Quit), None);
}

#[test]
fn wide_area_gives_fixed_log_pane() {
    let area = Rect { x: 0, y: 0, width: 200, height: 50 };
    let (left, right) = split_panes(area);
    assert_eq!(left, Rect { x: 0, y: 0, width: 125, height: 50 });
    assert_eq!(right, Rect { x: 125, y: 0, width: 75, height: 50 });
    assert_eq!(LOG_PANE_WIDTH, 75);
}

#[test]
fn narrow_area_gives_log_pane_everything() {
    let area = Rect { x: 2, y: 1, width: 40, height: 10 };
    let (left, right) = split_panes(area);
    assert_eq!(left, Rect { x: 2, y: 1, width: 0, height: 10 });
    assert_eq!(right, Rect { x: 2, y: 1, width: 40, height: 10 });
}

#[test]
fn exact_width_area_splits_at_zero() {
    let area = Rect { x: 0, y: 0, width: 75, height: 5 };
    let (left, right) = split_panes(area);
    assert_eq!(left.width, 0);
    assert_eq!(right.width, 75);
    assert_eq!(left.width + right.width, area.width);
}
