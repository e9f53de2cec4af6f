use watch::input::{action_from_event, action_from_key, Action, Event, KeyCode, KeyEvent, CONTROL};
use watch::terminal::{outcome_of_event, poll_budget, WaitOutcome};

use std::time::Duration;

#[test]
fn maps_quit_keys() {
    assert_eq!(
        action_from_event(Event::Key(KeyEvent::from(KeyCode::Char('q')))),
        Some(Action::Quit)
    );
    assert_eq!(
        action_from_event(Event::Key(KeyEvent::from(KeyCode::Char('Q')))),
        Some(Action::Quit)
    );
}

#[test]
fn maps_trigger_key() {
    assert_eq!(
        action_from_event(Event::Key(KeyEvent::from(KeyCode::Char(' ')))),
        Some(Action::Trigger)
    );
}

#[test]
fn control_c_quits_only_with_control_alone() {
    assert_eq!(action_from_key(KeyEvent::new(KeyCode::Char('c'), CONTROL)), Some(Action::Quit));
    assert_eq!(action_from_key(KeyEvent::new(KeyCode::Char('c'), 0)), None);
    assert_eq!(action_from_key(KeyEvent::new(KeyCode::Char('c'), CONTROL | 1)), None);
    assert_eq!(action_from_key(KeyEvent::new(KeyCode::Char('q'), CONTROL)), Some(Action::Quit));
    assert_eq!(action_from_key(KeyEvent::new(KeyCode::Other, 0)), None);
    assert_eq!(action_from_event(Event::Resize(80, 24)), None);
    assert_eq!(action_from_event(Event::Other), None);
}

#[test]
fn resize_reruns_unless_switched_off() {
    let mut pending = false;
    assert_eq!(
        outcome_of_event(Event::Resize(80, 24), false, &mut pending),
        Some(WaitOutcome::Trigger)
    );
    assert_eq!(outcome_of_event(Event::Resize(80, 24), true, &mut pending), None);
    assert!(!pending);
}

#[test]
fn keys_end_the_wait() {
    let mut pending = false;
    let quit = Event::Key(KeyEvent::from(KeyCode::Char('q')));
    let space = Event::Key(KeyEvent::from(KeyCode::Char(' ')));
    let other = Event::Key(KeyEvent::from(KeyCode::Char('x')));
    assert_eq!(outcome_of_event(quit, true, &mut pending), Some(WaitOutcome::Quit));
    assert_eq!(outcome_of_event(space, false, &mut pending), Some(WaitOutcome::Trigger));
    assert_eq!(outcome_of_event(other, false, &mut pending), None);
    assert_eq!(outcome_of_event(Event::Other, false, &mut pending), None);
    assert!(!pending);
}

#[test]
fn a_screenshot_request_is_noted_and_the_wait_goes_on() {
    assert_eq!(action_from_event(Event::Screenshot), Some(Action::Screenshot));
    let mut pending = false;
    assert_eq!(outcome_of_event(Event::Screenshot, false, &mut pending), None);
    assert!(pending);
    assert_eq!(outcome_of_event(Event::Other, false, &mut pending), None);
    assert!(pending);
    let mut pending = false;
    assert_eq!(outcome_of_event(Event::Screenshot, true, &mut pending), None);
    assert!(pending);
}

#[test]
fn polls_are_cut_into_slices() {
    assert_eq!(poll_budget(Duration::ZERO), None);
    assert_eq!(poll_budget(Duration::from_millis(100)), Some(Duration::from_millis(100)));
    assert_eq!(poll_budget(Duration::from_millis(250)), Some(Duration::from_millis(250)));
    assert_eq!(poll_budget(Duration::from_secs(2)), Some(Duration::from_millis(250)));
    assert_eq!(poll_budget(Duration::from_nanos(1)), Some(Duration::from_nanos(1)));
}
