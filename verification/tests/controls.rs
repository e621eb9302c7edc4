use gridgame::controls::{ControlButtons, ControlEvent, DirectiveChoice};

#[test]
fn click_moves_toward_cursor() {
    let mut b = ControlButtons::new();
    assert_eq!(b.check_directive_change(ControlEvent::LeftMouse(true), false), Some(DirectiveChoice::MoveToCursor));
    assert_eq!(b.check_directive_change(ControlEvent::CursorMoved, true), Some(DirectiveChoice::MoveToCursor));
}

#[test]
fn ctrl_click_fires() {
    let mut b = ControlButtons::new();
    assert_eq!(b.check_directive_change(ControlEvent::LeftCtrl(true), false), Some(DirectiveChoice::Idle));
    assert_eq!(b.check_directive_change(ControlEvent::LeftMouse(true), false), Some(DirectiveChoice::FireAtCursor));
    assert_eq!(b.check_directive_change(ControlEvent::LeftCtrl(false), false), Some(DirectiveChoice::MoveToCursor));
}

#[test]
fn release_keeps_moving() {
    let mut b = ControlButtons::new();
    b.check_directive_change(ControlEvent::LeftMouse(true), false);
    assert_eq!(b.check_directive_change(ControlEvent::LeftMouse(false), true), Some(DirectiveChoice::KeepMoving));
    assert_eq!(b.check_directive_change(ControlEvent::CursorMoved, false), Some(DirectiveChoice::Idle));
}

#[test]
fn losing_focus_releases_buttons() {
    let mut b = ControlButtons::new();
    b.apply_event(ControlEvent::LeftMouse(true));
    b.apply_event(ControlEvent::LeftCtrl(true));
    assert_eq!(b, ControlButtons { mouse_down: true, ctrl_down: true });
    assert_eq!(b.check_directive_change(ControlEvent::FocusChanged(false), false), Some(DirectiveChoice::Idle));
    assert_eq!(b, ControlButtons { mouse_down: false, ctrl_down: false });
}

#[test]
fn unrelated_events_change_nothing() {
    let mut b = ControlButtons { mouse_down: true, ctrl_down: false };
    assert_eq!(b.check_directive_change(ControlEvent::Other, true), None);
    assert_eq!(b.check_directive_change(ControlEvent::OtherButton, true), None);
    assert_eq!(b.check_directive_change(ControlEvent::FocusChanged(true), true), None);
    assert_eq!(b, ControlButtons { mouse_down: true, ctrl_down: false });
    assert_eq!(b.choose_directive(false), DirectiveChoice::MoveToCursor);
}
