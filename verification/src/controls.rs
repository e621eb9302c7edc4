//! How the player's mouse and keyboard turn into directives for the player's
//! pawn: holding the left mouse button moves toward the cursor, holding it
//! with left Ctrl fires at the cursor, and a move goes on after the button is
//! released.

use vstd::prelude::*;

verus! {

/// An input event of the game window, as far as the controls are concerned.
#[derive(Debug, Clone, Copy, PartialEq, Eq, Structural)]
pub enum ControlEvent {
    /// The mouse cursor moved.
    CursorMoved,
    /// The window gained (`true`) or lost (`false`) focus.
    FocusChanged(bool),
    /// The left mouse button was pressed (`true`) or released (`false`).
    LeftMouse(bool),
    /// The left Ctrl key was pressed (`true`) or released (`false`).
    LeftCtrl(bool),
    /// Any other button was pressed or released.
    OtherButton,
    /// Any other event (drawing, updating, resizing, ...).
    Other,
}

/// Which buttons the player holds down.
#[derive(Debug, Clone, Copy, PartialEq, Eq, Structural)]
pub struct ControlButtons {
    pub mouse_down: bool,
    pub ctrl_down: bool,
}

/// The directive that the controls ask for.
#[derive(Debug, Clone, Copy, PartialEq, Eq, Structural)]
pub enum DirectiveChoice {
    /// Fire at the cursor's position.
    FireAtCursor,
    /// Move toward the cursor's position.
    MoveToCursor,
    /// Keep the current move toward its target.
    KeepMoving,
    /// Stand still.
    Idle,
}

/// The buttons after `ev`, and whether `ev` concerns the controls at all.
/// Losing focus releases both buttons.
pub open spec fn event_effect(b: ControlButtons, ev: ControlEvent) -> (ControlButtons, bool) {
    match ev {
        ControlEvent::CursorMoved => (b, true),
        ControlEvent::FocusChanged(focused) => if focused {
            (b, false)
        } else {
            (ControlButtons { mouse_down: false, ctrl_down: false }, true)
        },
        ControlEvent::LeftMouse(pressed) => (ControlButtons { mouse_down: pressed, ..b }, true),
        ControlEvent::LeftCtrl(pressed) => (ControlButtons { ctrl_down: pressed, ..b }, true),
        ControlEvent::OtherButton => (b, false),
        ControlEvent::Other => (b, false),
    }
}

/// The directive that the buttons `b` ask for, given whether the pawn is
/// moving now: with the mouse button down, fire (with Ctrl) or move toward the
/// cursor; with it up, keep moving if the pawn moves, else stand still.
pub open spec fn directive_choice(b: ControlButtons, moving: bool) -> DirectiveChoice {
    if b.mouse_down {
        if b.ctrl_down {
            DirectiveChoice::FireAtCursor
        } else {
            DirectiveChoice::MoveToCursor
        }
    } else if moving {
        DirectiveChoice::KeepMoving
    } else {
        DirectiveChoice::Idle
    }
}

/// What `check_directive_change` gives: a directive when the event concerns
/// the controls, nothing otherwise.
pub open spec fn directive_change(b: ControlButtons, ev: ControlEvent, moving: bool) -> Option<
    DirectiveChoice,
> {
    let (after, hit) = event_effect(b, ev);
    if hit {
        Some(directive_choice(after, moving))
    } else {
        None
    }
}

impl ControlButtons {
    /// No button held down.
    pub fn new() -> (b: ControlButtons)
        ensures
            b == (ControlButtons { mouse_down: false, ctrl_down: false }),
    {
        ControlButtons { mouse_down: false, ctrl_down: false }
    }

    /// Applies `ev` to the buttons (see `event_effect`) and tells whether it
    /// concerns the controls.
    pub fn apply_event(&mut self, ev: ControlEvent) -> (hit: bool)
        ensures
            (*final(self), hit) == event_effect(*old(self), ev),
    {
        match ev {
            ControlEvent::CursorMoved => true,
            ControlEvent::FocusChanged(focused) => {
                if !focused {
                    self.mouse_down = false;
                    self.ctrl_down = false;
                    true
                } else {
                    false
                }
            },
            ControlEvent::LeftMouse(pressed) => {
                self.mouse_down = pressed;
                true
            },
            ControlEvent::LeftCtrl(pressed) => {
                self.ctrl_down = pressed;
                true
            },
            ControlEvent::OtherButton => false,
            ControlEvent::Other => false,
        }
    }

    /// The directive the buttons ask for (see `directive_choice`).
    pub fn choose_directive(&self, moving: bool) -> (d: DirectiveChoice)
        ensures
            d == directive_choice(*self, moving),
    {
        if self.mouse_down {
            if self.ctrl_down {
                DirectiveChoice::FireAtCursor
            } else {
                DirectiveChoice::MoveToCursor
            }
        } else if moving {
            DirectiveChoice::KeepMoving
        } else {
            DirectiveChoice::Idle
        }
    }

    /// Applies `ev` and, when it concerns the controls, gives the directive
    /// the buttons now ask for (see `directive_change`).
    pub fn check_directive_change(&mut self, ev: ControlEvent, moving: bool) -> (d: Option<
        DirectiveChoice,
    >)
        ensures
            *final(self) == event_effect(*old(self), ev).0,
            d == directive_change(*old(self), ev, moving),
    {
        let hit = self.apply_event(ev);
        if hit {
            Some(self.choose_directive(moving))
        } else {
            None
        }
    }
}

/// Events that do not concern the controls change nothing and ask for no
/// directive.
pub proof fn lemma_unrelated_events_change_nothing(b: ControlButtons, moving: bool)
    ensures
        event_effect(b, ControlEvent::Other).0 == b,
        directive_change(b, ControlEvent::Other, moving) is None,
        event_effect(b, ControlEvent::OtherButton).0 == b,
        directive_change(b, ControlEvent::OtherButton, moving) is None,
        event_effect(b, ControlEvent::FocusChanged(true)).0 == b,
        directive_change(b, ControlEvent::FocusChanged(true), moving) is None,
{
}

/// A move is sticky: releasing the mouse button while the pawn moves keeps it
/// moving, and losing focus never leaves a button held or a shot asked for.
pub proof fn lemma_moves_are_sticky(b: ControlButtons)
    ensures
        directive_change(b, ControlEvent::LeftMouse(false), true) == Some(DirectiveChoice::KeepMoving),
        directive_change(b, ControlEvent::LeftMouse(false), false) == Some(DirectiveChoice::Idle),
        directive_change(b, ControlEvent::FocusChanged(false), true) == Some(
            DirectiveChoice::KeepMoving,
        ),
        directive_change(b, ControlEvent::FocusChanged(false), false) == Some(DirectiveChoice::Idle),
        !event_effect(b, ControlEvent::FocusChanged(false)).0.mouse_down,
        !event_effect(b, ControlEvent::FocusChanged(false)).0.ctrl_down,
{
}

/// Firing needs both buttons: the controls ask to fire exactly when, after the
/// event, the mouse button and Ctrl are both held.
pub proof fn lemma_fire_needs_both_buttons(b: ControlButtons, ev: ControlEvent, moving: bool)
    ensures
        directive_change(b, ev, moving) == Some(DirectiveChoice::FireAtCursor) <==> (event_effect(
            b,
            ev,
        ).1 && event_effect(b, ev).0.mouse_down && event_effect(b, ev).0.ctrl_down),
{
}

/// The two buttons are independent: a mouse event sets the mouse button to
/// whether it was pressed and leaves Ctrl as it was; a Ctrl event sets Ctrl
/// and leaves the mouse button as it was. Both concern the controls.
pub proof fn lemma_buttons_are_independent(b: ControlButtons, pressed: bool)
    ensures
        event_effect(b, ControlEvent::LeftMouse(pressed)).0.mouse_down == pressed,
        event_effect(b, ControlEvent::LeftMouse(pressed)).0.ctrl_down == b.ctrl_down,
        event_effect(b, ControlEvent::LeftMouse(pressed)).1,
        event_effect(b, ControlEvent::LeftCtrl(pressed)).0.ctrl_down == pressed,
        event_effect(b, ControlEvent::LeftCtrl(pressed)).0.mouse_down == b.mouse_down,
        event_effect(b, ControlEvent::LeftCtrl(pressed)).1,
{
}

/// While Ctrl is held, every press of the mouse button fires and every
/// release leaves Ctrl held, so the next press fires again.
pub proof fn lemma_ctrl_held_keeps_firing(b: ControlButtons, moving: bool)
    requires
        b.ctrl_down,
    ensures
        directive_change(b, ControlEvent::LeftMouse(true), moving) == Some(
            DirectiveChoice::FireAtCursor,
        ),
        event_effect(b, ControlEvent::LeftMouse(false)).0.ctrl_down,
        directive_change(
            event_effect(b, ControlEvent::LeftMouse(false)).0,
            ControlEvent::LeftMouse(true),
            moving,
        ) == Some(DirectiveChoice::FireAtCursor),
{
}

} // verus!
