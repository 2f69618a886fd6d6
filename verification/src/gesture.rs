//! The interaction state machine: telling a click from a drag.
//!
//! A press that is released without the cursor ever having left the neighbourhood
//! of the press position is a click and toggles a cell. A press during which the
//! cursor has left it, if only once, is a drag: it pans, and its release toggles
//! nothing.

use vstd::prelude::*;
use crate::geometry::{distance_squared, farther_than, Cell, Coord, ScreenPoint};

verus! {

/// How far the cursor may stray from the press position before the press counts
/// as a drag, as a squared distance in pixels.
pub const DRAG_THRESHOLD: i32 = 5;

/// A gesture as mathematics.
pub enum GestureModel {
    /// The primary button is up.
    Idle,
    /// The button went down at `at` while the pan offset was `baseline`, and the
    /// cursor has stayed near.
    Pressed { at: Coord, baseline: Coord },
    /// The button went down at `at` while the pan offset was `baseline`, and the
    /// cursor has strayed.
    Dragging { at: Coord, baseline: Coord },
}

/// What a frame's pointer input asks for, as mathematics.
pub enum IntentModel {
    /// Nothing.
    Nothing,
    /// Pan by the drag from `press` to the cursor, starting at `baseline`.
    Pan { baseline: Coord, press: Coord },
    /// Toggle the cell under the cursor.
    Toggle,
}

/// One transition of the gesture machine: the next state and the intent, given
/// the cursor position, whether the button is down, whether it is up, and the
/// current pan offset.
pub open spec fn pointer_step(
    g: GestureModel,
    cursor: Coord,
    down: bool,
    up: bool,
    origin: Coord,
) -> (GestureModel, IntentModel) {
    if down {
        match g {
            GestureModel::Idle => (
                GestureModel::Pressed { at: cursor, baseline: origin },
                IntentModel::Nothing,
            ),
            GestureModel::Pressed { at, baseline } => {
                if distance_squared(cursor, at) > DRAG_THRESHOLD {
                    (GestureModel::Dragging { at, baseline }, IntentModel::Pan { baseline, press: at })
                } else {
                    (g, IntentModel::Nothing)
                }
            },
            GestureModel::Dragging { at, baseline } => (g, IntentModel::Pan { baseline, press: at }),
        }
    } else if up {
        match g {
            GestureModel::Pressed { .. } => (GestureModel::Idle, IntentModel::Toggle),
            _ => (GestureModel::Idle, IntentModel::Nothing),
        }
    } else {
        (g, IntentModel::Nothing)
    }
}

/// Where the pointer interaction stands.
#[derive(Clone, Copy, PartialEq, Eq, Structural, Debug)]
pub enum Gesture {
    /// The primary button is up.
    Idle,
    /// The button went down at `at` while the pan offset was `baseline`, and the
    /// cursor has stayed near.
    Pressed { at: ScreenPoint, baseline: Cell },
    /// The button went down at `at` while the pan offset was `baseline`, and the
    /// cursor has strayed.
    Dragging { at: ScreenPoint, baseline: Cell },
}

impl View for Gesture {
    type V = GestureModel;

    open spec fn view(&self) -> GestureModel {
        match *self {
            Gesture::Idle => GestureModel::Idle,
            Gesture::Pressed { at, baseline } => GestureModel::Pressed { at: at@, baseline: baseline@ },
            Gesture::Dragging { at, baseline } => GestureModel::Dragging {
                at: at@,
                baseline: baseline@,
            },
        }
    }
}

/// What a frame's pointer input asks for.
#[derive(Clone, Copy, PartialEq, Eq, Structural, Debug)]
pub enum Intent {
    /// Nothing.
    Nothing,
    /// Pan by the drag from `press` to the cursor, starting at `baseline`.
    Pan { baseline: Cell, press: ScreenPoint },
    /// Toggle the cell under the cursor.
    Toggle,
}

impl View for Intent {
    type V = IntentModel;

    open spec fn view(&self) -> IntentModel {
        match *self {
            Intent::Nothing => IntentModel::Nothing,
            Intent::Pan { baseline, press } => IntentModel::Pan { baseline: baseline@, press: press@ },
            Intent::Toggle => IntentModel::Toggle,
        }
    }
}

impl Gesture {
    /// Whether the primary button is held, as far as the machine knows.
    pub fn is_mouse_down(&self) -> (held: bool)
        ensures
            held == !(self@ is Idle),
    {
        match self {
            Gesture::Idle => false,
            _ => true,
        }
    }

    /// Whether the current press has become a drag.
    pub fn is_dragging(&self) -> (dragging: bool)
        ensures
            dragging == (self@ is Dragging),
    {
        match self {
            Gesture::Dragging { .. } => true,
            _ => false,
        }
    }

    /// Takes one frame's pointer input and gives the next state and the intent.
    pub fn on_pointer(self, cursor: ScreenPoint, down: bool, up: bool, origin: Cell) -> (next: (
        Gesture,
        Intent,
    ))
        ensures
            (next.0@, next.1@) == pointer_step(self@, cursor@, down, up, origin@),
    {
        if down {
            match self {
                Gesture::Idle => (Gesture::Pressed { at: cursor, baseline: origin }, Intent::Nothing),
                Gesture::Pressed { at, baseline } => {
                    if farther_than(cursor, at, DRAG_THRESHOLD) {
                        (Gesture::Dragging { at, baseline }, Intent::Pan { baseline, press: at })
                    } else {
                        (self, Intent::Nothing)
                    }
                },
                Gesture::Dragging { at, baseline } => (self, Intent::Pan { baseline, press: at }),
            }
        } else if up {
            match self {
                Gesture::Pressed { .. } => (Gesture::Idle, Intent::Toggle),
                _ => (Gesture::Idle, Intent::Nothing),
            }
        } else {
            (self, Intent::Nothing)
        }
    }
}

} // verus!
