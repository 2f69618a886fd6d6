//! One viewing session: the world, the viewport, the gesture and the clock, and
//! the frame that drives them.
//!
//! A frame takes the pointer, the keys and the wheel in that order and then lets
//! the clock decide whether the world steps. What a frame does is defined on the
//! mathematical model of the session, [`frame`]; the executable
//! [`Session::handle_frame`] is proved to do the same wherever the coordinates
//! that the frame computes are representable.

use vstd::prelude::*;
use crate::clock::{advanced, fires, switched, Clock, ClockModel};
use crate::engine::{process_cells, try_process_cells};
use crate::geometry::{all_representable, distance_squared, representable, Cell, Coord, ScreenPoint};
use crate::gesture::{pointer_step, Gesture, GestureModel, Intent, IntentModel, DRAG_THRESHOLD};
use crate::rule::{step, step_of_empty};
use crate::viewport::{panned, world_at, zoomed, Viewport, ViewportModel, DEFAULT_CELL_SIZE};
use crate::world::{toggle_twice_restores, toggled, World};

verus! {

/// What the host observed in one frame.
#[derive(Clone, Copy, Debug)]
pub struct FrameInput {
    /// Where the cursor is, in pixels.
    pub cursor: ScreenPoint,
    /// Whether the primary button is held.
    pub button_down: bool,
    /// Whether the primary button is released.
    pub button_up: bool,
    /// Whether the play/pause key was pressed in this frame.
    pub run_key: bool,
    /// Whether the clear key was pressed in this frame.
    pub clear_key: bool,
    /// The cell size that the wheel asks for, before it is clamped; `None` if the
    /// wheel did not move.
    pub zoom_request: Option<i32>,
    /// The time of this frame on the host's monotonic clock, in microseconds.
    pub now: u64,
}

/// One frame's input as mathematics.
pub struct FrameEvent {
    /// Where the cursor is, in pixels.
    pub cursor: Coord,
    /// Whether the primary button is held.
    pub button_down: bool,
    /// Whether the primary button is released.
    pub button_up: bool,
    /// Whether the play/pause key was pressed in this frame.
    pub run_key: bool,
    /// Whether the clear key was pressed in this frame.
    pub clear_key: bool,
    /// The cell size that the wheel asks for, if it moved.
    pub zoom_request: Option<int>,
    /// The time of this frame, in microseconds.
    pub now: nat,
}

impl View for FrameInput {
    type V = FrameEvent;

    open spec fn view(&self) -> FrameEvent {
        FrameEvent {
            cursor: self.cursor@,
            button_down: self.button_down,
            button_up: self.button_up,
            run_key: self.run_key,
            clear_key: self.clear_key,
            zoom_request: match self.zoom_request {
                Some(size) => Some(size as int),
                None => None,
            },
            now: self.now as nat,
        }
    }
}

/// A session as mathematics.
pub struct SessionModel {
    /// The live cells.
    pub world: Set<Coord>,
    /// The zoom and pan.
    pub viewport: ViewportModel,
    /// Where the pointer interaction stands.
    pub gesture: GestureModel,
    /// The run flag and the accumulator.
    pub clock: ClockModel,
}

/// What the pointer input of the frame asks for.
pub open spec fn intent_of(s: SessionModel, e: FrameEvent) -> IntentModel {
    pointer_step(s.gesture, e.cursor, e.button_down, e.button_up, s.viewport.origin).1
}

/// The cell that the frame toggles, if it toggles one: the cell under the cursor
/// when a press that never became a drag is released.
pub open spec fn toggle_of(s: SessionModel, e: FrameEvent) -> Option<Coord> {
    if intent_of(s, e) is Toggle {
        Some(world_at(s.viewport, e.cursor))
    } else {
        None
    }
}

/// The session after the pointer input of the frame: the gesture moves on, and a
/// drag pans the viewport or a click toggles a cell.
pub open spec fn after_pointer(s: SessionModel, e: FrameEvent) -> SessionModel {
    let gesture = pointer_step(s.gesture, e.cursor, e.button_down, e.button_up, s.viewport.origin).0;
    match intent_of(s, e) {
        IntentModel::Nothing => SessionModel { gesture, ..s },
        IntentModel::Pan { baseline, press } => SessionModel {
            gesture,
            viewport: panned(s.viewport, baseline, press, e.cursor),
            ..s
        },
        IntentModel::Toggle => SessionModel {
            gesture,
            world: toggled(s.world, world_at(s.viewport, e.cursor)),
            ..s
        },
    }
}

/// The session after the keys of the frame: the play/pause key flips the run
/// state, and the clear key empties the world, whatever else is going on.
pub open spec fn after_keys(s: SessionModel, e: FrameEvent) -> SessionModel {
    SessionModel {
        clock: if e.run_key {
            switched(s.clock)
        } else {
            s.clock
        },
        world: if e.clear_key {
            Set::empty()
        } else {
            s.world
        },
        ..s
    }
}

/// The session after the wheel of the frame: a request zooms about the cursor.
pub open spec fn after_wheel(s: SessionModel, e: FrameEvent) -> SessionModel {
    match e.zoom_request {
        Some(requested) => SessionModel { viewport: zoomed(s.viewport, e.cursor, requested), ..s },
        None => s,
    }
}

/// The session after all input of the frame, before the clock is consulted.
pub open spec fn after_input(s: SessionModel, e: FrameEvent) -> SessionModel {
    after_wheel(after_keys(after_pointer(s, e), e), e)
}

/// Whether the frame steps the world.
pub open spec fn steps(s: SessionModel, e: FrameEvent) -> bool {
    fires(after_input(s, e).clock, e.now)
}

/// The session after the clock has taken note of the frame: if it fires, the
/// world is replaced by its next generation, once.
pub open spec fn after_tick(s: SessionModel, e: FrameEvent) -> SessionModel {
    SessionModel {
        clock: advanced(s.clock, e.now),
        world: if fires(s.clock, e.now) {
            step(s.world)
        } else {
            s.world
        },
        ..s
    }
}

/// The session after the whole frame.
pub open spec fn frame(s: SessionModel, e: FrameEvent) -> SessionModel {
    after_tick(after_input(s, e), e)
}

/// Whether everything that the frame computes is representable: the pan offset
/// after the pointer input and after the wheel, the cell that is toggled, and,
/// if the world steps, its next generation.
pub open spec fn frame_fits(s: SessionModel, e: FrameEvent) -> bool {
    &&& representable(after_pointer(s, e).viewport.origin)
    &&& (toggle_of(s, e) matches Some(c) ==> representable(c))
    &&& representable(after_input(s, e).viewport.origin)
    &&& (steps(s, e) ==> all_representable(step(after_input(s, e).world)))
}

/// The session after a run of frames, the first of `events` first.
pub open spec fn frames(s: SessionModel, events: Seq<FrameEvent>) -> SessionModel
    decreases events.len(),
{
    if events.len() == 0 {
        s
    } else {
        frame(frames(s, events.drop_last()), events.last())
    }
}

/// The cell that frame `i` of a run toggles, if it toggles one.
pub open spec fn toggle_in(s: SessionModel, events: Seq<FrameEvent>, i: int) -> Option<Coord> {
    toggle_of(frames(s, events.take(i)), events[i])
}

/// Whether a run of frames is one press of the primary button: held from the
/// first frame on and released in the last.
pub open spec fn is_press_and_release(events: Seq<FrameEvent>) -> bool {
    &&& events.len() >= 2
    &&& forall|i: int| 0 <= i < events.len() - 1 ==> (#[trigger] events[i]).button_down
    &&& !events.last().button_down
    &&& events.last().button_up
}

/// Whether in frame `i` of a run the cursor is farther from where it was in the
/// first frame than the drag threshold allows.
pub open spec fn strays(events: Seq<FrameEvent>, i: int) -> bool {
    distance_squared(events[i].cursor, events[0].cursor) > DRAG_THRESHOLD
}

/// While the button is held, the gesture is a drag from the press position, or a
/// press at the press position during which the cursor has not strayed.
proof fn lemma_held(s: SessionModel, events: Seq<FrameEvent>, k: int)
    requires
        s.gesture is Idle,
        1 <= k <= events.len(),
        forall|i: int| 0 <= i < k ==> (#[trigger] events[i]).button_down,
    ensures
        ({
            let g = frames(s, events.take(k)).gesture;
            ||| g matches GestureModel::Dragging { at, .. } && at == events[0].cursor && exists|i: int|
                0 < i < k && strays(events, i)
            ||| g matches GestureModel::Pressed { at, .. } && at == events[0].cursor && forall|i: int|
                0 < i < k ==> !strays(events, i)
        }),
    decreases k,
{
    let run = events.take(k);
    assert(run.drop_last() =~= events.take(k - 1));
    assert(run.last() == events[k - 1]);
    if k == 1 {
        assert(frames(s, events.take(0)) == s);
    } else {
        lemma_held(s, events, k - 1);
        let before = frames(s, events.take(k - 1)).gesture;
        if before is Dragging {
            let i = choose|i: int| 0 < i < k - 1 && strays(events, i);
            assert(0 < i < k && strays(events, i));
        } else if strays(events, k - 1) {
            assert(0 < k - 1 < k && strays(events, k - 1));
        }
    }
}

/// A press that is released without the cursor having strayed toggles exactly
/// one cell: none while the button is held, and with the release the cell that
/// is then under the cursor.
pub proof fn click_toggles_one_cell(s: SessionModel, events: Seq<FrameEvent>)
    requires
        s.gesture is Idle,
        is_press_and_release(events),
        forall|i: int| 0 < i < events.len() - 1 ==> !strays(events, i),
    ensures
        forall|i: int| 0 <= i < events.len() - 1 ==> toggle_in(s, events, i) is None,
        toggle_in(s, events, events.len() - 1) == Some(
            world_at(frames(s, events.drop_last()).viewport, events.last().cursor),
        ),
        frames(s, events).gesture is Idle,
{
    lemma_held(s, events, events.len() - 1);
    assert(events.take(events.len() - 1) =~= events.drop_last());
}

/// A press during which the cursor has strayed, if only in one frame, toggles
/// no cell, wherever the cursor is when the button is released.
pub proof fn drag_toggles_nothing(s: SessionModel, events: Seq<FrameEvent>, strayed: int)
    requires
        s.gesture is Idle,
        is_press_and_release(events),
        0 < strayed < events.len() - 1,
        strays(events, strayed),
    ensures
        forall|i: int| 0 <= i < events.len() ==> toggle_in(s, events, i) is None,
        frames(s, events).gesture is Idle,
{
    lemma_held(s, events, events.len() - 1);
    assert(events.take(events.len() - 1) =~= events.drop_last());
}

/// What a frame changed in the world.
#[derive(Clone, Copy, Debug)]
pub struct FrameReport {
    /// The cell that was toggled, if one was.
    pub toggled: Option<Cell>,
    /// Whether the world stepped to its next generation.
    pub stepped: bool,
}

/// The state of one viewing session.
pub struct Session {
    world: World,
    viewport: Viewport,
    gesture: Gesture,
    clock: Clock,
}

impl View for Session {
    type V = SessionModel;

    closed spec fn view(&self) -> SessionModel {
        SessionModel {
            world: self.world@,
            viewport: self.viewport@,
            gesture: self.gesture@,
            clock: self.clock@,
        }
    }
}

impl Session {
    /// A fresh session at time `now`: an empty world, the default viewport, no
    /// gesture under way, the simulation paused.
    pub fn new(now: u64) -> (session: Session)
        ensures
            session@.world == Set::<Coord>::empty(),
            session@.viewport == (ViewportModel { cell_size: DEFAULT_CELL_SIZE as int, origin: (0, 0) }),
            session@.gesture == GestureModel::Idle,
            session@.clock == (ClockModel { running: false, last_time: now as nat, accumulated: 0 }),
    {
        Session {
            world: World::new(),
            viewport: Viewport::new(),
            gesture: Gesture::Idle,
            clock: Clock::new(now),
        }
    }

    /// The live cells.
    pub fn world(&self) -> (world: &World)
        ensures
            world@ == self@.world,
    {
        &self.world
    }

    /// The zoom and pan.
    pub fn viewport(&self) -> (viewport: &Viewport)
        ensures
            viewport@ == self@.viewport,
    {
        &self.viewport
    }

    /// Where the pointer interaction stands.
    pub fn gesture(&self) -> (gesture: Gesture)
        ensures
            gesture@ == self@.gesture,
    {
        self.gesture
    }

    /// Whether the simulation runs.
    pub fn is_running(&self) -> (running: bool)
        ensures
            running == self@.clock.running,
    {
        self.clock.is_running()
    }

    /// The number of live cells.
    pub fn live_count(&self) -> (count: usize)
        ensures
            count == self@.world.len(),
    {
        self.world.live_count()
    }

    /// Handles one frame if everything that it computes is representable, and
    /// leaves the session as it is if not.
    ///
    /// Where it does, the session becomes what [`frame`] says, and the report
    /// names the cell that was toggled and says whether the world stepped.
    pub fn try_handle_frame(&mut self, input: &FrameInput) -> (report: Option<FrameReport>)
        ensures
            report is Some <==> frame_fits(old(self)@, input@),
            report is None ==> final(self)@ == old(self)@,
            report matches Some(r) ==> {
                &&& final(self)@ == frame(old(self)@, input@)
                &&& r.stepped == steps(old(self)@, input@)
                &&& match r.toggled {
                    Some(cell) => toggle_of(old(self)@, input@) == Some(cell@),
                    None => toggle_of(old(self)@, input@) is None,
                }
            },
    {
        let (gesture, intent) = self.gesture.on_pointer(
            input.cursor,
            input.button_down,
            input.button_up,
            self.viewport.origin(),
        );
        let mut viewport = self.viewport;
        let mut toggled_cell: Option<Cell> = None;
        match intent {
            Intent::Nothing => {},
            Intent::Pan { baseline, press } => {
                if !viewport.can_pan_to(baseline, press, input.cursor) {
                    return None;
                }
                viewport.pan_to(baseline, press, input.cursor);
            },
            Intent::Toggle => {
                if !viewport.can_locate(input.cursor) {
                    return None;
                }
                toggled_cell = Some(viewport.screen_to_world(input.cursor));
            },
        }
        match input.zoom_request {
            Some(requested) => {
                if !viewport.can_zoom_at(input.cursor, requested) {
                    return None;
                }
                viewport.zoom_at(input.cursor, requested);
            },
            None => {},
        }
        let mut clock = self.clock;
        if input.run_key {
            clock.toggle_running();
        }
        let stepped = clock.advance(input.now);
        if input.clear_key {
            self.world.clear();
            if stepped {
                proof {
                    step_of_empty();
                }
                self.world = process_cells(&self.world);
            }
        } else {
            match toggled_cell {
                Some(cell) => {
                    self.world.toggle(cell);
                },
                None => {},
            }
            if stepped {
                match try_process_cells(&self.world) {
                    Some(next) => {
                        self.world = next;
                    },
                    None => {
                        match toggled_cell {
                            Some(cell) => {
                                proof {
                                    toggle_twice_restores(old(self)@.world, cell@);
                                }
                                self.world.toggle(cell);
                            },
                            None => {},
                        }
                        return None;
                    },
                }
            }
        }
        self.gesture = gesture;
        self.viewport = viewport;
        self.clock = clock;
        Some(FrameReport { toggled: toggled_cell, stepped })
    }

    /// Handles one frame.
    ///
    /// The session becomes what [`frame`] says, and the report names the cell
    /// that was toggled and says whether the world stepped. Everything that the
    /// frame computes must be representable; [`Session::try_handle_frame`] asks
    /// nothing and tells when it is not.
    pub fn handle_frame(&mut self, input: &FrameInput) -> (report: FrameReport)
        requires
            frame_fits(old(self)@, input@),
        ensures
            final(self)@ == frame(old(self)@, input@),
            report.stepped == steps(old(self)@, input@),
            match report.toggled {
                Some(cell) => toggle_of(old(self)@, input@) == Some(cell@),
                None => toggle_of(old(self)@, input@) is None,
            },
    {
        let report = self.try_handle_frame(input);
        report.unwrap()
    }
}

} // verus!
