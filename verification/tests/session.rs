use infinite_life::clock::TICK_MICROS;
use infinite_life::geometry::{Cell, ScreenPoint};
use infinite_life::gesture::Gesture;
use infinite_life::session::{FrameInput, FrameReport, Session};

fn idle(now: u64) -> FrameInput {
    FrameInput {
        cursor: ScreenPoint::new(0, 0),
        button_down: false,
        button_up: true,
        run_key: false,
        clear_key: false,
        zoom_request: None,
        now,
    }
}

fn held(x: i32, y: i32, now: u64) -> FrameInput {
    FrameInput { cursor: ScreenPoint::new(x, y), button_down: true, button_up: false, ..idle(now) }
}

fn released(x: i32, y: i32, now: u64) -> FrameInput {
    FrameInput { cursor: ScreenPoint::new(x, y), ..idle(now) }
}

fn run(session: &mut Session, input: FrameInput) -> FrameReport {
    session.try_handle_frame(&input).expect("the frame is representable")
}

fn click(session: &mut Session, x: i32, y: i32, now: u64) -> Option<Cell> {
    assert!(run(session, held(x, y, now)).toggled.is_none());
    run(session, released(x, y, now + 1)).toggled
}

fn live(session: &Session) -> Vec<(i32, i32)> {
    let mut cells: Vec<(i32, i32)> = session.world().cells().iter().map(|c| (c.x, c.y)).collect();
    cells.sort();
    cells
}

#[test]
fn new_session_is_empty_and_paused() {
    let session = Session::new(0);
    assert_eq!(session.live_count(), 0);
    assert!(!session.is_running());
    assert_eq!(session.viewport().cell_size(), 12);
    assert_eq!(session.viewport().origin(), Cell::new(0, 0));
    assert_eq!(session.gesture(), Gesture::Idle);
}

#[test]
fn click_toggles_the_cell_under_the_cursor() {
    let mut session = Session::new(0);
    let toggled = click(&mut session, 30, 50, 1);
    assert_eq!(toggled, Some(Cell::new(2, 4)));
    assert_eq!(live(&session), vec![(2, 4)]);
    assert_eq!(session.live_count(), 1);
    assert_eq!(session.gesture(), Gesture::Idle);
}

#[test]
fn click_with_a_small_wobble_toggles_the_cell_under_the_release() {
    let mut session = Session::new(0);
    run(&mut session, held(23, 23, 1));
    run(&mut session, held(24, 24, 2));
    run(&mut session, held(25, 24, 3));
    let report = run(&mut session, released(24, 25, 4));
    assert_eq!(report.toggled, Some(Cell::new(2, 2)));
    assert_eq!(live(&session), vec![(2, 2)]);
    assert_eq!(session.viewport().origin(), Cell::new(0, 0));
}

#[test]
fn two_clicks_on_one_cell_restore_the_world() {
    let mut session = Session::new(0);
    click(&mut session, 5, 5, 1);
    click(&mut session, 100, 40, 3);
    let before = live(&session);
    assert_eq!(before, vec![(0, 0), (8, 3)]);
    assert_eq!(click(&mut session, 101, 41, 5), Some(Cell::new(8, 3)));
    assert_eq!(live(&session), vec![(0, 0)]);
    assert_eq!(click(&mut session, 107, 47, 7), Some(Cell::new(8, 3)));
    assert_eq!(live(&session), before);
}

#[test]
fn drag_pans_and_toggles_nothing() {
    let mut session = Session::new(0);
    run(&mut session, held(100, 100, 1));
    assert_eq!(session.gesture(), Gesture::Pressed { at: ScreenPoint::new(100, 100), baseline: Cell::new(0, 0) });
    run(&mut session, held(130, 76, 2));
    assert!(session.gesture().is_dragging());
    assert_eq!(session.viewport().origin(), Cell::new(2, -2));
    run(&mut session, held(160, 100, 3));
    assert_eq!(session.viewport().origin(), Cell::new(5, 0));
    let report = run(&mut session, released(160, 100, 4));
    assert_eq!(report.toggled, None);
    assert_eq!(session.live_count(), 0);
    assert_eq!(session.viewport().origin(), Cell::new(5, 0));
    assert_eq!(session.gesture(), Gesture::Idle);
}

#[test]
fn drag_that_returns_to_the_press_position_toggles_nothing() {
    let mut session = Session::new(0);
    run(&mut session, held(100, 100, 1));
    run(&mut session, held(103, 100, 2));
    run(&mut session, held(100, 100, 3));
    assert!(session.gesture().is_dragging());
    let report = run(&mut session, released(100, 100, 4));
    assert_eq!(report.toggled, None);
    assert_eq!(session.live_count(), 0);
    assert_eq!(session.viewport().origin(), Cell::new(0, 0));
}

#[test]
fn second_drag_starts_from_the_panned_origin() {
    let mut session = Session::new(0);
    run(&mut session, held(0, 0, 1));
    run(&mut session, held(24, 0, 2));
    run(&mut session, released(24, 0, 3));
    assert_eq!(session.viewport().origin(), Cell::new(2, 0));
    run(&mut session, held(10, 10, 4));
    run(&mut session, held(10, 46, 5));
    run(&mut session, released(10, 46, 6));
    assert_eq!(session.viewport().origin(), Cell::new(2, 3));
    assert_eq!(click(&mut session, 0, 0, 7), Some(Cell::new(-2, -3)));
}

#[test]
fn run_key_flips_the_run_state() {
    let mut session = Session::new(0);
    run(&mut session, FrameInput { run_key: true, ..idle(1) });
    assert!(session.is_running());
    run(&mut session, idle(2));
    assert!(session.is_running());
    run(&mut session, FrameInput { run_key: true, ..idle(3) });
    assert!(!session.is_running());
}

#[test]
fn clear_key_empties_the_world() {
    let mut session = Session::new(0);
    click(&mut session, 5, 5, 1);
    click(&mut session, 50, 5, 3);
    assert_eq!(session.live_count(), 2);
    run(&mut session, FrameInput { clear_key: true, ..idle(5) });
    assert_eq!(session.live_count(), 0);
}

#[test]
fn clear_key_works_during_a_drag_and_together_with_the_run_key() {
    let mut session = Session::new(0);
    click(&mut session, 5, 5, 1);
    run(&mut session, held(100, 100, 3));
    run(&mut session, FrameInput { clear_key: true, run_key: true, ..held(200, 100, 4) });
    assert_eq!(session.live_count(), 0);
    assert!(session.is_running());
    assert!(session.gesture().is_dragging());
}

#[test]
fn clear_key_empties_the_world_in_the_frame_of_a_click() {
    let mut session = Session::new(0);
    run(&mut session, held(5, 5, 1));
    let report = run(&mut session, FrameInput { clear_key: true, ..released(5, 5, 2) });
    assert_eq!(report.toggled, Some(Cell::new(0, 0)));
    assert_eq!(session.live_count(), 0);
}

#[test]
fn wheel_zooms_about_the_cursor() {
    let mut session = Session::new(0);
    run(&mut session, FrameInput { cursor: ScreenPoint::new(120, 30), zoom_request: Some(13), ..idle(1) });
    assert_eq!(session.viewport().cell_size(), 13);
    assert_eq!(session.viewport().origin(), Cell::new(1, 0));
    run(&mut session, FrameInput { zoom_request: Some(500), ..idle(2) });
    assert_eq!(session.viewport().cell_size(), 100);
    run(&mut session, FrameInput { zoom_request: Some(0), ..idle(3) });
    assert_eq!(session.viewport().cell_size(), 2);
}

#[test]
fn paused_session_does_not_step() {
    let mut session = Session::new(0);
    click(&mut session, 5, 5, 1);
    let report = run(&mut session, idle(10 * TICK_MICROS));
    assert!(!report.stepped);
    assert_eq!(session.live_count(), 1);
}

#[test]
fn running_session_steps_once_per_tick() {
    let mut session = Session::new(0);
    click(&mut session, 0, 0, 1);
    click(&mut session, 12, 0, 3);
    click(&mut session, 24, 0, 5);
    assert_eq!(live(&session), vec![(0, 0), (1, 0), (2, 0)]);
    let start = 1_000;
    assert!(!run(&mut session, FrameInput { run_key: true, ..idle(start) }).stepped);
    assert!(!run(&mut session, idle(start + 10_000)).stepped);
    assert_eq!(live(&session), vec![(0, 0), (1, 0), (2, 0)]);
    assert!(run(&mut session, idle(start + 20_000)).stepped);
    assert_eq!(live(&session), vec![(1, -1), (1, 0), (1, 1)]);
    assert!(!run(&mut session, idle(start + 30_000)).stepped);
    assert!(run(&mut session, idle(start + 40_000)).stepped);
    assert_eq!(live(&session), vec![(0, 0), (1, 0), (2, 0)]);
}

#[test]
fn stall_of_ten_ticks_steps_the_world_once() {
    let mut session = Session::new(0);
    click(&mut session, 0, 0, 1);
    click(&mut session, 12, 0, 3);
    click(&mut session, 24, 0, 5);
    run(&mut session, FrameInput { run_key: true, ..idle(10) });
    let resumed = 10 + 10 * TICK_MICROS;
    let mut steps = 0;
    if run(&mut session, idle(resumed)).stepped {
        steps += 1;
    }
    assert_eq!(live(&session), vec![(1, -1), (1, 0), (1, 1)]);
    for frame in 1..=5u64 {
        if run(&mut session, idle(resumed + frame * 1_000)).stepped {
            steps += 1;
        }
    }
    assert_eq!(steps, 1);
    assert_eq!(live(&session), vec![(1, -1), (1, 0), (1, 1)]);
}

#[test]
fn resuming_after_a_long_pause_does_not_step_at_once() {
    let mut session = Session::new(0);
    click(&mut session, 0, 0, 1);
    run(&mut session, idle(60_000_000));
    let report = run(&mut session, FrameInput { run_key: true, ..idle(60_010_000) });
    assert!(!report.stepped);
    assert_eq!(session.live_count(), 1);
    assert!(run(&mut session, idle(60_020_000)).stepped);
    assert_eq!(session.live_count(), 0);
}

#[test]
fn toggle_and_step_happen_in_one_frame() {
    let mut session = Session::new(0);
    click(&mut session, 0, 0, 1);
    click(&mut session, 12, 0, 3);
    run(&mut session, FrameInput { run_key: true, ..idle(5) });
    run(&mut session, held(24, 0, 6));
    let report = run(&mut session, released(24, 0, 5 + TICK_MICROS));
    assert_eq!(report.toggled, Some(Cell::new(2, 0)));
    assert!(report.stepped);
    assert_eq!(live(&session), vec![(1, -1), (1, 0), (1, 1)]);
}

#[test]
fn frame_that_would_leave_the_range_is_refused_and_changes_nothing() {
    let mut session = Session::new(0);
    run(&mut session, held(i32::MIN, 0, 1));
    assert!(run(&mut session, held(i32::MAX, 0, 2)).toggled.is_none());
    run(&mut session, released(i32::MAX, 0, 3));
    let origin = session.viewport().origin();
    assert_eq!(origin, Cell::new(357_913_941, 0));
    for _ in 0..5 {
        run(&mut session, held(i32::MIN, 0, 4));
        run(&mut session, held(i32::MAX, 0, 5));
        run(&mut session, released(i32::MAX, 0, 6));
    }
    assert_eq!(session.viewport().origin(), Cell::new(6 * 357_913_941, 0));
    run(&mut session, held(i32::MIN, 0, 7));
    let too_far = held(i32::MAX, 0, 8);
    assert!(session.try_handle_frame(&too_far).is_none());
    assert_eq!(session.viewport().origin(), Cell::new(6 * 357_913_941, 0));
    assert_eq!(session.gesture(), Gesture::Pressed { at: ScreenPoint::new(i32::MIN, 0), baseline: Cell::new(6 * 357_913_941, 0) });
    let near = held(i32::MIN + 12, 0, 9);
    let report = session.try_handle_frame(&near);
    assert!(report.is_some());
    assert_eq!(session.viewport().origin(), Cell::new(i32::MAX, 0));
}

#[test]
fn handle_frame_does_what_try_handle_frame_does() {
    let mut session = Session::new(0);
    session.handle_frame(&held(30, 50, 1));
    let report = session.handle_frame(&released(30, 50, 2));
    assert_eq!(report.toggled, Some(Cell::new(2, 4)));
    assert!(!report.stepped);
    assert_eq!(live(&session), vec![(2, 4)]);
    session.handle_frame(&FrameInput { run_key: true, ..idle(3) });
    assert!(session.handle_frame(&idle(3 + TICK_MICROS)).stepped);
    assert_eq!(session.live_count(), 0);
}

#[test]
fn lone_cell_on_the_edge_of_the_range_steps() {
    let mut session = Session::new(0);
    // Zoom out as far as it goes and pan until pixel 0 shows the last column.
    run(&mut session, FrameInput { zoom_request: Some(2), ..idle(1) });
    run(&mut session, held(i32::MAX, 0, 2));
    run(&mut session, held(i32::MIN, 0, 3));
    run(&mut session, released(i32::MIN, 0, 4));
    assert_eq!(session.viewport().origin(), Cell::new(-i32::MAX, 0));
    assert_eq!(click(&mut session, 0, 0, 5), Some(Cell::new(i32::MAX, 0)));
    run(&mut session, FrameInput { run_key: true, ..idle(7) });
    assert!(run(&mut session, idle(7 + TICK_MICROS)).stepped);
    assert_eq!(session.live_count(), 0);
}

#[test]
fn step_with_a_birth_beyond_the_range_is_refused_and_changes_nothing() {
    let mut session = Session::new(0);
    run(&mut session, FrameInput { zoom_request: Some(2), ..idle(1) });
    run(&mut session, held(i32::MAX, 0, 2));
    run(&mut session, held(i32::MIN, 0, 3));
    run(&mut session, released(i32::MIN, 0, 4));
    click(&mut session, 0, 0, 5);
    click(&mut session, 0, 2, 7);
    click(&mut session, 0, 4, 9);
    let column = vec![(i32::MAX, 0), (i32::MAX, 1), (i32::MAX, 2)];
    assert_eq!(live(&session), column);
    run(&mut session, FrameInput { run_key: true, ..idle(11) });

    let due = idle(11 + TICK_MICROS);
    assert!(session.try_handle_frame(&due).is_none());
    assert_eq!(live(&session), column);
    assert!(session.is_running());

    // A click in the refused frame is undone with it.
    run(&mut session, held(-100, -100, 12));
    let pressed = session.gesture();
    let click_when_due = released(-100, -100, 11 + TICK_MICROS);
    assert!(session.try_handle_frame(&click_when_due).is_none());
    assert_eq!(live(&session), column);
    assert_eq!(session.gesture(), pressed);

    // Once the middle cell is gone, nothing is born beyond the range.
    assert_eq!(run(&mut session, released(0, 2, 13)).toggled, Some(Cell::new(i32::MAX, 1)));
    assert_eq!(live(&session), vec![(i32::MAX, 0), (i32::MAX, 2)]);
    assert!(run(&mut session, idle(11 + TICK_MICROS)).stepped);
    assert_eq!(session.live_count(), 0);
}

#[test]
fn clear_key_lets_a_refused_step_through() {
    let mut session = Session::new(0);
    run(&mut session, FrameInput { zoom_request: Some(2), ..idle(1) });
    run(&mut session, held(i32::MAX, 0, 2));
    run(&mut session, held(i32::MIN, 0, 3));
    run(&mut session, released(i32::MIN, 0, 4));
    click(&mut session, 0, 0, 5);
    click(&mut session, 0, 2, 7);
    click(&mut session, 0, 4, 9);
    run(&mut session, FrameInput { run_key: true, ..idle(11) });
    let due = idle(11 + TICK_MICROS);
    assert!(session.try_handle_frame(&due).is_none());
    let cleared = FrameInput { clear_key: true, ..due };
    assert!(run(&mut session, cleared).stepped);
    assert_eq!(session.live_count(), 0);
}
