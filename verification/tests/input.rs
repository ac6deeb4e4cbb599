use ball_merge::input::{
    ball_spawn_update, cursor_read, first_hit, first_orbit, latest_update, raycast_box_top, BallSpawnUpdate,
    CursorChangeType, CursorTracking, MouseSample, OrbitUpdate, SpawnCandidate, TouchPhase,
    TouchSample, TouchState, MOUSE_ID,
};
use ball_merge::setup::BoxSize;
use ball_merge::units::{Movement, Vec2, Vec3};

fn at(x: i32, y: i32) -> Vec2 {
    Vec2 { x, y }
}

fn idle_mouse() -> MouseSample {
    MouseSample { just_pressed: false, just_released: false, pressed: false, cursor: None, on_box: false }
}

fn press(x: i32, y: i32, on_box: bool) -> MouseSample {
    MouseSample { just_pressed: true, just_released: false, pressed: true, cursor: Some(at(x, y)), on_box }
}

fn hold(x: i32, y: i32) -> MouseSample {
    MouseSample { just_pressed: false, just_released: false, pressed: true, cursor: Some(at(x, y)), on_box: true }
}

fn release(x: i32, y: i32) -> MouseSample {
    MouseSample { just_pressed: false, just_released: true, pressed: false, cursor: Some(at(x, y)), on_box: true }
}

fn hover(x: i32, y: i32) -> MouseSample {
    MouseSample { just_pressed: false, just_released: false, pressed: false, cursor: Some(at(x, y)), on_box: true }
}

fn touch(id: u64, phase: TouchPhase, x: i32, y: i32, on_box: bool) -> TouchSample {
    TouchSample { id, phase, position: at(x, y), on_box }
}

fn ids(tracker: &CursorTracking) -> Vec<u64> {
    tracker.gestures().iter().map(|e| e.0).collect()
}

#[test]
fn new_tracker_follows_nothing() {
    let tracker = CursorTracking::new();
    assert!(tracker.gestures().is_empty());
    assert_eq!(tracker.get(MOUSE_ID), None);
    assert_eq!(tracker.get(7), None);
}

#[test]
fn untracked_mouse_stays_untracked_until_pressed() {
    let mut tracker = CursorTracking::new();
    tracker.get_tracked(&hover(10, 10), &Vec::new());
    assert!(tracker.gestures().is_empty());
    tracker.get_tracked(&idle_mouse(), &Vec::new());
    assert!(tracker.gestures().is_empty());
}

#[test]
fn mouse_press_starts_a_gesture() {
    let mut tracker = CursorTracking::new();
    tracker.get_tracked(&press(100, 200, true), &Vec::new());
    assert_eq!(
        tracker.get(MOUSE_ID),
        Some(TouchState {
            movement: Movement { x: 0, y: 0 },
            event_type: CursorChangeType::DragStart,
            position: at(100, 200),
            is_orbit: false,
        })
    );
    let mut tracker = CursorTracking::new();
    tracker.get_tracked(&press(100, 200, false), &Vec::new());
    assert!(tracker.get(MOUSE_ID).unwrap().is_orbit);
}

#[test]
fn mouse_drags_ends_and_then_moves() {
    let mut tracker = CursorTracking::new();
    tracker.get_tracked(&press(100, 200, true), &Vec::new());
    tracker.get_tracked(&hold(130, 190), &Vec::new());
    assert_eq!(
        tracker.get(MOUSE_ID),
        Some(TouchState {
            movement: Movement { x: 30, y: -10 },
            event_type: CursorChangeType::Drag,
            position: at(130, 190),
            is_orbit: false,
        })
    );
    tracker.get_tracked(&release(131, 190), &Vec::new());
    assert_eq!(
        tracker.get(MOUSE_ID),
        Some(TouchState {
            movement: Movement { x: 1, y: 0 },
            event_type: CursorChangeType::DragEnd,
            position: at(131, 190),
            is_orbit: false,
        })
    );
    tracker.get_tracked(&hover(140, 200), &Vec::new());
    assert_eq!(
        tracker.get(MOUSE_ID),
        Some(TouchState {
            movement: Movement { x: 9, y: 10 },
            event_type: CursorChangeType::Move,
            position: at(140, 200),
            is_orbit: false,
        })
    );
}

#[test]
fn cursor_leaving_the_window_ends_the_gesture_in_place() {
    let mut tracker = CursorTracking::new();
    tracker.get_tracked(&press(100, 200, true), &Vec::new());
    let mut gone = hold(0, 0);
    gone.cursor = None;
    tracker.get_tracked(&gone, &Vec::new());
    assert_eq!(
        tracker.get(MOUSE_ID),
        Some(TouchState {
            movement: Movement { x: 0, y: 0 },
            event_type: CursorChangeType::DragEnd,
            position: at(100, 200),
            is_orbit: false,
        })
    );
}

#[test]
fn press_without_cursor_starts_nothing() {
    let mut tracker = CursorTracking::new();
    let mut blind = press(0, 0, true);
    blind.cursor = None;
    tracker.get_tracked(&blind, &Vec::new());
    assert!(tracker.gestures().is_empty());
    tracker.get_tracked(&press(5, 5, true), &Vec::new());
    tracker.get_tracked(&blind, &Vec::new());
    assert_eq!(tracker.get(MOUSE_ID).unwrap().event_type, CursorChangeType::DragEnd);
    assert_eq!(tracker.get(MOUSE_ID).unwrap().position, at(5, 5));
}

#[test]
fn movement_is_exact_across_the_whole_range() {
    let mut tracker = CursorTracking::new();
    tracker.get_tracked(&press(i32::MIN, i32::MAX, true), &Vec::new());
    tracker.get_tracked(&hold(i32::MAX, i32::MIN), &Vec::new());
    assert_eq!(
        tracker.get(MOUSE_ID).unwrap().movement,
        Movement { x: 4_294_967_295, y: -4_294_967_295 }
    );
}

#[test]
fn touch_starts_moves_and_ends() {
    let mut tracker = CursorTracking::new();
    let unmatched =
        tracker.get_tracked(&idle_mouse(), &vec![touch(5, TouchPhase::Started, 10, 20, true)]);
    assert!(unmatched.is_empty());
    assert_eq!(
        tracker.get(5),
        Some(TouchState {
            movement: Movement { x: 0, y: 0 },
            event_type: CursorChangeType::DragStart,
            position: at(10, 20),
            is_orbit: false,
        })
    );
    tracker.get_tracked(&idle_mouse(), &vec![touch(5, TouchPhase::Moved, 15, 18, false)]);
    assert_eq!(
        tracker.get(5),
        Some(TouchState {
            movement: Movement { x: 5, y: -2 },
            event_type: CursorChangeType::Drag,
            position: at(15, 18),
            is_orbit: false,
        })
    );
    tracker.get_tracked(&idle_mouse(), &vec![touch(5, TouchPhase::Ended, 16, 18, false)]);
    assert_eq!(
        tracker.get(5),
        Some(TouchState {
            movement: Movement { x: 1, y: 0 },
            event_type: CursorChangeType::DragEnd,
            position: at(16, 18),
            is_orbit: false,
        })
    );
    tracker.get_tracked(&idle_mouse(), &Vec::new());
    assert_eq!(tracker.get(5), None);
    assert!(tracker.gestures().is_empty());
}

#[test]
fn canceled_touch_ends_like_an_ended_one() {
    let mut tracker = CursorTracking::new();
    tracker.get_tracked(&idle_mouse(), &vec![touch(5, TouchPhase::Started, 10, 20, true)]);
    tracker.get_tracked(&idle_mouse(), &vec![touch(5, TouchPhase::Canceled, 12, 20, true)]);
    assert_eq!(tracker.get(5).unwrap().event_type, CursorChangeType::DragEnd);
    assert_eq!(tracker.get(5).unwrap().movement, Movement { x: 2, y: 0 });
}

#[test]
fn move_without_a_gesture_is_dropped_and_reported() {
    let mut tracker = CursorTracking::new();
    let unmatched = tracker.get_tracked(
        &idle_mouse(),
        &vec![
            touch(8, TouchPhase::Moved, 1, 1, true),
            touch(9, TouchPhase::Started, 2, 2, true),
            touch(3, TouchPhase::Ended, 3, 3, true),
            touch(4, TouchPhase::Moved, 4, 4, true),
        ],
    );
    assert_eq!(unmatched, vec![8, 4]);
    assert_eq!(ids(&tracker), vec![9]);
}

#[test]
fn move_in_the_frame_of_the_start_is_dropped() {
    let mut tracker = CursorTracking::new();
    let unmatched = tracker.get_tracked(
        &idle_mouse(),
        &vec![touch(9, TouchPhase::Started, 2, 2, true), touch(9, TouchPhase::Moved, 5, 5, true)],
    );
    assert_eq!(unmatched, vec![9]);
    assert_eq!(tracker.get(9).unwrap().event_type, CursorChangeType::DragStart);
    assert_eq!(tracker.get(9).unwrap().position, at(2, 2));
}

#[test]
fn later_record_of_one_id_wins() {
    let mut tracker = CursorTracking::new();
    tracker.get_tracked(&idle_mouse(), &vec![touch(9, TouchPhase::Started, 2, 2, true)]);
    tracker.get_tracked(
        &idle_mouse(),
        &vec![touch(9, TouchPhase::Moved, 5, 5, true), touch(9, TouchPhase::Ended, 7, 9, true)],
    );
    assert_eq!(
        tracker.get(9),
        Some(TouchState {
            movement: Movement { x: 5, y: 7 },
            event_type: CursorChangeType::DragEnd,
            position: at(7, 9),
            is_orbit: false,
        })
    );
}

#[test]
fn silent_gesture_is_carried_as_no_change() {
    let mut tracker = CursorTracking::new();
    tracker.get_tracked(&idle_mouse(), &vec![touch(5, TouchPhase::Started, 10, 20, false)]);
    tracker.get_tracked(&idle_mouse(), &vec![touch(5, TouchPhase::Moved, 30, 20, true)]);
    tracker.get_tracked(&idle_mouse(), &Vec::new());
    let carried = TouchState {
        movement: Movement { x: 0, y: 0 },
        event_type: CursorChangeType::NoChange,
        position: at(30, 20),
        is_orbit: true,
    };
    assert_eq!(tracker.get(5), Some(carried));
    tracker.get_tracked(&idle_mouse(), &Vec::new());
    assert_eq!(tracker.get(5), Some(carried));
    tracker.get_tracked(&idle_mouse(), &vec![touch(5, TouchPhase::Moved, 31, 22, true)]);
    assert_eq!(tracker.get(5).unwrap().event_type, CursorChangeType::Drag);
    assert_eq!(tracker.get(5).unwrap().movement, Movement { x: 1, y: 2 });
}

#[test]
fn ended_gesture_is_seen_once_and_then_gone() {
    let mut tracker = CursorTracking::new();
    tracker.get_tracked(&idle_mouse(), &vec![touch(5, TouchPhase::Started, 10, 20, true)]);
    tracker.get_tracked(&idle_mouse(), &vec![touch(5, TouchPhase::Ended, 10, 20, true)]);
    assert_eq!(ids(&tracker), vec![5]);
    tracker.get_tracked(&idle_mouse(), &Vec::new());
    assert!(ids(&tracker).is_empty());
    let unmatched =
        tracker.get_tracked(&idle_mouse(), &vec![touch(5, TouchPhase::Moved, 11, 20, true)]);
    assert_eq!(unmatched, vec![5]);
    assert!(ids(&tracker).is_empty());
}

#[test]
fn gestures_come_in_ascending_order_of_id() {
    let mut tracker = CursorTracking::new();
    tracker.get_tracked(
        &press(0, 0, true),
        &vec![
            touch(900, TouchPhase::Started, 1, 1, true),
            touch(3, TouchPhase::Started, 2, 2, true),
            touch(u64::MAX, TouchPhase::Started, 3, 3, true),
            touch(40, TouchPhase::Started, 4, 4, true),
        ],
    );
    assert_eq!(ids(&tracker), vec![0, 3, 40, 900, u64::MAX]);
}

#[test]
fn orbit_flag_is_fixed_at_the_start() {
    let mut tracker = CursorTracking::new();
    tracker.get_tracked(&idle_mouse(), &vec![touch(5, TouchPhase::Started, 10, 20, false)]);
    assert!(tracker.get(5).unwrap().is_orbit);
    let frame = cursor_read(
        &mut tracker,
        &idle_mouse(),
        &vec![touch(5, TouchPhase::Moved, 50, 60, true)],
    );
    assert!(tracker.get(5).unwrap().is_orbit);
    assert_eq!(frame.orbit_updates, vec![OrbitUpdate { delta: Movement { x: 40, y: 40 } }]);
    assert!(frame.candidates.is_empty());
    let frame = cursor_read(&mut tracker, &idle_mouse(), &Vec::new());
    assert!(tracker.get(5).unwrap().is_orbit);
    assert!(frame.orbit_updates.is_empty());
    assert!(frame.candidates.is_empty());
    let frame = cursor_read(
        &mut tracker,
        &idle_mouse(),
        &vec![touch(5, TouchPhase::Ended, 50, 60, true)],
    );
    assert!(tracker.get(5).unwrap().is_orbit);
    assert!(frame.candidates.is_empty());
    let update = ball_spawn_update(&frame.candidates, &Vec::new());
    assert_eq!(update, BallSpawnUpdate { cursor_type: CursorChangeType::Move, position: None });
}

#[test]
fn new_start_sets_the_orbit_flag_anew() {
    let mut tracker = CursorTracking::new();
    tracker.get_tracked(&idle_mouse(), &vec![touch(5, TouchPhase::Started, 10, 20, false)]);
    assert!(tracker.get(5).unwrap().is_orbit);
    tracker.get_tracked(&idle_mouse(), &vec![touch(5, TouchPhase::Started, 10, 20, true)]);
    assert!(!tracker.get(5).unwrap().is_orbit);
}

#[test]
fn orbiting_mouse_places_only_while_it_merely_moves() {
    let mut tracker = CursorTracking::new();
    let frame = cursor_read(&mut tracker, &press(1, 1, false), &Vec::new());
    assert!(frame.candidates.is_empty());
    assert!(frame.orbit_updates.is_empty());
    let frame = cursor_read(&mut tracker, &hold(4, 5), &Vec::new());
    assert!(frame.candidates.is_empty());
    assert_eq!(frame.orbit_updates, vec![OrbitUpdate { delta: Movement { x: 3, y: 4 } }]);
    let frame = cursor_read(&mut tracker, &release(4, 5), &Vec::new());
    assert!(frame.candidates.is_empty());
    let frame = cursor_read(&mut tracker, &hover(6, 6), &Vec::new());
    assert_eq!(
        frame.candidates,
        vec![SpawnCandidate { id: 0, position: at(6, 6), cursor_type: CursorChangeType::Move }]
    );
}

#[test]
fn frame_lists_orbits_and_candidates_in_order_of_id() {
    let mut tracker = CursorTracking::new();
    cursor_read(
        &mut tracker,
        &press(1, 1, true),
        &vec![
            touch(7, TouchPhase::Started, 70, 70, false),
            touch(4, TouchPhase::Started, 40, 40, true),
            touch(2, TouchPhase::Started, 20, 20, false),
        ],
    );
    let frame = cursor_read(
        &mut tracker,
        &hold(2, 3),
        &vec![
            touch(7, TouchPhase::Moved, 71, 72, false),
            touch(4, TouchPhase::Moved, 44, 44, true),
            touch(2, TouchPhase::Moved, 25, 20, false),
            touch(11, TouchPhase::Moved, 0, 0, false),
        ],
    );
    assert_eq!(frame.unmatched, vec![11]);
    assert_eq!(
        frame.orbit_updates,
        vec![
            OrbitUpdate { delta: Movement { x: 5, y: 0 } },
            OrbitUpdate { delta: Movement { x: 1, y: 2 } },
        ]
    );
    assert_eq!(
        frame.candidates,
        vec![
            SpawnCandidate { id: 0, position: at(2, 3), cursor_type: CursorChangeType::Drag },
            SpawnCandidate { id: 4, position: at(44, 44), cursor_type: CursorChangeType::Drag },
        ]
    );
}

#[test]
fn first_candidate_with_a_point_is_taken() {
    let candidates = vec![
        SpawnCandidate { id: 0, position: at(2, 3), cursor_type: CursorChangeType::Drag },
        SpawnCandidate { id: 4, position: at(44, 44), cursor_type: CursorChangeType::DragEnd },
        SpawnCandidate { id: 6, position: at(6, 6), cursor_type: CursorChangeType::NoChange },
    ];
    let p = Vec3 { x: 1, y: 6000, z: 2 };
    let q = Vec3 { x: 3, y: 6000, z: 4 };
    assert_eq!(first_hit(&candidates, &vec![Some(p), Some(q), None]), Some(0));
    assert_eq!(
        ball_spawn_update(&candidates, &vec![Some(p), Some(q), None]),
        BallSpawnUpdate { cursor_type: CursorChangeType::Drag, position: Some(p) }
    );
    assert_eq!(first_hit(&candidates, &vec![None, Some(q), Some(p)]), Some(1));
    assert_eq!(
        ball_spawn_update(&candidates, &vec![None, Some(q), Some(p)]),
        BallSpawnUpdate { cursor_type: CursorChangeType::DragEnd, position: Some(q) }
    );
    assert_eq!(first_hit(&candidates, &vec![None, None, None]), None);
    assert_eq!(
        ball_spawn_update(&candidates, &vec![None, None, None]),
        BallSpawnUpdate { cursor_type: CursorChangeType::Move, position: None }
    );
}

#[test]
fn candidates_without_a_cast_have_no_point() {
    let candidates = vec![
        SpawnCandidate { id: 0, position: at(2, 3), cursor_type: CursorChangeType::Drag },
        SpawnCandidate { id: 4, position: at(44, 44), cursor_type: CursorChangeType::DragEnd },
    ];
    let p = Vec3 { x: 1, y: 6000, z: 2 };
    assert_eq!(first_hit(&candidates, &vec![None]), None);
    assert_eq!(first_hit(&candidates, &vec![None, None, Some(p)]), None);
    assert_eq!(first_hit(&Vec::new(), &vec![Some(p)]), None);
    assert_eq!(
        ball_spawn_update(&Vec::new(), &vec![Some(p)]),
        BallSpawnUpdate { cursor_type: CursorChangeType::Move, position: None }
    );
}

#[test]
fn mouse_wins_over_touches() {
    let mut tracker = CursorTracking::new();
    let frame = cursor_read(
        &mut tracker,
        &press(1, 1, true),
        &vec![touch(4, TouchPhase::Started, 40, 40, true)],
    );
    let p = Vec3 { x: 1, y: 6000, z: 2 };
    let q = Vec3 { x: 3, y: 6000, z: 4 };
    assert_eq!(frame.candidates[0].id, 0);
    let update = ball_spawn_update(&frame.candidates, &vec![Some(p), Some(q)]);
    assert_eq!(update, BallSpawnUpdate { cursor_type: CursorChangeType::DragStart, position: Some(p) });
}

#[test]
fn cast_point_must_lie_over_the_box() {
    let size = BoxSize { x: 4000, y: 6000, z: 4000 };
    let inside = Vec3 { x: 4000, y: 6000, z: -4000 };
    assert_eq!(raycast_box_top(Some(inside), &size), Some(inside));
    assert_eq!(raycast_box_top(Some(Vec3 { x: 4001, y: 6000, z: 0 }), &size), None);
    assert_eq!(raycast_box_top(Some(Vec3 { x: -4001, y: 6000, z: 0 }), &size), None);
    assert_eq!(raycast_box_top(Some(Vec3 { x: 0, y: 6000, z: 4001 }), &size), None);
    assert_eq!(raycast_box_top(Some(Vec3 { x: 0, y: 6000, z: -4001 }), &size), None);
    assert_eq!(raycast_box_top(None, &size), None);
    let wide = BoxSize { x: u32::MAX, y: 0, z: u32::MAX };
    let far = Vec3 { x: i32::MIN, y: 0, z: i32::MAX };
    assert_eq!(raycast_box_top(Some(far), &wide), Some(far));
}

#[test]
fn camera_follows_the_first_orbit() {
    let a = OrbitUpdate { delta: Movement { x: 5, y: 0 } };
    let b = OrbitUpdate { delta: Movement { x: 1, y: 2 } };
    assert_eq!(first_orbit(&vec![a, b]), Some(a));
    assert_eq!(first_orbit(&vec![b]), Some(b));
    assert_eq!(first_orbit(&Vec::new()), None);
}

#[test]
fn placement_acts_on_the_latest_update() {
    let early = BallSpawnUpdate {
        cursor_type: CursorChangeType::DragEnd,
        position: Some(Vec3 { x: 1, y: 2, z: 3 }),
    };
    let late = BallSpawnUpdate { cursor_type: CursorChangeType::Drag, position: None };
    assert_eq!(latest_update(&vec![early, late]), Some(late));
    assert_eq!(latest_update(&vec![late, early]), Some(early));
    assert_eq!(latest_update(&vec![early]), Some(early));
    assert_eq!(latest_update(&Vec::new()), None);
}
