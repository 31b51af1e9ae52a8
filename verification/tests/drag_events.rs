use orbital_elements::drag::{scan_pointer_events, DragScan, PointerEvent, VelocityUpdate};

use PointerEvent::{LeftMotion, LeftPress, LeftRelease, Other};

#[test]
fn no_events_keep_everything() {
    assert_eq!(
        scan_pointer_events(true, &vec![]),
        DragScan { dragging: true, velocity: VelocityUpdate::Keep }
    );
    assert_eq!(
        scan_pointer_events(false, &vec![Other, LeftMotion { handled: true }]),
        DragScan { dragging: false, velocity: VelocityUpdate::Keep }
    );
}

#[test]
fn press_starts_drag_and_resets_velocity() {
    assert_eq!(
        scan_pointer_events(false, &vec![LeftPress]),
        DragScan { dragging: true, velocity: VelocityUpdate::Reset }
    );
}

#[test]
fn release_ends_drag_and_keeps_velocity() {
    assert_eq!(
        scan_pointer_events(true, &vec![LeftRelease]),
        DragScan { dragging: false, velocity: VelocityUpdate::Keep }
    );
    assert_eq!(
        scan_pointer_events(true, &vec![LeftMotion { handled: false }, LeftRelease, Other]),
        DragScan { dragging: false, velocity: VelocityUpdate::FromEvent(0) }
    );
}

#[test]
fn last_unhandled_motion_supplies_velocity() {
    let evs = vec![
        LeftPress,
        LeftMotion { handled: false },
        Other,
        LeftMotion { handled: false },
        LeftMotion { handled: true },
    ];
    assert_eq!(
        scan_pointer_events(false, &evs),
        DragScan { dragging: true, velocity: VelocityUpdate::FromEvent(3) }
    );
}

#[test]
fn press_after_motion_resets() {
    let evs = vec![LeftMotion { handled: false }, LeftRelease, LeftPress];
    assert_eq!(
        scan_pointer_events(false, &evs),
        DragScan { dragging: true, velocity: VelocityUpdate::Reset }
    );
}

#[test]
fn scanning_in_two_pieces_agrees() {
    let a = vec![LeftPress, LeftMotion { handled: false }];
    let b = vec![LeftRelease, Other];
    let mut all = a.clone();
    all.extend(b.iter().copied());
    let whole = scan_pointer_events(false, &all);
    let first = scan_pointer_events(false, &a);
    let second = scan_pointer_events(first.dragging, &b);
    assert_eq!(whole.dragging, second.dragging);
    // The second piece changes no velocity, so the first piece's update stands.
    assert_eq!(second.velocity, VelocityUpdate::Keep);
    assert_eq!(whole.velocity, first.velocity);
}
