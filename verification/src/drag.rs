//! Pointer-drag bookkeeping of the render loop.
//!
//! Each frame, before the orbit control consumes the input, the events are
//! scanned to learn whether the left button is held and which velocity the
//! scene should coast with once it is released: a press stops the coasting,
//! and an unhandled motion with the left button held sets the velocity to
//! that motion's delta. The deltas themselves stay with the caller; the scan
//! says which event supplies the velocity.

use vstd::prelude::*;

verus! {

/// What the scan needs to know of one input event.
#[derive(Clone, Copy, Debug, PartialEq, Eq, Structural)]
pub enum PointerEvent {
    /// The left button was pressed.
    LeftPress,
    /// The left button was released.
    LeftRelease,
    /// The pointer moved with the left button held; `handled` tells whether
    /// some earlier consumer already took the event.
    LeftMotion { handled: bool },
    /// Anything else.
    Other,
}

/// What becomes of the coasting velocity.
#[derive(Clone, Copy, Debug, PartialEq, Eq, Structural)]
pub enum VelocityUpdate {
    /// The velocity stays as it was.
    Keep,
    /// The velocity becomes zero.
    Reset,
    /// The velocity becomes the delta of the event at this index.
    FromEvent(usize),
}

/// The drag state after a scan.
#[derive(Clone, Copy, Debug, PartialEq, Eq, Structural)]
pub struct DragScan {
    pub dragging: bool,
    pub velocity: VelocityUpdate,
}

/// Whether an event changes the velocity.
pub open spec fn sets_velocity(e: PointerEvent) -> bool {
    e is LeftPress || e == (PointerEvent::LeftMotion { handled: false })
}

/// The effect of the event `e`, found at index `idx`.
pub open spec fn drag_step(s: DragScan, e: PointerEvent, idx: int) -> DragScan {
    match e {
        PointerEvent::LeftPress => DragScan { dragging: true, velocity: VelocityUpdate::Reset },
        PointerEvent::LeftRelease => DragScan { dragging: false, velocity: s.velocity },
        PointerEvent::LeftMotion { handled } => if handled {
            s
        } else {
            DragScan { dragging: s.dragging, velocity: VelocityUpdate::FromEvent(idx as usize) }
        },
        PointerEvent::Other => s,
    }
}

/// The effect of the events `evs` in order, the first of them being at index
/// `base`.
pub open spec fn drag_scan(s: DragScan, evs: Seq<PointerEvent>, base: int) -> DragScan
    decreases evs.len(),
{
    if evs.len() == 0 {
        s
    } else {
        drag_step(drag_scan(s, evs.drop_last(), base), evs.last(), base + evs.len() - 1)
    }
}

/// The state a frame starts from: the button state of the previous frame and
/// the velocity left alone.
pub open spec fn frame_start(dragging: bool) -> DragScan {
    DragScan { dragging, velocity: VelocityUpdate::Keep }
}

/// Scans one frame's events, in order, starting from whether the left button
/// was held at the end of the previous frame. The result tells whether it is
/// held now and what becomes of the coasting velocity.
pub fn scan_pointer_events(dragging: bool, events: &Vec<PointerEvent>) -> (out: DragScan)
    ensures
        out == drag_scan(frame_start(dragging), events@, 0),
        out.dragging <==> (
            (exists|i: int| 0 <= i < events@.len() && #[trigger] events@[i] is LeftPress
                && no_release_after(events@, i))
            || (dragging && no_release_after(events@, -1))),
        no_velocity_change_after(events@, -1) ==> out.velocity == VelocityUpdate::Keep,
        forall|i: int| 0 <= i < events@.len() && sets_velocity(#[trigger] events@[i])
            && no_velocity_change_after(events@, i)
            ==> out.velocity == (if events@[i] is LeftPress {
                VelocityUpdate::Reset
            } else {
                VelocityUpdate::FromEvent(i as usize)
            }),
{
    let mut state = DragScan { dragging, velocity: VelocityUpdate::Keep };
    let mut i: usize = 0;
    while i < events.len()
        invariant
            i <= events@.len(),
            state == drag_scan(frame_start(dragging), events@.take(i as int), 0),
        decreases events@.len() - i,
    {
        proof {
            assert(events@.take(i + 1).drop_last() =~= events@.take(i as int));
        }
        state = match events[i] {
            PointerEvent::LeftPress => DragScan { dragging: true, velocity: VelocityUpdate::Reset },
            PointerEvent::LeftRelease => DragScan { dragging: false, velocity: state.velocity },
            PointerEvent::LeftMotion { handled } => if handled {
                state
            } else {
                DragScan { dragging: state.dragging, velocity: VelocityUpdate::FromEvent(i) }
            },
            PointerEvent::Other => state,
        };
        i = i + 1;
    }
    assert(events@.take(i as int) =~= events@);
    proof {
        lemma_dragging_after_scan(frame_start(dragging), events@, 0);
        lemma_velocity_after_scan(frame_start(dragging), events@, 0);
    }
    state
}

/// The events after index `i` hold no release.
pub open spec fn no_release_after(evs: Seq<PointerEvent>, i: int) -> bool {
    forall|j: int| i < j < evs.len() ==> !(#[trigger] evs[j] is LeftRelease)
}

/// The events after index `i` hold nothing that changes the velocity.
pub open spec fn no_velocity_change_after(evs: Seq<PointerEvent>, i: int) -> bool {
    forall|j: int| i < j < evs.len() ==> !sets_velocity(#[trigger] evs[j])
}

/// Scanning a sequence of events in two parts gives what scanning it at once
/// gives: a frame's events may be scanned in any number of pieces.
pub proof fn lemma_drag_scan_split(s: DragScan, a: Seq<PointerEvent>, b: Seq<PointerEvent>, base: int)
    ensures
        drag_scan(s, a + b, base) == drag_scan(drag_scan(s, a, base), b, base + a.len()),
    decreases b.len(),
{
    if b.len() == 0 {
        assert(a + b =~= a);
    } else {
        assert((a + b).drop_last() =~= a + b.drop_last());
        assert((a + b).last() == b.last());
        lemma_drag_scan_split(s, a, b.drop_last(), base);
    }
}

/// After a scan the left button counts as held exactly when some press is
/// followed by no release, or when it was held before and no release came.
pub proof fn lemma_dragging_after_scan(s: DragScan, evs: Seq<PointerEvent>, base: int)
    ensures
        drag_scan(s, evs, base).dragging <==> (
            (exists|i: int| 0 <= i < evs.len() && #[trigger] evs[i] is LeftPress && no_release_after(evs, i))
            || (s.dragging && no_release_after(evs, -1))),
    decreases evs.len(),
{
    if evs.len() > 0 {
        let p = evs.drop_last();
        let n = evs.len() - 1;
        let e = evs.last();
        lemma_dragging_after_scan(s, p, base);
        let before = drag_scan(s, p, base).dragging;
        let has_press = exists|i: int| 0 <= i < evs.len() && #[trigger] evs[i] is LeftPress && no_release_after(evs, i);
        if e is LeftPress {
            assert(evs[n] is LeftPress && no_release_after(evs, n));
        } else if e is LeftRelease {
            assert(!no_release_after(evs, -1)) by {
                assert(evs[n] is LeftRelease);
            }
            assert(!has_press) by {
                if has_press {
                    let i = choose|i: int| 0 <= i < evs.len() && #[trigger] evs[i] is LeftPress && no_release_after(evs, i);
                    assert(i != n);
                    assert(evs[n] is LeftRelease);
                }
            }
        } else {
            assert(drag_scan(s, evs, base).dragging == before);
            assert(no_release_after(evs, -1) == no_release_after(p, -1)) by {
                if no_release_after(p, -1) {
                    assert forall|j: int| -1 < j < evs.len() implies !(#[trigger] evs[j] is LeftRelease) by {
                        if j < n {
                            assert(evs[j] == p[j]);
                        }
                    }
                }
                if no_release_after(evs, -1) {
                    assert forall|j: int| -1 < j < p.len() implies !(#[trigger] p[j] is LeftRelease) by {
                        assert(evs[j] == p[j]);
                    }
                }
            }
            let has_press_p = exists|i: int| 0 <= i < p.len() && #[trigger] p[i] is LeftPress && no_release_after(p, i);
            assert(has_press == has_press_p) by {
                if has_press {
                    let i = choose|i: int| 0 <= i < evs.len() && #[trigger] evs[i] is LeftPress && no_release_after(evs, i);
                    assert(i != n);
                    assert(p[i] is LeftPress);
                    assert forall|j: int| i < j < p.len() implies !(#[trigger] p[j] is LeftRelease) by {
                        assert(evs[j] == p[j]);
                    }
                }
                if has_press_p {
                    let i = choose|i: int| 0 <= i < p.len() && #[trigger] p[i] is LeftPress && no_release_after(p, i);
                    assert(evs[i] is LeftPress);
                    assert forall|j: int| i < j < evs.len() implies !(#[trigger] evs[j] is LeftRelease) by {
                        if j < n {
                            assert(evs[j] == p[j]);
                        }
                    }
                }
            }
        }
    }
}

/// After a scan the velocity comes from the last event that changes it: a
/// press resets it, an unhandled left motion hands over its own delta. When
/// no event changes it, it stays as it was.
pub proof fn lemma_velocity_after_scan(s: DragScan, evs: Seq<PointerEvent>, base: int)
    requires
        0 <= base,
        base + evs.len() <= usize::MAX + 1,
    ensures
        no_velocity_change_after(evs, -1) ==> drag_scan(s, evs, base).velocity == s.velocity,
        forall|i: int| 0 <= i < evs.len() && sets_velocity(#[trigger] evs[i]) && no_velocity_change_after(evs, i)
            ==> drag_scan(s, evs, base).velocity == (if evs[i] is LeftPress {
                VelocityUpdate::Reset
            } else {
                VelocityUpdate::FromEvent((base + i) as usize)
            }),
    decreases evs.len(),
{
    if evs.len() > 0 {
        let p = evs.drop_last();
        let n = evs.len() - 1;
        let e = evs.last();
        lemma_velocity_after_scan(s, p, base);
        assert forall|j: int| 0 <= j < p.len() implies #[trigger] p[j] == evs[j] by {}
        if sets_velocity(e) {
            assert(!no_velocity_change_after(evs, -1)) by {
                assert(sets_velocity(evs[n]));
            }
            assert forall|i: int| 0 <= i < evs.len() && sets_velocity(#[trigger] evs[i]) && no_velocity_change_after(evs, i)
                implies i == n by {
                if i < n {
                    assert(sets_velocity(evs[n]));
                }
            }
        } else {
            assert(drag_scan(s, evs, base).velocity == drag_scan(s, p, base).velocity);
            if no_velocity_change_after(evs, -1) {
                assert forall|j: int| -1 < j < p.len() implies !sets_velocity(#[trigger] p[j]) by {
                    assert(p[j] == evs[j]);
                }
            }
            assert forall|i: int| 0 <= i < evs.len() && sets_velocity(#[trigger] evs[i]) && no_velocity_change_after(evs, i)
                implies drag_scan(s, evs, base).velocity == (if evs[i] is LeftPress {
                    VelocityUpdate::Reset
                } else {
                    VelocityUpdate::FromEvent((base + i) as usize)
                }) by {
                assert(i != n);
                assert(sets_velocity(p[i]));
                assert forall|j: int| i < j < p.len() implies !sets_velocity(#[trigger] p[j]) by {
                    assert(p[j] == evs[j]);
                }
            }
        }
    }
}

/// The events that change the velocity are exactly the presses of the left
/// button and the unhandled motions with it held.
pub proof fn lemma_velocity_setting_events(handled: bool)
    ensures
        sets_velocity(PointerEvent::LeftPress),
        !sets_velocity(PointerEvent::LeftRelease),
        !sets_velocity(PointerEvent::Other),
        sets_velocity(PointerEvent::LeftMotion { handled }) <==> !handled,
{
}

} // verus!
