use auth_client::input::RawInputEvent;
use auth_client::input_epoch::{ClientLoopEvent, HostGeometry, InputEpoch};
use std::sync::atomic::{AtomicU64, Ordering};

#[test]
fn readable_kernel_input_never_adopts_new_modal_owner() {
    let epoch = AtomicU64::new(1);
    let owner = InputEpoch(1);
    let before_poll = InputEpoch::capture(&epoch);
    // poll reports readable; producer pauses; popup closes before read.
    epoch.store(2, Ordering::Release);
    assert_eq!(owner.after_poll(before_poll, true, false), owner);
    // Even a subsequent readable poll begun after close must drain the
    // remaining kernel queue with the old owner, not promote its secrets.
    assert_eq!(
        owner.after_poll(InputEpoch::capture(&epoch), true, false),
        owner
    );
    let ClientLoopEvent::OwnedInput { epoch: stamp, .. } =
        owner.own(ClientLoopEvent::StdinInput(b"queued secret".to_vec()))
    else {
        panic!("unowned input")
    };
    assert_ne!(stamp, epoch.load(Ordering::Acquire));
}

#[test]
fn idle_boundary_uses_candidate_from_before_poll_not_after_close() {
    let epoch = AtomicU64::new(1);
    let owner = InputEpoch(1);
    let before_poll = InputEpoch::capture(&epoch);
    // No-data result, then popup closes before the producer resumes.
    epoch.store(2, Ordering::Release);
    let still_old = owner.after_poll(before_poll, false, false);
    assert_eq!(still_old, owner);
    let next_candidate = InputEpoch::capture(&epoch);
    assert_eq!(still_old.after_poll(next_candidate, false, true), owner);
    assert_eq!(
        still_old.after_poll(next_candidate, false, false),
        InputEpoch(2)
    );
}

#[test]
fn pixel_reports_are_owned_but_resize_is_not() {
    let stamp = InputEpoch(12);
    let geometry = HostGeometry::new(80, 24, 800, 480).unwrap();
    assert!(matches!(
        stamp.own(ClientLoopEvent::PixelMouse(
            b"\x1b[<0;1;1M".to_vec(),
            geometry
        )),
        ClientLoopEvent::OwnedInput { epoch: 12, .. }
    ));
    assert!(matches!(
        stamp.own(ClientLoopEvent::Resize(80, 24, 800, 480, false)),
        ClientLoopEvent::Resize(..)
    ));
}

#[test]
fn console_events_are_owned_once() {
    let events = ClientLoopEvent::StdinEvents(vec![RawInputEvent::Other]);
    let stamped = InputEpoch(3).own(events);
    assert_eq!(
        stamped,
        ClientLoopEvent::OwnedInput {
            epoch: 3,
            event: Box::new(ClientLoopEvent::StdinEvents(vec![RawInputEvent::Other])),
        }
    );
    let again = InputEpoch(4).own(stamped);
    assert!(matches!(again, ClientLoopEvent::OwnedInput { epoch: 3, .. }));
}

#[test]
fn owner_is_kept_through_busy_polls() {
    let mut owner = InputEpoch(1);
    for n in 2..50u64 {
        owner = owner.after_poll(InputEpoch(n), n % 2 == 0, n % 2 == 1);
    }
    assert_eq!(owner, InputEpoch(1));
    assert_eq!(owner.after_poll(InputEpoch(50), false, false), InputEpoch(50));
}

#[test]
fn the_last_idle_poll_decides() {
    let mut owner = InputEpoch(1);
    for (candidate, readable, pending) in [
        (2, false, false),
        (3, true, false),
        (4, false, false),
        (5, false, true),
        (6, true, true),
    ] {
        owner = owner.after_poll(InputEpoch(candidate), readable, pending);
    }
    assert_eq!(owner, InputEpoch(4));
}

#[test]
fn a_geometry_without_extent_is_none() {
    assert_eq!(HostGeometry::new(0, 24, 800, 480), None);
    assert_eq!(HostGeometry::new(80, 24, 800, 0), None);
}
