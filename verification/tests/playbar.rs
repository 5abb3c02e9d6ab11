use cce_designer::playbar::{PointerEvent, Reaction, Transport};

const BUTTON: PointerEvent = PointerEvent::Press { on_button: true, on_track: false };
const TRACK: PointerEvent = PointerEvent::Press { on_button: false, on_track: true };
const ELSEWHERE: PointerEvent = PointerEvent::Press { on_button: false, on_track: false };

#[test]
fn the_button_is_the_forward_transport() {
    let mut t = Transport::new();
    assert_eq!(t.step_sign(), 0);
    assert_eq!(t.on_event(BUTTON), Reaction { taken: true, scrub: false });
    assert!(t.playing && !t.reversed);
    assert_eq!(t.step_sign(), 1);
    // Playing in reverse, the button pauses and keeps the direction.
    t.reversed = true;
    assert_eq!(t.step_sign(), -1);
    t.on_event(BUTTON);
    assert!(!t.playing && t.reversed);
    // Paused, it starts forward again.
    t.on_event(BUTTON);
    assert!(t.playing && !t.reversed);
}

#[test]
fn the_track_drags_and_the_release_ends_it() {
    let mut t = Transport::new();
    assert_eq!(t.on_event(PointerEvent::Move), Reaction { taken: false, scrub: false });
    assert_eq!(t.on_event(TRACK), Reaction { taken: true, scrub: true });
    assert!(t.is_dragging());
    assert_eq!(t.on_event(PointerEvent::Move), Reaction { taken: true, scrub: true });
    assert_eq!(t.on_event(PointerEvent::Release), Reaction { taken: true, scrub: false });
    assert!(!t.is_dragging());
    assert_eq!(t.on_event(PointerEvent::Release), Reaction { taken: false, scrub: false });
    assert_eq!(t.on_event(ELSEWHERE), Reaction { taken: false, scrub: false });
    // The button wins over the track where both are hit.
    let both = PointerEvent::Press { on_button: true, on_track: true };
    assert_eq!(t.on_event(both), Reaction { taken: true, scrub: false });
    assert!(!t.is_dragging() && t.playing);
}
