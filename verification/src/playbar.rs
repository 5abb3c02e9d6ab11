//! The playbar's transport: play, pause, direction, and dragging the
//! playhead along the track. Where the button and the track lie, and the
//! frame under the pointer, are the caller's; this decides what a press, a
//! release or a move does.

use vstd::prelude::*;

verus! {

/// The transport's state.
#[derive(Clone, Copy, Debug, PartialEq, Eq, Structural)]
pub struct Transport {
    /// Whether the frame counter runs.
    pub playing: bool,
    /// While playing, whether it runs down (wrapping start to end).
    pub reversed: bool,
    /// Whether the playhead is being dragged along the track.
    pub dragging: bool,
}

/// What the left button and the pointer do over the playbar.
#[derive(Clone, Copy, Debug, PartialEq, Eq, Structural)]
pub enum PointerEvent {
    /// The left button went down, on the play button, over the track's
    /// band (the track's width, the pane's whole height), or elsewhere.
    Press { on_button: bool, on_track: bool },
    /// The left button came up.
    Release,
    /// The pointer moved.
    Move,
}

/// What the playbar did with an event.
#[derive(Clone, Copy, Debug, PartialEq, Eq, Structural)]
pub struct Reaction {
    /// The event was the playbar's, and goes no further.
    pub taken: bool,
    /// Move the playhead to the frame under the pointer.
    pub scrub: bool,
}

/// The transport after `e`, and what it did with it.
pub open spec fn react(t: Transport, e: PointerEvent) -> (Transport, Reaction) {
    match e {
        PointerEvent::Press { on_button, on_track } => if on_button {
            let playing = !t.playing;
            (
                Transport { playing, reversed: if playing { false } else { t.reversed }, ..t },
                Reaction { taken: true, scrub: false },
            )
        } else if on_track {
            (Transport { dragging: true, ..t }, Reaction { taken: true, scrub: true })
        } else {
            (t, Reaction { taken: false, scrub: false })
        },
        PointerEvent::Release => (
            Transport { dragging: false, ..t },
            Reaction { taken: t.dragging, scrub: false },
        ),
        PointerEvent::Move => (t, Reaction { taken: t.dragging, scrub: t.dragging }),
    }
}

impl Transport {
    /// Paused, running forward, not dragging.
    pub fn new() -> (t: Transport)
        ensures
            !t.playing && !t.reversed && !t.dragging,
    {
        Transport { playing: false, reversed: false, dragging: false }
    }

    /// Whether the playhead is being dragged.
    pub fn is_dragging(&self) -> (b: bool)
        ensures
            b == self.dragging,
    {
        self.dragging
    }

    /// Handle a pointer event. The play button is the forward transport:
    /// playing either way pauses, paused starts forward. A press over the
    /// track starts a drag and scrubs; moves scrub while dragging; the
    /// release ends the drag, and is taken only if a drag was on.
    pub fn on_event(&mut self, e: PointerEvent) -> (r: Reaction)
        ensures
            (*final(self), r) == react(*old(self), e),
    {
        match e {
            PointerEvent::Press { on_button, on_track } => {
                if on_button {
                    self.playing = !self.playing;
                    if self.playing {
                        self.reversed = false;
                    }
                    Reaction { taken: true, scrub: false }
                } else if on_track {
                    self.dragging = true;
                    Reaction { taken: true, scrub: true }
                } else {
                    Reaction { taken: false, scrub: false }
                }
            },
            PointerEvent::Release => {
                let was = self.dragging;
                self.dragging = false;
                Reaction { taken: was, scrub: false }
            },
            PointerEvent::Move => Reaction { taken: self.dragging, scrub: self.dragging },
        }
    }

    /// Which way a frame tick moves the counter: not at all while paused,
    /// down when reversed, else up.
    pub fn step_sign(&self) -> (s: i8)
        ensures
            s == (if !self.playing {
                0
            } else if self.reversed {
                -1
            } else {
                1
            }),
    {
        if !self.playing {
            0
        } else if self.reversed {
            -1
        } else {
            1
        }
    }
}

/// A drag is always ended by the release that follows it, and only a drag
/// makes the release the playbar's.
pub proof fn release_ends_every_drag(t: Transport)
    ensures
        !react(t, PointerEvent::Release).0.dragging,
        react(t, PointerEvent::Release).1.taken == t.dragging,
{
}

/// Pressing the play button twice from a pause comes back to a pause,
/// running forward.
pub proof fn play_button_twice_pauses(t: Transport)
    requires
        !t.playing,
    ensures
        ({
            let once = react(t, PointerEvent::Press { on_button: true, on_track: false }).0;
            let twice = react(once, PointerEvent::Press { on_button: true, on_track: false }).0;
            &&& once.playing && !once.reversed
            &&& !twice.playing && !twice.reversed
            &&& twice.dragging == t.dragging
        }),
{
}

/// Only the play button touches the transport: a press anywhere else, a
/// release and a move leave playing and its direction as they were (so
/// grabbing the playhead while playing keeps it running the same way), and
/// only the track press and the release touch the drag.
pub proof fn only_the_button_touches_the_transport(t: Transport, e: PointerEvent)
    ensures
        !(e matches PointerEvent::Press { on_button: true, .. }) ==> {
            &&& react(t, e).0.playing == t.playing
            &&& react(t, e).0.reversed == t.reversed
        },
        e matches PointerEvent::Press { on_button: true, .. } ==> {
            &&& react(t, e).0.playing == !t.playing
            &&& react(t, e).0.reversed == (t.reversed && t.playing)
            &&& react(t, e).0.dragging == t.dragging
        },
        e == PointerEvent::Move ==> react(t, e).0 == t,
        e matches PointerEvent::Press { on_button: false, on_track: true } ==> react(t, e).0.dragging,
{
}

} // verus!
