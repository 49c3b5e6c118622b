//! The event-driven redraw controller. It consumes window events, keeps the
//! drawing surface's size equal to the window's, batches redraw requests, and
//! stops on a destroy notification or on the quit key. The caller performs the
//! actions it returns (resize the surface, draw, stop).
use vstd::prelude::*;

verus! {

/// Key code that ends the loop.
pub const QUIT_KEY: u8 = 9;

/// Key code that asks for a redraw.
pub const REDRAW_KEY: u8 = 57;

#[derive(Clone, Copy, PartialEq, Eq, Structural, Debug)]
pub enum WindowEvent {
    Exposure,
    Resize { width: u16, height: u16 },
    KeyPress { code: u8 },
    Destroy,
    Other,
}

#[derive(Clone, Copy, PartialEq, Eq, Structural, Debug)]
pub enum Phase {
    WaitingForEvent,
    DrainingQueuedEvents,
    Redrawing,
    Terminated,
}

/// What the caller must do after an event.
#[derive(Clone, Copy, PartialEq, Eq, Structural, Debug)]
pub enum Action {
    Nothing,
    ResizeSurface { width: u16, height: u16 },
    Terminate,
}

/// State of the redraw loop: the window's size, the size last given to the
/// surface, and whether the events drained so far ask for a redraw.
#[derive(Clone, Copy, PartialEq, Eq, Structural, Debug)]
pub struct RedrawLoop {
    pub phase: Phase,
    pub width: u16,
    pub height: u16,
    pub surface_width: u16,
    pub surface_height: u16,
    pub needs_redraw: bool,
}

/// A width and a height in pixels.
#[derive(Clone, Copy, PartialEq, Eq, Structural, Debug)]
pub struct Size {
    pub width: u16,
    pub height: u16,
}

/// Result of one wake-up: the events consumed, the draw requested (at most
/// one, at the given size) and whether the loop ended.
#[derive(Clone, Copy, PartialEq, Eq, Structural, Debug)]
pub struct Batch {
    pub consumed: usize,
    pub draw: Option<Size>,
    pub terminated: bool,
}

pub open spec fn is_terminator(e: WindowEvent) -> bool {
    match e {
        WindowEvent::Destroy => true,
        WindowEvent::KeyPress { code } => code == QUIT_KEY,
        _ => false,
    }
}

pub open spec fn is_resize(e: WindowEvent) -> bool {
    e is Resize
}

/// The state after one event.
pub open spec fn event_effect(st: RedrawLoop, e: WindowEvent) -> RedrawLoop {
    let draining = RedrawLoop { phase: Phase::DrainingQueuedEvents, ..st };
    match e {
        WindowEvent::Exposure => RedrawLoop { needs_redraw: true, ..draining },
        WindowEvent::Resize { width, height } => RedrawLoop {
            width,
            height,
            surface_width: width,
            surface_height: height,
            needs_redraw: true,
            ..draining
        },
        WindowEvent::KeyPress { code } => if code == QUIT_KEY {
            RedrawLoop { phase: Phase::Terminated, ..st }
        } else if code == REDRAW_KEY {
            RedrawLoop { needs_redraw: true, ..draining }
        } else {
            draining
        },
        WindowEvent::Destroy => RedrawLoop { phase: Phase::Terminated, ..st },
        WindowEvent::Other => draining,
    }
}

pub open spec fn action_of(e: WindowEvent) -> Action {
    match e {
        WindowEvent::Resize { width, height } => Action::ResizeSurface { width, height },
        WindowEvent::KeyPress { code } => if code == QUIT_KEY {
            Action::Terminate
        } else {
            Action::Nothing
        },
        WindowEvent::Destroy => Action::Terminate,
        _ => Action::Nothing,
    }
}

/// The state after draining `events` in order; nothing is consumed once the
/// loop has ended.
pub open spec fn drain_spec(st: RedrawLoop, events: Seq<WindowEvent>) -> RedrawLoop
    decreases events.len(),
{
    if events.len() == 0 || st.phase == Phase::Terminated {
        st
    } else {
        drain_spec(event_effect(st, events[0]), events.drop_first())
    }
}

/// Number of events consumed: up to and including the first that ends the loop.
pub open spec fn consumed_spec(events: Seq<WindowEvent>) -> nat
    decreases events.len(),
{
    if events.len() == 0 {
        0
    } else if is_terminator(events[0]) {
        1
    } else {
        1 + consumed_spec(events.drop_first())
    }
}

/// The draw requested by one wake-up that delivers `events`.
pub open spec fn batch_draw(st: RedrawLoop, events: Seq<WindowEvent>) -> Option<Size> {
    let d = drain_spec(st, events);
    if d.phase != Phase::Terminated && d.needs_redraw {
        Some(Size { width: d.width, height: d.height })
    } else {
        None
    }
}

impl RedrawLoop {
    /// The surface always has the window's size, and a waiting loop has no
    /// redraw pending.
    pub open spec fn wf(&self) -> bool {
        &&& self.surface_width == self.width
        &&& self.surface_height == self.height
        &&& self.phase == Phase::WaitingForEvent ==> !self.needs_redraw
    }

    pub open spec fn accepts_events(&self) -> bool {
        self.phase == Phase::WaitingForEvent || self.phase == Phase::DrainingQueuedEvents
    }

    /// A loop over a freshly mapped window of the given size.
    pub fn new(width: u16, height: u16) -> (r: Self)
        ensures
            r.wf(),
            r == (RedrawLoop {
                phase: Phase::WaitingForEvent,
                width,
                height,
                surface_width: width,
                surface_height: height,
                needs_redraw: false,
            }),
    {
        RedrawLoop {
            phase: Phase::WaitingForEvent,
            width,
            height,
            surface_width: width,
            surface_height: height,
            needs_redraw: false,
        }
    }

    /// Applies one event and says what the caller must do about it.
    pub fn on_event(&mut self, e: WindowEvent) -> (a: Action)
        requires
            old(self).wf(),
            old(self).accepts_events(),
        ensures
            final(self).wf(),
            *final(self) == event_effect(*old(self), e),
            a == action_of(e),
    {
        match e {
            WindowEvent::Exposure => {
                self.phase = Phase::DrainingQueuedEvents;
                self.needs_redraw = true;
                Action::Nothing
            },
            WindowEvent::Resize { width, height } => {
                self.phase = Phase::DrainingQueuedEvents;
                self.width = width;
                self.height = height;
                self.surface_width = width;
                self.surface_height = height;
                self.needs_redraw = true;
                Action::ResizeSurface { width, height }
            },
            WindowEvent::KeyPress { code } => {
                if code == QUIT_KEY {
                    self.phase = Phase::Terminated;
                    Action::Terminate
                } else {
                    self.phase = Phase::DrainingQueuedEvents;
                    if code == REDRAW_KEY {
                        self.needs_redraw = true;
                    }
                    Action::Nothing
                }
            },
            WindowEvent::Destroy => {
                self.phase = Phase::Terminated;
                Action::Terminate
            },
            WindowEvent::Other => {
                self.phase = Phase::DrainingQueuedEvents;
                Action::Nothing
            },
        }
    }

    /// No event is left in the queue: go on to redraw at the window's size if
    /// one was asked for, else wait again.
    pub fn end_of_queue(&mut self) -> (r: Option<Size>)
        requires
            old(self).wf(),
            old(self).phase == Phase::DrainingQueuedEvents,
        ensures
            final(self).wf(),
            old(self).needs_redraw ==> r == Some(Size { width: old(self).width, height: old(self).height }) && *final(self)
                == (RedrawLoop { phase: Phase::Redrawing, ..*old(self) }),
            !old(self).needs_redraw ==> r is None && *final(self) == (RedrawLoop {
                phase: Phase::WaitingForEvent,
                ..*old(self)
            }),
    {
        if self.needs_redraw {
            self.phase = Phase::Redrawing;
            Some(Size { width: self.width, height: self.height })
        } else {
            self.phase = Phase::WaitingForEvent;
            None
        }
    }

    /// The draw routine has run and the surface was flushed.
    pub fn draw_done(&mut self)
        requires
            old(self).wf(),
            old(self).phase == Phase::Redrawing,
        ensures
            final(self).wf(),
            *final(self) == (RedrawLoop {
                phase: Phase::WaitingForEvent,
                needs_redraw: false,
                ..*old(self)
            }),
    {
        self.phase = Phase::WaitingForEvent;
        self.needs_redraw = false;
    }
    /// One wake-up: applies the delivered events in order, stopping at the
    /// first one that ends the loop, then requests at most one draw.
    pub fn run_batch(&mut self, events: &Vec<WindowEvent>) -> (r: Batch)
        requires
            old(self).wf(),
            old(self).phase == Phase::WaitingForEvent,
            events@.len() >= 1,
        ensures
            final(self).wf(),
            r.consumed == consumed_spec(events@),
            r.terminated == (drain_spec(*old(self), events@).phase == Phase::Terminated),
            r.draw == batch_draw(*old(self), events@),
            r.terminated ==> *final(self) == drain_spec(*old(self), events@),
            !r.terminated && r.draw is Some ==> *final(self) == (RedrawLoop {
                phase: Phase::Redrawing,
                ..drain_spec(*old(self), events@)
            }),
            !r.terminated && r.draw is None ==> *final(self) == (RedrawLoop {
                phase: Phase::WaitingForEvent,
                ..drain_spec(*old(self), events@)
            }),
    {
        let ghost st0 = *self;
        let mut i: usize = 0;
        let mut done = false;
        proof {
            assert(events@.skip(0) =~= events@);
        }
        while i < events.len() && !done
            invariant
                0 <= i <= events@.len(),
                self.wf(),
                done <==> self.phase == Phase::Terminated,
                !done ==> self.accepts_events(),
                !done && i >= 1 ==> self.phase == Phase::DrainingQueuedEvents,
                i == 0 ==> *self == st0,
                drain_spec(*self, events@.skip(i as int)) == drain_spec(st0, events@),
                !done ==> consumed_spec(events@) == i + consumed_spec(events@.skip(i as int)),
                done ==> consumed_spec(events@) == i,
            decreases events@.len() - i,
        {
            let ghost rest = events@.skip(i as int);
            let e = events[i];
            let _ = self.on_event(e);
            proof {
                assert(rest[0] == e);
                assert(rest.drop_first() =~= events@.skip(i as int + 1));
            }
            i = i + 1;
            done = self.phase == Phase::Terminated;
        }
        if done {
            Batch { consumed: i, draw: None, terminated: true }
        } else {
            proof {
                assert(events@.skip(i as int).len() == 0);
            }
            let draw = self.end_of_queue();
            Batch { consumed: i, draw, terminated: false }
        }
    }
}


proof fn lemma_effect(st: RedrawLoop, e: WindowEvent)
    requires
        st.wf(),
        st.accepts_events(),
    ensures
        event_effect(st, e).wf(),
        is_terminator(e) <==> event_effect(st, e).phase == Phase::Terminated,
        !is_terminator(e) ==> event_effect(st, e).phase == Phase::DrainingQueuedEvents,
        !is_resize(e) ==> event_effect(st, e).width == st.width && event_effect(st, e).height == st.height,
        st.needs_redraw ==> event_effect(st, e).needs_redraw,
{
}

/// Draining events that neither end the loop nor resize keeps the size, keeps
/// a pending redraw, and leaves the loop draining.
proof fn lemma_drain_quiet(st: RedrawLoop, events: Seq<WindowEvent>)
    requires
        st.wf(),
        st.accepts_events(),
        forall|j: int| 0 <= j < events.len() ==> !is_terminator(#[trigger] events[j]) && !is_resize(events[j]),
    ensures
        drain_spec(st, events).wf(),
        drain_spec(st, events).width == st.width,
        drain_spec(st, events).height == st.height,
        st.needs_redraw ==> drain_spec(st, events).needs_redraw,
        events.len() >= 1 ==> drain_spec(st, events).phase == Phase::DrainingQueuedEvents,
        events.len() == 0 ==> drain_spec(st, events) == st,
    decreases events.len(),
{
    if events.len() > 0 {
        let _ = events[0];
        lemma_effect(st, events[0]);
        let rest = events.drop_first();
        assert forall|j: int| 0 <= j < rest.len() implies !is_terminator(#[trigger] rest[j]) && !is_resize(rest[j]) by {
            assert(rest[j] == events[j + 1]);
        }
        lemma_drain_quiet(event_effect(st, events[0]), rest);
    }
}

/// Resize before draw: after events that do not end the loop, the last of
/// which resizes the window to `(w, h)` (at index `k`), the surface has size
/// `(w, h)` and the one draw of the batch runs at that size.
pub proof fn lemma_resize_before_draw(st: RedrawLoop, events: Seq<WindowEvent>, k: int)
    requires
        st.wf(),
        st.accepts_events(),
        0 <= k < events.len(),
        is_resize(events[k]),
        forall|j: int| k < j < events.len() ==> !is_resize(#[trigger] events[j]),
        forall|j: int| 0 <= j < events.len() ==> !is_terminator(#[trigger] events[j]),
    ensures
        drain_spec(st, events).surface_width == events[k]->width,
        drain_spec(st, events).surface_height == events[k]->height,
        batch_draw(st, events) == Some(Size { width: events[k]->width, height: events[k]->height }),
    decreases k,
{
    let e = events[0];
    lemma_effect(st, e);
    let rest = events.drop_first();
    assert forall|j: int| 0 <= j < rest.len() implies !is_terminator(#[trigger] rest[j]) by {
        assert(rest[j] == events[j + 1]);
    }
    if k == 0 {
        assert forall|j: int| 0 <= j < rest.len() implies !is_terminator(#[trigger] rest[j]) && !is_resize(rest[j]) by {
            assert(rest[j] == events[j + 1]);
        }
        lemma_drain_quiet(event_effect(st, e), rest);
    } else {
        assert(rest[k - 1] == events[k]);
        assert forall|j: int| k - 1 < j < rest.len() implies !is_resize(#[trigger] rest[j]) by {
            assert(rest[j] == events[j + 1]);
        }
        lemma_resize_before_draw(event_effect(st, e), rest, k - 1);
    }
}

/// Quit-key termination: when the first event that ends the loop is the quit
/// key (at index `k`), draining ends the loop there: nothing after it is
/// consumed or has any effect, and no draw follows.
pub proof fn lemma_quit_key_termination(st: RedrawLoop, events: Seq<WindowEvent>, k: int)
    requires
        st.wf(),
        st.accepts_events(),
        0 <= k < events.len(),
        events[k] == (WindowEvent::KeyPress { code: QUIT_KEY }),
        forall|j: int| 0 <= j < k ==> !is_terminator(#[trigger] events[j]),
    ensures
        drain_spec(st, events).phase == Phase::Terminated,
        drain_spec(st, events) == drain_spec(st, events.take(k + 1)),
        consumed_spec(events) == k + 1,
        batch_draw(st, events) is None,
    decreases k,
{
    let e = events[0];
    lemma_effect(st, e);
    let rest = events.drop_first();
    let pre = events.take(k + 1);
    assert(pre[0] == e);
    if k == 0 {
        let t = event_effect(st, e);
        assert(drain_spec(t, pre.drop_first()) == t);
        assert(drain_spec(t, rest) == t);
    } else {
        assert(rest[k - 1] == events[k]);
        assert forall|j: int| 0 <= j < k - 1 implies !is_terminator(#[trigger] rest[j]) by {
            assert(rest[j] == events[j + 1]);
        }
        lemma_quit_key_termination(event_effect(st, e), rest, k - 1);
        assert(pre.drop_first() =~= rest.take(k));
    }
}

/// Exposure batching: a wake-up that delivers any positive number of exposure
/// events requests exactly one draw, at the window's size.
pub proof fn lemma_exposure_batching(st: RedrawLoop, events: Seq<WindowEvent>)
    requires
        st.wf(),
        st.accepts_events(),
        events.len() >= 1,
        forall|j: int| 0 <= j < events.len() ==> #[trigger] events[j] == WindowEvent::Exposure,
    ensures
        batch_draw(st, events) == Some(Size { width: st.width, height: st.height }),
{
    let e = events[0];
    lemma_effect(st, e);
    let rest = events.drop_first();
    assert forall|j: int| 0 <= j < rest.len() implies !is_terminator(#[trigger] rest[j]) && !is_resize(rest[j]) by {
        assert(rest[j] == events[j + 1]);
    }
    lemma_drain_quiet(event_effect(st, e), rest);
}

/// Whatever batches came before, a draw is requested only at the surface's
/// current size: draining keeps the surface sized as the window, and each
/// resize is applied to the surface before anything after it.
pub proof fn lemma_draw_at_surface_size(st: RedrawLoop, events: Seq<WindowEvent>)
    requires
        st.wf(),
        st.accepts_events(),
    ensures
        drain_spec(st, events).wf(),
        batch_draw(st, events) is Some ==> batch_draw(st, events) == Some(
            Size {
                width: drain_spec(st, events).surface_width,
                height: drain_spec(st, events).surface_height,
            },
        ),
    decreases events.len(),
{
    if events.len() > 0 {
        lemma_effect(st, events[0]);
        let t = event_effect(st, events[0]);
        if t.phase != Phase::Terminated {
            lemma_draw_at_surface_size(t, events.drop_first());
        } else {
            assert(drain_spec(t, events.drop_first()) == t);
        }
    }
}

} // verus!
