//! The decisions of the Xft text window: where to draw the label on exposure,
//! when the window manager asks to close, and when to release the colours,
//! the draw target and the visual, which happens once, on the window's own
//! destroy notification.
use vstd::prelude::*;

verus! {

#[derive(Clone, Copy, PartialEq, Eq, Structural, Debug)]
pub enum XftEvent {
    Expose,
    Configure { width: u16, height: u16 },
    /// A client message: its format, target window and first 32-bit datum.
    ClientMessage { format: u8, window: u32, data0: u32 },
    Destroy { window: u32 },
    Error,
    Other,
}

#[derive(Clone, Copy, PartialEq, Eq, Structural, Debug)]
pub enum XftAction {
    /// Draw the label's box and text at this position, then flush.
    DrawLabel { x: u16, y: u16 },
    /// The window manager asked to close the window: stop.
    Close,
    /// Free the colours, the draw target and the visual.
    ReleaseResources,
    LogError,
    LogUnknown,
    Nothing,
}

#[derive(Clone, Copy, PartialEq, Eq, Structural, Debug)]
pub struct XftSession {
    pub window: u32,
    pub wm_delete_window: u32,
    pub width: u16,
    pub height: u16,
    pub released: bool,
}

/// The format of a client message whose data are 32-bit values.
pub const CLIENT_MESSAGE_FORMAT: u8 = 32;

pub open spec fn is_close_request(s: XftSession, format: u8, window: u32, data0: u32) -> bool {
    format == CLIENT_MESSAGE_FORMAT && window == s.window && data0 == s.wm_delete_window
}

pub open spec fn xft_action(s: XftSession, e: XftEvent) -> XftAction {
    match e {
        XftEvent::Expose => XftAction::DrawLabel { x: s.width / 2, y: s.height / 2 },
        XftEvent::Configure { .. } => XftAction::Nothing,
        XftEvent::ClientMessage { format, window, data0 } => if is_close_request(s, format, window, data0) {
            XftAction::Close
        } else {
            XftAction::Nothing
        },
        XftEvent::Destroy { window } => if window == s.window && !s.released {
            XftAction::ReleaseResources
        } else {
            XftAction::Nothing
        },
        XftEvent::Error => XftAction::LogError,
        XftEvent::Other => XftAction::LogUnknown,
    }
}

pub open spec fn xft_next(s: XftSession, e: XftEvent) -> XftSession {
    match e {
        XftEvent::Configure { width, height } => XftSession { width, height, ..s },
        XftEvent::Destroy { window } => if window == s.window {
            XftSession { released: true, ..s }
        } else {
            s
        },
        _ => s,
    }
}

impl XftSession {
    pub fn new(window: u32, wm_delete_window: u32, width: u16, height: u16) -> (r: Self)
        ensures
            r == (XftSession { window, wm_delete_window, width, height, released: false }),
    {
        XftSession { window, wm_delete_window, width, height, released: false }
    }

    /// Applies one event and says what the caller must do.
    pub fn on_event(&mut self, e: XftEvent) -> (a: XftAction)
        ensures
            a == xft_action(*old(self), e),
            *final(self) == xft_next(*old(self), e),
    {
        match e {
            XftEvent::Expose => XftAction::DrawLabel { x: self.width / 2, y: self.height / 2 },
            XftEvent::Configure { width, height } => {
                self.width = width;
                self.height = height;
                XftAction::Nothing
            },
            XftEvent::ClientMessage { format, window, data0 } => {
                if format == CLIENT_MESSAGE_FORMAT && window == self.window && data0 == self.wm_delete_window {
                    XftAction::Close
                } else {
                    XftAction::Nothing
                }
            },
            XftEvent::Destroy { window } => {
                if window == self.window {
                    let first = !self.released;
                    self.released = true;
                    if first {
                        XftAction::ReleaseResources
                    } else {
                        XftAction::Nothing
                    }
                } else {
                    XftAction::Nothing
                }
            },
            XftEvent::Error => XftAction::LogError,
            XftEvent::Other => XftAction::LogUnknown,
        }
    }
}

/// Number of release actions over a run of events.
pub open spec fn releases_in(s: XftSession, events: Seq<XftEvent>) -> nat
    decreases events.len(),
{
    if events.len() == 0 {
        0
    } else {
        (if xft_action(s, events[0]) == XftAction::ReleaseResources { 1nat } else { 0nat })
            + releases_in(xft_next(s, events[0]), events.drop_first())
    }
}

/// The session's resources are released at most once over any run of events,
/// and not at all once they have been.
pub proof fn lemma_resources_released_at_most_once(s: XftSession, events: Seq<XftEvent>)
    ensures
        releases_in(s, events) <= 1,
        s.released ==> releases_in(s, events) == 0,
    decreases events.len(),
{
    if events.len() > 0 {
        let t = xft_next(s, events[0]);
        lemma_resources_released_at_most_once(t, events.drop_first());
    }
}

} // verus!
