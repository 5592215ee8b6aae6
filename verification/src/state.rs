//! The pen-input decisions of the drawing program.
//!
//! While the mouse button is held, every motion adds the pointer position
//! to the stroke being drawn.  The part of the stroke not yet drawn onto the
//! canvas is kept apart; once it grows past `FLUSH_LEN` points it is handed
//! out to be drawn and moved to the part already drawn.  Releasing the
//! button hands out the rest to be drawn and commits the whole stroke to
//! the document as a new trace.
use crate::inkml::{with_new_trace, Ink};
use vstd::prelude::*;

verus! {

/// The number of undrawn points the program lets build up before it draws
/// them onto the canvas.
pub const FLUSH_LEN: usize = 300;

/// The pen-input state: the document drawn into, the last pointer position
/// recorded, whether the button is held, the points of the current stroke
/// not yet drawn onto the canvas, and those already drawn.
pub struct State<P> {
    document: Option<Ink<P>>,
    position: P,
    mouse_down: bool,
    current_trace: Vec<P>,
    current_trace_all: Vec<P>,
}

/// The values of a `State`.
pub struct StateView<P> {
    pub document: Option<Ink<P>>,
    pub position: P,
    pub mouse_down: bool,
    /// Points of the current stroke not yet drawn onto the canvas.
    pub undrawn: Seq<P>,
    /// Points of the current stroke already drawn onto the canvas.
    pub drawn: Seq<P>,
}

impl<P> View for State<P> {
    type V = StateView<P>;

    closed spec fn view(&self) -> StateView<P> {
        StateView {
            document: self.document,
            position: self.position,
            mouse_down: self.mouse_down,
            undrawn: self.current_trace@,
            drawn: self.current_trace_all@,
        }
    }
}

impl<P> StateView<P> {
    /// All the points of the current stroke, in the order recorded.
    pub open spec fn stroke(self) -> Seq<P> {
        self.drawn + self.undrawn
    }
}

/// A copy of `points`.
pub fn copy_points<P: Copy>(points: &Vec<P>) -> (r: Vec<P>)
    ensures
        r@ == points@,
{
    let mut r: Vec<P> = Vec::new();
    let mut i: usize = 0;
    while i < points.len()
        invariant
            i <= points@.len(),
            r@ == points@.take(i as int),
        decreases points@.len() - i,
    {
        r.push(points[i]);
        assert(r@ =~= points@.take(i + 1));
        i += 1;
    }
    assert(points@.take(i as int) =~= points@);
    r
}

impl<P: Copy> State<P> {
    /// The state at start-up: drawing into `document`, the button up, no
    /// stroke under way, and `position` as the last pointer position.
    pub fn new(document: Ink<P>, position: P) -> (r: Self)
        ensures
            r@.document == Some(document),
            r@.position == position,
            !r@.mouse_down,
            r@.undrawn == Seq::<P>::empty(),
            r@.drawn == Seq::<P>::empty(),
    {
        State {
            document: Some(document),
            position,
            mouse_down: false,
            current_trace: Vec::new(),
            current_trace_all: Vec::new(),
        }
    }

    /// The button went down: from now on motions are recorded.
    pub fn mouse_button_down(&mut self)
        ensures
            final(self)@ == (StateView { mouse_down: true, ..old(self)@ }),
    {
        self.mouse_down = true;
    }

    /// The pointer moved to `p`.  While the button is held, `p` becomes the
    /// last position and the last point of the stroke.  If more than
    /// `FLUSH_LEN` points are then undrawn, they are returned to be drawn
    /// onto the canvas and count as drawn from now on.
    pub fn mouse_motion(&mut self, p: P) -> (flushed: Option<Vec<P>>)
        ensures
            final(self)@.document == old(self)@.document,
            final(self)@.mouse_down == old(self)@.mouse_down,
            final(self)@.position == (if old(self)@.mouse_down {
                p
            } else {
                old(self)@.position
            }),
            final(self)@.stroke() == (if old(self)@.mouse_down {
                old(self)@.stroke().push(p)
            } else {
                old(self)@.stroke()
            }),
            ({
                let undrawn = if old(self)@.mouse_down {
                    old(self)@.undrawn.push(p)
                } else {
                    old(self)@.undrawn
                };
                if undrawn.len() > FLUSH_LEN {
                    &&& flushed matches Some(f) && f@ == undrawn
                    &&& final(self)@.undrawn == Seq::<P>::empty()
                    &&& final(self)@.drawn == old(self)@.drawn + undrawn
                } else {
                    &&& flushed is None
                    &&& final(self)@.undrawn == undrawn
                    &&& final(self)@.drawn == old(self)@.drawn
                }
            }),
            final(self)@.undrawn.len() <= FLUSH_LEN,
    {
        if self.mouse_down {
            self.position = p;
            self.current_trace.push(p);
        }
        if self.current_trace.len() > FLUSH_LEN {
            let flushed = copy_points(&self.current_trace);
            self.current_trace_all.append(&mut self.current_trace);
            Some(flushed)
        } else {
            None
        }
    }

    /// The button went up.  Returns the undrawn points, to be drawn onto the
    /// canvas; if there is a document, the whole stroke becomes its new last
    /// trace.  The stroke is then over.
    pub fn mouse_button_up(&mut self) -> (undrawn: Vec<P>)
        ensures
            undrawn@ == old(self)@.undrawn,
            !final(self)@.mouse_down,
            final(self)@.position == old(self)@.position,
            final(self)@.drawn == Seq::<P>::empty(),
            match old(self)@.document {
                Some(ink) => {
                    &&& final(self)@.undrawn == Seq::<P>::empty()
                    &&& final(self)@.document matches Some(ink2) && with_new_trace(
                        ink,
                        ink2,
                        old(self)@.stroke(),
                    )
                },
                None => {
                    &&& final(self)@.document is None
                    &&& final(self)@.undrawn == old(self)@.undrawn
                },
            },
    {
        self.mouse_down = false;
        let undrawn = copy_points(&self.current_trace);
        match &mut self.document {
            Some(ink) => {
                self.current_trace_all.append(&mut self.current_trace);
                ink.draw(self.current_trace_all.as_slice());
            },
            None => {},
        }
        self.current_trace_all.clear();
        undrawn
    }

    /// A key went down.  The write key, unless held down and repeating,
    /// asks for the document to be written: it is returned if there is one.
    pub fn key_down(&self, write_key: bool, repeat: bool) -> (r: Option<&Ink<P>>)
        ensures
            r matches Some(ink) ==> write_key && !repeat && self@.document == Some(*ink),
            r is None ==> !write_key || repeat || self@.document is None,
    {
        if write_key && !repeat {
            match &self.document {
                Some(ink) => Some(ink),
                None => None,
            }
        } else {
            None
        }
    }

    /// The document drawn into, if any.
    pub fn document(&self) -> (r: Option<&Ink<P>>)
        ensures
            r matches Some(ink) ==> self@.document == Some(*ink),
            r is None ==> self@.document is None,
    {
        match &self.document {
            Some(ink) => Some(ink),
            None => None,
        }
    }

    /// The points of the current stroke not yet drawn onto the canvas.
    pub fn current_trace(&self) -> (r: &Vec<P>)
        ensures
            r@ == self@.undrawn,
    {
        &self.current_trace
    }
}

} // verus!
