//! Looking at the trace of the exception that ended the program.
use crate::error::TraceFrame;
use crate::error::TraceView;
use crate::handle::Handle;
use crate::instance::result_given;
use crate::instance::Instance;
use crate::observe::callable_home;
use crate::observe::Position;
use crate::span::Span;
use crate::value::CalIdx;
use crate::value::Value;
use vstd::prelude::*;

verus! {

/// A frame of a kept trace, without what it ran.
#[derive(Clone, Copy, PartialEq, Eq, Debug, Structural)]
pub struct TraceFrameInfo {
    /// Whether it ran a callable.
    pub has_callable: bool,
    /// Where it was entered from.
    pub call_site: Option<Span>,
    /// How many tail calls it had absorbed.
    pub tail_count: u64,
}

/// The kept trace.
pub open spec fn kept_trace(i: Instance) -> Option<TraceView> {
    match i.raised_trace {
        Some(t) => Some(t@),
        None => None,
    }
}

/// A frame of the kept trace.
pub open spec fn kept_frame(i: Instance, index: int) -> Option<TraceFrame> {
    match kept_trace(i) {
        Some(t) => if index < t.frames.len() {
            Some(t.frames[index])
        } else {
            None
        },
        None => None,
    }
}

/// A taken-over frame's callable of the kept trace.
pub open spec fn kept_elided(i: Instance, index: int) -> Option<CalIdx> {
    match kept_trace(i) {
        Some(t) => if index < t.tail_elided.len() {
            Some(t.tail_elided[index])
        } else {
            None
        },
        None => None,
    }
}

impl Instance {
    /// The number of frames of the kept trace.
    pub fn raised_trace_frame_count(&self) -> (r: Option<usize>)
        ensures
            (match kept_trace(*self) {
                Some(t) => r is Some && r->0 == t.frames.len(),
                None => r is None,
            }),
    {
        match &self.raised_trace {
            Some(t) => Some(t.frames.len()),
            None => None,
        }
    }

    fn trace_frame(&self, index: usize) -> (r: Option<TraceFrame>)
        ensures
            r == kept_frame(*self, index as int),
    {
        match &self.raised_trace {
            Some(t) => if index < t.frames.len() {
                Some(t.frames[index])
            } else {
                None
            },
            None => None,
        }
    }

    /// A frame of the kept trace, innermost first, without what it ran.
    pub fn raised_trace_frame(&self, index: usize) -> (r: Option<TraceFrameInfo>)
        ensures
            r == (match kept_frame(*self, index as int) {
                Some(f) => Some(
                    TraceFrameInfo {
                        has_callable: f.callable is Some,
                        call_site: f.call_site,
                        tail_count: f.tail_count,
                    },
                ),
                None => None,
            }),
    {
        match self.trace_frame(index) {
            Some(f) => Some(
                TraceFrameInfo {
                    has_callable: f.callable.is_some(),
                    call_site: f.call_site,
                    tail_count: f.tail_count,
                },
            ),
            None => None,
        }
    }

    /// Gives the callable that a frame of the kept trace ran a handle.
    pub fn raised_trace_frame_callable(&mut self, index: usize) -> (r: Option<Handle>)
        requires
            old(self).ready(),
        ensures
            final(self).handles@.wf(),
            result_given(
                old(self).handles@,
                final(self).handles@,
                (match kept_frame(*old(self), index as int) {
                    Some(f) => match f.callable {
                        Some(cal) => Some(Value::Callable(cal)),
                        None => None,
                    },
                    None => None,
                }),
                r,
            ),
            *final(self) == (Instance { handles: final(self).handles, ..*old(self) }),
    {
        match self.trace_frame(index) {
            Some(f) => match f.callable {
                Some(cal) => Some(self.handles.intern(Value::Callable(cal))),
                None => None,
            },
            None => None,
        }
    }

    /// The number of taken-over frames of the kept trace.
    pub fn raised_trace_tail_count(&self) -> (r: Option<usize>)
        ensures
            (match kept_trace(*self) {
                Some(t) => r is Some && r->0 == t.tail_elided.len(),
                None => r is None,
            }),
    {
        match &self.raised_trace {
            Some(t) => Some(t.tail_elided.len()),
            None => None,
        }
    }

    /// Gives the callable of a taken-over frame of the kept trace a handle, and tells where
    /// it is declared; most recent first.
    pub fn raised_trace_tail_entry(&mut self, index: usize) -> (r: Option<(Handle, Position)>)
        requires
            old(self).ready(),
        ensures
            final(self).handles@.wf(),
            (match kept_elided(*old(self), index as int) {
                Some(cal) => {
                    &&& r == Some(
                        (
                            old(self).handles@.next_handle(),
                            callable_home(old(self).modules@, old(self).heap@, cal),
                        ),
                    )
                    &&& final(self).handles@ == old(self).handles@.interned(
                        Value::Callable(cal),
                    )
                },
                None => r is None && final(self).handles@ == old(self).handles@,
            }),
            *final(self) == (Instance { handles: final(self).handles, ..*old(self) }),
    {
        let cal = match &self.raised_trace {
            Some(t) => {
                if index < t.tail_elided.len() {
                    t.tail_elided[index]
                } else {
                    return None;
                }
            },
            None => {
                return None;
            },
        };
        let position = self.home_of(cal);
        Some((self.handles.intern(Value::Callable(cal)), position))
    }

    /// Where the exception was raised.
    pub fn raised_trace_raised_at(&self) -> (r: Option<Span>)
        ensures
            r == (match kept_trace(*self) {
                Some(t) => t.raised_at,
                None => None,
            }),
    {
        match &self.raised_trace {
            Some(t) => t.raised_at,
            None => None,
        }
    }
}

} // verus!
