//! The transition gate holds back frames of the main surface while the window
//! changes size.

use vstd::prelude::*;

verus! {

/// What becomes of a frame for the main surface.
#[derive(Clone, Copy, Debug, PartialEq, Eq)]
pub enum PresentDecision {
    /// The frame is stale and dropped.
    Reject,
    /// The frame has the new size: the transition is over, and the frame shown.
    EndTransitionThenPresent,
    /// The frame is shown.
    Present,
}

/// The state of a fullscreen or resize transition.
#[derive(Clone, Copy, Debug, PartialEq, Eq)]
pub struct TransitionGate {
    /// Whether a transition is going on.
    pub transitioning: bool,
    /// The physical window size when the transition began.
    pub captured: (i32, i32),
    /// The physical size that frames are expected to come in.
    pub expected: (i32, i32),
}

/// No transition, nothing captured, nothing expected.
pub open spec fn idle_gate() -> TransitionGate {
    TransitionGate { transitioning: false, captured: (0, 0), expected: (0, 0) }
}

/// The transition gate once a transition has begun at window size `size`.
pub open spec fn begun(gate: TransitionGate, size: (i32, i32)) -> TransitionGate {
    if gate.transitioning {
        gate
    } else {
        TransitionGate { transitioning: true, captured: size, ..gate }
    }
}

/// Whether a window size report ends the transition.
pub open spec fn settles(gate: TransitionGate, size: (i32, i32), force_end: bool) -> bool {
    gate.transitioning && (force_end || size != gate.captured)
}

/// The transition gate once a decision on a frame has been carried out.
pub open spec fn decided(gate: TransitionGate, decision: PresentDecision) -> TransitionGate {
    if decision is EndTransitionThenPresent {
        idle_gate()
    } else {
        gate
    }
}

impl TransitionGate {
    pub fn new() -> (r: TransitionGate)
        ensures
            r == idle_gate(),
    {
        TransitionGate { transitioning: false, captured: (0, 0), expected: (0, 0) }
    }

    pub fn in_transition(&self) -> (r: bool)
        ensures
            r == self.transitioning,
    {
        self.transitioning
    }

    /// Begins a transition and remembers the window size, unless one is going
    /// on already; says whether it began.
    pub fn begin_capturing_if_idle(&mut self, size: (i32, i32)) -> (r: bool)
        ensures
            r == !old(self).transitioning,
            *final(self) == begun(*old(self), size),
    {
        if self.transitioning {
            return false;
        }
        self.transitioning = true;
        self.captured = size;
        true
    }

    /// Ends the transition, if any, and forgets its sizes.
    pub fn end(&mut self)
        ensures
            *final(self) == idle_gate(),
    {
        self.transitioning = false;
        self.captured = (0, 0);
        self.expected = (0, 0);
    }

    pub fn set_expected(&mut self, size: (i32, i32))
        ensures
            *final(self) == (TransitionGate { expected: size, ..*old(self) }),
    {
        self.expected = size;
    }

    /// Takes note of a window size. A transition ends once the size differs
    /// from the captured one, or whatever the size if `force_end` is set; says
    /// whether it ended.
    pub fn note_window_size(&mut self, size: (i32, i32), force_end: bool) -> (r: bool)
        ensures
            r == settles(*old(self), size, force_end),
            *final(self) == (if r {
                idle_gate()
            } else {
                *old(self)
            }),
    {
        if !self.transitioning {
            return false;
        }
        if force_end || size.0 != self.captured.0 || size.1 != self.captured.1 {
            self.end();
            true
        } else {
            false
        }
    }

    /// Carries out a decision on a frame for the main surface.
    pub fn apply(&mut self, decision: PresentDecision)
        ensures
            *final(self) == decided(*old(self), decision),
    {
        match decision {
            PresentDecision::EndTransitionThenPresent => {
                self.end();
            },
            _ => {},
        }
    }
}

/// A transition begins once, at the size it is begun at; it ends with a window
/// size that is another, or when it is forced to, and then nothing is left of
/// it; and of the decisions on a frame only the one that ends it changes it.
pub proof fn lemma_transition_gate(
    gate: TransitionGate,
    size: (i32, i32),
    force_end: bool,
    decision: PresentDecision,
)
    ensures
        begun(gate, size).transitioning,
        begun(gate, size).expected == gate.expected,
        begun(gate, size).captured == (if gate.transitioning {
            gate.captured
        } else {
            size
        }),
        settles(gate, size, force_end) <==> gate.transitioning && (force_end || size.0
            != gate.captured.0 || size.1 != gate.captured.1),
        !idle_gate().transitioning,
        idle_gate().captured == (0i32, 0i32),
        idle_gate().expected == (0i32, 0i32),
        decided(gate, PresentDecision::Reject) == gate,
        decided(gate, PresentDecision::Present) == gate,
        decided(gate, PresentDecision::EndTransitionThenPresent) == idle_gate(),
{
}

} // verus!
