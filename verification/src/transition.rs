//! Fullscreen and resize transitions, and the sizes that drive them.

use vstd::prelude::*;
use crate::gate::{begun, idle_gate, settles, TransitionGate};
use crate::paint::known;
use crate::protocol::{Answer, Effect, SurfaceId, Turn, NULL_SURFACE};
use crate::state::{turned, Model, State, Turned};
use crate::surface::Surface;

verus! {

/// A surface without its swap chain.
pub open spec fn blanked(s: Surface) -> Surface {
    Surface { swap_chain: None, sw: 0, sh: 0, ..s }
}

/// What emptying the visual of a surface calls.
pub open spec fn blank_effects(s: Surface) -> Seq<Effect> {
    match s.visual {
        Some(v) => seq![Effect::SetContent { visual: v, content: None }],
        None => seq![],
    }
}

/// A transition begins, unless one is going on: the window size is captured,
/// and the main surface is emptied so that no stale frame is stretched.
pub open spec fn transition_begun(m: Model) -> Turned {
    if m.gate.transitioning {
        m.answers(seq![], Answer::Unit)
    } else {
        let n = Model {
            gate: begun(m.gate, (m.mpv_pw, m.mpv_ph)),
            pending_lw: 0,
            pending_lh: 0,
            ..m
        };
        match (m.reg.bottom(), m.devices) {
            (Some(p), Some(d)) => n.put(p, blanked(m.surface(p))).answers(
                blank_effects(m.surface(p)).push(Effect::Commit { device: d.dcomp_device }),
                Answer::Unit,
            ),
            _ => n.answers(seq![], Answer::Unit),
        }
    }
}

/// No transition is going on, and no logical size is noted.
pub open spec fn transition_ended(m: Model) -> Model {
    Model { gate: idle_gate(), pending_lw: 0, pending_lh: 0, ..m }
}

/// The window reported its size, logical and physical.
pub open spec fn size_noted(
    m: Model,
    lw: i32,
    lh: i32,
    pw: i32,
    ph: i32,
    force_end: bool,
) -> Model {
    let sized = Model { mpv_pw: pw, mpv_ph: ph, ..m };
    if !m.gate.transitioning {
        sized
    } else if settles(m.gate, (pw, ph), force_end) {
        transition_ended(sized)
    } else {
        Model { pending_lw: lw, pending_lh: lh, ..sized }
    }
}

/// Frames are expected in another size from now on.
pub open spec fn size_expected(m: Model, w: i32, h: i32) -> Model {
    Model { gate: TransitionGate { expected: (w, h), ..m.gate }, ..m }
}

/// A surface is shown or hidden. Hiding takes its swap chain away, so that no
/// stale frame comes back when it is shown again; showing it leaves it empty
/// until the next frame.
pub open spec fn visibility_set(m: Model, s: SurfaceId, visible: bool) -> Turned {
    if s == NULL_SURFACE || m.devices is None || m.surface(s).visible == visible {
        m.answers(seq![], Answer::Unit)
    } else {
        let surf = Surface { visible, ..m.surface(s) };
        let commit = Effect::Commit { device: m.devices->0.dcomp_device };
        if surf.visual is None {
            m.put(s, surf).answers(seq![], Answer::Unit)
        } else if visible {
            m.put(s, surf).answers(seq![commit], Answer::Unit)
        } else {
            m.put(s, blanked(surf)).answers(blank_effects(surf).push(commit), Answer::Unit)
        }
    }
}

/// Whether the main surface is gated now.
pub fn gate_in_transition(st: &State) -> (r: bool)
    ensures
        r == st@.gate.transitioning,
{
    st.gate.in_transition()
}

fn begin_transition_locked(st: &mut State) -> (r: Turn)
    requires
        old(st)@.wf(),
        old(st)@.idle(),
    ensures
        turned(*final(st), r) == transition_begun(old(st)@),
        final(st)@.wf(),
{
    if !st.gate.begin_capturing_if_idle((st.mpv_pw, st.mpv_ph)) {
        assert(st@ =~= old(st)@);
        return st.finish(Vec::new(), Answer::Unit);
    }
    st.pending_lw = 0;
    st.pending_lh = 0;
    let ghost n = Model {
        gate: begun(old(st)@.gate, (old(st)@.mpv_pw, old(st)@.mpv_ph)),
        pending_lw: 0,
        pending_lh: 0,
        ..old(st)@
    };
    assert(st@ =~= n);
    match (st.surfaces.main(), st.devices) {
        (Some(p), Some(d)) => {
            let mut effects: Vec<Effect> = Vec::new();
            let mut s = st.surfaces.get(p);
            if let Some(v) = s.visual {
                effects.push(Effect::SetContent { visual: v, content: None });
            }
            s.swap_chain = None;
            s.sw = 0;
            s.sh = 0;
            st.put(p, s);
            effects.push(Effect::Commit { device: d.dcomp_device });
            assert(effects@ =~= blank_effects(old(st)@.surface(p)).push(
                Effect::Commit { device: d.dcomp_device },
            ));
            st.finish(effects, Answer::Unit)
        },
        _ => st.finish(Vec::new(), Answer::Unit),
    }
}

fn end_transition_locked(st: &mut State)
    requires
        old(st)@.wf(),
        old(st)@.idle(),
    ensures
        final(st)@ == transition_ended(old(st)@),
        final(st)@.wf(),
{
    st.gate.end();
    st.pending_lw = 0;
    st.pending_lh = 0;
    assert(st@ =~= transition_ended(old(st)@));
}

/// Begins a transition.
pub fn jfn_win_begin_transition_locked(st: &mut State) -> (r: Turn)
    requires
        old(st)@.wf(),
        old(st)@.idle(),
    ensures
        turned(*final(st), r) == transition_begun(old(st)@),
        final(st)@.wf(),
{
    begin_transition_locked(st)
}

/// Ends the transition, if one is going on.
pub fn win_end_transition(st: &mut State)
    requires
        old(st)@.wf(),
        old(st)@.idle(),
    ensures
        final(st)@ == transition_ended(old(st)@),
        final(st)@.wf(),
{
    end_transition_locked(st);
}

/// Notes the physical size that frames are expected to come in.
pub fn win_set_expected_size(st: &mut State, w: i32, h: i32)
    requires
        old(st)@.wf(),
        old(st)@.idle(),
    ensures
        final(st)@ == size_expected(old(st)@, w, h),
        final(st)@.wf(),
{
    st.gate.set_expected((w, h));
    assert(st@ =~= size_expected(old(st)@, w, h));
}

/// The window was resized: notes its physical size, which oversized frames are
/// held against. During a transition the logical size is noted too, and the
/// transition ends once the physical size is a new one; with `force_end` it
/// ends even if the physical size is unchanged.
pub fn jfn_win_update_surface_size(
    st: &mut State,
    lw: i32,
    lh: i32,
    pw: i32,
    ph: i32,
    force_end: bool,
)
    requires
        old(st)@.wf(),
        old(st)@.idle(),
    ensures
        final(st)@ == size_noted(old(st)@, lw, lh, pw, ph, force_end),
        final(st)@.wf(),
{
    if st.gate.in_transition() {
        st.pending_lw = lw;
        st.pending_lh = lh;
        if st.gate.note_window_size((pw, ph), force_end) {
            st.pending_lw = 0;
            st.pending_lh = 0;
        }
    }
    st.mpv_pw = pw;
    st.mpv_ph = ph;
    assert(st@ =~= size_noted(old(st)@, lw, lh, pw, ph, force_end));
}

/// Begins a transition, for the window procedure.
pub fn jfn_win_wndproc_begin_transition_locked(st: &mut State) -> (r: Turn)
    requires
        old(st)@.wf(),
        old(st)@.idle(),
    ensures
        turned(*final(st), r) == transition_begun(old(st)@),
        final(st)@.wf(),
{
    begin_transition_locked(st)
}

/// Ends the transition, if one is going on, for the window procedure.
pub fn jfn_win_wndproc_end_transition_locked(st: &mut State)
    requires
        old(st)@.wf(),
        old(st)@.idle(),
    ensures
        final(st)@ == transition_ended(old(st)@),
        final(st)@.wf(),
{
    end_transition_locked(st);
}

/// Shows or hides a surface.
pub fn win_surface_set_visible(st: &mut State, s: SurfaceId, visible: bool) -> (r: Turn)
    requires
        old(st)@.wf(),
        old(st)@.idle(),
        known(old(st)@, s),
    ensures
        turned(*final(st), r) == visibility_set(old(st)@, s, visible),
        final(st)@.wf(),
{
    if s == NULL_SURFACE {
        return st.finish(Vec::new(), Answer::Unit);
    }
    let d = match st.devices {
        Some(d) => d,
        None => {
            return st.finish(Vec::new(), Answer::Unit);
        },
    };
    let mut surf = st.surfaces.get(s);
    if surf.visible == visible {
        return st.finish(Vec::new(), Answer::Unit);
    }
    surf.visible = visible;
    let mut effects: Vec<Effect> = Vec::new();
    match surf.visual {
        None => {
            st.put(s, surf);
        },
        Some(v) => {
            if !visible {
                effects.push(Effect::SetContent { visual: v, content: None });
                surf.swap_chain = None;
                surf.sw = 0;
                surf.sh = 0;
            }
            st.put(s, surf);
            effects.push(Effect::Commit { device: d.dcomp_device });
        },
    }
    assert(effects@ =~= visibility_set(old(st)@, s, visible).effects);
    st.finish(effects, Answer::Unit)
}

} // verus!
