//! What callers can rely on across operations.

use vstd::prelude::*;
use crate::gate::{idle_gate, PresentDecision};
use crate::lifecycle::{allocated, cleaned, freed, initializing, restacking};
use crate::operation::{admissible, begin, conversation, follow_up, run, Operation};
use crate::paint::{dropped, gated, judged, measured, painted, painting, resized, textured};
use crate::popup::{popup_hidden, popup_shown};
use crate::protocol::{
    Answer, Effect, Handle, Hwnd, Next, Reply, Slot, SurfaceId, INVALID_HWND, NULL_SURFACE,
};
use crate::recovery::rebuild;
use crate::registry::without;
use crate::resume::step;
use crate::state::{After, AttachFor, Fit, FitFor, Model, Paint, Stage, Turned};
use crate::surface::Surface;
use crate::swap_chain::{fit, fit_created, fit_resized, fitted, paint_answer};
use crate::transition::{size_noted, transition_begun, transition_ended, visibility_set};

verus! {

/// What follows the rebuild that is under way, if one is.
pub open spec fn after_of(stage: Stage) -> Option<After> {
    match stage {
        Stage::RebuildInit { after, .. } => Some(after),
        Stage::RebuildVisual { after, .. } => Some(after),
        Stage::RebuildPopup { after, .. } => Some(after),
        Stage::Attach { purpose: AttachFor::Rebuild { after, .. }, .. } => Some(after),
        _ => None,
    }
}

/// The frame that is on its way, if one is.
pub open spec fn frame_of(stage: Stage) -> Option<Paint> {
    match stage {
        Stage::Open(paint) => Some(paint),
        Stage::Measure { paint, .. } => Some(paint),
        Stage::Judge { paint, .. } => Some(paint),
        Stage::Upload(paint) => Some(paint),
        Stage::FitResize(f) | Stage::FitCheck(f) | Stage::FitCreate(f) => match f.purpose {
            FitFor::Present { source, .. } => Some(
                Paint { surface: f.surface, slot: f.slot, source },
            ),
            FitFor::Resize => None,
        },
        Stage::Buffer { paint, .. } => Some(paint),
        Stage::Show { paint, .. } => Some(paint),
        Stage::ShowCheck { paint, .. } => Some(paint),
        _ => None,
    }
}

/// The status in a reply.
pub open spec fn status(reply: Reply) -> int {
    match reply {
        Reply::Status(code) => code as int,
        _ => 0,
    }
}

proof fn lemma_rebuild_answer(m: Model, reply: Reply)
    requires
        m.expects(reply),
        m.stage is RebuildInit || m.stage is RebuildVisual || m.stage is RebuildPopup
            || m.stage is Attach,
    ensures
        step(m, reply).next == Next::Return(Answer::Flag(true)) ==> after_of(m.stage) == Some(
            After::Finish(Answer::Flag(true)),
        ),
        after_of(step(m, reply).model.stage) == Some(After::Finish(Answer::Flag(true)))
            ==> after_of(m.stage) == Some(After::Finish(Answer::Flag(true))),
{
}

proof fn lemma_frame_answer(m: Model, reply: Reply)
    requires
        m.expects(reply),
        frame_of(m.stage) is Some || m.stage is FitResize || m.stage is FitCheck
            || m.stage is FitCreate,
        !(m.stage is ShowCheck),
        !(m.stage is Show),
    ensures
        step(m, reply).next != Next::Return(Answer::Flag(true)),
        after_of(step(m, reply).model.stage) != Some(After::Finish(Answer::Flag(true))),
{
}

/// A frame is reported as taken only if it was shown, or if the device turned
/// out to be lost. A frame that could not be shown on a device that is still
/// there is reported as such, so that its sender can try again.
pub proof fn lemma_taken_means_shown_or_lost(m: Model, reply: Reply)
    requires
        m.expects(reply),
        !(m.stage is Init),
        step(m, reply).next == Next::Return(Answer::Flag(true)) || after_of(
            step(m, reply).model.stage,
        ) == Some(After::Finish(Answer::Flag(true))),
    ensures
        (m.stage is Show && status(reply) >= 0) || (m.stage is ShowCheck && status(reply) < 0)
            || after_of(m.stage) == Some(After::Finish(Answer::Flag(true))),
{
    if m.stage is RebuildInit || m.stage is RebuildVisual || m.stage is RebuildPopup
        || m.stage is Attach {
        lemma_rebuild_answer(m, reply);
    } else if m.stage is Show || m.stage is ShowCheck {
    } else if frame_of(m.stage) is Some || m.stage is FitResize || m.stage is FitCheck
        || m.stage is FitCreate {
        lemma_frame_answer(m, reply);
    }
}

/// What a frame on the main picture of a surface is answered once it reached
/// the swap chain: shown, then taken; not shown but the device is there, then
/// not taken; the device is lost, then taken, after a rebuild.
pub proof fn lemma_present_outcomes(m: Model, paint: Paint, code: i32)
    requires
        m.wf(),
        paint.slot is Main,
    ensures
        m.stage matches Stage::Show { paint: p, .. } && p == paint && code >= 0 ==> step(
            m,
            Reply::Status(code),
        ).next == Next::Return(Answer::Flag(true)),
        m.stage matches Stage::ShowCheck { paint: p, .. } && p == paint && code >= 0 ==> step(
            m,
            Reply::Status(code),
        ).next == Next::Return(Answer::Flag(false)),
        m.stage matches Stage::ShowCheck { paint: p, .. } && p == paint && code < 0 && m.hwnd
            != INVALID_HWND ==> after_of(step(m, Reply::Status(code)).model.stage) == Some(
            After::Finish(Answer::Flag(true)),
        ),
{
}

/// A frame is copied only into a swap chain of its own size. A frame without a
/// size leaves the swap chain as it is.
pub proof fn lemma_frames_fit(m: Model, fx: Seq<Effect>, f: Fit, code: i32, made: Option<Handle>)
    requires
        f.width > 0 && f.height > 0,
    ensures
        fit(m, fx, f).model.stage is Buffer ==> m.surface(f.surface).size_of(f.slot) == (
            f.width,
            f.height,
        ),
        fit_resized(m, f, code).model.stage is Buffer ==> fit_resized(m, f, code).model.surface(
            f.surface,
        ).size_of(f.slot) == (f.width, f.height),
        made is Some && fit_created(m, f, made).model.stage is Buffer ==> fit_created(
            m,
            f,
            made,
        ).model.surface(f.surface).size_of(f.slot) == (f.width, f.height) && fit_created(
            m,
            f,
            made,
        ).model.surface(f.surface).chain_of(f.slot) == made,
{
}

/// A swap chain that has the size already is not touched.
pub proof fn lemma_fitting_chain_is_kept(m: Model, f: Fit)
    requires
        m.surface(f.surface).chain_of(f.slot) is Some,
        m.surface(f.surface).size_of(f.slot) == (f.width, f.height),
    ensures
        fit(m, seq![], f) == fitted(m, seq![], f),
        fit(m, seq![], f).model.reg == m.reg,
{
}

/// At no time does a hidden surface or a hidden popup have a swap chain, and
/// if it has a visual, no size is noted for it.
pub proof fn lemma_hidden_slots_are_empty(m: Model, id: SurfaceId)
    requires
        m.wf(),
        m.reg.has(id),
    ensures
        !m.surface(id).visible ==> m.surface(id).swap_chain is None,
        !m.surface(id).popup_visible ==> m.surface(id).popup_swap_chain is None,
        !m.surface(id).visible && m.surface(id).visual is Some ==> m.surface(id).size_of(Slot::Main)
            == (0i32, 0i32),
        !m.surface(id).popup_visible && m.surface(id).popup_visual is Some ==> m.surface(
            id,
        ).size_of(Slot::Popup) == (0i32, 0i32),
{
}

/// Nothing is ever shown on a hidden surface or a hidden popup: while a frame
/// is being fitted or shown, its slot is shown and has a visual.
pub proof fn lemma_hidden_slots_show_nothing(m: Model)
    requires
        m.wf(),
        m.stage is FitResize || m.stage is FitCheck || m.stage is FitCreate || m.stage is Buffer
            || m.stage is Show || m.stage is ShowCheck,
        frame_of(m.stage) is Some,
    ensures
        m.surface((frame_of(m.stage)->0).surface).shown((frame_of(m.stage)->0).slot),
        m.surface((frame_of(m.stage)->0).surface).visual_of((frame_of(m.stage)->0).slot) is Some,
{
    assert(m.reg.has((frame_of(m.stage)->0).surface));
    assert(m.surface((frame_of(m.stage)->0).surface).wf());
}

/// A frame for a slot that cannot show it changes nothing and is not taken.
pub proof fn lemma_hidden_frames_are_dropped(
    m: Model,
    paint: Paint,
    texture: Handle,
    width: i32,
    height: i32,
)
    requires
        !m.surface(paint.surface).shown(paint.slot) || m.surface(paint.surface).visual_of(
            paint.slot,
        ) is None,
    ensures
        textured(m, paint, texture, width, height) == dropped(m, seq![], paint.slot),
        textured(m, paint, texture, width, height).model.reg == m.reg,
{
}

/// Operations one after the other, each with the replies that it gets.
pub open spec fn performed(m: Model, ops: Seq<(Operation, Seq<Reply>)>) -> Model
    decreases ops.len(),
{
    if ops.len() == 0 {
        m
    } else {
        run(begin(performed(m, ops.drop_last()), ops.last().0), ops.last().1).model
    }
}

/// What the last of these operations is answered.
pub open spec fn last_answer(m: Model, ops: Seq<(Operation, Seq<Reply>)>) -> Next {
    run(begin(performed(m, ops.drop_last()), ops.last().0), ops.last().1).next
}

/// Whether each of these operations is carried out to its end.
pub open spec fn carried_out(m: Model, ops: Seq<(Operation, Seq<Reply>)>) -> bool
    decreases ops.len(),
{
    ops.len() > 0 ==> {
        let t = begin(performed(m, ops.drop_last()), ops.last().0);
        &&& carried_out(m, ops.drop_last())
        &&& admissible(performed(m, ops.drop_last()), ops.last().0)
        &&& conversation(t, ops.last().1)
        &&& run(t, ops.last().1).next is Return
    }
}

/// Whether an operation hands over a frame for a slot of a surface, as a shared
/// texture or as pixels.
pub open spec fn paints(op: Operation, s: SurfaceId, at: Slot) -> bool {
    match op {
        Operation::Present { surface, slot, .. } => surface == s && slot == at,
        Operation::PresentSoftware { surface, slot, .. } => surface == s && slot == at,
        _ => false,
    }
}

/// The state may differ in what a frame can change of it before it gets to a
/// swap chain: the transition, and the size noted during one.
pub open spec fn same_but_transition(m: Model, n: Model) -> bool {
    n == (Model {
        gate: n.gate,
        pending_lw: n.pending_lw,
        pending_lh: n.pending_lh,
        stage: n.stage,
        ..m
    })
}

/// How far a frame for a hidden slot can get.
spec fn hidden_frame_turn(m: Model, s: SurfaceId, slot: Slot, t: Turned) -> bool {
    &&& same_but_transition(m, t.model)
    &&& match t.next {
        Next::Return(answer) => t.model.idle() && answer == paint_answer(slot, false),
        Next::Ask(_) => {
            &&& t.model.stage is Open || t.model.stage is Measure || t.model.stage is Judge
                || t.model.stage is Upload
            &&& (frame_of(t.model.stage)->0).surface == s
            &&& (frame_of(t.model.stage)->0).slot == slot
        },
    }
}

proof fn lemma_hidden_frame_begin(m: Model, s: SurfaceId, slot: Slot, op: Operation)
    requires
        m.devices is Some,
        paints(op, s, slot),
    ensures
        hidden_frame_turn(m, s, slot, begin(m, op)),
{
}

proof fn lemma_hidden_frame_step(m: Model, s: SurfaceId, slot: Slot, t: Turned, reply: Reply)
    requires
        m.devices is Some,
        !m.surface(s).shown(slot),
        hidden_frame_turn(m, s, slot, t),
        t.next is Ask,
        t.model.expects(reply),
    ensures
        hidden_frame_turn(m, s, slot, follow_up(t.model, reply)),
{
    reveal(follow_up);
}

proof fn lemma_hidden_frame_run(m: Model, s: SurfaceId, slot: Slot, t: Turned, replies: Seq<Reply>)
    requires
        m.devices is Some,
        !m.surface(s).shown(slot),
        hidden_frame_turn(m, s, slot, t),
        conversation(t, replies),
    ensures
        hidden_frame_turn(m, s, slot, run(t, replies)),
    decreases replies.len(),
{
    if replies.len() > 0 {
        lemma_hidden_frame_step(m, s, slot, t, replies[0]);
        lemma_hidden_frame_run(
            m,
            s,
            slot,
            follow_up(t.model, replies[0]),
            replies.drop_first(),
        );
    }
}

/// Frames for a hidden surface or a hidden popup, whatever the host replies,
/// are not taken and change no surface.
pub proof fn lemma_hidden_frames(
    m: Model,
    s: SurfaceId,
    slot: Slot,
    frames: Seq<(Operation, Seq<Reply>)>,
)
    requires
        m.idle(),
        m.devices is Some,
        !m.surface(s).shown(slot),
        forall|i: int| 0 <= i < frames.len() ==> paints((#[trigger] frames[i]).0, s, slot),
        carried_out(m, frames),
    ensures
        same_but_transition(m, performed(m, frames)),
        performed(m, frames).idle(),
        forall|i: int|
            0 < i <= frames.len() ==> #[trigger] last_answer(m, frames.take(i)) == Next::Return(
                paint_answer(slot, false),
            ),
    decreases frames.len(),
{
    if frames.len() > 0 {
        let front = frames.drop_last();
        let (op, replies) = frames.last();
        assert(forall|i: int| 0 <= i < front.len() ==> #[trigger] front[i] == frames[i]);
        lemma_hidden_frames(m, s, slot, front);
        let n = performed(m, front);
        assert(paints(frames[frames.len() - 1].0, s, slot));
        lemma_hidden_frame_begin(n, s, slot, op);
        lemma_hidden_frame_run(n, s, slot, begin(n, op), replies);
        assert forall|i: int| 0 < i <= frames.len() implies #[trigger] last_answer(
            m,
            frames.take(i),
        ) == Next::Return(paint_answer(slot, false)) by {
            if i < frames.len() {
                assert(frames.take(i) =~= front.take(i));
            } else {
                assert(frames.take(i) =~= frames);
            }
        }
    }
}

/// Hiding a surface takes its picture away for good. Whatever frames come for
/// it while it is hidden, and whatever the host replies to them, each is
/// answered `false`; and when the surface is shown again it is empty, without a
/// swap chain and without a size, until its next frame.
pub proof fn lemma_hiding_empties(
    m: Model,
    s: SurfaceId,
    frames: Seq<(Operation, Seq<Reply>)>,
)
    requires
        m.wf(),
        m.idle(),
        m.reg.has(s),
        m.devices is Some,
        m.surface(s).visible,
        m.surface(s).visual is Some,
        forall|i: int| 0 <= i < frames.len() ==> paints((#[trigger] frames[i]).0, s, Slot::Main),
        carried_out(visibility_set(m, s, false).model, frames),
    ensures
        ({
            let hidden = visibility_set(m, s, false);
            let meanwhile = performed(hidden.model, frames);
            let again = visibility_set(meanwhile, s, true);
            &&& !hidden.model.surface(s).visible
            &&& hidden.effects[0] == (Effect::SetContent {
                visual: m.surface(s).visual->0,
                content: None,
            })
            &&& forall|i: int|
                0 < i <= frames.len() ==> #[trigger] last_answer(hidden.model, frames.take(i))
                    == Next::Return(Answer::Flag(false))
            &&& meanwhile.reg == hidden.model.reg
            &&& again.model.surface(s).swap_chain is None
            &&& again.model.surface(s).size_of(Slot::Main) == (0i32, 0i32)
            &&& again.model.surface(s) == (Surface {
                swap_chain: None,
                sw: 0,
                sh: 0,
                ..m.surface(s)
            })
        }),
{
    assert(s != NULL_SURFACE);
    let hidden = visibility_set(m, s, false);
    lemma_hidden_frames(hidden.model, s, Slot::Main, frames);
}

/// The same, whatever else was done in between: a surface that is hidden and
/// has a visual is empty once it is shown, in every state there is.
pub proof fn lemma_shown_again_is_empty(m: Model, s: SurfaceId)
    requires
        m.wf(),
        m.idle(),
        m.reg.has(s),
        m.devices is Some,
        !m.surface(s).visible,
    ensures
        visibility_set(m, s, true).model.surface(s).visible,
        visibility_set(m, s, true).model.surface(s).swap_chain is None,
        m.surface(s).visual is Some ==> visibility_set(m, s, true).model.surface(s).size_of(
            Slot::Main,
        ) == (0i32, 0i32),
{
    assert(s != NULL_SURFACE);
    assert(m.surface(s).wf());
}

/// Asking for the visibility that a surface has already changes nothing.
pub proof fn lemma_same_visibility(m: Model, s: SurfaceId)
    requires
        m.idle(),
    ensures
        visibility_set(m, s, m.surface(s).visible) == m.answers(seq![], Answer::Unit),
        visibility_set(m, s, m.surface(s).visible).model == m,
{
}

/// Hiding a popup takes its picture away for good, and nothing of the surface
/// it belongs to. Whatever frames come for it while it is hidden change
/// nothing; and when it is shown again it has no swap chain, and no size if it
/// has a visual.
pub proof fn lemma_hiding_popup_empties(
    m: Model,
    s: SurfaceId,
    frames: Seq<(Operation, Seq<Reply>)>,
    x: i32,
    y: i32,
)
    requires
        m.wf(),
        m.idle(),
        m.reg.has(s),
        m.devices is Some,
        forall|i: int|
            0 <= i < frames.len() ==> paints((#[trigger] frames[i]).0, s, Slot::Popup),
        carried_out(popup_hidden(m, s).model, frames),
    ensures
        ({
            let n = popup_hidden(m, s).model;
            let meanwhile = performed(n, frames);
            let again = popup_shown(meanwhile, s, x, y).model;
            &&& !n.surface(s).popup_visible
            &&& n.surface(s).popup_swap_chain is None
            &&& n.surface(s).visual == m.surface(s).visual
            &&& n.surface(s).swap_chain == m.surface(s).swap_chain
            &&& n.surface(s).visible == m.surface(s).visible
            &&& meanwhile.reg == n.reg
            &&& again.surface(s).popup_visible
            &&& again.surface(s).popup_swap_chain is None
            &&& m.surface(s).popup_visual is Some ==> again.surface(s).size_of(Slot::Popup) == (
                0i32,
                0i32,
            )
        }),
{
    assert(s != NULL_SURFACE);
    assert(m.surface(s).wf());
    lemma_hidden_frames(popup_hidden(m, s).model, s, Slot::Popup, frames);
}

/// A popup that is shown is visible, and only its visual is moved.
pub proof fn lemma_showing_popup(m: Model, s: SurfaceId, x: i32, y: i32)
    requires
        m.wf(),
        m.idle(),
        m.reg.has(s),
    ensures
        popup_shown(m, s, x, y).model.surface(s) == (Surface {
            popup_visible: true,
            ..m.surface(s)
        }),
        m.surface(s).popup_visual is Some ==> popup_shown(m, s, x, y).effects == seq![
            Effect::SetOffset { visual: m.surface(s).popup_visual->0, x, y },
        ],
{
    assert(s != NULL_SURFACE);
}

/// A transition begins once: asking again while it goes on changes nothing.
pub proof fn lemma_beginning_twice(m: Model)
    requires
        m.idle(),
    ensures
        transition_begun(m).model.gate.transitioning,
        transition_begun(transition_begun(m).model) == transition_begun(m).model.answers(
            seq![],
            Answer::Unit,
        ),
        transition_begun(transition_begun(m).model).model == transition_begun(m).model,
{
}

/// A transition captures the window size it begins at, and empties the main
/// surface; the other surfaces are left alone.
pub proof fn lemma_beginning(m: Model)
    requires
        m.wf(),
        m.idle(),
        !m.gate.transitioning,
    ensures
        transition_begun(m).model.gate.captured == (m.mpv_pw, m.mpv_ph),
        transition_begun(m).model.reg.stack == m.reg.stack,
        transition_begun(m).model.reg.live == m.reg.live,
        forall|id: SurfaceId|
            m.reg.bottom() != Some(id) ==> (#[trigger] transition_begun(m).model.surface(id))
                == m.surface(id),
        m.reg.bottom() is Some && m.devices is Some ==> transition_begun(m).model.surface(
            m.reg.bottom()->0,
        ).swap_chain is None,
{
}

/// Ending a transition undoes what beginning it did to the sizes and the
/// transition gate, whatever was noted in between; ending it twice is ending
/// it once.
pub proof fn lemma_ending(m: Model)
    ensures
        !transition_ended(m).gate.transitioning,
        transition_ended(transition_ended(m)) == transition_ended(m),
        transition_ended(transition_begun(m).model).gate == idle_gate(),
        transition_ended(transition_begun(m).model).pending_lw == 0,
        transition_ended(transition_begun(m).model).pending_lh == 0,
{
}

/// A size report ends a transition exactly if the physical size is a new one,
/// or if it is forced to; it never begins one. The physical size is noted in
/// any case, the logical one only while the transition goes on.
pub proof fn lemma_size_reports(m: Model, lw: i32, lh: i32, pw: i32, ph: i32, force_end: bool)
    ensures
        ({
            let n = size_noted(m, lw, lh, pw, ph, force_end);
            &&& n.mpv_pw == pw && n.mpv_ph == ph
            &&& n.gate.transitioning <==> m.gate.transitioning && !force_end && (pw, ph)
                == m.gate.captured
            &&& n.gate.transitioning ==> n.gate == m.gate && n.pending_lw == lw && n.pending_lh
                == lh
            &&& m.gate.transitioning && !n.gate.transitioning ==> n.gate == idle_gate()
                && n.pending_lw == 0 && n.pending_lh == 0
            &&& !m.gate.transitioning ==> n.gate == m.gate && n.pending_lw == m.pending_lw
                && n.pending_lh == m.pending_lh
            &&& n.reg == m.reg && n.devices == m.devices
        }),
{
}

/// The transition gate has a say only in frames of the main surface: any other
/// frame is never put to it, and leaves it as it is.
pub proof fn lemma_only_main_frames_are_judged(
    m: Model,
    paint: Paint,
    texture: Handle,
    width: i32,
    height: i32,
)
    requires
        !gated(m, paint),
    ensures
        !(painting(m, seq![], paint).model.stage is Judge),
        !(measured(m, paint, texture, width, height).model.stage is Judge),
        painting(m, seq![], paint).model.gate == m.gate,
        measured(m, paint, texture, width, height).model.gate == m.gate,
{
}

/// A rejected frame changes nothing and is not taken.
pub proof fn lemma_rejected_frames(
    m: Model,
    paint: Paint,
    texture: Option<Handle>,
    width: i32,
    height: i32,
)
    ensures
        judged(m, paint, texture, width, height, PresentDecision::Reject) == dropped(
            m,
            seq![],
            paint.slot,
        ),
{
}

/// A shared frame of the main surface that is larger than the window is never
/// shown: no surface changes, and it is not taken. It may still have ended the
/// transition.
pub proof fn lemma_oversized_frames(
    m: Model,
    paint: Paint,
    texture: Option<Handle>,
    width: i32,
    height: i32,
    decision: PresentDecision,
)
    requires
        paint.source is Shared,
        paint.slot is Main,
        m.mpv_pw > 0,
        width > m.mpv_pw + 2 || height > m.mpv_ph + 2,
    ensures
        judged(m, paint, texture, width, height, decision).next == Next::Return(
            Answer::Flag(false),
        ),
        judged(m, paint, texture, width, height, decision).model.reg == m.reg,
        judged(m, paint, texture, width, height, decision).effects == Seq::<Effect>::empty(),
{
}

/// A frame that ends a transition resets the transition gate; one that does
/// not leaves it as it is.
pub proof fn lemma_ending_frames(
    m: Model,
    paint: Paint,
    texture: Option<Handle>,
    width: i32,
    height: i32,
    decision: PresentDecision,
)
    ensures
        decision is EndTransitionThenPresent ==> judged(
            m,
            paint,
            texture,
            width,
            height,
            decision,
        ).model.gate == idle_gate(),
        !(decision is EndTransitionThenPresent) ==> judged(
            m,
            paint,
            texture,
            width,
            height,
            decision,
        ).model.gate == m.gate,
{
}

/// Frames leave all other surfaces and the stack alone, as long as the device
/// is there.
pub proof fn lemma_frames_touch_one_surface(m: Model, reply: Reply, id: SurfaceId)
    requires
        m.wf(),
        m.expects(reply),
        frame_of(m.stage) is Some,
        (frame_of(m.stage)->0).surface != id,
        !(step(m, reply).model.stage is RebuildInit),
    ensures
        step(m, reply).model.surface(id) == m.surface(id),
        step(m, reply).model.reg.stack == m.reg.stack,
        step(m, reply).model.reg.live == m.reg.live,
        step(m, reply).model.devices == m.devices,
{
}

/// After cleaning up there is no surface, there are no devices, and no object
/// is needed any more.
pub proof fn lemma_cleaned(m: Model, h: Handle)
    ensures
        cleaned(m).next == Next::Return(Answer::Unit),
        cleaned(m).model.devices is None,
        cleaned(m).model.reg.live.len() == 0,
        cleaned(m).model.reg.stack.len() == 0,
        forall|id: SurfaceId| !#[trigger] cleaned(m).model.reg.has(id),
        !cleaned(m).model.holds(h),
{
}

/// A freed surface is gone; the others are left alone and keep their order.
pub proof fn lemma_freed(m: Model, s: SurfaceId)
    requires
        m.wf(),
        m.idle(),
        m.reg.has(s),
    ensures
        ({
            let n = freed(m, s).model;
            &&& !n.reg.has(s)
            &&& n.reg.live == without(m.reg.live, s)
            &&& n.reg.stack == without(m.reg.stack, s)
            &&& n.devices == m.devices
            &&& forall|id: SurfaceId|
                id != s ==> (#[trigger] n.reg.has(id) <==> m.reg.has(id)) && n.surface(id)
                    == m.surface(id)
        }),
{
    assert(s != NULL_SURFACE);
}

/// A new surface has a name of its own, which is not null and which no later
/// surface will get; it is visible and without a picture; the others and the
/// stack are left alone.
pub proof fn lemma_allocated(m: Model, visual: Handle, popup: Option<Handle>, code: i32)
    requires
        m.wf(),
        m.stage == (Stage::AllocAttach { visual, popup }),
    ensures
        ({
            let t = allocated(m, visual, popup, code);
            let id = m.next_id;
            &&& t.next == Next::Return(Answer::Surface(id))
            &&& id != NULL_SURFACE
            &&& !m.reg.has(id)
            &&& t.model.next_id > id
            &&& t.model.reg.has(id)
            &&& t.model.reg.live == m.reg.live.push(id)
            &&& t.model.reg.stack == m.reg.stack
            &&& t.model.surface(id) == (Surface {
                visual: Some(visual),
                popup_visual: popup,
                in_tree: code >= 0,
                ..Surface::fresh()
            })
            &&& forall|x: SurfaceId| x != id ==> #[trigger] t.model.surface(x) == m.surface(x)
        }),
{
    assert(!m.reg.has(m.next_id));
}

/// Setting up what is set up already changes nothing, not even the window.
pub proof fn lemma_init_again(m: Model, hwnd: Hwnd)
    requires
        m.idle(),
        m.devices is Some,
    ensures
        initializing(m, hwnd) == m.answers(seq![], Answer::Flag(true)),
        initializing(m, hwnd).model == m,
{
}

/// A window that replaces another one always has everything rebuilt for it,
/// whether or not there were devices; the surfaces and their order are kept
/// for that.
pub proof fn lemma_rebind_rebuilds(m: Model, hwnd: Hwnd)
    requires
        m.idle(),
    ensures
        ({
            let t = rebuild(m, hwnd, seq![], After::Finish(Answer::Unit));
            &&& t.model.stage is RebuildInit
            &&& t.model.hwnd == hwnd
            &&& t.model.devices is None
            &&& t.model.reg.live == m.reg.live
            &&& t.model.queue == m.reg.stack
            &&& t.model.reg.surfaces.dom() == m.reg.surfaces.dom()
        }),
{
    let t = rebuild(m, hwnd, seq![], After::Finish(Answer::Unit));
    assert(t.model.reg.surfaces.dom() =~= m.reg.surfaces.dom());
}

proof fn lemma_restack_keeps(m: Model, ordered: Seq<SurfaceId>)
    ensures
        restacking(m, ordered).model.reg.live == m.reg.live,
        restacking(m, ordered).model.next_id == m.next_id,
        restacking(m, ordered).model.reg.surfaces.dom() == m.reg.surfaces.dom(),
        forall|id: SurfaceId| #[trigger]
            m.reg.has(id) ==> restacking(m, ordered).model.surface(id).visible == m.surface(
                id,
            ).visible && restacking(m, ordered).model.surface(id).popup_visible == m.surface(
                id,
            ).popup_visible,
{
    let t = restacking(m, ordered);
    assert(t.model.reg.surfaces.dom() =~= m.reg.surfaces.dom());
}

proof fn lemma_frame_begin_keeps(m: Model, op: Operation)
    requires
        op is Present || op is PresentSoftware || op is Resize || op is Rebind,
    ensures
        begin(m, op).model.reg.live == m.reg.live,
        begin(m, op).model.next_id == m.next_id,
        begin(m, op).model.reg.surfaces.dom() == m.reg.surfaces.dom(),
        forall|id: SurfaceId| #[trigger]
            m.reg.has(id) ==> begin(m, op).model.surface(id).visible == m.surface(id).visible
                && begin(m, op).model.surface(id).popup_visible == m.surface(id).popup_visible,
{
    assert(begin(m, op).model.reg.surfaces.dom() =~= m.reg.surfaces.dom());
}

/// No operation but freeing and cleaning up makes a surface disappear, none
/// but showing and hiding changes what is visible, and then only of the
/// surface it is about; and no operation takes back a name that was given out.
pub proof fn lemma_begin_keeps_surfaces(m: Model, op: Operation)
    requires
        m.wf(),
        admissible(m, op),
        !(op is Free),
        !(op is Cleanup),
    ensures
        begin(m, op).model.reg.live == m.reg.live,
        begin(m, op).model.next_id == m.next_id,
        begin(m, op).model.reg.surfaces.dom() == m.reg.surfaces.dom(),
        forall|id: SurfaceId| #[trigger]
            m.reg.has(id) && !(op matches Operation::SetVisible { surface, .. } && surface == id)
                ==> begin(m, op).model.surface(id).visible == m.surface(id).visible,
        forall|id: SurfaceId| #[trigger]
            m.reg.has(id) && !(op matches Operation::PopupShow { surface, .. } && surface == id)
                && !(op matches Operation::PopupHide { surface } && surface == id) ==> begin(
                m,
                op,
            ).model.surface(id).popup_visible == m.surface(id).popup_visible,
{
    match op {
        Operation::Restack { ordered } => {
            lemma_restack_keeps(m, ordered);
        },
        Operation::Present { .. } | Operation::PresentSoftware { .. }
        | Operation::Resize { .. } | Operation::Rebind { .. } => {
            lemma_frame_begin_keeps(m, op);
        },
        Operation::BeginTransition => {
            if m.reg.bottom() is Some {
                assert(m.reg.has(m.reg.stack[0]));
            }
            assert(begin(m, op).model.reg.surfaces.dom() =~= m.reg.surfaces.dom());
        },
        _ => {
            assert(begin(m, op).model.reg.surfaces.dom() =~= m.reg.surfaces.dom());
        },
    }
}

proof fn lemma_rebuild_goes_on(m: Model, reply: Reply)
    requires
        m.expects(reply),
        m.stage is RebuildVisual || m.stage is RebuildPopup || m.stage is Attach,
    ensures
        !(step(m, reply).model.stage is RebuildInit),
{
}

proof fn lemma_frames_do_not_rebuild(m: Model, reply: Reply)
    requires
        m.expects(reply),
        m.stage is Open || m.stage is Measure || m.stage is Judge || m.stage is Upload
            || m.stage is FitResize || m.stage is FitCreate,
    ensures
        !(step(m, reply).model.stage is RebuildInit),
{
}

/// Under way, everything is rebuilt only when the device was found to be lost,
/// after a resize or a frame that failed; asking after the device never does
/// it.
pub proof fn lemma_rebuilds_only_what_is_lost(m: Model, reply: Reply)
    requires
        m.expects(reply),
        !(m.stage is RebuildInit),
        step(m, reply).model.stage is RebuildInit,
    ensures
        m.stage is FitCheck || m.stage is ShowCheck,
        status(reply) < 0,
{
    if m.stage is RebuildVisual || m.stage is RebuildPopup || m.stage is Attach {
        lemma_rebuild_goes_on(m, reply);
    } else if m.stage is Open || m.stage is Measure || m.stage is Judge || m.stage is Upload
        || m.stage is FitResize || m.stage is FitCreate {
        lemma_frames_do_not_rebuild(m, reply);
    }
}

/// A frame rebuilds first only where there are no devices but a window.
pub proof fn lemma_frames_retry_only_without_devices(m: Model, paint: Paint)
    ensures
        m.devices is Some ==> painted(m, paint) == painting(m, seq![], paint),
        m.devices is None && m.hwnd != INVALID_HWND ==> painted(m, paint) == rebuild(
            m,
            m.hwnd,
            seq![],
            After::Paint(paint),
        ),
        m.devices is None && m.hwnd == INVALID_HWND && paint.source is Shared ==> painted(m, paint)
            == dropped(m, seq![], paint.slot),
{
}

/// Resizing a surface never makes a swap chain where there was none.
pub proof fn lemma_resizing_needs_a_swap_chain(m: Model, s: SurfaceId, pw: i32, ph: i32)
    requires
        m.idle(),
        m.surface(s).swap_chain is None,
    ensures
        resized(m, s, pw, ph) == m.answers(seq![], Answer::Unit),
        resized(m, s, pw, ph).model == m,
{
}

} // verus!
