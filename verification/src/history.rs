//! What holds of the screen and of the transition over whole histories.

use vstd::prelude::*;
use crate::agreement::{lemma_begin_mirrors, lemma_step_mirrors, screen_after};
use crate::gate::{PresentDecision, TransitionGate};
use crate::operation::{
    admissible, begin, coherent, conversation, follow_up, lemma_begin_coherent, lemma_begin_sound,
    lemma_step_coherent, lemma_step_keeps_surfaces, lemma_step_sound, run, same_surfaces, sound,
    Operation,
};
use crate::properties::{
    after_of, carried_out, frame_of, lemma_begin_keeps_surfaces, performed,
};
use crate::protocol::{Effect, Handle, Next, Reply, Request, Slot, SurfaceId};
use crate::registry::other_than;
use crate::resume::step;
use crate::screen::{
    blank, called, chain_at, done, holds_frame, lemma_blank_mirrors, mirrors, plausible, size_at,
    visible_at, visual_at, Screen,
};
use crate::state::{After, FitFor, Model, Paint, Stage, Turned};
use crate::transition::{size_expected, size_noted, transition_ended};

verus! {

/// Whether these replies are such as a host can give that does as it is told,
/// one after the other, from a turn on whose effects it has carried out.
pub open spec fn hosted(t: Turned, w: Screen, replies: Seq<Reply>) -> bool
    decreases replies.len(),
{
    replies.len() > 0 ==> match t.next {
        Next::Ask(request) => {
            let u = follow_up(t.model, replies[0]);
            &&& t.model.expects(replies[0])
            &&& plausible(w, request, replies[0])
            &&& hosted(u, done(called(w, request, replies[0]), u.effects), replies.drop_first())
        },
        Next::Return(_) => false,
    }
}

/// The screen once the host has made all these calls.
pub open spec fn screen_run(t: Turned, w: Screen, replies: Seq<Reply>) -> Screen
    decreases replies.len(),
{
    if replies.len() == 0 {
        w
    } else {
        match t.next {
            Next::Ask(request) => {
                let u = follow_up(t.model, replies[0]);
                screen_run(
                    u,
                    done(called(w, request, replies[0]), u.effects),
                    replies.drop_first(),
                )
            },
            Next::Return(_) => w,
        }
    }
}

/// State and screen agree; the definition is [`mirrors`], kept folded.
#[verifier::opaque]
pub open spec fn in_step(m: Model, w: Screen) -> bool {
    mirrors(m, w)
}

proof fn lemma_follow_up(t: Turned, w: Screen, reply: Reply)
    requires
        sound(t.model),
        coherent(t),
        t.model.reg.live.len() < usize::MAX,
        in_step(t.model, w),
        t.next is Ask,
        t.model.expects(reply),
        plausible(w, t.next->Ask_0, reply),
    ensures
        ({
            let u = follow_up(t.model, reply);
            &&& in_step(u.model, done(called(w, t.next->Ask_0, reply), u.effects))
            &&& sound(u.model)
            &&& coherent(u)
            &&& t.model.stage is AllocAttach ==> u.next is Return
            &&& !(t.model.stage is AllocAttach) ==> u.model.reg.live == t.model.reg.live
        }),
{
    let m = t.model;
    assert(t.next->Ask_0 == m.request()) by {
        reveal(coherent);
    }
    lemma_step_follow_up(m, w, reply);
}

proof fn lemma_step_follow_up(m: Model, w: Screen, reply: Reply)
    requires
        sound(m),
        m.reg.live.len() < usize::MAX,
        in_step(m, w),
        m.expects(reply),
        plausible(w, m.request(), reply),
    ensures
        ({
            let u = follow_up(m, reply);
            &&& in_step(u.model, done(called(w, m.request(), reply), u.effects))
            &&& sound(u.model)
            &&& coherent(u)
            &&& m.stage is AllocAttach ==> u.next is Return
            &&& !(m.stage is AllocAttach) ==> u.model.reg.live == m.reg.live
        }),
{
    let u = follow_up(m, reply);
    assert(u == step(m, reply)) by {
        reveal(follow_up);
    }
    assert(in_step(u.model, done(called(w, m.request(), reply), u.effects))) by {
        reveal(in_step);
        lemma_step_mirrors(m, w, reply);
    }
    lemma_step_sound(m, reply);
    lemma_step_coherent(m, reply);
    if m.stage is AllocAttach {
        assert(u.next is Return) by {
            reveal(coherent);
        }
    } else {
        lemma_step_keeps_surfaces(m, reply);
        assert(u.model.reg.live == m.reg.live) by {
            reveal(same_surfaces);
        }
    }
}

/// State and screen agree at every point of an operation, whatever the host
/// replies.
pub proof fn lemma_run_in_step(t: Turned, w: Screen, replies: Seq<Reply>)
    requires
        sound(t.model),
        coherent(t),
        t.model.reg.live.len() < usize::MAX,
        in_step(t.model, w),
        hosted(t, w, replies),
    ensures
        in_step(run(t, replies).model, screen_run(t, w, replies)),
        sound(run(t, replies).model),
        coherent(run(t, replies)),
        conversation(t, replies),
    decreases replies.len(),
{
    if replies.len() > 0 {
        let reply = replies[0];
        let rest = replies.drop_first();
        let u = follow_up(t.model, reply);
        let v = done(called(w, t.next->Ask_0, reply), u.effects);
        lemma_follow_up(t, w, reply);
        if t.model.stage is AllocAttach {
            assert(hosted(u, v, rest));
            assert(rest.len() == 0);
            assert(run(u, rest) == u);
            assert(screen_run(u, v, rest) == v);
            assert(conversation(u, rest));
        } else {
            lemma_run_in_step(u, v, rest);
        }
    }
}

/// State and screen after a row of operations, each with the replies it gets.
pub open spec fn lived(m: Model, w: Screen, ops: Seq<(Operation, Seq<Reply>)>) -> (Model, Screen)
    decreases ops.len(),
{
    if ops.len() == 0 {
        (m, w)
    } else {
        let (n, v) = lived(m, w, ops.drop_last());
        let t = begin(n, ops.last().0);
        (
            run(t, ops.last().1).model,
            screen_run(t, done(v, t.effects), ops.last().1),
        )
    }
}

/// Whether such a row can come about: each operation can be asked for when it
/// comes, the host replies as a host can, and each operation comes to its end.
pub open spec fn livable(m: Model, w: Screen, ops: Seq<(Operation, Seq<Reply>)>) -> bool
    decreases ops.len(),
{
    ops.len() > 0 ==> {
        let (n, v) = lived(m, w, ops.drop_last());
        let t = begin(n, ops.last().0);
        &&& livable(m, w, ops.drop_last())
        &&& admissible(n, ops.last().0)
        &&& n.reg.live.len() < usize::MAX
        &&& hosted(t, done(v, t.effects), ops.last().1)
        &&& run(t, ops.last().1).next is Return
    }
}

proof fn lemma_begin_live(m: Model, op: Operation)
    requires
        sound(m),
        admissible(m, op),
        m.reg.live.len() < usize::MAX,
    ensures
        begin(m, op).model.reg.live.len() < usize::MAX,
{
    if op is Free {
        m.reg.live.lemma_filter_len(other_than(op->Free_surface));
    } else if op is Cleanup {
    } else {
        lemma_begin_keeps_surfaces(m, op);
    }
}

proof fn lemma_begin_in_step(m: Model, w: Screen, op: Operation)
    requires
        sound(m),
        in_step(m, w),
        admissible(m, op),
        m.reg.live.len() < usize::MAX,
    ensures
        in_step(begin(m, op).model, done(w, begin(m, op).effects)),
        sound(begin(m, op).model),
        coherent(begin(m, op)),
        begin(m, op).model.reg.live.len() < usize::MAX,
{
    assert(in_step(begin(m, op).model, done(w, begin(m, op).effects))) by {
        reveal(in_step);
        lemma_begin_mirrors(m, w, op);
    }
    lemma_begin_sound(m, op);
    lemma_begin_coherent(m, op);
    lemma_begin_live(m, op);
}

/// From the very beginning on, whatever is asked of the compositor and whatever
/// the host replies, the screen shows what the state says: every visual has the
/// swap chain of its slot and no other, in the size that is noted; nothing else
/// shows anything; popups are nested in their surfaces; and under the root hang
/// the surfaces that are in the tree, in the order of the stack.
pub proof fn lemma_history(w: Screen, ops: Seq<(Operation, Seq<Reply>)>)
    requires
        blank(w),
        livable(Model::initial(), w, ops),
    ensures
        ({
            let (n, v) = lived(Model::initial(), w, ops);
            in_step(n, v) && sound(n) && n.idle()
        }),
    decreases ops.len(),
{
    let m = Model::initial();
    if ops.len() > 0 {
        lemma_history(w, ops.drop_last());
        let (n, v) = lived(m, w, ops.drop_last());
        let (op, replies) = ops.last();
        let t = begin(n, op);
        lemma_begin_in_step(n, v, op);
        lemma_run_in_step(t, done(v, t.effects), replies);
        assert(run(t, replies).model.idle()) by {
            reveal(coherent);
        }
    } else {
        assert(in_step(m, w)) by {
            reveal(in_step);
            lemma_blank_mirrors(w);
        }
    }
}

/// Between two operations, for every surface and both of its pictures: the
/// visual shows the swap chain of its slot, nothing if it has none, and the
/// buffers of the swap chain have the size that is noted.
pub proof fn lemma_pictures(
    w: Screen,
    ops: Seq<(Operation, Seq<Reply>)>,
    id: SurfaceId,
    slot: Slot,
)
    requires
        blank(w),
        livable(Model::initial(), w, ops),
    ensures
        ({
            let (n, v) = lived(Model::initial(), w, ops);
            visual_at(n.reg, id, slot) matches Some(visual) ==> v.content[visual] == chain_at(
                n.reg,
                id,
                slot,
            ) && (chain_at(n.reg, id, slot) matches Some(chain) ==> v.sizes[chain] == (
                size_at(n.reg, id, slot).0 as u32,
                size_at(n.reg, id, slot).1 as u32,
            ))
        }),
{
    lemma_history(w, ops);
    reveal(in_step);
    let (n, v) = lived(Model::initial(), w, ops);
    assert(visual_at(n.reg, id, slot) is Some ==> n.devices is Some);
}

/// A frame that was presented is what is seen: its texture holds the frame, a
/// shared texture opened for it or one filled with its pixels; that texture is
/// in front in the swap chain of its slot, which has the size of the texture and
/// is what the visual of the slot shows; and the slot is visible. This is what a
/// frame that was taken comes to, unless the device was lost.
pub proof fn lemma_presented_frames_are_seen(
    m: Model,
    w: Screen,
    paint: Paint,
    texture: Handle,
    buffer: Handle,
    code: i32,
)
    requires
        sound(m),
        mirrors(m, w),
        m.stage == (Stage::Show { paint, texture, buffer }),
        code >= 0,
    ensures
        ({
            let t = step(m, Reply::Status(code));
            let v = screen_after(m, w, Reply::Status(code));
            let chain = chain_at(m.reg, paint.surface, paint.slot)->0;
            let visual = visual_at(m.reg, paint.surface, paint.slot)->0;
            &&& m.request() == (Request::Present { chain, sync_interval: 0, flags: 0 })
            &&& visible_at(m.reg, paint.surface, paint.slot)
            &&& v.made[buffer] == (Request::GetBuffer { chain, index: 0 })
            &&& v.copied[buffer] == texture && v.awaited
            &&& v.front[chain] == texture
            &&& holds_frame(v, m.devices->0, paint.source, texture)
            &&& v.content[visual] == Some(chain)
            &&& v.sizes[texture].0 as i32 > 0 && v.sizes[texture].1 as i32 > 0 ==> v.sizes[chain]
                == v.sizes[texture]
            &&& t.effects == seq![Effect::Commit { device: m.devices->0.dcomp_device }]
        }),
{
    let commit = Effect::Commit { device: m.devices->0.dcomp_device };
    let v = called(w, m.request(), Reply::Status(code));
    assert(seq![commit].drop_last() =~= Seq::empty());
    assert(done(v, seq![commit].drop_last()) == v);
    assert(screen_after(m, w, Reply::Status(code)) == v);
    assert(m.reg.has(paint.surface));
    assert(m.surface(paint.surface).wf());
    assert(visual_at(m.reg, paint.surface, paint.slot) is Some);
}

/// The texture that a frame under way has come to.
pub open spec fn texture_of(stage: Stage) -> Option<Handle> {
    match stage {
        Stage::Measure { texture, .. } => Some(texture),
        Stage::Judge { opened, .. } => opened,
        Stage::FitResize(f) | Stage::FitCheck(f) | Stage::FitCreate(f) => match f.purpose {
            FitFor::Present { texture, .. } => Some(texture),
            FitFor::Resize => None,
        },
        Stage::Buffer { texture, .. } => Some(texture),
        Stage::Show { texture, .. } => Some(texture),
        _ => None,
    }
}

/// What one call may change of a frame under way: nothing of the frame, and its
/// texture only where it had none.
pub open spec fn same_frame(m: Model, n: Model, reply: Reply) -> bool {
    &&& frame_of(n.stage) is Some ==> frame_of(n.stage) == frame_of(m.stage)
    &&& texture_of(m.stage) is Some && texture_of(n.stage) is Some ==> texture_of(n.stage)
        == texture_of(m.stage)
    &&& texture_of(m.stage) is None && texture_of(n.stage) is Some ==> reply == Reply::Object(
        texture_of(n.stage)->0,
    )
}

proof fn lemma_fit_keeps_frame(m: Model, reply: Reply)
    requires
        m.wf(),
        m.expects(reply),
        m.stage is FitResize || m.stage is FitCheck || m.stage is FitCreate,
        frame_of(m.stage) is Some,
    ensures
        same_frame(m, step(m, reply).model, reply),
{
}

proof fn lemma_paint_keeps_frame(m: Model, reply: Reply)
    requires
        m.wf(),
        m.expects(reply),
        m.stage is Measure || m.stage is Judge || m.stage is Upload,
    ensures
        same_frame(m, step(m, reply).model, reply),
{
}

/// A frame under way stays the frame it is: the surface and the slot it is for,
/// where it comes from, and the texture it has come to, never change from one
/// call to the next.
pub proof fn lemma_frames_stay_themselves(m: Model, reply: Reply)
    requires
        m.wf(),
        m.expects(reply),
        frame_of(m.stage) is Some,
    ensures
        same_frame(m, step(m, reply).model, reply),
{
    if m.stage is FitResize || m.stage is FitCheck || m.stage is FitCreate {
        lemma_fit_keeps_frame(m, reply);
    } else if m.stage is Measure || m.stage is Judge || m.stage is Upload {
        lemma_paint_keeps_frame(m, reply);
    }
}

/// What is to follow a rebuild does not change on the way.
pub proof fn lemma_rebuilds_lead_on(m: Model, reply: Reply)
    requires
        m.wf(),
        m.expects(reply),
        after_of(m.stage) is Some,
    ensures
        ({
            let t = step(m, reply);
            &&& after_of(t.model.stage) is Some ==> after_of(t.model.stage) == after_of(m.stage)
            &&& frame_of(t.model.stage) is Some ==> after_of(m.stage) == Some(
                After::Paint(frame_of(t.model.stage)->0),
            )
            &&& after_of(t.model.stage) is None && after_of(m.stage)->0 is Finish ==> t.next
                == Next::Return(after_of(m.stage)->0->Finish_0)
        }),
{
}

proof fn lemma_rebuild_step_gate(m: Model, reply: Reply)
    requires
        m.expects(reply),
        m.stage is RebuildInit || m.stage is RebuildVisual || m.stage is RebuildPopup
            || m.stage is Attach,
    ensures
        step(m, reply).model.gate == m.gate,
        step(m, reply).model.mpv_pw == m.mpv_pw,
        step(m, reply).model.mpv_ph == m.mpv_ph,
{
}

proof fn lemma_frame_step_gate(m: Model, reply: Reply)
    requires
        m.expects(reply),
        m.stage is Measure || m.stage is Judge || m.stage is Upload || m.stage is FitResize
            || m.stage is FitCheck || m.stage is FitCreate,
    ensures
        reply != Reply::Decision(PresentDecision::EndTransitionThenPresent) ==> step(
            m,
            reply,
        ).model.gate == m.gate,
        step(m, reply).model.mpv_pw == m.mpv_pw,
        step(m, reply).model.mpv_ph == m.mpv_ph,
{
}

/// No reply but the decision that a frame ends the transition changes the
/// transition gate, and none changes the size of the window.
pub proof fn lemma_replies_keep_the_transition(m: Model, reply: Reply)
    requires
        m.expects(reply),
    ensures
        reply != Reply::Decision(PresentDecision::EndTransitionThenPresent) ==> step(
            m,
            reply,
        ).model.gate == m.gate,
        step(m, reply).model.mpv_pw == m.mpv_pw,
        step(m, reply).model.mpv_ph == m.mpv_ph,
{
    if m.stage is RebuildInit || m.stage is RebuildVisual || m.stage is RebuildPopup
        || m.stage is Attach {
        lemma_rebuild_step_gate(m, reply);
    } else if m.stage is Measure || m.stage is Judge || m.stage is Upload || m.stage is FitResize
        || m.stage is FitCheck || m.stage is FitCreate {
        lemma_frame_step_gate(m, reply);
    }
}

/// No operation but the one that begins a transition changes the transition
/// gate, and that one only where none is going on.
pub proof fn lemma_operations_keep_the_transition(m: Model, op: Operation)
    ensures
        !(op is BeginTransition) || m.gate.transitioning ==> begin(m, op).model.gate == m.gate,
        begin(m, op).model.mpv_pw == m.mpv_pw,
        begin(m, op).model.mpv_ph == m.mpv_ph,
{
}

/// Whether no frame ends the transition.
pub open spec fn quiet(replies: Seq<Reply>) -> bool {
    forall|i: int|
        0 <= i < replies.len() ==> #[trigger] replies[i] != Reply::Decision(
            PresentDecision::EndTransitionThenPresent,
        )
}

proof fn lemma_run_gate(t: Turned, replies: Seq<Reply>)
    requires
        coherent(t),
        conversation(t, replies),
        quiet(replies),
    ensures
        coherent(run(t, replies)),
        run(t, replies).model.gate == t.model.gate,
    decreases replies.len(),
{
    if replies.len() > 0 {
        let u = follow_up(t.model, replies[0]);
        assert(coherent(u) && u.model.gate == t.model.gate) by {
            reveal(follow_up);
            lemma_step_coherent(t.model, replies[0]);
            lemma_replies_keep_the_transition(t.model, replies[0]);
        }
        assert(quiet(replies.drop_first())) by {
            assert forall|i: int| 0 <= i < replies.drop_first().len() implies #[trigger]
                replies.drop_first()[i] != Reply::Decision(
                PresentDecision::EndTransitionThenPresent,
            ) by {
                assert(replies.drop_first()[i] == replies[i + 1]);
            }
        }
        lemma_run_gate(u, replies.drop_first());
    }
}

proof fn lemma_performed_gate(m: Model, ops: Seq<(Operation, Seq<Reply>)>)
    requires
        m.idle(),
        m.gate.transitioning,
        carried_out(m, ops),
        forall|i: int| 0 <= i < ops.len() ==> quiet((#[trigger] ops[i]).1),
    ensures
        performed(m, ops).gate == m.gate,
        performed(m, ops).idle(),
    decreases ops.len(),
{
    if ops.len() > 0 {
        let front = ops.drop_last();
        assert(forall|i: int| 0 <= i < front.len() ==> #[trigger] front[i] == ops[i]);
        lemma_performed_gate(m, front);
        let n = performed(m, front);
        let (op, replies) = ops.last();
        assert(quiet(ops[ops.len() - 1].1));
        lemma_operations_keep_the_transition(n, op);
        lemma_begin_coherent(n, op);
        lemma_run_gate(begin(n, op), replies);
        assert(run(begin(n, op), replies).model.idle()) by {
            reveal(coherent);
        }
    }
}

/// Once a transition has begun, and until a frame or the window ends it, every
/// frame of the main surface is judged as one that comes during a transition
/// that began at the size that the window had then, whatever else is done and
/// whatever the host replies.
pub proof fn lemma_frames_are_judged_in_transition(
    m: Model,
    ops: Seq<(Operation, Seq<Reply>)>,
    op: Operation,
    replies: Seq<Reply>,
)
    requires
        m.idle(),
        !m.gate.transitioning,
        carried_out(begin(m, Operation::BeginTransition).model, ops),
        forall|i: int| 0 <= i < ops.len() ==> quiet((#[trigger] ops[i]).1),
        conversation(
            begin(performed(begin(m, Operation::BeginTransition).model, ops), op),
            replies,
        ),
        quiet(replies),
    ensures
        ({
            let n = performed(begin(m, Operation::BeginTransition).model, ops);
            let t = run(begin(n, op), replies);
            t.next matches Next::Ask(request) ==> match request {
                Request::JudgeMainFrame { gate, .. } => gate == (TransitionGate {
                    transitioning: true,
                    captured: (m.mpv_pw, m.mpv_ph),
                    expected: m.gate.expected,
                }),
                _ => true,
            }
        }),
{
    let b = begin(m, Operation::BeginTransition).model;
    lemma_performed_gate(b, ops);
    let n = performed(b, ops);
    lemma_operations_keep_the_transition(n, op);
    lemma_begin_coherent(n, op);
    lemma_run_gate(begin(n, op), replies);
    reveal(coherent);
}

/// A frame is judged by the transition as it stands, at the size that was found
/// for it; and judging is asked for at no other time.
pub proof fn lemma_judged_requests(m: Model)
    ensures
        m.stage is Judge ==> m.request() == (Request::JudgeMainFrame {
            gate: TransitionGate {
                transitioning: m.gate.transitioning,
                captured: m.gate.captured,
                expected: m.gate.expected,
            },
            frame: (m.stage->Judge_width, m.stage->Judge_height),
        }),
        !(m.stage is Judge) && !m.idle() ==> !(m.request() is JudgeMainFrame),
{
}

/// A transition that is ended leaves nothing behind: not the size it began at,
/// nor the size that frames were expected in, nor the logical size noted
/// meanwhile. A report of the window size ends it exactly if the physical size
/// is another than the one it began at, or if it is forced to.
pub proof fn lemma_transition_ends(
    m: Model,
    lw: i32,
    lh: i32,
    pw: i32,
    ph: i32,
    force_end: bool,
)
    ensures
        ({
            let none = TransitionGate {
                transitioning: false,
                captured: (0, 0),
                expected: (0, 0),
            };
            let n = size_noted(m, lw, lh, pw, ph, force_end);
            &&& transition_ended(m) == (Model {
                gate: none,
                pending_lw: 0,
                pending_lh: 0,
                ..m
            })
            &&& n == (if !m.gate.transitioning {
                Model { mpv_pw: pw, mpv_ph: ph, ..m }
            } else if force_end || pw != m.gate.captured.0 || ph != m.gate.captured.1 {
                Model {
                    mpv_pw: pw,
                    mpv_ph: ph,
                    gate: none,
                    pending_lw: 0,
                    pending_lh: 0,
                    ..m
                }
            } else {
                Model { mpv_pw: pw, mpv_ph: ph, pending_lw: lw, pending_lh: lh, ..m }
            })
        }),
{
}

/// The size that frames are expected in is the one that was noted last, and what
/// the next frame of the main surface is judged by; nothing else changes.
pub proof fn lemma_expected_size(m: Model, w: i32, h: i32)
    ensures
        ({
            let n = size_expected(m, w, h);
            &&& n.gate.expected.0 == w && n.gate.expected.1 == h
            &&& n.gate.transitioning == m.gate.transitioning
            &&& n.gate.captured == m.gate.captured
            &&& n == (Model { gate: n.gate, ..m })
        }),
{
}

/// At first there is nothing: no devices and no window, no surface, no
/// transition and no size, and the first surface is to be number one.
pub proof fn lemma_beginning_of_all()
    ensures
        ({
            let m = Model::initial();
            &&& m.idle()
            &&& m.devices is None
            &&& m.hwnd == 0
            &&& m.reg.live.len() == 0 && m.reg.stack.len() == 0
            &&& forall|id: SurfaceId| !#[trigger] m.reg.has(id)
            &&& m.next_id == 1
            &&& m.gate == (TransitionGate {
                transitioning: false,
                captured: (0, 0),
                expected: (0, 0),
            })
            &&& (m.mpv_pw, m.mpv_ph, m.pending_lw, m.pending_lh) == (0i32, 0i32, 0i32, 0i32)
            &&& m.queue.len() == 0
        }),
{
}

} // verus!
