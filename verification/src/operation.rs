//! Operations from beginning to end.
//!
//! An [`Operation`] begins with a turn, and each reply leads to the next turn
//! until there is an answer. What is shown here holds whatever the host
//! replies.

use vstd::prelude::*;
use crate::devices::{init_next, init_rank, CompositorDevices, InitOutcome};
use crate::gate::decided;
use crate::lifecycle::{
    all_unhooked, allocated, allocating, cleaned, freed, initializing, made, probing, restacking,
    unhook_each,
};
use crate::paint::{
    dropped, gated, known, memory_frame, painted, painting, resized, shared_frame, showable,
    textured, uploading,
};
use crate::popup::{popup_hidden, popup_shown};
use crate::protocol::{Answer, Effect, Handle, Hwnd, Next, Reply, Slot, SurfaceId, NULL_SURFACE};
use crate::rebuild::{attachable, attaching, hooked, nest_popup, next_attachable, revisualing};
use crate::recovery::{all_detached, rebuild, recovered};
use crate::registry::{lemma_removed_wf, other_than};
use crate::resume::{object, step};
use crate::state::{source_ok, After, AttachFor, Fit, FitFor, Model, Paint, Source, Stage, Turned};
use crate::surface::Surface;
use crate::swap_chain::{fit, fit_ready, fitted, paint_answer};
use crate::transition::{blanked, transition_begun, visibility_set};

verus! {

/// What can be asked of the compositor.
pub enum Operation {
    Init { hwnd: Hwnd },
    Cleanup,
    Rebind { hwnd: Hwnd },
    Probe,
    Alloc,
    Free { surface: SurfaceId },
    Restack { ordered: Seq<SurfaceId> },
    Present { surface: SurfaceId, slot: Slot, info: Option<u64> },
    PresentSoftware { surface: SurfaceId, slot: Slot, buffer: u64, width: i32, height: i32 },
    Resize { surface: SurfaceId, width: i32, height: i32 },
    SetVisible { surface: SurfaceId, visible: bool },
    BeginTransition,
    PopupShow { surface: SurfaceId, x: i32, y: i32 },
    PopupHide { surface: SurfaceId },
}

/// The first turn of an operation.
pub open spec fn begin(m: Model, op: Operation) -> Turned {
    match op {
        Operation::Init { hwnd } => initializing(m, hwnd),
        Operation::Cleanup => cleaned(m),
        Operation::Rebind { hwnd } => rebuild(m, hwnd, seq![], After::Finish(Answer::Unit)),
        Operation::Probe => probing(m),
        Operation::Alloc => allocating(m),
        Operation::Free { surface } => freed(m, surface),
        Operation::Restack { ordered } => restacking(m, ordered),
        Operation::Present { surface, slot, info } => shared_frame(m, surface, slot, info),
        Operation::PresentSoftware { surface, slot, buffer, width, height } => memory_frame(
            m,
            surface,
            slot,
            buffer,
            width,
            height,
        ),
        Operation::Resize { surface, width, height } => resized(m, surface, width, height),
        Operation::SetVisible { surface, visible } => visibility_set(m, surface, visible),
        Operation::BeginTransition => transition_begun(m),
        Operation::PopupShow { surface, x, y } => popup_shown(m, surface, x, y),
        Operation::PopupHide { surface } => popup_hidden(m, surface),
    }
}

/// When an operation can be asked for: no other is under way, its surfaces are
/// null or live, and there is a name left for a new one.
pub open spec fn admissible(m: Model, op: Operation) -> bool {
    &&& m.idle()
    &&& match op {
        Operation::Alloc => m.next_id < u64::MAX,
        Operation::Free { surface } => known(m, surface),
        Operation::Restack { ordered } => ordered.len() <= usize::MAX && forall|i: int|
            0 <= i < ordered.len() ==> known(m, #[trigger] ordered[i]),
        Operation::Present { surface, .. } => known(m, surface),
        Operation::PresentSoftware { surface, .. } => known(m, surface),
        Operation::Resize { surface, .. } => known(m, surface),
        Operation::SetVisible { surface, .. } => known(m, surface),
        Operation::PopupShow { surface, .. } => known(m, surface),
        Operation::PopupHide { surface } => known(m, surface),
        _ => true,
    }
}

/// The lists of the state fit into memory.
pub open spec fn sized(m: Model) -> bool {
    &&& m.reg.live.len() <= usize::MAX
    &&& m.reg.stack.len() <= usize::MAX
    &&& m.queue.len() <= usize::MAX
}

/// A state that is in order.
pub open spec fn sound(m: Model) -> bool {
    m.wf() && sized(m)
}

proof fn lemma_next_attachable_range(
    order: Seq<SurfaceId>,
    surfaces: Map<SurfaceId, Surface>,
    from: int,
)
    requires
        0 <= from <= order.len(),
    ensures
        ({
            let i = next_attachable(order, surfaces, from);
            &&& from <= i <= order.len()
            &&& i < order.len() ==> attachable(surfaces, order[i])
            &&& forall|k: int| from <= k < i ==> !attachable(surfaces, #[trigger] order[k])
        }),
    decreases order.len() - from,
{
    if from < order.len() && !attachable(surfaces, order[from]) {
        lemma_next_attachable_range(order, surfaces, from + 1);
    }
}

proof fn lemma_put_core_wf(m: Model, id: SurfaceId, s: Surface)
    requires
        m.core_wf(),
        m.reg.has(id),
        s.wf(),
    ensures
        m.put(id, s).core_wf(),
{
    let n = m.put(id, s);
    assert(forall|x: SurfaceId| #[trigger] n.reg.has(x) <==> m.reg.has(x));
}

proof fn lemma_attaching_sound(
    m: Model,
    fx: Seq<Effect>,
    purpose: AttachFor,
    from: int,
    above: Option<Handle>,
)
    requires
        m.core_wf(),
        sized(m),
        match purpose {
            AttachFor::Restack => m.devices is Some,
            AttachFor::Rebuild { after, .. } => m.devices is None && m.after_ok(after),
        },
        m.reg.stack.len() <= from <= m.queue.len(),
    ensures
        sound(attaching(m, fx, purpose, from, above).model),
{
    lemma_next_attachable_range(m.queue, m.reg.surfaces, from);
    let t = attaching(m, fx, purpose, from, above);
    assert(t.model.reg == m.reg);
}

proof fn lemma_revisualing_sound(
    m: Model,
    fx: Seq<Effect>,
    devices: CompositorDevices,
    after: After,
    index: int,
)
    requires
        m.core_wf(),
        sized(m),
        m.devices is None,
        m.after_ok(after),
        0 <= index <= m.reg.live.len(),
    ensures
        sound(revisualing(m, fx, devices, after, index).model),
{
    let n = Model { reg: m.reg.unstacked(), ..m };
    assert(forall|x: SurfaceId| #[trigger] n.reg.has(x) <==> m.reg.has(x));
    if index >= m.reg.live.len() {
        lemma_attaching_sound(n, fx, AttachFor::Rebuild { devices, after }, 0, None);
    }
}

proof fn lemma_rebuild_sound(m: Model, hwnd: Hwnd, fx: Seq<Effect>, after: After)
    requires
        m.core_wf(),
        sized(m),
        m.after_ok(after),
    ensures
        sound(rebuild(m, hwnd, fx, after).model),
{
    let t = rebuild(m, hwnd, fx, after);
    let reg = all_detached(m.reg);
    assert(forall|x: SurfaceId| #[trigger] reg.has(x) <==> m.reg.has(x));
    assert(t.model.reg == reg);
    assert forall|id: SurfaceId| #[trigger]
        reg.surfaces.contains_key(id) implies reg.surfaces[id].wf() by {
        assert(m.reg.surfaces.contains_key(id));
    }
    assert(reg.wf());
}

proof fn lemma_fit_sound(m: Model, fx: Seq<Effect>, f: Fit)
    requires
        fit_ready(m, f),
        sized(m),
    ensures
        sound(fit(m, fx, f).model),
        sound(fitted(m, fx, f).model),
{
    assert(fit(m, fx, f).model.reg == m.reg);
    assert(fitted(m, fx, f).model.reg == m.reg);
}

proof fn lemma_painted_sound(m: Model, fx: Seq<Effect>, paint: Paint)
    requires
        m.core_wf(),
        sized(m),
        m.queue.len() == 0,
        m.reg.has(paint.surface),
        source_ok(paint.source),
    ensures
        sound(painted(m, paint).model),
        sound(painting(m, fx, paint).model),
{
    lemma_rebuild_sound(m, m.hwnd, seq![], After::Paint(paint));
    assert(painting(m, fx, paint).model.reg == m.reg);
    assert(painting(m, seq![], paint).model.reg == m.reg);
}

proof fn lemma_textured_sound(m: Model, paint: Paint, texture: Handle, width: i32, height: i32)
    requires
        m.core_wf(),
        sized(m),
        m.queue.len() == 0,
        m.devices is Some,
        m.reg.has(paint.surface),
        source_ok(paint.source),
    ensures
        sound(textured(m, paint, texture, width, height).model),
{
    if showable(m, paint) {
        lemma_fit_sound(
            m,
            seq![],
            Fit {
                surface: paint.surface,
                slot: paint.slot,
                width,
                height,
                purpose: FitFor::Present { source: paint.source, texture },
            },
        );
    }
}

proof fn lemma_rebuild_step_sound(m: Model, reply: Reply)
    requires
        sound(m),
        m.expects(reply),
        m.stage is RebuildInit || m.stage is RebuildVisual || m.stage is RebuildPopup
            || m.stage is Attach,
    ensures
        sound(step(m, reply).model),
{
    match m.stage {
        Stage::RebuildInit { progress, after } => {
            match init_next(progress, reply) {
                InitOutcome::Ready(devices) => {
                    lemma_revisualing_sound(m, seq![], devices, after, 0);
                },
                InitOutcome::Failed => {
                    let n = Model { queue: Seq::empty(), ..m };
                    match after {
                        After::Paint(paint) => {
                            lemma_painted_sound(n, seq![], paint);
                        },
                        After::Finish(answer) => {
                            assert(n.answers(seq![], answer).model.reg == m.reg);
                        },
                    }
                },
                _ => {},
            }
        },
        Stage::RebuildVisual { devices, after, index } => {
            lemma_revisualing_sound(m, seq![], devices, after, index + 1);
        },
        Stage::RebuildPopup { devices, after, index, visual } => {
            let popup = object(reply);
            let id = m.reg.live[index as int];
            assert(m.reg.live.contains(id));
            assert(m.reg.has(id));
            let s = m.surface(id).rebuilt(visual, popup);
            lemma_put_core_wf(m, id, s);
            lemma_revisualing_sound(
                m.put(id, s),
                nest_popup(visual, popup),
                devices,
                after,
                index + 1,
            );
        },
        Stage::Attach { purpose, index, above } => {
            let id = m.queue[index as int];
            let s = m.surface(id);
            assert(s.wf());
            if reply->Status_0 < 0 {
                lemma_attaching_sound(m, seq![], purpose, index + 1, above);
            } else {
                lemma_put_core_wf(m, id, hooked(s));
                let n = Model { reg: m.reg.put(id, hooked(s)).stacked(id), ..m };
                assert(forall|x: SurfaceId| #[trigger] n.reg.has(x) <==> m.reg.has(x));
                lemma_attaching_sound(n, seq![], purpose, index + 1, s.visual);
            }
        },
        _ => {},
    }
}

proof fn lemma_recovered_sound(m: Model, fx: Seq<Effect>, answer: Answer)
    requires
        m.core_wf(),
        sized(m),
        m.queue.len() == 0,
    ensures
        sound(recovered(m, fx, answer).model),
{
    lemma_rebuild_sound(m, m.hwnd, fx, After::Finish(answer));
    assert(m.answers(fx, answer).model.reg == m.reg);
}

proof fn lemma_fit_step_sound(m: Model, reply: Reply)
    requires
        sound(m),
        m.expects(reply),
        m.stage is FitResize || m.stage is FitCheck || m.stage is FitCreate,
    ensures
        sound(step(m, reply).model),
{
    match m.stage {
        Stage::FitResize(f) => {
            let s = m.surface(f.surface).with_size(f.slot, f.width, f.height);
            lemma_put_core_wf(m, f.surface, s);
            lemma_fit_sound(m.put(f.surface, s), seq![], f);
        },
        Stage::FitCheck(f) => {
            let s = m.surface(f.surface).with_chain(f.slot, None);
            let n = m.put(f.surface, s);
            lemma_put_core_wf(m, f.surface, s);
            let visual = m.surface(f.surface).visual_of(f.slot)->0;
            let emptied = seq![Effect::SetContent { visual, content: None }];
            let commit = Effect::Commit { device: m.devices->0.dcomp_device };
            lemma_recovered_sound(n, emptied.push(commit), Answer::Unit);
            lemma_recovered_sound(n, emptied, paint_answer(f.slot, false));
            assert(n.asks(emptied, Stage::FitCreate(f)).model.reg == n.reg);
        },
        Stage::FitCreate(f) => {
            match object(reply) {
                Some(chain) => {
                    let old_s = m.surface(f.surface);
                    let s = old_s.with_chain(f.slot, Some(chain)).with_size(
                        f.slot,
                        f.width,
                        f.height,
                    );
                    lemma_put_core_wf(m, f.surface, s);
                    let visual = old_s.visual_of(f.slot)->0;
                    lemma_fit_sound(
                        m.put(f.surface, s),
                        seq![Effect::SetContent { visual, content: Some(chain) }],
                        f,
                    );
                },
                None => {
                    lemma_fit_sound(m, seq![], f);
                },
            }
        },
        _ => {},
    }
}

proof fn lemma_frame_step_sound(m: Model, reply: Reply)
    requires
        sound(m),
        m.expects(reply),
        m.stage is Measure || m.stage is Judge || m.stage is Upload || m.stage is ShowCheck,
    ensures
        sound(step(m, reply).model),
{
    match m.stage {
        Stage::Measure { paint, texture } => {
            lemma_textured_sound(m, paint, texture, reply->width as i32, reply->height as i32);
            if gated(m, paint) {
                assert(step(m, reply).model.reg == m.reg);
            }
        },
        Stage::Judge { paint, opened, width, height } => {
            let decision = reply->Decision_0;
            let passed = Model { gate: decided(m.gate, decision), ..m };
            let settled = Model { pending_lw: 0, pending_lh: 0, ..passed };
            if paint.source is Shared {
                lemma_textured_sound(passed, paint, opened->0, width, height);
                lemma_textured_sound(settled, paint, opened->0, width, height);
            } else {
                assert(uploading(passed, seq![], paint).model.reg == m.reg);
            }
            assert(dropped(passed, seq![], paint.slot).model.reg == m.reg);
            assert(dropped(settled, seq![], paint.slot).model.reg == m.reg);
        },
        Stage::Upload(paint) => {
            if object(reply) is Some {
                lemma_textured_sound(
                    m,
                    paint,
                    object(reply)->0,
                    paint.source->width,
                    paint.source->height,
                );
            }
        },
        Stage::ShowCheck { paint, copied } => {
            let fx = if copied {
                seq![Effect::Commit { device: m.devices->0.dcomp_device }]
            } else {
                seq![]
            };
            lemma_recovered_sound(m, fx, paint_answer(paint.slot, true));
        },
        _ => {},
    }
}

proof fn lemma_allocated_sound(m: Model, visual: Handle, popup: Option<Handle>, code: i32)
    requires
        sound(m),
        m.stage == (Stage::AllocAttach { visual, popup }),
        m.reg.live.len() < usize::MAX,
    ensures
        sound(allocated(m, visual, popup, code).model),
{
    let t = allocated(m, visual, popup, code);
    let id = m.next_id;
    let s = made(visual, popup, code >= 0);
    let reg = m.reg.added(id, s);
    assert(!m.reg.has(id));
    assert(t.model.reg == reg);
    assert forall|x: SurfaceId| #[trigger] reg.surfaces.contains_key(x) <==> reg.live.contains(
        x,
    ) by {
        assert(m.reg.surfaces.contains_key(x) <==> m.reg.live.contains(x));
        if m.reg.live.contains(x) {
            let k = choose|k: int| 0 <= k < m.reg.live.len() && m.reg.live[k] == x;
            assert(reg.live[k] == x);
        }
        assert(reg.live[m.reg.live.len() as int] == id);
    }
    assert forall|i: int, j: int|
        0 <= i < reg.live.len() && 0 <= j < reg.live.len() && i != j implies reg.live[i]
        != reg.live[j] by {
        assert(m.reg.surfaces.contains_key(id) <==> m.reg.live.contains(id));
        if i < m.reg.live.len() {
            assert(m.reg.live.contains(m.reg.live[i]));
        }
        if j < m.reg.live.len() {
            assert(m.reg.live.contains(m.reg.live[j]));
        }
    }
    assert(forall|x: SurfaceId| #[trigger] reg.has(x) <==> m.reg.has(x) || x == id);
}

/// Every step leaves the state in order.
#[verifier::rlimit(30)]
pub proof fn lemma_step_sound(m: Model, reply: Reply)
    requires
        sound(m),
        m.expects(reply),
        m.stage is AllocAttach ==> m.reg.live.len() < usize::MAX,
    ensures
        sound(step(m, reply).model),
{
    match m.stage {
        Stage::RebuildInit { .. } | Stage::RebuildVisual { .. } | Stage::RebuildPopup { .. }
        | Stage::Attach { .. } => {
            lemma_rebuild_step_sound(m, reply);
        },
        Stage::FitResize(_) | Stage::FitCheck(_) | Stage::FitCreate(_) => {
            lemma_fit_step_sound(m, reply);
        },
        Stage::Measure { .. } | Stage::Judge { .. } | Stage::Upload(_)
        | Stage::ShowCheck { .. } => {
            lemma_frame_step_sound(m, reply);
        },
        Stage::AllocAttach { visual, popup } => {
            lemma_allocated_sound(m, visual, popup, reply->Status_0);
        },
        _ => {
            assert(step(m, reply).model.reg == m.reg);
        },
    }
}

proof fn lemma_restacking_sound(m: Model, ordered: Seq<SurfaceId>)
    requires
        sound(m),
        admissible(m, Operation::Restack { ordered }),
    ensures
        sound(restacking(m, ordered).model),
{
    if let Some(d) = m.devices {
        let reg = all_unhooked(m.reg).unstacked();
        let n = Model { reg, queue: ordered, ..m };
        assert(forall|x: SurfaceId| #[trigger] reg.has(x) <==> m.reg.has(x));
        assert forall|id: SurfaceId| #[trigger]
            reg.surfaces.contains_key(id) implies reg.surfaces[id].wf() by {
            assert(m.reg.surfaces.contains_key(id));
        }
        assert forall|i: int| 0 <= i < n.queue.len() implies #[trigger] n.queue[i]
            == NULL_SURFACE || n.reg.has(n.queue[i]) by {
            assert(known(m, ordered[i]));
        }
        lemma_attaching_sound(
            n,
            unhook_each(m.reg.live, m.reg.surfaces, d.dcomp_root),
            AttachFor::Restack,
            0,
            None,
        );
    } else {
        assert(restacking(m, ordered).model.reg == m.reg);
    }
}

proof fn lemma_freed_sound(m: Model, s: SurfaceId)
    requires
        sound(m),
        m.idle(),
        known(m, s),
    ensures
        sound(freed(m, s).model),
{
    let t = freed(m, s);
    if s == NULL_SURFACE {
        assert(t.model.reg == m.reg);
    } else {
        lemma_removed_wf(m.reg, s);
        m.reg.live.lemma_filter_len(other_than(s));
        m.reg.stack.lemma_filter_len(other_than(s));
        assert(t.model.reg == m.reg.removed(s));
        assert(forall|x: SurfaceId| #[trigger] t.model.reg.has(x) ==> m.reg.has(x));
    }
}

proof fn lemma_changed_sound(m: Model, id: SurfaceId, s: Surface, fx: Seq<Effect>)
    requires
        sound(m),
        m.idle(),
        m.reg.has(id),
        s.wf(),
    ensures
        sound(m.put(id, s).answers(fx, Answer::Unit).model),
{
    lemma_put_core_wf(m, id, s);
    assert(m.put(id, s).answers(fx, Answer::Unit).model.reg == m.put(id, s).reg);
}

proof fn lemma_frame_begin_sound(m: Model, op: Operation)
    requires
        sound(m),
        admissible(m, op),
        op is Present || op is PresentSoftware || op is Resize,
    ensures
        sound(begin(m, op).model),
{
    match op {
        Operation::Present { surface, slot, info } => {
            if surface != NULL_SURFACE && info is Some && info != Some(0u64) {
                lemma_painted_sound(
                    m,
                    seq![],
                    Paint { surface, slot, source: Source::Shared { shared_texture: info->0 } },
                );
            } else {
                assert(begin(m, op).model.reg == m.reg);
            }
        },
        Operation::PresentSoftware { surface, slot, buffer, width, height } => {
            if surface != NULL_SURFACE && buffer != 0 && width > 0 && height > 0 {
                lemma_painted_sound(
                    m,
                    seq![],
                    Paint {
                        surface,
                        slot,
                        source: Source::Software { address: buffer, width, height },
                    },
                );
            } else {
                assert(begin(m, op).model.reg == m.reg);
            }
        },
        Operation::Resize { surface, width, height } => {
            let f = Fit {
                surface,
                slot: Slot::Main,
                width,
                height,
                purpose: FitFor::Resize,
            };
            if surface != NULL_SURFACE && width > 0 && height > 0 && m.devices is Some && m.surface(
                surface,
            ).swap_chain is Some && m.surface(surface).visual is Some {
                lemma_fit_sound(m, seq![], f);
            } else {
                assert(begin(m, op).model.reg == m.reg);
            }
        },
        _ => {},
    }
}

/// Every operation begins by leaving the state in order.
#[verifier::rlimit(30)]
pub proof fn lemma_begin_sound(m: Model, op: Operation)
    requires
        sound(m),
        admissible(m, op),
    ensures
        sound(begin(m, op).model),
{
    let t = begin(m, op);
    match op {
        Operation::Restack { ordered } => {
            lemma_restacking_sound(m, ordered);
        },
        Operation::Free { surface } => {
            lemma_freed_sound(m, surface);
        },
        Operation::Rebind { hwnd } => {
            lemma_rebuild_sound(m, hwnd, seq![], After::Finish(Answer::Unit));
        },
        Operation::Present { .. } | Operation::PresentSoftware { .. }
        | Operation::Resize { .. } => {
            lemma_frame_begin_sound(m, op);
        },
        Operation::SetVisible { surface, visible } => {
            if surface == NULL_SURFACE || m.devices is None || m.surface(surface).visible
                == visible {
                assert(t.model.reg == m.reg);
            } else {
                assert(m.reg.has(surface));
                lemma_changed_sound(m, surface, t.model.surface(surface), t.effects);
            }
        },
        Operation::BeginTransition => {
            match (m.reg.bottom(), m.devices) {
                (Some(p), Some(d)) => {
                    assert(m.reg.has(m.reg.stack[0]));
                    let s = blanked(m.surface(p));
                    assert(m.surface(p).wf());
                    lemma_put_core_wf(m, p, s);
                },
                _ => {},
            }
            assert(forall|x: SurfaceId| #[trigger] t.model.reg.has(x) <==> m.reg.has(x));
        },
        Operation::PopupShow { surface, .. } | Operation::PopupHide { surface } => {
            if surface == NULL_SURFACE {
                assert(t.model.reg == m.reg);
            } else {
                assert(m.reg.has(surface));
                assert(m.surface(surface).wf());
                lemma_changed_sound(m, surface, t.model.surface(surface), t.effects);
            }
        },
        _ => {},
    }
}

/// The turn that follows from a reply; the definition is [`step`], kept folded.
#[verifier::opaque]
pub open spec fn follow_up(m: Model, reply: Reply) -> Turned {
    step(m, reply)
}

/// Whether these replies answer the requests of a turn and those that follow
/// from it, one after the other.
pub open spec fn conversation(t: Turned, replies: Seq<Reply>) -> bool
    decreases replies.len(),
{
    replies.len() > 0 ==> {
        &&& t.next is Ask
        &&& t.model.expects(replies[0])
        &&& conversation(follow_up(t.model, replies[0]), replies.drop_first())
    }
}

/// The turn that the replies lead to.
pub open spec fn run(t: Turned, replies: Seq<Reply>) -> Turned
    decreases replies.len(),
{
    if replies.len() == 0 {
        t
    } else {
        run(follow_up(t.model, replies[0]), replies.drop_first())
    }
}

/// How many calls a frame can take that comes behind a rebuild, if one does.
pub open spec fn calls_behind(m: Model, after: After, stacked: int) -> int {
    match after {
        After::Finish(_) => 0,
        After::Paint(_) => 21 + 2 * m.reg.live.len() + stacked,
    }
}

/// How many calls a frame can take from a stage on, with the rebuild that a
/// lost device brings.
pub open spec fn frame_calls(m: Model, stages: int) -> int {
    stages + 12 + 2 * m.reg.live.len() + m.reg.stack.len()
}

/// The larger of two numbers.
pub open spec fn larger(a: int, b: int) -> int {
    if a < b {
        b
    } else {
        a
    }
}

/// An upper bound on the calls that the operation under way still makes.
pub open spec fn calls_left(m: Model) -> int {
    let live = m.reg.live.len();
    let queued = m.queue.len();
    let stacked = larger(queued as int, m.reg.stack.len() as int);
    match m.stage {
        Stage::Idle => 0,
        Stage::Init(p) => 11 - init_rank(p.step),
        Stage::Probe => 1,
        Stage::AllocVisual => 3,
        Stage::AllocPopup { .. } => 2,
        Stage::AllocAttach { .. } => 1,
        Stage::RebuildInit { progress, after } => 11 - init_rank(progress.step) + 2 * live + queued
            + calls_behind(m, after, stacked),
        Stage::RebuildVisual { after, index, .. } => 2 * (live - index) + queued + calls_behind(
            m,
            after,
            stacked,
        ),
        Stage::RebuildPopup { after, index, .. } => 2 * (live - index) - 1 + queued + calls_behind(
            m,
            after,
            stacked,
        ),
        Stage::Attach { purpose, index, .. } => queued - index + match purpose {
            AttachFor::Restack => 0,
            AttachFor::Rebuild { after, .. } => calls_behind(
                m,
                after,
                m.reg.stack.len() + queued - index,
            ),
        },
        Stage::Open(_) => frame_calls(m, 9),
        Stage::Measure { .. } => frame_calls(m, 8),
        Stage::Judge { .. } => frame_calls(m, 7),
        Stage::Upload(_) => frame_calls(m, 6),
        Stage::FitResize(_) => frame_calls(m, 5),
        Stage::FitCheck(_) => frame_calls(m, 4),
        Stage::FitCreate(_) => frame_calls(m, 3),
        Stage::Buffer { .. } => frame_calls(m, 2),
        Stage::Show { .. } => frame_calls(m, 1),
        Stage::ShowCheck { .. } => frame_calls(m, 0),
    }
}

proof fn lemma_attaching_calls(
    m: Model,
    fx: Seq<Effect>,
    purpose: AttachFor,
    from: int,
    above: Option<Handle>,
)
    requires
        sized(m),
        0 <= from <= m.queue.len(),
    ensures
        ({
            let n = attaching(m, fx, purpose, from, above).model;
            0 <= calls_left(n) <= m.queue.len() - from + match purpose {
                AttachFor::Restack => 0,
                AttachFor::Rebuild { after, .. } => calls_behind(
                    m,
                    after,
                    m.reg.stack.len() + m.queue.len() - from,
                ),
            }
        }),
{
    lemma_next_attachable_range(m.queue, m.reg.surfaces, from);
}

proof fn lemma_rebuild_step_calls(m: Model, reply: Reply)
    requires
        sound(m),
        m.expects(reply),
        m.stage is RebuildInit || m.stage is RebuildVisual || m.stage is RebuildPopup
            || m.stage is Attach,
    ensures
        0 <= calls_left(step(m, reply).model) < calls_left(m),
{
    match m.stage {
        Stage::RebuildInit { progress, after } => {
            match init_next(progress, reply) {
                InitOutcome::Ready(devices) => {
                    let n = Model { reg: m.reg.unstacked(), ..m };
                    let purpose = AttachFor::Rebuild { devices, after };
                    lemma_attaching_calls(n, seq![], purpose, 0, None);
                },
                _ => {},
            }
        },
        Stage::RebuildVisual { devices, after, index } => {
            let n = Model { reg: m.reg.unstacked(), ..m };
            lemma_attaching_calls(n, seq![], AttachFor::Rebuild { devices, after }, 0, None);
        },
        Stage::RebuildPopup { devices, after, index, visual } => {
            let popup = object(reply);
            let id = m.reg.live[index as int];
            let c = m.put(id, m.surface(id).rebuilt(visual, popup));
            let n = Model { reg: c.reg.unstacked(), ..c };
            lemma_attaching_calls(
                n,
                nest_popup(visual, popup),
                AttachFor::Rebuild { devices, after },
                0,
                None,
            );
        },
        Stage::Attach { purpose, index, above } => {
            let id = m.queue[index as int];
            let s = m.surface(id);
            if reply->Status_0 < 0 {
                lemma_attaching_calls(m, seq![], purpose, index + 1, above);
            } else {
                let n = Model { reg: m.reg.put(id, hooked(s)).stacked(id), ..m };
                lemma_attaching_calls(n, seq![], purpose, index + 1, s.visual);
            }
        },
        _ => {},
    }
}

/// Every reply brings an operation nearer to its end.
#[verifier::rlimit(30)]
pub proof fn lemma_step_calls(m: Model, reply: Reply)
    requires
        sound(m),
        m.expects(reply),
    ensures
        0 <= calls_left(step(m, reply).model) < calls_left(m),
{
    match m.stage {
        Stage::RebuildInit { .. } | Stage::RebuildVisual { .. } | Stage::RebuildPopup { .. }
        | Stage::Attach { .. } => {
            lemma_rebuild_step_calls(m, reply);
        },
        _ => {},
    }
}

/// What one reply may change: the names and flags of the surfaces stay as they
/// are, and so do the window and its size. Only a new surface adds to them.
#[verifier::opaque]
pub open spec fn same_surfaces(m: Model, n: Model) -> bool {
    &&& n.reg.live == m.reg.live
    &&& n.next_id == m.next_id
    &&& n.hwnd == m.hwnd
    &&& n.mpv_pw == m.mpv_pw
    &&& n.mpv_ph == m.mpv_ph
    &&& forall|id: SurfaceId| #[trigger] n.reg.has(id) <==> m.reg.has(id)
    &&& forall|id: SurfaceId| #[trigger]
        n.reg.has(id) ==> n.surface(id).visible == m.surface(id).visible && n.surface(
            id,
        ).popup_visible == m.surface(id).popup_visible
}

proof fn lemma_fit_step_same(m: Model, reply: Reply)
    requires
        sound(m),
        m.expects(reply),
        m.stage is FitResize || m.stage is FitCheck || m.stage is FitCreate,
    ensures
        same_surfaces(m, step(m, reply).model),
{
    reveal(same_surfaces);
}

proof fn lemma_rebuild_step_same(m: Model, reply: Reply)
    requires
        sound(m),
        m.expects(reply),
        m.stage is RebuildInit || m.stage is RebuildVisual || m.stage is RebuildPopup
            || m.stage is Attach,
    ensures
        same_surfaces(m, step(m, reply).model),
{
    reveal(same_surfaces);
    match m.stage {
        Stage::RebuildPopup { index, .. } => {
            assert(m.reg.live.contains(m.reg.live[index as int]));
        },
        _ => {},
    }
}

proof fn lemma_frame_step_same(m: Model, reply: Reply)
    requires
        sound(m),
        m.expects(reply),
        m.stage is Measure || m.stage is Judge || m.stage is Upload,
    ensures
        same_surfaces(m, step(m, reply).model),
{
    reveal(same_surfaces);
    assert(step(m, reply).model.reg == m.reg);
}

proof fn lemma_plain_step_same(m: Model, reply: Reply)
    requires
        sound(m),
        m.expects(reply),
        m.stage is Init || m.stage is Probe || m.stage is AllocVisual || m.stage is AllocPopup
            || m.stage is Open || m.stage is Buffer || m.stage is Show || m.stage is ShowCheck,
    ensures
        same_surfaces(m, step(m, reply).model),
{
    reveal(same_surfaces);
}

/// Surfaces keep their identity: no reply, whatever it brings with it, makes a
/// surface disappear, renames it, or shows or hides it. Recovery from a lost
/// device is no exception.
#[verifier::rlimit(30)]
pub proof fn lemma_step_keeps_surfaces(m: Model, reply: Reply)
    requires
        sound(m),
        m.expects(reply),
        !(m.stage is AllocAttach),
    ensures
        same_surfaces(m, step(m, reply).model),
{
    match m.stage {
        Stage::RebuildInit { .. } | Stage::RebuildVisual { .. } | Stage::RebuildPopup { .. }
        | Stage::Attach { .. } => {
            lemma_rebuild_step_same(m, reply);
        },
        Stage::FitResize(_) | Stage::FitCheck(_) | Stage::FitCreate(_) => {
            lemma_fit_step_same(m, reply);
        },
        Stage::Measure { .. } | Stage::Judge { .. } | Stage::Upload(_) => {
            lemma_frame_step_same(m, reply);
        },
        _ => {
            lemma_plain_step_same(m, reply);
        },
    }
}

/// Whether a surface is being made.
pub open spec fn making_surface(m: Model) -> bool {
    m.stage is AllocVisual || m.stage is AllocPopup || m.stage is AllocAttach
}

/// A turn asks what the state waits on, and answers only when the state waits
/// on nothing.
#[verifier::opaque]
pub open spec fn coherent(t: Turned) -> bool {
    match t.next {
        Next::Ask(request) => !t.model.idle() && request == t.model.request(),
        Next::Return(_) => t.model.idle(),
    }
}

broadcast proof fn lemma_asks_coherent(m: Model, fx: Seq<Effect>, stage: Stage)
    requires
        !(stage is Idle),
    ensures
        coherent(#[trigger] m.asks(fx, stage)),
{
    reveal(coherent);
}

broadcast proof fn lemma_answers_coherent(m: Model, fx: Seq<Effect>, answer: Answer)
    ensures
        coherent(#[trigger] m.answers(fx, answer)),
{
    reveal(coherent);
}

proof fn lemma_frame_step_coherent(m: Model, reply: Reply)
    requires
        m.expects(reply),
        m.stage is Open || m.stage is Measure || m.stage is Judge || m.stage is Upload
            || m.stage is FitResize || m.stage is FitCheck || m.stage is FitCreate,
    ensures
        coherent(step(m, reply)),
        !making_surface(step(m, reply).model),
{
    broadcast use {lemma_asks_coherent, lemma_answers_coherent};

}

proof fn lemma_rebuild_step_coherent(m: Model, reply: Reply)
    requires
        m.expects(reply),
        m.stage is RebuildInit || m.stage is RebuildVisual || m.stage is RebuildPopup
            || m.stage is Attach,
    ensures
        coherent(step(m, reply)),
        !making_surface(step(m, reply).model),
{
    broadcast use {lemma_asks_coherent, lemma_answers_coherent};

}

/// Whatever the reply, the turn that follows asks what the state waits on.
#[verifier::rlimit(30)]
pub proof fn lemma_step_coherent(m: Model, reply: Reply)
    requires
        m.expects(reply),
    ensures
        coherent(step(m, reply)),
        !making_surface(m) ==> !making_surface(step(m, reply).model),
        m.stage is AllocAttach ==> step(m, reply).model.idle(),
{
    match m.stage {
        Stage::RebuildInit { .. } | Stage::RebuildVisual { .. } | Stage::RebuildPopup { .. }
        | Stage::Attach { .. } => {
            lemma_rebuild_step_coherent(m, reply);
        },
        Stage::Open(_) | Stage::Measure { .. } | Stage::Judge { .. } | Stage::Upload(_)
        | Stage::FitResize(_) | Stage::FitCheck(_) | Stage::FitCreate(_) => {
            lemma_frame_step_coherent(m, reply);
        },
        _ => {
            broadcast use {lemma_asks_coherent, lemma_answers_coherent};

        },
    }
}

proof fn lemma_frame_begin_coherent(m: Model, op: Operation)
    requires
        op is Present || op is PresentSoftware || op is Resize,
    ensures
        coherent(begin(m, op)),
        !making_surface(begin(m, op).model),
{
    broadcast use {lemma_asks_coherent, lemma_answers_coherent};

}

proof fn lemma_flag_begin_coherent(m: Model, op: Operation)
    requires
        op is SetVisible || op is BeginTransition || op is PopupShow || op is PopupHide,
    ensures
        coherent(begin(m, op)),
        !making_surface(begin(m, op).model),
{
    broadcast use {lemma_asks_coherent, lemma_answers_coherent};

}

/// The same of the first turn of an operation.
#[verifier::rlimit(30)]
pub proof fn lemma_begin_coherent(m: Model, op: Operation)
    requires
        m.idle(),
    ensures
        coherent(begin(m, op)),
        making_surface(begin(m, op).model) ==> op is Alloc,
{
    match op {
        Operation::Present { .. } | Operation::PresentSoftware { .. }
        | Operation::Resize { .. } => {
            lemma_frame_begin_coherent(m, op);
        },
        Operation::SetVisible { .. } | Operation::BeginTransition | Operation::PopupShow { .. }
        | Operation::PopupHide { .. } => {
            lemma_flag_begin_coherent(m, op);
        },
        _ => {
            broadcast use {lemma_asks_coherent, lemma_answers_coherent};

        },
    }
}

proof fn lemma_calls_left(m: Model)
    requires
        sound(m),
    ensures
        calls_left(m) >= 0,
{
}

proof fn lemma_follow_up(m: Model, reply: Reply)
    requires
        sound(m),
        m.expects(reply),
        m.reg.live.len() < usize::MAX,
    ensures
        sound(follow_up(m, reply).model),
        coherent(follow_up(m, reply)),
        0 <= calls_left(follow_up(m, reply).model) < calls_left(m),
        m.stage is AllocAttach ==> follow_up(m, reply).model.idle(),
        !(m.stage is AllocAttach) ==> same_surfaces(m, follow_up(m, reply).model),
        !making_surface(m) ==> !making_surface(follow_up(m, reply).model),
{
    reveal(follow_up);
    lemma_step_sound(m, reply);
    lemma_step_coherent(m, reply);
    lemma_step_calls(m, reply);
    if !(m.stage is AllocAttach) {
        lemma_step_keeps_surfaces(m, reply);
    }
}

/// No operation goes on for ever: however the host replies, the answer comes
/// after a number of calls that is known beforehand; and the state stays in
/// order all the way.
pub proof fn lemma_operations_end(t: Turned, replies: Seq<Reply>)
    requires
        sound(t.model),
        coherent(t),
        t.model.reg.live.len() < usize::MAX,
        conversation(t, replies),
    ensures
        replies.len() <= calls_left(t.model),
        sound(run(t, replies).model),
        coherent(run(t, replies)),
    decreases replies.len(),
{
    lemma_calls_left(t.model);
    if replies.len() > 0 {
        let n = follow_up(t.model, replies[0]);
        lemma_follow_up(t.model, replies[0]);
        if t.model.stage is AllocAttach {
            assert(conversation(n, replies.drop_first()));
            assert(replies.drop_first().len() == 0) by {
                reveal(coherent);
            }
            assert(run(n, replies.drop_first()) == n);
        } else {
            assert(n.model.reg.live == t.model.reg.live) by {
                reveal(same_surfaces);
            }
            lemma_operations_end(n, replies.drop_first());
        }
    }
}

/// From the first turn of an operation to its last, surfaces keep their
/// identity, unless the operation makes one.
pub proof fn lemma_run_keeps_surfaces(t: Turned, replies: Seq<Reply>)
    requires
        sound(t.model),
        t.model.reg.live.len() < usize::MAX,
        conversation(t, replies),
        !making_surface(t.model),
    ensures
        same_surfaces(t.model, run(t, replies).model),
    decreases replies.len(),
{
    if replies.len() > 0 {
        let n = follow_up(t.model, replies[0]);
        lemma_follow_up(t.model, replies[0]);
        assert(n.model.reg.live == t.model.reg.live) by {
            reveal(same_surfaces);
        }
        lemma_run_keeps_surfaces(n, replies.drop_first());
    }
    reveal(same_surfaces);
}

} // verus!
