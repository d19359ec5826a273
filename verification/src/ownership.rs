//! Every turn makes do with the objects that the host has.

use vstd::prelude::*;
use crate::devices::{init_next, CompositorDevices, InitOutcome, InitProgress};
use crate::gate::{begun, decided, PresentDecision};
use crate::handles::{effect_names, reply_names};
use crate::lifecycle::{
    all_unhooked, allocated, cleaned, commit_if_any, freed, initialized, restacking, unhook_each,
};
use crate::operation::{admissible, begin, Operation};
use crate::paint::{judged, known, painted, textured, uploading};
use crate::protocol::{
    Answer, Effect, Handle, Hwnd, Reply, SurfaceId, INVALID_HWND, NULL_SURFACE,
};
use crate::rebuild::{
    attach_replied, attaching, hooked, nest_popup, rebuild_init, repopuped, revisualing,
};
use crate::recovery::{all_detached, detach_each, rebuild, recovered};
use crate::resume::{object, step};
use crate::state::{
    After, AttachFor, Fit, FitFor, Model, Paint, Source, Stage, Turned,
};
use crate::surface::Surface;
use crate::swap_chain::{
    fit_checked, fit_created, fit_resized, fitted, paint_answer, show_checked,
};
use crate::transition::blanked;

verus! {

/// Whether a turn makes do with the objects that the host has: every effect
/// names, and the state after it holds, only objects that the state before it
/// held or that the reply brought.
#[verifier::opaque]
pub open spec fn makes_do(m: Model, reply: Option<Reply>, t: Turned) -> bool {
    &&& forall|k: int, h: Handle|
        0 <= k < t.effects.len() && #[trigger] effect_names(t.effects[k], h) ==> m.holds(h) || (
        reply is Some && reply_names(reply->0, h))
    &&& forall|h: Handle| #[trigger]
        t.model.holds(h) ==> m.holds(h) || (reply is Some && reply_names(reply->0, h))
}

proof fn lemma_detach_each_names(
    ids: Seq<SurfaceId>,
    surfaces: Map<SurfaceId, Surface>,
    root: Option<Handle>,
    k: int,
    h: Handle,
)
    requires
        0 <= k < detach_each(ids, surfaces, root).len(),
        effect_names(detach_each(ids, surfaces, root)[k], h),
    ensures
        root == Some(h) || exists|j: int|
            0 <= j < ids.len() && surfaces[#[trigger] ids[j]].holds(h),
    decreases ids.len(),
{
    let front = detach_each(ids.drop_last(), surfaces, root);
    if k < front.len() {
        lemma_detach_each_names(ids.drop_last(), surfaces, root, k, h);
        if root != Some(h) {
            let j = choose|j: int|
                0 <= j < ids.drop_last().len() && surfaces[#[trigger] ids.drop_last()[j]].holds(h);
            assert(surfaces[ids[j]].holds(h));
        }
    } else {
        let s = surfaces[ids.last()];
        assert(s.detach_effects(root)[k - front.len()] == detach_each(ids, surfaces, root)[k]);
        if root != Some(h) {
            assert(s.holds(h));
            assert(surfaces[ids[ids.len() - 1]].holds(h));
        }
    }
}

proof fn lemma_unhook_each_names(
    ids: Seq<SurfaceId>,
    surfaces: Map<SurfaceId, Surface>,
    root: Handle,
    k: int,
    h: Handle,
)
    requires
        0 <= k < unhook_each(ids, surfaces, root).len(),
        effect_names(unhook_each(ids, surfaces, root)[k], h),
    ensures
        root == h || exists|j: int| 0 <= j < ids.len() && surfaces[#[trigger] ids[j]].holds(h),
    decreases ids.len(),
{
    let front = unhook_each(ids.drop_last(), surfaces, root);
    if k < front.len() {
        lemma_unhook_each_names(ids.drop_last(), surfaces, root, k, h);
        if root != h {
            let j = choose|j: int|
                0 <= j < ids.drop_last().len() && surfaces[#[trigger] ids.drop_last()[j]].holds(h);
            assert(surfaces[ids[j]].holds(h));
        }
    } else {
        assert(root != h ==> surfaces[ids[ids.len() - 1]].holds(h));
    }
}

/// A rebuild makes do with what there is.
proof fn lemma_rebuild_makes_do(m: Model, hwnd: Hwnd, effects: Seq<Effect>, after: After)
    requires
        m.core_wf(),
        forall|k: int, h: Handle|
            0 <= k < effects.len() && #[trigger] effect_names(effects[k], h) ==> m.holds(h),
    ensures
        makes_do(m, None, rebuild(m, hwnd, effects, after)),
{
    reveal(makes_do);
    let t = rebuild(m, hwnd, effects, after);
    let fx = detach_each(m.reg.live, m.reg.surfaces, m.root());
    assert forall|k: int, h: Handle|
        0 <= k < t.effects.len() && #[trigger] effect_names(t.effects[k], h) implies m.holds(
        h,
    ) by {
        if k < effects.len() {
            assert(effect_names(effects[k], h));
        } else {
            assert(t.effects[k] == fx[k - effects.len()]);
            lemma_detach_each_names(
                m.reg.live,
                m.reg.surfaces,
                m.root(),
                k - effects.len(),
                h,
            );
            if m.root() != Some(h) {
                let j = choose|j: int|
                    0 <= j < m.reg.live.len() && m.reg.surfaces[#[trigger] m.reg.live[j]].holds(h);
                assert(m.reg.live.contains(m.reg.live[j]));
                assert(m.reg.has(m.reg.live[j]));
            }
        }
    }
    assert forall|h: Handle| #[trigger] t.model.holds(h) implies m.holds(h) by {
        assert(t.model.reg == all_detached(m.reg));
        if exists|id: SurfaceId| #[trigger]
            t.model.reg.has(id) && t.model.surface(id).holds(h) {
            let id = choose|id: SurfaceId| #[trigger]
                t.model.reg.has(id) && t.model.surface(id).holds(h);
            assert(t.model.surface(id) == m.surface(id).detached());
            assert(false);
        }
    }
}

proof fn lemma_put_keeps(m: Model, id: SurfaceId, s: Surface, h: Handle)
    requires
        m.reg.has(id),
        m.put(id, s).keeps(h),
    ensures
        m.keeps(h) || s.holds(h),
{
    let n = m.put(id, s);
    if !(n.devices is Some && n.devices->0.holds(h)) {
        let x = choose|x: SurfaceId| #[trigger] n.reg.has(x) && n.surface(x).holds(h);
        if x != id {
            assert(m.reg.has(x));
        }
    }
}

/// The devices that surfaces are hooked for.
spec fn purpose_holds(purpose: AttachFor, h: Handle) -> bool {
    purpose matches AttachFor::Rebuild { devices, .. } && devices.holds(h)
}

proof fn lemma_attaching_names(
    m: Model,
    fx: Seq<Effect>,
    purpose: AttachFor,
    from: int,
    above: Option<Handle>,
)
    requires
        purpose is Restack ==> m.devices is Some,
    ensures
        ({
            let t = attaching(m, fx, purpose, from, above);
            &&& forall|k: int, h: Handle|
                0 <= k < t.effects.len() && #[trigger] effect_names(t.effects[k], h) ==> (k
                    < fx.len() && effect_names(fx[k], h)) || m.keeps(h) || purpose_holds(
                    purpose,
                    h,
                )
            &&& forall|h: Handle| #[trigger]
                t.model.holds(h) ==> m.keeps(h) || purpose_holds(purpose, h) || above == Some(h)
        }),
{
    let t = attaching(m, fx, purpose, from, above);
    assert(t.model.reg == m.reg);
    assert forall|h: Handle| #[trigger] t.model.holds(h) implies m.keeps(h) || purpose_holds(
        purpose,
        h,
    ) || above == Some(h) by {
        if exists|id: SurfaceId| #[trigger]
            t.model.reg.has(id) && t.model.surface(id).holds(h) {
            let id = choose|id: SurfaceId| #[trigger]
                t.model.reg.has(id) && t.model.surface(id).holds(h);
            assert(m.reg.has(id) && m.surface(id).holds(h));
        }
    }
}

proof fn lemma_fitted_names(m: Model, fx: Seq<Effect>, f: Fit)
    requires
        m.devices is Some,
    ensures
        ({
            let t = fitted(m, fx, f);
            &&& forall|k: int, h: Handle|
                0 <= k < t.effects.len() && #[trigger] effect_names(t.effects[k], h) ==> (k
                    < fx.len() && effect_names(fx[k], h)) || m.keeps(h)
            &&& forall|h: Handle| #[trigger]
                t.model.holds(h) ==> m.keeps(h) || f.holds(h)
        }),
{
    let t = fitted(m, fx, f);
    assert(t.model.reg == m.reg);
    assert forall|h: Handle| #[trigger] t.model.holds(h) implies m.keeps(h) || f.holds(h) by {
        if exists|id: SurfaceId| #[trigger]
            t.model.reg.has(id) && t.model.surface(id).holds(h) {
            let id = choose|id: SurfaceId| #[trigger]
                t.model.reg.has(id) && t.model.surface(id).holds(h);
            assert(m.reg.has(id) && m.surface(id).holds(h));
        }
    }
}

proof fn lemma_textured_names(m: Model, paint: Paint, texture: Handle, width: i32, height: i32)
    requires
        m.devices is Some,
    ensures
        ({
            let t = textured(m, paint, texture, width, height);
            &&& forall|k: int, h: Handle|
                0 <= k < t.effects.len() && #[trigger] effect_names(t.effects[k], h) ==> m.keeps(h)
            &&& forall|h: Handle| #[trigger]
                t.model.holds(h) ==> m.keeps(h) || texture == h
        }),
{
    let f = Fit {
        surface: paint.surface,
        slot: paint.slot,
        width,
        height,
        purpose: FitFor::Present { source: paint.source, texture },
    };
    lemma_fitted_names(m, seq![], f);
    let t = textured(m, paint, texture, width, height);
    assert(t.model.reg == m.reg);
}

proof fn lemma_revisualing_names(
    m: Model,
    fx: Seq<Effect>,
    devices: CompositorDevices,
    after: After,
    index: int,
)
    ensures
        ({
            let t = revisualing(m, fx, devices, after, index);
            &&& forall|k: int, h: Handle|
                0 <= k < t.effects.len() && #[trigger] effect_names(t.effects[k], h) ==> (k
                    < fx.len() && effect_names(fx[k], h)) || m.keeps(h) || devices.holds(h)
            &&& forall|h: Handle| #[trigger]
                t.model.holds(h) ==> m.keeps(h) || devices.holds(h)
        }),
{
    let n = Model { reg: m.reg.unstacked(), ..m };
    lemma_attaching_names(n, fx, AttachFor::Rebuild { devices, after }, 0, None);
    assert forall|h: Handle| #[trigger] n.keeps(h) implies m.keeps(h) by {
        if !(n.devices is Some && n.devices->0.holds(h)) {
            let id = choose|id: SurfaceId| #[trigger] n.reg.has(id) && n.surface(id).holds(h);
            assert(m.reg.has(id) && m.surface(id).holds(h));
        }
    }
}

proof fn lemma_rebuild_init_makes_do(m: Model, p: InitProgress, after: After, reply: Reply)
    requires
        m.wf(),
        m.stage == (Stage::RebuildInit { progress: p, after }),
        m.expects(reply),
    ensures
        makes_do(m, Some(reply), rebuild_init(m, p, after, reply)),
{
    reveal(makes_do);
    match init_next(p, reply) {
        InitOutcome::Ready(devices) => {
            lemma_revisualing_names(m, seq![], devices, after, 0);
        },
        _ => {},
    }
}

proof fn lemma_repopuped_makes_do(
    m: Model,
    devices: CompositorDevices,
    after: After,
    index: usize,
    visual: Handle,
    reply: Reply,
)
    requires
        m.wf(),
        m.stage == (Stage::RebuildPopup { devices, after, index, visual }),
    ensures
        makes_do(
            m,
            Some(reply),
            repopuped(m, devices, after, index as int, visual, object(reply)),
        ),
{
    reveal(makes_do);
    let popup = object(reply);
    let id = m.reg.live[index as int];
    assert(m.reg.live.contains(id));
    assert(m.reg.has(id));
    let s = m.surface(id).rebuilt(visual, popup);
    let n = m.put(id, s);
    lemma_revisualing_names(n, nest_popup(visual, popup), devices, after, index + 1);
    assert forall|h: Handle| #[trigger] n.keeps(h) implies m.holds(h) || reply_names(
        reply,
        h,
    ) by {
        lemma_put_keeps(m, id, s, h);
    }
}

proof fn lemma_attach_replied_makes_do(
    m: Model,
    purpose: AttachFor,
    index: usize,
    above: Option<Handle>,
    code: i32,
)
    requires
        m.wf(),
        m.stage == (Stage::Attach { purpose, index, above }),
    ensures
        makes_do(m, None, attach_replied(m, purpose, index as int, above, code)),
{
    reveal(makes_do);
    let id = m.queue[index as int];
    let s = hooked(m.surface(id));
    if code < 0 {
        lemma_attaching_names(m, seq![], purpose, index + 1, above);
    } else {
        let n = Model { reg: m.reg.put(id, s).stacked(id), ..m };
        lemma_attaching_names(n, seq![], purpose, index + 1, s.visual);
        assert forall|h: Handle| #[trigger] n.keeps(h) implies m.keeps(h) by {
            if !(n.devices is Some && n.devices->0.holds(h)) {
                let x = choose|x: SurfaceId| #[trigger] n.reg.has(x) && n.surface(x).holds(h);
                assert(m.reg.has(x) && m.surface(x).holds(h));
            }
        }
        assert(m.reg.has(id));
        assert(m.surface(id).holds(s.visual->0));
    }
}

proof fn lemma_allocated_makes_do(m: Model, visual: Handle, popup: Option<Handle>, code: i32)
    requires
        m.wf(),
        m.stage == (Stage::AllocAttach { visual, popup }),
    ensures
        makes_do(m, None, allocated(m, visual, popup, code)),
{
    reveal(makes_do);
    let t = allocated(m, visual, popup, code);
    assert forall|h: Handle| #[trigger] t.model.holds(h) implies m.holds(h) by {
        if !(m.devices is Some && m.devices->0.holds(h)) {
            let x = choose|x: SurfaceId| #[trigger]
                t.model.reg.has(x) && t.model.surface(x).holds(h);
            if x != m.next_id {
                assert(m.reg.has(x) && m.surface(x).holds(h));
            }
        }
    }
}

proof fn lemma_judged_makes_do(
    m: Model,
    paint: Paint,
    texture: Option<Handle>,
    width: i32,
    height: i32,
    decision: PresentDecision,
)
    requires
        m.wf(),
        m.stage == (Stage::Judge { paint, opened: texture, width, height }),
    ensures
        makes_do(m, None, judged(m, paint, texture, width, height, decision)),
{
    reveal(makes_do);
    let passed = Model { gate: decided(m.gate, decision), ..m };
    let settled = Model { pending_lw: 0, pending_lh: 0, ..passed };
    assert(forall|h: Handle| #[trigger] passed.keeps(h) ==> m.keeps(h));
    assert(forall|h: Handle| #[trigger] settled.keeps(h) ==> m.keeps(h));
    if paint.source is Shared {
        lemma_textured_names(passed, paint, texture->0, width, height);
        lemma_textured_names(settled, paint, texture->0, width, height);
    } else {
        let t = uploading(passed, seq![], paint);
        assert(t.model.reg == m.reg);
    }
}

proof fn lemma_recovered_makes_do(m: Model, effects: Seq<Effect>, answer: Answer)
    requires
        m.core_wf(),
        forall|k: int, h: Handle|
            0 <= k < effects.len() && #[trigger] effect_names(effects[k], h) ==> m.holds(h),
    ensures
        makes_do(m, None, recovered(m, effects, answer)),
{
    reveal(makes_do);
    lemma_rebuild_makes_do(m, m.hwnd, effects, After::Finish(answer));
    assert(m.answers(effects, answer).model.reg == m.reg);
}

proof fn lemma_fit_resized_makes_do(m: Model, f: Fit, code: i32)
    requires
        m.wf(),
        m.stage == Stage::FitResize(f),
    ensures
        makes_do(m, None, fit_resized(m, f, code)),
{
    reveal(makes_do);
    let s = m.surface(f.surface).with_size(f.slot, f.width, f.height);
    let n = m.put(f.surface, s);
    lemma_fitted_names(n, seq![], f);
    assert forall|h: Handle| #[trigger] n.keeps(h) implies m.keeps(h) by {
        lemma_put_keeps(m, f.surface, s, h);
    }
}

proof fn lemma_fit_created_makes_do(m: Model, f: Fit, reply: Reply)
    requires
        m.wf(),
        m.stage == Stage::FitCreate(f),
    ensures
        makes_do(m, Some(reply), fit_created(m, f, object(reply))),
{
    reveal(makes_do);
    match object(reply) {
        Some(chain) => {
            let s = m.surface(f.surface).with_chain(f.slot, Some(chain)).with_size(
                f.slot,
                f.width,
                f.height,
            );
            let n = m.put(f.surface, s);
            let visual = m.surface(f.surface).visual_of(f.slot)->0;
            assert(m.surface(f.surface).holds(visual));
            lemma_fitted_names(n, seq![Effect::SetContent { visual, content: Some(chain) }], f);
            assert forall|h: Handle| #[trigger] n.keeps(h) implies m.keeps(h) || h == chain by {
                lemma_put_keeps(m, f.surface, s, h);
            }
        },
        None => {
            lemma_fitted_names(m, seq![], f);
        },
    }
}

proof fn lemma_fit_checked_makes_do(m: Model, f: Fit, code: i32)
    requires
        m.wf(),
        m.stage == Stage::FitCheck(f),
    ensures
        makes_do(m, None, fit_checked(m, f, code)),
{
    reveal(makes_do);
    let s = m.surface(f.surface).with_chain(f.slot, None);
    let n = m.put(f.surface, s);
    let visual = m.surface(f.surface).visual_of(f.slot)->0;
    assert(m.surface(f.surface).holds(visual));
    assert(n.reg.has(f.surface) && n.surface(f.surface).holds(visual));
    assert forall|h: Handle| #[trigger] n.keeps(h) implies m.keeps(h) by {
        lemma_put_keeps(m, f.surface, s, h);
    }
    assert(forall|h: Handle| #[trigger] n.holds(h) ==> m.holds(h));
    let emptied = seq![Effect::SetContent { visual, content: None }];
    if code < 0 {
        assert(forall|x: SurfaceId| #[trigger] n.reg.has(x) <==> m.reg.has(x));
        let commit = Effect::Commit { device: m.devices->0.dcomp_device };
        lemma_recovered_makes_do(n, emptied.push(commit), Answer::Unit);
        lemma_recovered_makes_do(n, emptied, paint_answer(f.slot, false));
    } else {
        let t = n.asks(emptied, Stage::FitCreate(f));
        assert(m.reg.has(f.surface));
        assert(m.keeps(visual));
        assert forall|h: Handle| #[trigger] t.model.holds(h) implies m.holds(h) by {
            if t.model.keeps(h) {
                assert(n.keeps(h));
            }
        }
    }
}

proof fn lemma_show_checked_makes_do(m: Model, paint: Paint, copied: bool, code: i32)
    requires
        m.wf(),
        m.stage == (Stage::ShowCheck { paint, copied }),
    ensures
        makes_do(m, None, show_checked(m, paint, copied, code)),
{
    reveal(makes_do);
    let effects = if copied {
        seq![Effect::Commit { device: m.devices->0.dcomp_device }]
    } else {
        seq![]
    };
    lemma_recovered_makes_do(m, effects, paint_answer(paint.slot, true));
    assert(m.answers(effects, paint_answer(paint.slot, false)).model.reg == m.reg);
}

proof fn lemma_same_surfaces_keep(m: Model, n: Model, h: Handle)
    requires
        n.reg == m.reg,
        n.keeps(h),
    ensures
        m.keeps(h) || (n.devices is Some && n.devices->0.holds(h)),
{
    if !(n.devices is Some && n.devices->0.holds(h)) {
        let id = choose|id: SurfaceId| #[trigger] n.reg.has(id) && n.surface(id).holds(h);
        assert(m.reg.has(id) && m.surface(id).holds(h));
    }
}

proof fn lemma_initialized_makes_do(m: Model, p: InitProgress, reply: Reply)
    requires
        m.wf(),
        m.stage == Stage::Init(p),
        m.expects(reply),
    ensures
        makes_do(m, Some(reply), initialized(m, p, reply)),
{
    reveal(makes_do);
    let t = initialized(m, p, reply);
    assert forall|h: Handle| #[trigger] t.model.holds(h) implies m.holds(h) || reply_names(
        reply,
        h,
    ) by {
        if t.model.keeps(h) {
            lemma_same_surfaces_keep(m, t.model, h);
        }
    }
}

/// Steps that change nothing but the stage.
#[verifier::rlimit(30)]
proof fn lemma_plain_step_makes_do(m: Model, reply: Reply)
    requires
        m.wf(),
        m.expects(reply),
        m.stage is AllocVisual || m.stage is AllocPopup || m.stage is Open || m.stage is Buffer
            || m.stage is Show || m.stage is Probe,
    ensures
        makes_do(m, Some(reply), step(m, reply)),
{
    reveal(makes_do);
    let t = step(m, reply);
    assert(t.model.reg == m.reg && t.model.devices == m.devices);
    assert forall|h: Handle| #[trigger] t.model.holds(h) implies m.holds(h) || reply_names(
        reply,
        h,
    ) by {
        if t.model.keeps(h) {
            lemma_same_surfaces_keep(m, t.model, h);
        }
    }
}

/// Frames on their way to a swap chain.
proof fn lemma_textured_makes_do(m: Model, reply: Reply)
    requires
        m.wf(),
        m.expects(reply),
        m.stage is Measure || m.stage is Upload || m.stage is RebuildVisual,
    ensures
        makes_do(m, Some(reply), step(m, reply)),
{
    reveal(makes_do);
    match m.stage {
        Stage::RebuildVisual { devices, after, index } => {
            lemma_revisualing_names(m, seq![], devices, after, index + 1);
        },
        Stage::Measure { paint, texture } => {
            lemma_textured_names(m, paint, texture, reply->width as i32, reply->height as i32);
        },
        Stage::Upload(paint) => {
            if object(reply) is Some {
                lemma_textured_names(
                    m,
                    paint,
                    object(reply)->0,
                    paint.source->width,
                    paint.source->height,
                );
            }
        },
        _ => {},
    }
}

proof fn lemma_reply_adds(m: Model, reply: Reply, t: Turned)
    requires
        makes_do(m, None, t),
    ensures
        makes_do(m, Some(reply), t),
{
    reveal(makes_do);
}

/// A step after a reply makes do with the objects that the host has. With
/// [`crate::handles::lemma_request_is_held`], the host may drop whatever the state no longer
/// holds once the effects of a turn are done.
#[verifier::rlimit(30)]
pub proof fn lemma_step_makes_do(m: Model, reply: Reply)
    requires
        m.wf(),
        m.expects(reply),
    ensures
        makes_do(m, Some(reply), step(m, reply)),
{
    let t = step(m, reply);
    match m.stage {
        Stage::RebuildInit { progress, after } => {
            lemma_rebuild_init_makes_do(m, progress, after, reply);
        },
        Stage::RebuildPopup { devices, after, index, visual } => {
            lemma_repopuped_makes_do(m, devices, after, index, visual, reply);
        },
        Stage::Attach { purpose, index, above } => {
            lemma_attach_replied_makes_do(m, purpose, index, above, reply->Status_0);
            lemma_reply_adds(m, reply, t);
        },
        Stage::AllocAttach { visual, popup } => {
            lemma_allocated_makes_do(m, visual, popup, reply->Status_0);
            lemma_reply_adds(m, reply, t);
        },
        Stage::RebuildVisual { .. } | Stage::Measure { .. } | Stage::Upload(_) => {
            lemma_textured_makes_do(m, reply);
        },
        Stage::Judge { paint, opened, width, height } => {
            lemma_judged_makes_do(m, paint, opened, width, height, reply->Decision_0);
            lemma_reply_adds(m, reply, t);
        },
        Stage::FitResize(f) => {
            lemma_fit_resized_makes_do(m, f, reply->Status_0);
            lemma_reply_adds(m, reply, t);
        },
        Stage::FitCheck(f) => {
            lemma_fit_checked_makes_do(m, f, reply->Status_0);
            lemma_reply_adds(m, reply, t);
        },
        Stage::FitCreate(f) => {
            lemma_fit_created_makes_do(m, f, reply);
        },
        Stage::ShowCheck { paint, copied } => {
            lemma_show_checked_makes_do(m, paint, copied, reply->Status_0);
            lemma_reply_adds(m, reply, t);
        },
        Stage::Init(p) => {
            lemma_initialized_makes_do(m, p, reply);
        },
        _ => {
            lemma_plain_step_makes_do(m, reply);
        },
    }
}

proof fn lemma_same_objects_make_do(m: Model, t: Turned)
    requires
        t.model.reg == m.reg,
        t.model.devices == m.devices,
        forall|h: Handle| !#[trigger] t.model.stage.holds(h) || m.holds(h),
        forall|k: int, h: Handle|
            0 <= k < t.effects.len() && #[trigger] effect_names(t.effects[k], h) ==> m.holds(h),
    ensures
        makes_do(m, None, t),
{
    reveal(makes_do);
    assert forall|h: Handle| #[trigger] t.model.holds(h) implies m.holds(h) by {
        if t.model.keeps(h) {
            lemma_same_surfaces_keep(m, t.model, h);
        }
    }
}

proof fn lemma_changed_makes_do(m: Model, n: Model, id: SurfaceId, s: Surface, fx: Seq<Effect>)
    requires
        m.reg.has(id),
        n.reg == m.reg,
        n.devices == m.devices,
        forall|h: Handle| #[trigger] s.holds(h) ==> m.surface(id).holds(h),
        forall|k: int, h: Handle|
            0 <= k < fx.len() && #[trigger] effect_names(fx[k], h) ==> m.holds(h),
    ensures
        makes_do(m, None, n.put(id, s).answers(fx, Answer::Unit)),
{
    reveal(makes_do);
    let t = n.put(id, s).answers(fx, Answer::Unit);
    assert forall|h: Handle| #[trigger] t.model.holds(h) implies m.holds(h) by {
        assert(t.model.keeps(h));
        assert(n.put(id, s).keeps(h)) by {
            lemma_same_surfaces_keep(n.put(id, s), t.model, h);
        }
        lemma_put_keeps(n, id, s, h);
        if n.keeps(h) {
            lemma_same_surfaces_keep(m, n, h);
        }
    }
}

proof fn lemma_lifecycle_begin_makes_do(m: Model, op: Operation)
    requires
        m.wf(),
        admissible(m, op),
        op is Init || op is Cleanup || op is Rebind || op is Probe || op is Alloc,
    ensures
        makes_do(m, None, begin(m, op)),
{
    match op {
        Operation::Cleanup => {
            reveal(makes_do);
            lemma_rebuild_makes_do(m, m.hwnd, seq![], After::Finish(Answer::Unit));
            let t = rebuild(m, m.hwnd, seq![], After::Finish(Answer::Unit));
            assert(t.effects =~= cleaned(m).effects);
            assert(forall|h: Handle| !#[trigger] cleaned(m).model.holds(h));
        },
        Operation::Rebind { hwnd } => {
            lemma_rebuild_makes_do(m, hwnd, seq![], After::Finish(Answer::Unit));
        },
        _ => {
            lemma_same_objects_make_do(m, begin(m, op));
        },
    }
}

proof fn lemma_freed_makes_do(m: Model, s: SurfaceId)
    requires
        m.wf(),
        known(m, s),
    ensures
        makes_do(m, None, freed(m, s)),
{
    reveal(makes_do);
    let t = freed(m, s);
    assert forall|h: Handle| #[trigger] t.model.holds(h) implies m.holds(h) by {
        if !(m.devices is Some && m.devices->0.holds(h)) {
            let id = choose|id: SurfaceId| #[trigger]
                t.model.reg.has(id) && t.model.surface(id).holds(h);
            assert(m.reg.has(id) && m.surface(id).holds(h));
        }
    }
    if s != NULL_SURFACE {
        let fx = m.surface(s).detach_effects(m.root());
        assert forall|k: int, h: Handle|
            0 <= k < t.effects.len() && #[trigger] effect_names(t.effects[k], h) implies m.holds(
            h,
        ) by {
            assert(m.reg.has(s));
            if k < fx.len() {
                assert(t.effects[k] == fx[k]);
                assert(m.surface(s).holds(h) || m.root() == Some(h));
            } else {
                assert(t.effects[k] == commit_if_any(m)[k - fx.len()]);
            }
        }
    }
}

proof fn lemma_restacking_makes_do(m: Model, ordered: Seq<SurfaceId>)
    requires
        m.wf(),
    ensures
        makes_do(m, None, restacking(m, ordered)),
{
    reveal(makes_do);
    if let Some(d) = m.devices {
        let fx = unhook_each(m.reg.live, m.reg.surfaces, d.dcomp_root);
        let n = Model { reg: all_unhooked(m.reg).unstacked(), queue: ordered, ..m };
        lemma_attaching_names(n, fx, AttachFor::Restack, 0, None);
        assert forall|h: Handle| #[trigger] n.keeps(h) implies m.keeps(h) by {
            if !(n.devices is Some && n.devices->0.holds(h)) {
                let id = choose|id: SurfaceId| #[trigger] n.reg.has(id) && n.surface(id).holds(h);
                assert(m.reg.has(id) && m.surface(id).holds(h));
            }
        }
        assert forall|k: int, h: Handle|
            0 <= k < fx.len() && #[trigger] effect_names(fx[k], h) implies m.keeps(h) by {
            lemma_unhook_each_names(m.reg.live, m.reg.surfaces, d.dcomp_root, k, h);
            if d.dcomp_root != h {
                let j = choose|j: int|
                    0 <= j < m.reg.live.len() && m.reg.surfaces[#[trigger] m.reg.live[j]].holds(h);
                assert(m.reg.live.contains(m.reg.live[j]));
                assert(m.reg.has(m.reg.live[j]));
            }
        }
    } else {
        lemma_same_objects_make_do(m, restacking(m, ordered));
    }
}

proof fn lemma_painted_makes_do(m: Model, paint: Paint)
    requires
        m.wf(),
    ensures
        makes_do(m, None, painted(m, paint)),
{
    if m.devices is None && m.hwnd != INVALID_HWND {
        lemma_rebuild_makes_do(m, m.hwnd, seq![], After::Paint(paint));
    } else {
        lemma_same_objects_make_do(m, painted(m, paint));
    }
}

proof fn lemma_frame_begin_makes_do(m: Model, op: Operation)
    requires
        m.wf(),
        admissible(m, op),
        op is Present || op is PresentSoftware || op is Resize,
    ensures
        makes_do(m, None, begin(m, op)),
{
    let t = begin(m, op);
    match op {
        Operation::Present { surface, slot, info } => {
            if surface == NULL_SURFACE || info is None || info == Some(0u64) {
                lemma_same_objects_make_do(m, t);
            } else {
                lemma_painted_makes_do(
                    m,
                    Paint { surface, slot, source: Source::Shared { shared_texture: info->0 } },
                );
            }
        },
        Operation::PresentSoftware { surface, slot, buffer, width, height } => {
            if surface == NULL_SURFACE || buffer == 0 || width <= 0 || height <= 0 {
                lemma_same_objects_make_do(m, t);
            } else {
                lemma_painted_makes_do(
                    m,
                    Paint {
                        surface,
                        slot,
                        source: Source::Software { address: buffer, width, height },
                    },
                );
            }
        },
        _ => {
            lemma_same_objects_make_do(m, t);
        },
    }
}

proof fn lemma_flag_begin_makes_do(m: Model, op: Operation)
    requires
        m.wf(),
        admissible(m, op),
        op is SetVisible || op is BeginTransition || op is PopupShow || op is PopupHide,
    ensures
        makes_do(m, None, begin(m, op)),
{
    let t = begin(m, op);
    match op {
        Operation::SetVisible { surface, visible } => {
            if surface == NULL_SURFACE || m.devices is None || m.surface(surface).visible
                == visible {
                lemma_same_objects_make_do(m, t);
            } else {
                assert(m.reg.has(surface));
                lemma_changed_makes_do(m, m, surface, t.model.surface(surface), t.effects);
            }
        },
        Operation::BeginTransition => {
            match (m.reg.bottom(), m.devices) {
                (Some(p), Some(d)) => {
                    assert(m.reg.has(m.reg.stack[0]));
                    if m.gate.transitioning {
                        lemma_same_objects_make_do(m, t);
                    } else {
                        let n = Model {
                            gate: begun(m.gate, (m.mpv_pw, m.mpv_ph)),
                            pending_lw: 0,
                            pending_lh: 0,
                            ..m
                        };
                        lemma_changed_makes_do(m, n, p, blanked(m.surface(p)), t.effects);
                    }
                },
                _ => {
                    lemma_same_objects_make_do(m, t);
                },
            }
        },
        Operation::PopupShow { surface, .. } | Operation::PopupHide { surface } => {
            if surface == NULL_SURFACE {
                lemma_same_objects_make_do(m, t);
            } else {
                assert(m.reg.has(surface));
                lemma_changed_makes_do(m, m, surface, t.model.surface(surface), t.effects);
            }
        },
        _ => {},
    }
}

/// The first turn of every operation makes do with the objects that the state
/// holds.
pub proof fn lemma_begin_makes_do(m: Model, op: Operation)
    requires
        m.wf(),
        admissible(m, op),
    ensures
        makes_do(m, None, begin(m, op)),
{
    match op {
        Operation::Free { surface } => {
            lemma_freed_makes_do(m, surface);
        },
        Operation::Restack { ordered } => {
            lemma_restacking_makes_do(m, ordered);
        },
        Operation::Present { .. } | Operation::PresentSoftware { .. }
        | Operation::Resize { .. } => {
            lemma_frame_begin_makes_do(m, op);
        },
        Operation::SetVisible { .. } | Operation::BeginTransition | Operation::PopupShow { .. }
        | Operation::PopupHide { .. } => {
            lemma_flag_begin_makes_do(m, op);
        },
        _ => {
            lemma_lifecycle_begin_makes_do(m, op);
        },
    }
}

} // verus!
