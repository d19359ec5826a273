//! State and screen agree after every turn.

use vstd::prelude::*;
use crate::devices::{
    init_call, init_expects, init_next, CompositorDevices, InitOutcome, InitProgress,
};
use crate::gate::decided;
use crate::lifecycle::{
    all_unhooked, cleaned, freed, restacking, unhook_each, unhook_effects, unhooked,
};
use crate::operation::{admissible, begin, sound, Operation};
use crate::paint::{
    dropped, gated, memory_given, painted, painting, shared_given, textured, uploading,
};
use crate::protocol::{
    Answer, Effect, Handle, Hwnd, InitCall, Reply, Request, Slot, SurfaceId, NULL_SURFACE,
};
use crate::rebuild::{attaching, hooked, nest_popup, next_attachable, revisualing};
use crate::recovery::{all_detached, detach_each, rebuild, recovered};
use crate::registry::{other_than, Registry};
use crate::resume::{object, step};
use crate::screen::{
    apart, before, building, built, built_on, called, chain_at, chain_made, done, effected, hangs,
    holds_frame, in_service, less, made_by, measures, mirrors, nested, no_leftovers, pictures,
    plausible, size_at, spare, tree, tree_so_far, visual_at, visual_made, Screen,
};
use crate::state::{After, AttachFor, Fit, FitFor, Model, Paint, Source, Stage};
use crate::surface::Surface;
use crate::swap_chain::{
    fit_checked, fit_created, fit_resized, fitted, paint_answer, paint_note,
};
use crate::transition::{size_expected, size_noted, transition_ended};

verus! {

/// The screen after a reply and the effects of the turn that follows.
pub open spec fn screen_after(m: Model, w: Screen, reply: Reply) -> Screen {
    done(called(w, m.request(), reply), step(m, reply).effects)
}

/// All that state and screen agree on while the tree stands, but for what
/// the operation has got so far.
spec fn agrees(m: Model, w: Screen) -> bool {
    &&& apart(m.reg)
    &&& pictures(m.reg, m.devices, w)
    &&& no_leftovers(m.reg, w)
    &&& nested(m.reg, w)
    &&& m.devices is Some ==> tree(m.reg, m.devices->0.dcomp_root, w) && built(w, m.devices->0)
        && m.devices->0.hwnd == m.hwnd
}

/// Objects were added, nothing that was there has changed.
spec fn grows(w: Screen, v: Screen) -> bool {
    &&& forall|h: Handle| #[trigger]
        w.made.contains_key(h) ==> v.made.contains_key(h) && v.made[h] == w.made[h] && v.content[h]
            == w.content[h] && v.children[h] == w.children[h] && v.contexts[h] == w.contexts[h]
            && v.roots[h] == w.roots[h] && (w.made[h] is CreateSwapChain ==> v.sizes[h]
            == w.sizes[h])
    &&& forall|h: Handle| #[trigger]
        v.made.contains_key(h) && !w.made.contains_key(h) ==> v.content[h] is None
}

proof fn lemma_built_grows(w: Screen, v: Screen, d: CompositorDevices)
    requires
        grows(w, v),
        built(w, d),
    ensures
        built(v, d),
{
    let (base, dxgi_device, adapter) = choose|base: Handle, dxgi_device: Handle, adapter: Handle|
        #[trigger] built_on(w, d, base, dxgi_device, adapter);
    assert(built_on(v, d, base, dxgi_device, adapter));
}

proof fn lemma_pictures_grow(reg: Registry, d: Option<CompositorDevices>, w: Screen, v: Screen)
    requires
        grows(w, v),
        pictures(reg, d, w),
        no_leftovers(reg, w),
        nested(reg, w),
    ensures
        pictures(reg, d, v),
        no_leftovers(reg, v),
        nested(reg, v),
{
    assert forall|h: Handle|
        v.made.contains_key(h) && (#[trigger] v.content[h]) is Some implies exists|
        id: SurfaceId,
        slot: Slot,
    |
        #![trigger visual_at(reg, id, slot)]
        visual_at(reg, id, slot) == Some(h) by {
        assert(w.made.contains_key(h));
        assert(w.content[h] is Some);
    }
    assert forall|id: SurfaceId|
        #![trigger visual_at(reg, id, Slot::Main)]
        visual_at(reg, id, Slot::Main) is Some implies v.children[visual_at(
        reg,
        id,
        Slot::Main,
    )->0] == (match visual_at(reg, id, Slot::Popup) {
        Some(popup) => seq![popup],
        None => Seq::empty(),
    }) by {
        assert(w.made.contains_key(visual_at(reg, id, Slot::Main)->0));
    }
    assert forall|id: SurfaceId, slot: Slot|
        #![trigger visual_at(reg, id, slot)]
        visual_at(reg, id, slot) is Some implies d is Some && visual_made(
        v,
        d->0,
        visual_at(reg, id, slot)->0,
    ) && v.content[visual_at(reg, id, slot)->0] == chain_at(reg, id, slot) && (chain_at(
        reg,
        id,
        slot,
    ) is Some ==> chain_made(v, d->0, chain_at(reg, id, slot)->0) && v.sizes[chain_at(
        reg,
        id,
        slot,
    )->0] == (size_at(reg, id, slot).0 as u32, size_at(reg, id, slot).1 as u32)) by {
        assert(w.made.contains_key(visual_at(reg, id, slot)->0));
        if chain_at(reg, id, slot) is Some {
            assert(w.made.contains_key(chain_at(reg, id, slot)->0));
        }
    }
}

proof fn lemma_agrees_grows(m: Model, n: Model, w: Screen, v: Screen)
    requires
        agrees(m, w),
        grows(w, v),
        n.reg == m.reg,
        n.devices == m.devices,
        n.hwnd == m.hwnd,
    ensures
        agrees(n, v),
{
    lemma_pictures_grow(m.reg, m.devices, w, v);
    if let Some(d) = m.devices {
        lemma_built_grows(w, v, d);
        lemma_root_known(w, d);
    }
}

proof fn lemma_root_known(w: Screen, d: CompositorDevices)
    requires
        built(w, d),
    ensures
        made_by(w, d.dcomp_root, InitCall::CreateRoot { dcomp_device: d.dcomp_device }),
{
}

proof fn lemma_done_push(w: Screen, fx: Seq<Effect>, e: Effect)
    ensures
        done(w, fx.push(e)) == effected(done(w, fx), e),
{
    assert(fx.push(e).drop_last() =~= fx);
}

proof fn lemma_done_none(w: Screen)
    ensures
        done(w, seq![]) == w,
{
}

proof fn lemma_done_one(w: Screen, e: Effect)
    ensures
        done(w, seq![e]) == effected(w, e),
{
    lemma_done_push(w, seq![], e);
    assert(seq![e] =~= Seq::<Effect>::empty().push(e));
}

proof fn lemma_done_append(w: Screen, a: Seq<Effect>, b: Seq<Effect>)
    ensures
        done(w, a + b) == done(done(w, a), b),
    decreases b.len(),
{
    if b.len() == 0 {
        assert(a + b =~= a);
    } else {
        lemma_done_append(w, a, b.drop_last());
        assert((a + b).drop_last() =~= a + b.drop_last());
    }
}

proof fn lemma_same_size(u: u32, x: i32)
    ensures
        u as i32 == x && x > 0 ==> u == x as u32,
        x > 0 ==> x as u32 as i32 == x,
{
    assert(u as i32 == x && x > 0 ==> u == x as u32) by (bit_vector);
}

/// The end of a fit: nothing on the screen changes but the count.
proof fn lemma_fitted_mirrors(m: Model, w: Screen, f: Fit)
    requires
        agrees(m, w),
        m.devices is Some,
        m.reg.wf(),
        m.reg.has(f.surface),
        f.purpose matches FitFor::Present { source, texture } ==> holds_frame(
            w,
            m.devices->0,
            source,
            texture,
        ) && measures(w, texture, f.width, f.height),
        f.width > 0 && f.height > 0 && chain_at(m.reg, f.surface, f.slot) is Some ==> size_at(
            m.reg,
            f.surface,
            f.slot,
        ) == (f.width, f.height),
    ensures
        mirrors(fitted(m, seq![], f).model, done(w, fitted(m, seq![], f).effects)),
{
    let t = fitted(m, seq![], f);
    let v = done(w, t.effects);
    match f.purpose {
        FitFor::Resize => {
            let commit = Effect::Commit { device: m.devices->0.dcomp_device };
            lemma_done_push(w, seq![], commit);
            assert(v == w);
        },
        FitFor::Present { source, texture } => {
            if chain_at(m.reg, f.surface, f.slot) is Some {
                assert(m.surface(f.surface).wf());
                assert(visual_at(m.reg, f.surface, f.slot) is Some);
                match source {
                    Source::Shared { shared_texture } => {
                        let note = Effect::NoteAccelPaint {
                            slot: f.slot,
                            shared_texture,
                            width: f.width,
                            height: f.height,
                        };
                        lemma_done_one(w, note);
                        assert(Seq::<Effect>::empty() + paint_note(f, source) =~= seq![note]);
                    },
                    Source::Software { .. } => {
                        assert(Seq::<Effect>::empty() + paint_note(f, source) =~= seq![]);
                    },
                }
                lemma_same_size(w.sizes[texture].0, f.width);
                lemma_same_size(w.sizes[texture].1, f.height);
            }
        },
    }
    lemma_agrees_grows(m, t.model, w, v);
}

proof fn lemma_textured_mirrors(
    m: Model,
    w: Screen,
    paint: Paint,
    texture: Handle,
    width: i32,
    height: i32,
)
    requires
        agrees(m, w),
        m.devices is Some,
        m.reg.wf(),
        m.reg.has(paint.surface),
        holds_frame(w, m.devices->0, paint.source, texture),
        measures(w, texture, width, height),
    ensures
        ({
            let t = textured(m, paint, texture, width, height);
            mirrors(t.model, done(w, t.effects))
        }),
{
    let t = textured(m, paint, texture, width, height);
    let f = Fit {
        surface: paint.surface,
        slot: paint.slot,
        width,
        height,
        purpose: FitFor::Present { source: paint.source, texture },
    };
    lemma_done_none(w);
    lemma_agrees_grows(m, t.model, w, w);
    if t.model.stage is Buffer {
        lemma_fitted_mirrors(m, w, f);
    }
}

proof fn lemma_open_mirrors(m: Model, w: Screen, reply: Reply)
    requires
        m.wf(),
        mirrors(m, w),
        m.expects(reply),
        plausible(w, m.request(), reply),
        m.stage is Open || m.stage is Probe,
    ensures
        mirrors(step(m, reply).model, screen_after(m, w, reply)),
{
    let t = step(m, reply);
    let v = called(w, m.request(), reply);
    lemma_done_none(v);
    assert(grows(w, v));
    lemma_agrees_grows(m, t.model, w, v);
}

proof fn lemma_measure_mirrors(m: Model, w: Screen, reply: Reply)
    requires
        m.wf(),
        mirrors(m, w),
        m.expects(reply),
        m.stage is Measure,
    ensures
        mirrors(step(m, reply).model, screen_after(m, w, reply)),
{
    let t = step(m, reply);
    let v = called(w, m.request(), reply);
    lemma_done_none(v);
    assert(grows(w, v));
    lemma_agrees_grows(m, m, w, v);
    match m.stage {
        Stage::Measure { paint, texture } => {
            let width = reply->width as i32;
            let height = reply->height as i32;
            assert(holds_frame(v, m.devices->0, paint.source, texture));
            if gated(m, paint) {
                lemma_agrees_grows(m, t.model, v, v);
            } else {
                lemma_textured_mirrors(m, v, paint, texture, width, height);
            }
        },
        _ => {},
    }
}

proof fn lemma_judge_mirrors(m: Model, w: Screen, reply: Reply)
    requires
        m.wf(),
        mirrors(m, w),
        m.expects(reply),
        m.stage is Judge,
    ensures
        mirrors(step(m, reply).model, screen_after(m, w, reply)),
{
    let t = step(m, reply);
    lemma_done_none(w);
    assert(called(w, m.request(), reply) == w);
    match m.stage {
        Stage::Judge { paint, opened, width, height } => {
            let decision = reply->Decision_0;
            let passed = Model { gate: decided(m.gate, decision), ..m };
            let settled = Model { pending_lw: 0, pending_lh: 0, ..passed };
            lemma_agrees_grows(m, passed, w, w);
            lemma_agrees_grows(m, settled, w, w);
            if paint.source is Shared {
                lemma_textured_mirrors(passed, w, paint, opened->0, width, height);
                lemma_textured_mirrors(settled, w, paint, opened->0, width, height);
            } else {
                let u = uploading(passed, seq![], paint);
                lemma_agrees_grows(m, u.model, w, w);
            }
            lemma_agrees_grows(m, dropped(passed, seq![], paint.slot).model, w, w);
            lemma_agrees_grows(m, dropped(settled, seq![], paint.slot).model, w, w);
        },
        _ => {},
    }
}

proof fn lemma_upload_mirrors(m: Model, w: Screen, reply: Reply)
    requires
        m.wf(),
        mirrors(m, w),
        m.expects(reply),
        plausible(w, m.request(), reply),
        m.stage is Upload,
    ensures
        mirrors(step(m, reply).model, screen_after(m, w, reply)),
{
    let t = step(m, reply);
    let v = called(w, m.request(), reply);
    lemma_done_none(v);
    assert(grows(w, v));
    lemma_agrees_grows(m, m, w, v);
    lemma_agrees_grows(m, t.model, w, v);
    match m.stage {
        Stage::Upload(paint) => {
            if let Some(texture) = object(reply) {
                let (width, height) = (paint.source->width, paint.source->height);
                lemma_same_size(0, width);
                lemma_same_size(0, height);
                lemma_textured_mirrors(m, v, paint, texture, width, height);
            }
        },
        _ => {},
    }
}

proof fn lemma_show_mirrors(m: Model, w: Screen, reply: Reply)
    requires
        m.wf(),
        mirrors(m, w),
        m.expects(reply),
        plausible(w, m.request(), reply),
        m.stage is Buffer || m.stage is Show,
    ensures
        mirrors(step(m, reply).model, screen_after(m, w, reply)),
{
    let t = step(m, reply);
    let v = called(w, m.request(), reply);
    let x = done(v, t.effects);
    lemma_done_none(v);
    match m.stage {
        Stage::Buffer { paint, texture } => {
            assert(m.reg.has(paint.surface));
            assert(m.surface(paint.surface).wf());
            assert(visual_at(m.reg, paint.surface, paint.slot) is Some);
            if let Some(buffer) = object(reply) {
                let copy = Effect::CopyResource {
                    context: m.devices->0.d3d_context,
                    target: buffer,
                    source: texture,
                };
                let wait = Effect::AwaitCopy {
                    device: m.devices->0.d3d_device,
                    context: m.devices->0.d3d_context,
                };
                lemma_done_one(v, copy);
                lemma_done_push(v, seq![copy], wait);
                assert(seq![copy].push(wait) =~= seq![copy, wait]);
                assert(x == effected(effected(v, copy), wait));
            }
        },
        Stage::Show { paint, .. } => {
            let commit = Effect::Commit { device: m.devices->0.dcomp_device };
            lemma_done_one(v, commit);
        },
        _ => {},
    }
    assert(grows(w, x));
    lemma_agrees_grows(m, t.model, w, x);
}

/// Nothing but content and children differs.
spec fn same_objects(w: Screen, v: Screen) -> bool {
    v == (Screen { content: v.content, children: v.children, ..w })
}

proof fn lemma_detach_one(s: Surface, root: Option<Handle>, w: Screen)
    requires
        s.visual is Some ==> s.visual != root,
    ensures
        ({
            let v = done(w, s.detach_effects(root));
            &&& same_objects(w, v)
            &&& forall|h: Handle| #[trigger]
                v.content[h] == (if s.visual == Some(h) || s.popup_visual == Some(h) {
                    None
                } else {
                    w.content[h]
                })
            &&& forall|h: Handle|
                s.visual != Some(h) && root != Some(h) ==> #[trigger] v.children[h]
                    == w.children[h]
            &&& root is Some ==> v.children[root->0] == (if s.in_tree && s.visual is Some {
                less(w.children[root->0], s.visual->0)
            } else {
                w.children[root->0]
            })
        }),
{
    let a = s.popup_detach_effects();
    let b = s.visual_detach_effects(root);
    lemma_done_append(w, a, b);
    lemma_done_none(w);
    let u = done(w, a);
    if let Some(pv) = s.popup_visual {
        let empty = Effect::SetContent { visual: pv, content: None };
        match s.visual {
            Some(v) => {
                let take = Effect::RemoveVisual { parent: v, child: pv };
                lemma_done_one(w, take);
                lemma_done_push(w, seq![take], empty);
                assert(seq![take] + seq![empty] =~= seq![take].push(empty));
            },
            None => {
                lemma_done_one(w, empty);
                assert(Seq::<Effect>::empty() + seq![empty] =~= seq![empty]);
            },
        }
    }
    lemma_done_none(u);
    if let Some(v) = s.visual {
        let empty = Effect::SetContent { visual: v, content: None };
        if s.in_tree && root is Some {
            let take = Effect::RemoveVisual { parent: root->0, child: v };
            lemma_done_one(u, take);
            lemma_done_push(u, seq![take], empty);
            assert(seq![take] + seq![empty] =~= seq![take].push(empty));
        } else {
            lemma_done_one(u, empty);
            assert(Seq::<Effect>::empty() + seq![empty] =~= seq![empty]);
        }
    }
}

/// Whether a visual belongs to one of these surfaces.
spec fn hung_by(ids: Seq<SurfaceId>, surfaces: Map<SurfaceId, Surface>, h: Handle) -> bool {
    exists|j: int|
        0 <= j < ids.len() && (surfaces[#[trigger] ids[j]].visual == Some(h)
            || surfaces[ids[j]].popup_visual == Some(h))
}

proof fn lemma_detach_all(
    ids: Seq<SurfaceId>,
    surfaces: Map<SurfaceId, Surface>,
    root: Option<Handle>,
    w: Screen,
)
    requires
        forall|j: int|
            0 <= j < ids.len() ==> surfaces[#[trigger] ids[j]].visual is Some
                ==> surfaces[ids[j]].visual != root,
    ensures
        ({
            let v = done(w, detach_each(ids, surfaces, root));
            &&& same_objects(w, v)
            &&& forall|h: Handle|
                hung_by(ids, surfaces, h) ==> (#[trigger] v.content[h]) is None
            &&& forall|h: Handle|
                !hung_by(ids, surfaces, h) ==> #[trigger] v.content[h] == w.content[h]
            &&& root is Some ==> forall|x: Handle| #[trigger]
                v.children[root->0].contains(x) ==> w.children[root->0].contains(x)
                    && forall|j: int|
                    0 <= j < ids.len() && surfaces[#[trigger] ids[j]].in_tree
                        ==> surfaces[ids[j]].visual != Some(x)
        }),
    decreases ids.len(),
{
    lemma_done_none(w);
    if ids.len() > 0 {
        let front = ids.drop_last();
        let s = surfaces[ids.last()];
        assert(forall|j: int| 0 <= j < front.len() ==> #[trigger] front[j] == ids[j]);
        lemma_detach_all(front, surfaces, root, w);
        let u = done(w, detach_each(front, surfaces, root));
        lemma_done_append(w, detach_each(front, surfaces, root), s.detach_effects(root));
        assert(s == surfaces[ids[ids.len() - 1]]);
        lemma_detach_one(s, root, u);
        let v = done(w, detach_each(ids, surfaces, root));
        assert forall|h: Handle| #[trigger] hung_by(ids, surfaces, h) <==> hung_by(
            front,
            surfaces,
            h,
        ) || s.visual == Some(h) || s.popup_visual == Some(h) by {
            if hung_by(front, surfaces, h) {
                let j = choose|j: int|
                    0 <= j < front.len() && (surfaces[#[trigger] front[j]].visual == Some(h)
                        || surfaces[front[j]].popup_visual == Some(h));
                assert(surfaces[ids[j]].visual == Some(h) || surfaces[ids[j]].popup_visual == Some(
                    h,
                ));
            }
            if hung_by(ids, surfaces, h) {
                let j = choose|j: int|
                    0 <= j < ids.len() && (surfaces[#[trigger] ids[j]].visual == Some(h)
                        || surfaces[ids[j]].popup_visual == Some(h));
                if j < front.len() {
                    assert(front[j] == ids[j]);
                }
            }
        }
        if let Some(r) = root {
            assert forall|x: Handle| #[trigger]
                v.children[r].contains(x) implies w.children[r].contains(x) && forall|j: int|
                0 <= j < ids.len() && surfaces[#[trigger] ids[j]].in_tree
                    ==> surfaces[ids[j]].visual != Some(x) by {
                if s.in_tree && s.visual is Some {
                    lemma_less(u.children[r], s.visual->0, x);
                }
                assert(u.children[r].contains(x));
                assert forall|j: int|
                    0 <= j < ids.len() && surfaces[#[trigger] ids[j]].in_tree implies
                    surfaces[ids[j]].visual != Some(x) by {
                    if j < front.len() {
                        assert(front[j] == ids[j]);
                    }
                }
            }
        }
    }
}

proof fn lemma_less(list: Seq<Handle>, h: Handle, x: Handle)
    ensures
        less(list, h).contains(x) <==> list.contains(x) && x != h,
{
    lemma_filtered(list, other_than(h));
}

/// A rebuild takes everything off the screen.
proof fn lemma_rebuild_mirrors(m: Model, w: Screen, fx: Seq<Effect>, hwnd: Hwnd, after: After)
    requires
        m.core_wf(),
        agrees(m, done(w, fx)),
    ensures
        mirrors(
            rebuild(m, hwnd, fx, after).model,
            done(w, rebuild(m, hwnd, fx, after).effects),
        ),
{
    let u = done(w, fx);
    let t = rebuild(m, hwnd, fx, after);
    let all = detach_each(m.reg.live, m.reg.surfaces, m.root());
    lemma_done_append(w, fx, all);
    assert forall|j: int|
        0 <= j < m.reg.live.len() && m.reg.surfaces[#[trigger] m.reg.live[j]].visual is Some
        implies m.reg.surfaces[m.reg.live[j]].visual != m.root() by {
        let id = m.reg.live[j];
        assert(m.reg.live.contains(id));
        assert(visual_at(m.reg, id, Slot::Main) is Some);
        if m.devices is Some {
            lemma_root_known(u, m.devices->0);
        }
    }
    lemma_detach_all(m.reg.live, m.reg.surfaces, m.root(), u);
    let v = done(u, all);
    let reg = all_detached(m.reg);
    assert(t.model.reg == reg);
    assert forall|id: SurfaceId, slot: Slot| #[trigger] visual_at(reg, id, slot) is None by {
        if m.reg.surfaces.contains_key(id) {
            assert(reg.surfaces[id] == m.reg.surfaces[id].detached());
        }
    }
    assert forall|a: SurfaceId, p: Slot| #[trigger] chain_at(reg, a, p) is None by {
        if m.reg.surfaces.contains_key(a) {
            assert(reg.surfaces[a] == m.reg.surfaces[a].detached());
        }
    }
    assert forall|h: Handle| v.made.contains_key(h) implies (#[trigger] v.content[h]) is None by {
        if !hung_by(m.reg.live, m.reg.surfaces, h) && u.content[h] is Some {
            let (id, slot) = choose|id: SurfaceId, slot: Slot|
                #![trigger visual_at(m.reg, id, slot)]
                visual_at(m.reg, id, slot) == Some(h);
            assert(m.reg.live.contains(id));
            let j = choose|j: int| 0 <= j < m.reg.live.len() && m.reg.live[j] == id;
            assert(m.reg.surfaces[m.reg.live[j]].visual == Some(h)
                || m.reg.surfaces[m.reg.live[j]].popup_visual == Some(h));
        }
    }
}

proof fn lemma_recovered_mirrors(m: Model, w: Screen, fx: Seq<Effect>, answer: Answer)
    requires
        m.core_wf(),
        agrees(m, done(w, fx)),
    ensures
        mirrors(recovered(m, fx, answer).model, done(w, recovered(m, fx, answer).effects)),
{
    lemma_rebuild_mirrors(m, w, fx, m.hwnd, After::Finish(answer));
    lemma_agrees_grows(m, m.answers(fx, answer).model, done(w, fx), done(w, fx));
}

proof fn lemma_show_check_mirrors(m: Model, w: Screen, reply: Reply)
    requires
        m.wf(),
        mirrors(m, w),
        m.expects(reply),
        m.stage is ShowCheck,
    ensures
        mirrors(step(m, reply).model, screen_after(m, w, reply)),
{
    assert(called(w, m.request(), reply) == w);
    match m.stage {
        Stage::ShowCheck { paint, copied } => {
            let commit = Effect::Commit { device: m.devices->0.dcomp_device };
            let fx = if copied {
                seq![commit]
            } else {
                seq![]
            };
            lemma_done_one(w, commit);
            lemma_done_none(w);
            lemma_recovered_mirrors(m, w, fx, paint_answer(paint.slot, true));
            lemma_agrees_grows(m, m.answers(fx, paint_answer(paint.slot, false)).model, w, w);
        },
        _ => {},
    }
}

/// Whether two surfaces hang in the same way.
spec fn same_visuals(a: Surface, b: Surface) -> bool {
    a.visual == b.visual && a.popup_visual == b.popup_visual && a.in_tree == b.in_tree
}

proof fn lemma_same_tree(reg: Registry, after: Registry, root: Handle, w: Screen)
    requires
        after.stack == reg.stack,
        forall|id: SurfaceId| #[trigger]
            after.surfaces.contains_key(id) <==> reg.surfaces.contains_key(id),
        forall|id: SurfaceId| #[trigger]
            reg.surfaces.contains_key(id) ==> same_visuals(
                reg.surfaces[id],
                after.surfaces[id],
            ),
    ensures
        tree(reg, root, w) ==> tree(after, root, w),
        forall|id: SurfaceId, slot: Slot| #[trigger]
            visual_at(after, id, slot) == visual_at(reg, id, slot),
        nested(reg, w) ==> nested(after, w),
{
    assert forall|id: SurfaceId, slot: Slot| #[trigger] visual_at(after, id, slot) == visual_at(
        reg,
        id,
        slot,
    ) by {
        assert(after.surfaces.contains_key(id) <==> reg.surfaces.contains_key(id));
    }
    assert forall|id: SurfaceId, v: Handle| #[trigger] hangs(after, id, v) <==> hangs(
        reg,
        id,
        v,
    ) by {
        assert(visual_at(after, id, Slot::Main) == visual_at(reg, id, Slot::Main));
        if visual_at(reg, id, Slot::Main) is Some {
            assert(reg.surfaces.contains_key(id));
        }
    }
    if tree(reg, root, w) {
        let list = w.children[root];
        assert forall|v: Handle| #[trigger] list.contains(v) implies exists|id: SurfaceId|
            #[trigger] hangs(after, id, v) by {
            let id = choose|id: SurfaceId| #[trigger] hangs(reg, id, v);
            assert(hangs(after, id, v));
        }
        assert forall|i: int|
            0 <= i < after.stack.len() && visual_at(
                after,
                #[trigger] after.stack[i],
                Slot::Main,
            ) is Some implies after.surfaces[after.stack[i]].in_tree by {
            let id = reg.stack[i];
            assert(visual_at(reg, id, Slot::Main) is Some);
            assert(reg.surfaces.contains_key(id));
        }
    }
    if nested(reg, w) {
        assert forall|id: SurfaceId|
            #![trigger visual_at(after, id, Slot::Main)]
            visual_at(after, id, Slot::Main) is Some implies w.children[visual_at(
            after,
            id,
            Slot::Main,
        )->0] == (match visual_at(after, id, Slot::Popup) {
            Some(popup) => seq![popup],
            None => Seq::empty(),
        }) by {
            assert(visual_at(reg, id, Slot::Main) is Some);
            assert(visual_at(after, id, Slot::Popup) == visual_at(reg, id, Slot::Popup));
        }
    }
}

/// The swap chain in one slot changes, in the state and on the screen.
proof fn lemma_rehang(m: Model, n: Model, w: Screen, v: Screen, id: SurfaceId, slot: Slot)
    requires
        agrees(m, w),
        m.reg.wf(),
        m.reg.has(id),
        n.devices == m.devices,
        n.hwnd == m.hwnd,
        n.reg == m.reg.put(id, n.reg.surfaces[id]),
        same_visuals(m.reg.surfaces[id], n.reg.surfaces[id]),
        n.reg.surfaces[id].wf(),
        forall|q: Slot|
            q != slot ==> #[trigger] chain_at(n.reg, id, q) == chain_at(m.reg, id, q) && size_at(
                n.reg,
                id,
                q,
            ) == size_at(m.reg, id, q),
        v == (Screen { content: v.content, sizes: v.sizes, ..w }),
        forall|h: Handle|
            visual_at(m.reg, id, slot) != Some(h) ==> #[trigger] v.content[h] == w.content[h],
        visual_at(m.reg, id, slot) is Some ==> v.content[visual_at(m.reg, id, slot)->0]
            == chain_at(n.reg, id, slot),
        forall|h: Handle|
            chain_at(n.reg, id, slot) != Some(h) ==> #[trigger] v.sizes[h] == w.sizes[h],
        chain_at(n.reg, id, slot) is Some ==> m.devices is Some && chain_made(
            w,
            m.devices->0,
            chain_at(n.reg, id, slot)->0,
        ) && v.sizes[chain_at(n.reg, id, slot)->0] == (
            size_at(n.reg, id, slot).0 as u32,
            size_at(n.reg, id, slot).1 as u32,
        ) && forall|b: SurfaceId, q: Slot| #[trigger]
            chain_at(m.reg, b, q) == chain_at(n.reg, id, slot) ==> b == id && q == slot,
    ensures
        agrees(n, v),
{
    let reg = m.reg;
    let after = n.reg;
    assert(forall|x: SurfaceId| #[trigger]
        after.surfaces.contains_key(x) <==> reg.surfaces.contains_key(x));
    if m.devices is Some {
        lemma_same_tree(reg, after, m.devices->0.dcomp_root, w);
        assert(v.children == w.children);
        assert(tree(after, m.devices->0.dcomp_root, v));
        let d = m.devices->0;
        let (base, dxgi_device, adapter) = choose|
            base: Handle,
            dxgi_device: Handle,
            adapter: Handle,
        | #[trigger]
            built_on(w, d, base, dxgi_device, adapter);
        assert(built_on(v, d, base, dxgi_device, adapter));
    } else {
        lemma_same_tree(reg, after, 0, w);
    }
    assert(nested(after, w));
    assert(nested(after, v));
    assert forall|x: SurfaceId, q: Slot| x != id || q != slot implies #[trigger] chain_at(
        after,
        x,
        q,
    ) == chain_at(reg, x, q) by {
        if x != id {
            assert(after.surfaces[x] == reg.surfaces[x]);
        }
    }
    assert(apart(after)) by {
        assert forall|a: SurfaceId, p: Slot, b: SurfaceId, q: Slot|
            #![trigger visual_at(after, a, p), visual_at(after, b, q)]
            visual_at(after, a, p) is Some && visual_at(after, a, p) == visual_at(
                after,
                b,
                q,
            ) implies a == b && p == q by {
            assert(visual_at(after, a, p) == visual_at(reg, a, p));
            assert(visual_at(after, b, q) == visual_at(reg, b, q));
        }
    }
    assert forall|x: SurfaceId, q: Slot|
        #![trigger visual_at(after, x, q)]
        visual_at(after, x, q) is Some implies m.devices is Some && visual_made(
        v,
        m.devices->0,
        visual_at(after, x, q)->0,
    ) && v.content[visual_at(after, x, q)->0] == chain_at(after, x, q) && (chain_at(
        after,
        x,
        q,
    ) is Some ==> chain_made(v, m.devices->0, chain_at(after, x, q)->0) && v.sizes[chain_at(
        after,
        x,
        q,
    )->0] == (size_at(after, x, q).0 as u32, size_at(after, x, q).1 as u32)) by {
        assert(visual_at(after, x, q) == visual_at(reg, x, q));
        if x == id && q == slot {
        } else {
            assert(visual_at(reg, x, q) != visual_at(reg, id, slot));
            assert(chain_at(after, x, q) == chain_at(reg, x, q));
            if x != id {
                assert(after.surfaces[x] == reg.surfaces[x]);
            }
            assert(size_at(after, x, q) == size_at(reg, x, q));
        }
    }
    assert forall|h: Handle|
        v.made.contains_key(h) && (#[trigger] v.content[h]) is Some implies exists|
        x: SurfaceId,
        q: Slot,
    |
        #![trigger visual_at(after, x, q)]
        visual_at(after, x, q) == Some(h) by {
        if visual_at(reg, id, slot) == Some(h) {
            assert(visual_at(after, id, slot) == Some(h));
        } else {
            assert(w.content[h] is Some);
            let (x, q) = choose|x: SurfaceId, q: Slot|
                #![trigger visual_at(reg, x, q)]
                visual_at(reg, x, q) == Some(h);
            assert(visual_at(after, x, q) == Some(h));
        }
    }
}

proof fn lemma_fit_resize_mirrors(m: Model, w: Screen, f: Fit, code: i32)
    requires
        m.wf(),
        mirrors(m, w),
        m.stage == Stage::FitResize(f),
    ensures
        ({
            let t = fit_resized(m, f, code);
            mirrors(t.model, done(called(w, m.request(), Reply::Status(code)), t.effects))
        }),
{
    let v = called(w, m.request(), Reply::Status(code));
    let t = fit_resized(m, f, code);
    assert(m.reg.has(f.surface));
    assert(m.surface(f.surface).wf());
    assert(visual_at(m.reg, f.surface, f.slot) is Some);
    let c = chain_at(m.reg, f.surface, f.slot)->0;
    if code < 0 {
        lemma_done_none(w);
        lemma_agrees_grows(m, t.model, w, w);
    } else {
        let n = m.put(f.surface, m.surface(f.surface).with_size(f.slot, f.width, f.height));
        assert(v.sizes == w.sizes.insert(c, (f.width as u32, f.height as u32)));
        assert(chain_at(n.reg, f.surface, f.slot) == Some(c));
        lemma_rehang(m, n, w, v, f.surface, f.slot);
        if let FitFor::Present { source, texture } = f.purpose {
            assert(texture != c);
            assert(holds_frame(v, m.devices->0, source, texture));
        }
        lemma_put_wf(m.reg, f.surface, n.surface(f.surface));
        lemma_fitted_mirrors(n, v, f);
    }
}

proof fn lemma_put_wf(reg: Registry, id: SurfaceId, s: Surface)
    requires
        reg.wf(),
        reg.has(id),
        s.wf(),
    ensures
        reg.put(id, s).wf(),
{
}

proof fn lemma_emptied(m: Model, w: Screen, id: SurfaceId, slot: Slot, s: Surface)
    requires
        agrees(m, w),
        m.reg.wf(),
        m.reg.has(id),
        s.wf(),
        same_visuals(m.surface(id), s),
        visual_at(m.reg, id, slot) is Some,
        chain_at(m.reg.put(id, s), id, slot) is None,
        forall|q: Slot|
            q != slot ==> #[trigger] chain_at(m.reg.put(id, s), id, q) == chain_at(m.reg, id, q)
                && size_at(m.reg.put(id, s), id, q) == size_at(m.reg, id, q),
    ensures
        agrees(
            m.put(id, s),
            effected(
                w,
                Effect::SetContent { visual: visual_at(m.reg, id, slot)->0, content: None },
            ),
        ),
{
    let n = m.put(id, s);
    let e = Effect::SetContent { visual: visual_at(m.reg, id, slot)->0, content: None };
    lemma_rehang(m, n, w, effected(w, e), id, slot);
}

proof fn lemma_fit_check_mirrors(m: Model, w: Screen, f: Fit, code: i32)
    requires
        m.wf(),
        mirrors(m, w),
        m.stage == Stage::FitCheck(f),
    ensures
        ({
            let t = fit_checked(m, f, code);
            mirrors(t.model, done(called(w, m.request(), Reply::Status(code)), t.effects))
        }),
{
    let t = fit_checked(m, f, code);
    assert(called(w, m.request(), Reply::Status(code)) == w);
    assert(m.reg.has(f.surface));
    assert(m.surface(f.surface).wf());
    assert(visual_at(m.reg, f.surface, f.slot) is Some);
    let s = m.surface(f.surface).with_chain(f.slot, None);
    let n = m.put(f.surface, s);
    let empty = Effect::SetContent {
        visual: m.surface(f.surface).visual_of(f.slot)->0,
        content: None,
    };
    lemma_emptied(m, w, f.surface, f.slot, s);
    let v = effected(w, empty);
    lemma_done_one(w, empty);
    let commit = Effect::Commit { device: m.devices->0.dcomp_device };
    lemma_done_push(w, seq![empty], commit);
    lemma_put_wf(m.reg, f.surface, s);
    assert(forall|x: SurfaceId| #[trigger] n.reg.has(x) <==> m.reg.has(x));
    assert(n.core_wf());
    lemma_recovered_mirrors(n, w, seq![empty].push(commit), Answer::Unit);
    lemma_recovered_mirrors(n, w, seq![empty], paint_answer(f.slot, false));
    let u = n.asks(seq![empty], Stage::FitCreate(f));
    lemma_agrees_grows(n, u.model, v, v);
}

proof fn lemma_fit_create_mirrors(m: Model, w: Screen, f: Fit, reply: Reply)
    requires
        m.wf(),
        mirrors(m, w),
        m.stage == Stage::FitCreate(f),
        m.expects(reply),
        plausible(w, m.request(), reply),
    ensures
        ({
            let t = fit_created(m, f, object(reply));
            mirrors(t.model, done(called(w, m.request(), reply), t.effects))
        }),
{
    let t = fit_created(m, f, object(reply));
    let v = called(w, m.request(), reply);
    assert(m.reg.has(f.surface));
    assert(m.surface(f.surface).wf());
    assert(visual_at(m.reg, f.surface, f.slot) is Some);
    assert(grows(w, v));
    lemma_agrees_grows(m, m, w, v);
    if let FitFor::Present { source, texture } = f.purpose {
        assert(holds_frame(v, m.devices->0, source, texture));
    }
    match object(reply) {
        None => {
            lemma_fitted_mirrors(m, v, f);
        },
        Some(chain) => {
            let s = m.surface(f.surface).with_chain(f.slot, Some(chain)).with_size(
                f.slot,
                f.width,
                f.height,
            );
            let n = m.put(f.surface, s);
            let visual = m.surface(f.surface).visual_of(f.slot)->0;
            let bind = Effect::SetContent { visual, content: Some(chain) };
            let x = effected(v, bind);
            assert(chain_at(n.reg, f.surface, f.slot) == Some(chain));
            assert forall|b: SurfaceId, q: Slot| #[trigger]
                chain_at(m.reg, b, q) != Some(chain) by {
                if chain_at(m.reg, b, q) is Some {
                    assert(m.surface(b).wf());
                    assert(visual_at(m.reg, b, q) is Some);
                }
            }
            lemma_rehang(m, n, v, x, f.surface, f.slot);
            if let FitFor::Present { source, texture } = f.purpose {
                assert(holds_frame(x, m.devices->0, source, texture));
            }
            lemma_put_wf(m.reg, f.surface, s);
            lemma_fitted_mirrors(n, x, f);
            let u = fitted(n, seq![], f);
            lemma_done_one(v, bind);
            lemma_done_append(v, seq![bind], u.effects);
            assert(t.effects =~= seq![bind] + u.effects);
            assert(t.model =~= u.model);
        },
    }
}

proof fn lemma_agrees_children(m: Model, w: Screen, v: Screen)
    requires
        agrees(m, w),
        v == (Screen { children: v.children, ..w }),
        forall|id: SurfaceId|
            #![trigger visual_at(m.reg, id, Slot::Main)]
            visual_at(m.reg, id, Slot::Main) is Some ==> v.children[visual_at(
                m.reg,
                id,
                Slot::Main,
            )->0] == w.children[visual_at(m.reg, id, Slot::Main)->0],
        m.devices is Some ==> v.children[m.devices->0.dcomp_root]
            == w.children[m.devices->0.dcomp_root],
    ensures
        agrees(m, v),
{
    if let Some(d) = m.devices {
        let (base, dxgi_device, adapter) = choose|
            base: Handle,
            dxgi_device: Handle,
            adapter: Handle,
        | #[trigger]
            built_on(w, d, base, dxgi_device, adapter);
        assert(built_on(v, d, base, dxgi_device, adapter));
    }
}

proof fn lemma_nesting(w: Screen, visual: Handle, popup: Option<Handle>)
    requires
        w.children[visual] == Seq::<Handle>::empty(),
    ensures
        ({
            let v = done(w, nest_popup(visual, popup));
            &&& v == (Screen { children: v.children, ..w })
            &&& v.children[visual] == (match popup {
                Some(pv) => seq![pv],
                None => Seq::empty(),
            })
            &&& forall|h: Handle| h != visual ==> #[trigger] v.children[h] == w.children[h]
        }),
{
    lemma_done_none(w);
    if let Some(pv) = popup {
        lemma_done_one(
            w,
            Effect::AddVisual { parent: visual, child: pv, insert_above: true, reference: None },
        );
        assert(Seq::<Handle>::empty().push(pv) =~= seq![pv]);
        assert(seq![pv] + Seq::<Handle>::empty() =~= seq![pv]);
    }
}

proof fn lemma_alloc_mirrors(m: Model, w: Screen, reply: Reply)
    requires
        m.wf(),
        mirrors(m, w),
        m.expects(reply),
        plausible(w, m.request(), reply),
        m.stage is AllocVisual || m.stage is AllocPopup,
    ensures
        mirrors(step(m, reply).model, screen_after(m, w, reply)),
{
    let t = step(m, reply);
    let v = called(w, m.request(), reply);
    let d = m.devices->0;
    lemma_done_none(v);
    assert(grows(w, v));
    lemma_agrees_grows(m, m, w, v);
    lemma_agrees_grows(m, t.model, w, v);
    lemma_root_known(w, d);
    match m.stage {
        Stage::AllocPopup { visual } => {
            let popup = object(reply);
            assert(w.made.contains_key(visual));
            lemma_nesting(v, visual, popup);
            let x = done(v, nest_popup(visual, popup));
            lemma_agrees_children(t.model, v, x);
            assert forall|id: SurfaceId, slot: Slot|
                popup is Some implies #[trigger] visual_at(m.reg, id, slot) != popup by {
                if visual_at(m.reg, id, slot) is Some {
                    assert(visual_made(w, d, visual_at(m.reg, id, slot)->0));
                }
            }
        },
        _ => {
            assert forall|id: SurfaceId, slot: Slot| #[trigger] visual_at(m.reg, id, slot) is Some
                implies w.made.contains_key(visual_at(m.reg, id, slot)->0) by {
                assert(visual_made(w, d, visual_at(m.reg, id, slot)->0));
            }
        },
    }
}

/// A list with one more at one of its ends keeps its order.
proof fn lemma_list_added(list: Seq<Handle>, after: Seq<Handle>, x: Handle)
    requires
        list.no_duplicates(),
        !list.contains(x),
        after == list.push(x) || after == seq![x] + list,
    ensures
        after.no_duplicates(),
        forall|h: Handle| #[trigger] after.contains(h) <==> list.contains(h) || h == x,
        forall|a: Handle, b: Handle| #[trigger]
            before(list, a, b) ==> before(after, a, b),
{
    let by: int = if after == list.push(x) {
        0
    } else {
        1
    };
    assert(forall|k: int| 0 <= k < list.len() ==> #[trigger] after[k + by] == list[k]);
    let at: int = if by == 0 {
        list.len() as int
    } else {
        0
    };
    assert(after[at] == x);
    assert forall|h: Handle| #[trigger] after.contains(h) <==> list.contains(h) || h == x by {
        if after.contains(h) {
            let k = choose|k: int| 0 <= k < after.len() && after[k] == h;
            if k != at {
                assert(after[(k - by) + by] == list[k - by]);
                assert(list[k - by] == h);
            }
        }
        if list.contains(h) {
            let k = choose|k: int| 0 <= k < list.len() && list[k] == h;
            assert(after[k + by] == h);
        }
    }
    assert forall|a: Handle, b: Handle| #[trigger] before(list, a, b) implies before(
        after,
        a,
        b,
    ) by {
        let (i, j) = choose|i: int, j: int|
            0 <= i < j < list.len() && #[trigger] list[i] == a && #[trigger] list[j] == b;
        assert(after[i + by] == a && after[j + by] == b);
    }
    assert forall|i: int, j: int|
        0 <= i < after.len() && 0 <= j < after.len() && i != j implies after[i] != after[j] by {
        if i != at {
            assert(after[(i - by) + by] == list[i - by]);
            assert(list.contains(list[i - by]));
        }
        if j != at {
            assert(after[(j - by) + by] == list[j - by]);
            assert(list.contains(list[j - by]));
        }
    }
}

proof fn lemma_allocated_mirrors(m: Model, w: Screen, reply: Reply)
    requires
        m.wf(),
        mirrors(m, w),
        m.expects(reply),
        m.stage is AllocAttach,
    ensures
        mirrors(step(m, reply).model, screen_after(m, w, reply)),
{
    let t = step(m, reply);
    let n = t.model;
    let d = m.devices->0;
    let root = d.dcomp_root;
    let v = called(w, m.request(), reply);
    let visual = m.stage->AllocAttach_visual;
    let popup = m.stage->AllocAttach_popup;
    let code = reply->Status_0;
    let id = m.next_id;
    lemma_done_one(v, Effect::Commit { device: d.dcomp_device });
    assert(screen_after(m, w, reply) == v);
    assert(!m.reg.has(id));
    lemma_root_known(w, d);
    assert(visual != root);
    let (base, dxgi_device, adapter) = choose|base: Handle, dxgi_device: Handle, adapter: Handle|
        #[trigger] built_on(w, d, base, dxgi_device, adapter);
    assert(built_on(v, d, base, dxgi_device, adapter));
    assert(visual_at(n.reg, id, Slot::Main) == Some(visual));
    assert(visual_at(n.reg, id, Slot::Popup) == popup);
    assert forall|x: SurfaceId, q: Slot| x != id implies #[trigger] visual_at(n.reg, x, q)
        == visual_at(m.reg, x, q) && chain_at(n.reg, x, q) == chain_at(m.reg, x, q) && (m.reg.has(
        x,
    ) ==> size_at(n.reg, x, q) == size_at(m.reg, x, q)) by {}
    assert forall|x: SurfaceId, q: Slot| x != id implies #[trigger] chain_at(n.reg, x, q)
        == chain_at(m.reg, x, q) by {}
    assert forall|q: Slot| #[trigger] chain_at(n.reg, id, q) is None by {}
    assert(apart(n.reg)) by {
        assert forall|a: SurfaceId, p: Slot, b: SurfaceId, q: Slot|
            #![trigger visual_at(n.reg, a, p), visual_at(n.reg, b, q)]
            visual_at(n.reg, a, p) is Some && visual_at(n.reg, a, p) == visual_at(
                n.reg,
                b,
                q,
            ) implies a == b && p == q by {
            if a != id {
                assert(visual_at(n.reg, a, p) == visual_at(m.reg, a, p));
            }
            if b != id {
                assert(visual_at(n.reg, b, q) == visual_at(m.reg, b, q));
            }
        }
    }
    assert(pictures(n.reg, n.devices, v)) by {
        assert forall|x: SurfaceId, q: Slot| #[trigger] visual_at(n.reg, x, q) is Some implies
            visual_made(v, d, visual_at(n.reg, x, q)->0) && v.content[visual_at(
            n.reg,
            x,
            q,
        )->0] == chain_at(n.reg, x, q) && (chain_at(n.reg, x, q) is Some ==> chain_made(
            v,
            d,
            chain_at(n.reg, x, q)->0,
        ) && v.sizes[chain_at(n.reg, x, q)->0] == (
            size_at(n.reg, x, q).0 as u32,
            size_at(n.reg, x, q).1 as u32,
        )) by {
            if x != id {
                assert(visual_at(n.reg, x, q) == visual_at(m.reg, x, q));
                assert(m.reg.has(x));
            }
        }
    }
    assert(no_leftovers(n.reg, v)) by {
        assert forall|h: Handle|
            v.made.contains_key(h) && (#[trigger] v.content[h]) is Some implies exists|
            x: SurfaceId,
            q: Slot,
        |
            #![trigger visual_at(n.reg, x, q)]
            visual_at(n.reg, x, q) == Some(h) by {
            assert(w.content[h] is Some);
            let (x, q) = choose|x: SurfaceId, q: Slot|
                #![trigger visual_at(m.reg, x, q)]
                visual_at(m.reg, x, q) == Some(h);
            assert(m.reg.has(x));
            assert(visual_at(n.reg, x, q) == Some(h));
        }
    }
    assert(nested(n.reg, v)) by {
        assert forall|x: SurfaceId| #[trigger] visual_at(n.reg, x, Slot::Main) is Some implies
            v.children[visual_at(n.reg, x, Slot::Main)->0] == (match visual_at(
            n.reg,
            x,
            Slot::Popup,
        ) {
            Some(pv) => seq![pv],
            None => Seq::empty(),
        }) by {
            if x != id {
                assert(visual_at(n.reg, x, Slot::Main) == visual_at(m.reg, x, Slot::Main));
                assert(visual_at(n.reg, x, Slot::Popup) == visual_at(m.reg, x, Slot::Popup));
                assert(visual_made(w, d, visual_at(m.reg, x, Slot::Main)->0));
            }
        }
    }
    assert(tree(n.reg, root, v)) by {
        let list = w.children[root];
        let after = v.children[root];
        assert(!list.contains(visual)) by {
            if list.contains(visual) {
                let x = choose|x: SurfaceId| #[trigger] hangs(m.reg, x, visual);
                assert(visual_at(m.reg, x, Slot::Main) == Some(visual));
            }
        }
        if code >= 0 {
            lemma_list_added(list, after, visual);
        }
        assert forall|x: SurfaceId, h: Handle| #[trigger] hangs(n.reg, x, h) <==> hangs(
            m.reg,
            x,
            h,
        ) || (x == id && h == visual && code >= 0) by {
            if x != id {
                assert(visual_at(n.reg, x, Slot::Main) == visual_at(m.reg, x, Slot::Main));
            }
        }
        assert forall|h: Handle| #[trigger] after.contains(h) implies exists|x: SurfaceId|
            #[trigger] hangs(n.reg, x, h) by {
            if list.contains(h) {
                let x = choose|x: SurfaceId| #[trigger] hangs(m.reg, x, h);
                assert(hangs(n.reg, x, h));
            } else {
                assert(hangs(n.reg, id, h));
            }
        }
        assert forall|x: SurfaceId, h: Handle| #[trigger] hangs(n.reg, x, h) implies
            after.contains(h) by {
            if hangs(m.reg, x, h) {
                assert(list.contains(h));
            }
        }
        assert forall|i: int| 0 <= i < n.reg.stack.len() && visual_at(
            n.reg,
            #[trigger] n.reg.stack[i],
            Slot::Main,
        ) is Some implies n.reg.surfaces[n.reg.stack[i]].in_tree by {
            assert(m.reg.has(m.reg.stack[i]));
            assert(visual_at(m.reg, m.reg.stack[i], Slot::Main) is Some);
        }
        assert forall|x: SurfaceId, y: SurfaceId| #[trigger]
            before(n.reg.stack, x, y) && visual_at(n.reg, x, Slot::Main) is Some && visual_at(
                n.reg,
                y,
                Slot::Main,
            ) is Some implies before(
            after,
            visual_at(n.reg, x, Slot::Main)->0,
            visual_at(n.reg, y, Slot::Main)->0,
        ) by {
            assert(before(m.reg.stack, x, y));
            assert(m.reg.has(x) && m.reg.has(y));
            assert(before(
                list,
                visual_at(m.reg, x, Slot::Main)->0,
                visual_at(m.reg, y, Slot::Main)->0,
            ));
        }
    }
}

/// An operation comes to its end, or waits on something that needs nothing.
proof fn lemma_still_mirrors(m: Model, n: Model, w: Screen)
    requires
        agrees(m, w),
        n.reg == m.reg,
        n.devices == m.devices,
        n.hwnd == m.hwnd,
        n.stage is Idle || n.stage is Open || n.stage is Upload || n.stage is Probe
            || n.stage is AllocVisual || (n.stage matches Stage::Judge { opened, .. }
            && opened is None),
    ensures
        mirrors(n, w),
{
    lemma_agrees_grows(m, n, w, w);
}

proof fn lemma_painting_mirrors(m: Model, w: Screen, fx: Seq<Effect>, paint: Paint)
    requires
        agrees(m, done(w, fx)),
    ensures
        mirrors(painting(m, fx, paint).model, done(w, painting(m, fx, paint).effects)),
{
    lemma_still_mirrors(m, painting(m, fx, paint).model, done(w, fx));
}

/// All that state and screen agree on while surfaces hang on these devices, but
/// for the tree.
spec fn furnished(m: Model, d: CompositorDevices, w: Screen) -> bool {
    &&& apart(m.reg)
    &&& pictures(m.reg, Some(d), w)
    &&& no_leftovers(m.reg, w)
    &&& nested(m.reg, w)
    &&& built(w, d)
    &&& d.hwnd == m.hwnd
}

proof fn lemma_furnished_grows(m: Model, d: CompositorDevices, w: Screen, v: Screen)
    requires
        furnished(m, d, w),
        grows(w, v),
    ensures
        furnished(m, d, v),
{
    lemma_pictures_grow(m.reg, Some(d), w, v);
    lemma_built_grows(w, v, d);
}

/// The surfaces show the same; only children of other visuals differ.
proof fn lemma_furnished_same(m: Model, n: Model, d: CompositorDevices, w: Screen, v: Screen)
    requires
        furnished(m, d, w),
        n.hwnd == m.hwnd,
        forall|id: SurfaceId, slot: Slot| #[trigger]
            visual_at(n.reg, id, slot) == visual_at(m.reg, id, slot) && chain_at(n.reg, id, slot)
                == chain_at(m.reg, id, slot) && (visual_at(m.reg, id, slot) is Some ==> size_at(
                n.reg,
                id,
                slot,
            ) == size_at(m.reg, id, slot)),
        forall|id: SurfaceId, slot: Slot| #[trigger]
            chain_at(n.reg, id, slot) == chain_at(m.reg, id, slot),
        v == (Screen { children: v.children, ..w }),
        forall|h: Handle|
            d.dcomp_root != h ==> #[trigger] v.children[h] == w.children[h],
    ensures
        furnished(n, d, v),
{
    lemma_root_known(w, d);
    let (base, dxgi_device, adapter) = choose|base: Handle, dxgi_device: Handle, adapter: Handle|
        #[trigger] built_on(w, d, base, dxgi_device, adapter);
    assert(built_on(v, d, base, dxgi_device, adapter));
    assert forall|h: Handle|
        v.made.contains_key(h) && (#[trigger] v.content[h]) is Some implies exists|
        x: SurfaceId,
        q: Slot,
    |
        #![trigger visual_at(n.reg, x, q)]
        visual_at(n.reg, x, q) == Some(h) by {
        assert(w.content[h] is Some);
        let (x, q) = choose|x: SurfaceId, q: Slot|
            #![trigger visual_at(m.reg, x, q)]
            visual_at(m.reg, x, q) == Some(h);
        assert(visual_at(n.reg, x, q) == Some(h));
    }
    assert forall|x: SurfaceId| #[trigger] visual_at(n.reg, x, Slot::Main) is Some implies
        v.children[visual_at(n.reg, x, Slot::Main)->0] == (match visual_at(
        n.reg,
        x,
        Slot::Popup,
    ) {
        Some(pv) => seq![pv],
        None => Seq::empty(),
    }) by {
        assert(visual_at(n.reg, x, Slot::Main) == visual_at(m.reg, x, Slot::Main));
        assert(visual_at(n.reg, x, Slot::Popup) == visual_at(m.reg, x, Slot::Popup));
        assert(visual_made(w, d, visual_at(m.reg, x, Slot::Main)->0));
    }
    assert forall|a: SurfaceId, p: Slot, b: SurfaceId, q: Slot|
        #![trigger visual_at(n.reg, a, p), visual_at(n.reg, b, q)]
        visual_at(n.reg, a, p) is Some && visual_at(n.reg, a, p) == visual_at(
            n.reg,
            b,
            q,
        ) implies a == b && p == q by {
        assert(visual_at(n.reg, a, p) == visual_at(m.reg, a, p));
        assert(visual_at(n.reg, b, q) == visual_at(m.reg, b, q));
    }
    assert forall|a: SurfaceId, p: Slot, b: SurfaceId, q: Slot|
        #![trigger chain_at(n.reg, a, p), chain_at(n.reg, b, q)]
        chain_at(n.reg, a, p) is Some && chain_at(n.reg, a, p) == chain_at(
            n.reg,
            b,
            q,
        ) implies a == b && p == q by {
        assert(chain_at(n.reg, a, p) == chain_at(m.reg, a, p));
        assert(chain_at(n.reg, b, q) == chain_at(m.reg, b, q));
    }
    assert forall|x: SurfaceId, q: Slot| #[trigger] visual_at(n.reg, x, q) is Some implies
        visual_made(v, d, visual_at(n.reg, x, q)->0) && v.content[visual_at(n.reg, x, q)->0]
        == chain_at(n.reg, x, q) && (chain_at(n.reg, x, q) is Some ==> chain_made(
        v,
        d,
        chain_at(n.reg, x, q)->0,
    ) && v.sizes[chain_at(n.reg, x, q)->0] == (
        size_at(n.reg, x, q).0 as u32,
        size_at(n.reg, x, q).1 as u32,
    )) by {
        assert(visual_at(n.reg, x, q) == visual_at(m.reg, x, q));
    }
}

proof fn lemma_tree_complete(reg: Registry, root: Handle, w: Screen)
    requires
        tree_so_far(reg, root, w),
    ensures
        tree(reg, root, w),
{
    let list = w.children[root];
    assert forall|v: Handle| #[trigger] list.contains(v) implies exists|id: SurfaceId| #[trigger]
        hangs(reg, id, v) by {
        let k = choose|k: int| 0 <= k < list.len() && list[k] == v;
        assert(hangs(reg, reg.stack[k], v));
    }
    assert forall|id: SurfaceId, v: Handle| #[trigger] hangs(reg, id, v) implies list.contains(
        v,
    ) by {
        let k = choose|k: int| 0 <= k < reg.stack.len() && reg.stack[k] == id;
        assert(hangs(reg, reg.stack[k], list[k]));
        assert(list[k] == v);
    }
    assert forall|x: SurfaceId, y: SurfaceId| #[trigger]
        before(reg.stack, x, y) && visual_at(reg, x, Slot::Main) is Some && visual_at(
            reg,
            y,
            Slot::Main,
        ) is Some implies before(
        list,
        visual_at(reg, x, Slot::Main)->0,
        visual_at(reg, y, Slot::Main)->0,
    ) by {
        let (i, j) = choose|i: int, j: int|
            0 <= i < j < reg.stack.len() && #[trigger] reg.stack[i] == x && #[trigger] reg.stack[j]
                == y;
        assert(hangs(reg, reg.stack[i], list[i]));
        assert(hangs(reg, reg.stack[j], list[j]));
    }
    assert forall|i: int| 0 <= i < reg.stack.len() && visual_at(
        reg,
        #[trigger] reg.stack[i],
        Slot::Main,
    ) is Some implies reg.surfaces[reg.stack[i]].in_tree by {
        assert(hangs(reg, reg.stack[i], list[i]));
    }
}

/// The visual of the surface on top of the stack.
spec fn top_visual(reg: Registry) -> Option<Handle> {
    if reg.stack.len() == 0 {
        None
    } else {
        visual_at(reg, reg.stack.last(), Slot::Main)
    }
}

proof fn lemma_attaching_mirrors(
    m: Model,
    w: Screen,
    fx: Seq<Effect>,
    purpose: AttachFor,
    from: int,
    d: CompositorDevices,
)
    requires
        furnished(m, d, done(w, fx)),
        tree_so_far(m.reg, d.dcomp_root, done(w, fx)),
        match purpose {
            AttachFor::Restack => m.devices == Some(d),
            AttachFor::Rebuild { devices, .. } => m.devices is None && devices == d,
        },
    ensures
        ({
            let t = attaching(m, fx, purpose, from, top_visual(m.reg));
            mirrors(t.model, done(w, t.effects))
        }),
{
    let u = done(w, fx);
    let t = attaching(m, fx, purpose, from, top_visual(m.reg));
    lemma_tree_complete(m.reg, d.dcomp_root, u);
    let commit = Effect::Commit { device: d.dcomp_device };
    lemma_done_push(w, fx, commit);
    if next_attachable(m.queue, m.reg.surfaces, from) >= m.queue.len() {
        let e = Model { queue: Seq::empty(), ..m };
        match purpose {
            AttachFor::Restack => {
                lemma_still_mirrors(e, t.model, u);
            },
            AttachFor::Rebuild { devices, after } => {
                let n = Model { devices: Some(devices), ..e };
                assert(agrees(n, u));
                match after {
                    After::Finish(_) => {
                        lemma_still_mirrors(n, t.model, u);
                    },
                    After::Paint(paint) => {
                        lemma_painting_mirrors(n, w, fx.push(commit), paint);
                    },
                }
            },
        }
    }
}

proof fn lemma_attach_mirrors(m: Model, w: Screen, reply: Reply)
    requires
        m.wf(),
        mirrors(m, w),
        m.expects(reply),
        plausible(w, m.request(), reply),
        m.stage is Attach,
    ensures
        mirrors(step(m, reply).model, screen_after(m, w, reply)),
{
    let d = in_service(m)->0;
    let root = d.dcomp_root;
    let v = called(w, m.request(), reply);
    lemma_done_none(v);
    assert(furnished(m, d, w));
    match m.stage {
        Stage::Attach { purpose, index, above } => {
            let code = reply->Status_0;
            assert(above == top_visual(m.reg));
            if code < 0 {
                lemma_attaching_mirrors(m, v, seq![], purpose, index + 1, d);
            } else {
                let id = m.queue[index as int];
                let s = m.surface(id);
                let child = s.visual->0;
                let n = Model { reg: m.reg.put(id, hooked(s)).stacked(id), ..m };
                let list = w.children[root];
                assert(!list.contains(child));
                assert(v.children[root] =~= list.push(child)) by {
                    if m.reg.stack.len() > 0 {
                        let last = list.len() - 1;
                        assert(hangs(m.reg, m.reg.stack[last], list[last]));
                        let k = list.index_of(above->0);
                        assert(list.contains(list[last]));
                        assert(list[k] == list[last]);
                        assert(k == last);
                    } else {
                        assert(list =~= Seq::empty());
                    }
                }
                lemma_furnished_same(m, n, d, w, v);
                lemma_hooked(m.reg, id, root, w, v);
                lemma_attaching_mirrors(n, v, seq![], purpose, index + 1, d);
            }
        },
        _ => {},
    }
}

proof fn lemma_hooked(reg: Registry, id: SurfaceId, root: Handle, w: Screen, v: Screen)
    requires
        reg.wf(),
        reg.has(id),
        visual_at(reg, id, Slot::Main) is Some,
        tree_so_far(reg, root, w),
        !w.children[root].contains(visual_at(reg, id, Slot::Main)->0),
        v.children[root] == w.children[root].push(visual_at(reg, id, Slot::Main)->0),
    ensures
        tree_so_far(reg.put(id, hooked(reg.surfaces[id])).stacked(id), root, v),
{
    let n = reg.put(id, hooked(reg.surfaces[id])).stacked(id);
    let list = w.children[root];
    let after = v.children[root];
    let child = visual_at(reg, id, Slot::Main)->0;
    assert forall|i: int| 0 <= i < after.len() implies hangs(
        n,
        #[trigger] n.stack[i],
        after[i],
    ) by {
        if i < list.len() {
            assert(hangs(reg, reg.stack[i], list[i]));
            assert(reg.has(reg.stack[i]));
        }
    }
    assert forall|x: SurfaceId, h: Handle| #[trigger] hangs(n, x, h) implies n.stack.contains(
        x,
    ) by {
        if x == id {
            assert(n.stack[reg.stack.len() as int] == x);
        } else {
            assert(hangs(reg, x, h));
            let k = choose|k: int| 0 <= k < reg.stack.len() && reg.stack[k] == x;
            assert(n.stack[k] == x);
        }
    }
    assert forall|i: int, j: int|
        0 <= i < after.len() && 0 <= j < after.len() && i != j implies after[i] != after[j] by {
        if i < list.len() {
            assert(list.contains(list[i]));
        }
        if j < list.len() {
            assert(list.contains(list[j]));
        }
    }
}

/// Nothing hangs under the root yet, and the surfaces from `index` on have no
/// visuals.
spec fn bare(m: Model, d: CompositorDevices, index: int, w: Screen) -> bool {
    &&& furnished(m, d, w)
    &&& w.children[d.dcomp_root] == Seq::<Handle>::empty()
    &&& forall|id: SurfaceId, v: Handle| !#[trigger] hangs(m.reg, id, v)
    &&& forall|k: int, slot: Slot|
        index <= k < m.reg.live.len() ==> #[trigger] visual_at(m.reg, m.reg.live[k], slot) is None
}

proof fn lemma_revisualing_mirrors(
    m: Model,
    w: Screen,
    fx: Seq<Effect>,
    d: CompositorDevices,
    after: After,
    index: int,
)
    requires
        bare(m, d, index, done(w, fx)),
        m.devices is None,
        m.reg.live.len() <= usize::MAX,
        0 <= index,
    ensures
        ({
            let t = revisualing(m, fx, d, after, index);
            mirrors(t.model, done(w, t.effects))
        }),
{
    if index >= m.reg.live.len() {
        let n = Model { reg: m.reg.unstacked(), ..m };
        let u = done(w, fx);
        assert forall|id: SurfaceId, v: Handle| !#[trigger] hangs(n.reg, id, v) by {
            assert(!hangs(m.reg, id, v));
        }
        lemma_furnished_same(m, n, d, u, u);
        lemma_attaching_mirrors(n, w, fx, AttachFor::Rebuild { devices: d, after }, 0, d);
    }
}

proof fn lemma_revisual_mirrors(m: Model, w: Screen, reply: Reply)
    requires
        m.wf(),
        mirrors(m, w),
        m.expects(reply),
        plausible(w, m.request(), reply),
        m.reg.live.len() <= usize::MAX,
        m.stage is RebuildVisual,
    ensures
        mirrors(step(m, reply).model, screen_after(m, w, reply)),
{
    let t = step(m, reply);
    let v = called(w, m.request(), reply);
    let d = in_service(m)->0;
    lemma_done_none(v);
    assert(grows(w, v));
    lemma_furnished_grows(m, d, w, v);
    lemma_root_known(w, d);
    match m.stage {
        Stage::RebuildVisual { devices, after, index } => {
            if object(reply) is Some {
                assert forall|id: SurfaceId, slot: Slot| #[trigger]
                    visual_at(m.reg, id, slot) != object(reply) by {
                    if visual_at(m.reg, id, slot) is Some {
                        assert(visual_made(w, d, visual_at(m.reg, id, slot)->0));
                    }
                }
                assert(t.model.reg == m.reg);
                assert(spare(m.reg, v, d, object(reply)->0, None));
            } else {
                lemma_revisualing_mirrors(m, v, seq![], d, after, index + 1);
            }
        },
        _ => {},
    }
}

proof fn lemma_rebuilt_furnished(
    m: Model,
    w: Screen,
    d: CompositorDevices,
    id: SurfaceId,
    visual: Handle,
    popup: Option<Handle>,
)
    requires
        furnished(m, d, w),
        m.reg.wf(),
        m.reg.has(id),
        forall|slot: Slot| #[trigger] visual_at(m.reg, id, slot) is None,
        spare(m.reg, w, d, visual, popup),
        popup is Some ==> popup != Some(visual) && visual_made(w, d, popup->0)
            && w.content[popup->0] is None && forall|x: SurfaceId, slot: Slot| #[trigger]
            visual_at(m.reg, x, slot) != popup,
    ensures
        furnished(m.put(id, m.surface(id).rebuilt(visual, popup)), d, w),
{
    let n = m.put(id, m.surface(id).rebuilt(visual, popup));
    assert(visual_at(n.reg, id, Slot::Main) == Some(visual));
    assert(visual_at(n.reg, id, Slot::Popup) == popup);
    assert forall|x: SurfaceId, q: Slot| x != id implies #[trigger] visual_at(n.reg, x, q)
        == visual_at(m.reg, x, q) && chain_at(n.reg, x, q) == chain_at(m.reg, x, q) && size_at(
        n.reg,
        x,
        q,
    ) == size_at(m.reg, x, q) by {}
    assert forall|x: SurfaceId, q: Slot| x != id implies #[trigger] chain_at(n.reg, x, q)
        == chain_at(m.reg, x, q) by {}
    assert forall|q: Slot| #[trigger] chain_at(n.reg, id, q) is None by {}
    assert forall|a: SurfaceId, p: Slot, b: SurfaceId, q: Slot|
        #![trigger visual_at(n.reg, a, p), visual_at(n.reg, b, q)]
        visual_at(n.reg, a, p) is Some && visual_at(n.reg, a, p) == visual_at(
            n.reg,
            b,
            q,
        ) implies a == b && p == q by {
        if a != id {
            assert(visual_at(n.reg, a, p) == visual_at(m.reg, a, p));
        }
        if b != id {
            assert(visual_at(n.reg, b, q) == visual_at(m.reg, b, q));
        }
    }
    assert(apart(n.reg));
    assert forall|x: SurfaceId, q: Slot| #[trigger] visual_at(n.reg, x, q) is Some implies
        visual_made(w, d, visual_at(n.reg, x, q)->0) && w.content[visual_at(n.reg, x, q)->0]
        == chain_at(n.reg, x, q) && (chain_at(n.reg, x, q) is Some ==> chain_made(
        w,
        d,
        chain_at(n.reg, x, q)->0,
    ) && w.sizes[chain_at(n.reg, x, q)->0] == (
        size_at(n.reg, x, q).0 as u32,
        size_at(n.reg, x, q).1 as u32,
    )) by {
        if x != id {
            assert(visual_at(n.reg, x, q) == visual_at(m.reg, x, q));
        }
    }
    assert(pictures(n.reg, Some(d), w));
    assert forall|h: Handle|
        w.made.contains_key(h) && (#[trigger] w.content[h]) is Some implies exists|
        x: SurfaceId,
        q: Slot,
    |
        #![trigger visual_at(n.reg, x, q)]
        visual_at(n.reg, x, q) == Some(h) by {
        let (x, q) = choose|x: SurfaceId, q: Slot|
            #![trigger visual_at(m.reg, x, q)]
            visual_at(m.reg, x, q) == Some(h);
        assert(x != id);
        assert(visual_at(n.reg, x, q) == Some(h));
    }
    assert forall|x: SurfaceId| #[trigger] visual_at(n.reg, x, Slot::Main) is Some implies
        w.children[visual_at(n.reg, x, Slot::Main)->0] == (match visual_at(
        n.reg,
        x,
        Slot::Popup,
    ) {
        Some(pv) => seq![pv],
        None => Seq::empty(),
    }) by {
        if x != id {
            assert(visual_at(n.reg, x, Slot::Main) == visual_at(m.reg, x, Slot::Main));
            assert(visual_at(n.reg, x, Slot::Popup) == visual_at(m.reg, x, Slot::Popup));
        }
    }
}

proof fn lemma_repopup_mirrors(m: Model, w: Screen, reply: Reply)
    requires
        m.wf(),
        mirrors(m, w),
        m.expects(reply),
        plausible(w, m.request(), reply),
        m.reg.live.len() <= usize::MAX,
        m.stage is RebuildPopup,
    ensures
        mirrors(step(m, reply).model, screen_after(m, w, reply)),
{
    let v = called(w, m.request(), reply);
    let d = in_service(m)->0;
    assert(grows(w, v));
    lemma_furnished_grows(m, d, w, v);
    lemma_root_known(w, d);
    match m.stage {
        Stage::RebuildPopup { devices, after, index, visual } => {
            let popup = object(reply);
            let fx = nest_popup(visual, popup);
            assert(w.made.contains_key(visual));
            lemma_nesting(v, visual, popup);
            let x = done(v, fx);
            let id = m.reg.live[index as int];
            assert(m.reg.live.contains(id));
            assert(m.reg.has(id));
            let n = m.put(id, m.surface(id).rebuilt(visual, popup));
            assert forall|a: SurfaceId, slot: Slot| #[trigger] visual_at(m.reg, a, slot) is Some
                implies w.made.contains_key(visual_at(m.reg, a, slot)->0) by {
                assert(visual_made(w, d, visual_at(m.reg, a, slot)->0));
            }
            assert(furnished(m, d, x)) by {
                let (base, dxgi_device, adapter) = choose|
                    base: Handle,
                    dxgi_device: Handle,
                    adapter: Handle,
                | #[trigger]
                    built_on(v, d, base, dxgi_device, adapter);
                assert(built_on(x, d, base, dxgi_device, adapter));
            }
            assert forall|slot: Slot| #[trigger] visual_at(m.reg, id, slot) is None by {
                assert(visual_at(m.reg, m.reg.live[index as int], slot) is None);
            }
            lemma_rebuilt_furnished(m, x, d, id, visual, popup);
            assert forall|a: SurfaceId, h: Handle| !#[trigger] hangs(n.reg, a, h) by {
                assert(!hangs(m.reg, a, h));
            }
            assert forall|k: int, slot: Slot|
                index + 1 <= k < n.reg.live.len() implies #[trigger] visual_at(
                n.reg,
                n.reg.live[k],
                slot,
            ) is None by {
                assert(m.reg.live[k] != id);
                assert(visual_at(m.reg, m.reg.live[k], slot) is None);
            }
            lemma_revisualing_mirrors(n, v, fx, d, after, index + 1);
        },
        _ => {},
    }
}

proof fn lemma_building_step(w: Screen, p: InitProgress, reply: Reply)
    requires
        building(w, p),
        init_expects(p.step, reply),
        plausible(w, Request::Init(init_call(p)), reply),
    ensures
        ({
            let v = called(w, Request::Init(init_call(p)), reply);
            match init_next(p, reply) {
                InitOutcome::Continue(q) => building(v, q) && q.hwnd == p.hwnd,
                InitOutcome::Ready(d) => built(v, d) && d.hwnd == p.hwnd
                    && v.children[d.dcomp_root] == Seq::<Handle>::empty(),
                InitOutcome::Failed => true,
            }
        }),
{
    let v = called(w, Request::Init(init_call(p)), reply);
    match init_next(p, reply) {
        InitOutcome::Ready(d) => {
            assert(v == w);
            assert(built_on(v, d, p.base, p.dxgi_device, p.adapter));
        },
        _ => {},
    }
}

proof fn lemma_init_mirrors(m: Model, w: Screen, reply: Reply)
    requires
        m.wf(),
        mirrors(m, w),
        m.expects(reply),
        plausible(w, m.request(), reply),
        m.reg.live.len() <= usize::MAX,
        m.stage is Init || m.stage is RebuildInit,
    ensures
        mirrors(step(m, reply).model, screen_after(m, w, reply)),
{
    let t = step(m, reply);
    let v = called(w, m.request(), reply);
    lemma_done_none(v);
    let p = match m.stage {
        Stage::Init(p) => p,
        Stage::RebuildInit { progress, .. } => progress,
        _ => arbitrary(),
    };
    assert(m.request() == Request::Init(init_call(p)));
    lemma_building_step(w, p, reply);
    assert forall|id: SurfaceId, slot: Slot| #[trigger] visual_at(m.reg, id, slot) is None by {}
    assert forall|h: Handle| v.made.contains_key(h) implies (#[trigger] v.content[h]) is None by {
        if w.made.contains_key(h) {
            assert(w.content[h] is None) by {
                if w.content[h] is Some {
                    let (x, q) = choose|x: SurfaceId, q: Slot|
                        #![trigger visual_at(m.reg, x, q)]
                        visual_at(m.reg, x, q) == Some(h);
                    assert(visual_at(m.reg, x, q) is None);
                }
            }
        }
    }
    assert(agrees(m, v));
    assert forall|id: SurfaceId, h: Handle| !#[trigger] hangs(m.reg, id, h) by {
        assert(visual_at(m.reg, id, Slot::Main) is None);
    }
    match init_next(p, reply) {
        InitOutcome::Continue(q) => {
            assert(t.model.reg == m.reg);
        },
        InitOutcome::Failed => {
            match m.stage {
                Stage::RebuildInit { after, .. } => {
                    let e = Model { queue: Seq::empty(), ..m };
                    assert(agrees(e, v));
                    match after {
                        After::Finish(_) => {
                            lemma_still_mirrors(e, t.model, v);
                        },
                        After::Paint(paint) => {
                            lemma_painting_mirrors(e, v, seq![], paint);
                        },
                    }
                },
                _ => {
                    lemma_still_mirrors(m, t.model, v);
                },
            }
        },
        InitOutcome::Ready(d) => {
            assert(furnished(m, d, v));
            match m.stage {
                Stage::RebuildInit { after, .. } => {
                    lemma_revisualing_mirrors(m, v, seq![], d, after, 0);
                },
                _ => {
                    let n = Model { devices: Some(d), ..m };
                    assert(tree(n.reg, d.dcomp_root, v));
                    lemma_still_mirrors(n, t.model, v);
                },
            }
        },
    }
}

/// State and screen agree after every reply, whatever it is: every visual shows
/// the swap chain of its slot and no other, in the size that is noted; under the
/// root hang the visuals of the surfaces in the tree, in the order of the stack;
/// popups are nested in their surfaces; and what the operation has got so far
/// comes from where it should come from.
#[verifier::rlimit(30)]
pub proof fn lemma_step_mirrors(m: Model, w: Screen, reply: Reply)
    requires
        sound(m),
        mirrors(m, w),
        m.expects(reply),
        plausible(w, m.request(), reply),
    ensures
        mirrors(step(m, reply).model, screen_after(m, w, reply)),
{
    match m.stage {
        Stage::Init(_) | Stage::RebuildInit { .. } => {
            lemma_init_mirrors(m, w, reply);
        },
        Stage::RebuildVisual { .. } => {
            lemma_revisual_mirrors(m, w, reply);
        },
        Stage::RebuildPopup { .. } => {
            lemma_repopup_mirrors(m, w, reply);
        },
        Stage::Attach { .. } => {
            lemma_attach_mirrors(m, w, reply);
        },
        Stage::AllocVisual | Stage::AllocPopup { .. } => {
            lemma_alloc_mirrors(m, w, reply);
        },
        Stage::AllocAttach { .. } => {
            lemma_allocated_mirrors(m, w, reply);
        },
        Stage::Open(_) | Stage::Probe => {
            lemma_open_mirrors(m, w, reply);
        },
        Stage::Measure { .. } => {
            lemma_measure_mirrors(m, w, reply);
        },
        Stage::Judge { .. } => {
            lemma_judge_mirrors(m, w, reply);
        },
        Stage::Upload(_) => {
            lemma_upload_mirrors(m, w, reply);
        },
        Stage::FitResize(f) => {
            lemma_fit_resize_mirrors(m, w, f, reply->Status_0);
        },
        Stage::FitCheck(f) => {
            lemma_fit_check_mirrors(m, w, f, reply->Status_0);
        },
        Stage::FitCreate(f) => {
            lemma_fit_create_mirrors(m, w, f, reply);
        },
        Stage::Buffer { .. } | Stage::Show { .. } => {
            lemma_show_mirrors(m, w, reply);
        },
        Stage::ShowCheck { .. } => {
            lemma_show_check_mirrors(m, w, reply);
        },
        Stage::Idle => {},
    }
}

proof fn lemma_before_last(s: Seq<u64>, x: u64, y: u64)
    requires
        s.len() > 0,
    ensures
        before(s, x, y) <==> before(s.drop_last(), x, y) || (s.drop_last().contains(x) && s.last()
            == y),
{
    let front = s.drop_last();
    if before(s, x, y) {
        let (i, j) = choose|i: int, j: int|
            0 <= i < j < s.len() && #[trigger] s[i] == x && #[trigger] s[j] == y;
        assert(front[i] == x);
        if j < front.len() {
            assert(front[j] == y);
        }
    }
    if before(front, x, y) {
        let (i, j) = choose|i: int, j: int|
            0 <= i < j < front.len() && #[trigger] front[i] == x && #[trigger] front[j] == y;
        assert(s[i] == x && s[j] == y);
    }
    if front.contains(x) && s.last() == y {
        let i = choose|i: int| 0 <= i < front.len() && front[i] == x;
        assert(s[i] == x && s[s.len() - 1] == y);
    }
}

/// What is left of a list is in the order it was in.
proof fn lemma_filtered(s: Seq<u64>, f: spec_fn(u64) -> bool)
    ensures
        forall|x: u64| #[trigger] s.filter(f).contains(x) <==> s.contains(x) && f(x),
        forall|x: u64, y: u64| #[trigger]
            before(s.filter(f), x, y) <==> before(s, x, y) && f(x) && f(y),
        s.no_duplicates() ==> s.filter(f).no_duplicates(),
    decreases s.len(),
{
    reveal(Seq::filter);
    if s.len() > 0 {
        let front = s.drop_last();
        let rest = front.filter(f);
        lemma_filtered(front, f);
        assert(s =~= front.push(s.last()));
        assert forall|x: u64| s.contains(x) <==> #[trigger] front.contains(x) || x == s.last() by {
            if s.contains(x) {
                let k = choose|k: int| 0 <= k < s.len() && s[k] == x;
                if k < front.len() {
                    assert(front[k] == x);
                }
            }
            if front.contains(x) {
                let k = choose|k: int| 0 <= k < front.len() && front[k] == x;
                assert(s[k] == x);
            }
            assert(s[s.len() - 1] == s.last());
        }
        if f(s.last()) {
            let all = s.filter(f);
            assert(all =~= rest.push(s.last()));
            assert(all.drop_last() =~= rest);
            assert forall|x: u64| all.contains(x) <==> #[trigger] rest.contains(x) || x
                == s.last() by {
                if all.contains(x) {
                    let k = choose|k: int| 0 <= k < all.len() && all[k] == x;
                    if k < rest.len() {
                        assert(rest[k] == x);
                    }
                }
                if rest.contains(x) {
                    let k = choose|k: int| 0 <= k < rest.len() && rest[k] == x;
                    assert(all[k] == x);
                }
                assert(all[rest.len() as int] == s.last());
            }
            assert forall|x: u64| #[trigger] all.contains(x) <==> s.contains(x) && f(x) by {
                assert(rest.contains(x) <==> front.contains(x) && f(x));
            }
            assert forall|x: u64, y: u64| #[trigger] before(all, x, y) <==> before(s, x, y) && f(x)
                && f(y) by {
                lemma_before_last(s, x, y);
                lemma_before_last(all, x, y);
                assert(before(rest, x, y) <==> before(front, x, y) && f(x) && f(y));
                assert(rest.contains(x) <==> front.contains(x) && f(x));
            }
            if s.no_duplicates() {
                assert(!front.contains(s.last())) by {
                    if front.contains(s.last()) {
                        let k = choose|k: int| 0 <= k < front.len() && front[k] == s.last();
                        assert(s[k] == s[s.len() - 1]);
                    }
                }
                assert(!rest.contains(s.last()));
                assert forall|i: int, j: int|
                    0 <= i < all.len() && 0 <= j < all.len() && i != j implies all[i]
                    != all[j] by {
                    if i < rest.len() {
                        assert(rest.contains(rest[i]));
                    }
                    if j < rest.len() {
                        assert(rest.contains(rest[j]));
                    }
                }
            }
        } else {
            assert(s.filter(f) =~= rest);
            assert forall|x: u64| #[trigger] s.filter(f).contains(x) <==> s.contains(x) && f(
                x,
            ) by {
                assert(rest.contains(x) <==> front.contains(x) && f(x));
            }
            assert forall|x: u64, y: u64| #[trigger] before(s.filter(f), x, y) <==> before(s, x, y)
                && f(x) && f(y) by {
                lemma_before_last(s, x, y);
                assert(before(rest, x, y) <==> before(front, x, y) && f(x) && f(y));
            }
        }
    }
}

proof fn lemma_cleaned_mirrors(m: Model, w: Screen)
    requires
        m.core_wf(),
        agrees(m, w),
    ensures
        mirrors(cleaned(m).model, done(w, cleaned(m).effects)),
{
    let after = After::Finish(Answer::Unit);
    lemma_done_none(w);
    lemma_rebuild_mirrors(m, w, seq![], m.hwnd, after);
    let r = rebuild(m, m.hwnd, seq![], after);
    assert(r.effects =~= cleaned(m).effects);
    let v = done(w, r.effects);
    assert forall|h: Handle| v.made.contains_key(h) implies (#[trigger] v.content[h]) is None by {
        if v.content[h] is Some {
            let (x, q) = choose|x: SurfaceId, q: Slot|
                #![trigger visual_at(r.model.reg, x, q)]
                visual_at(r.model.reg, x, q) == Some(h);
            assert(visual_at(r.model.reg, x, q) is Some);
        }
    }
}

proof fn lemma_removed_tree(reg: Registry, id: SurfaceId, root: Handle, w: Screen, v: Screen)
    requires
        reg.wf(),
        reg.has(id),
        apart(reg),
        tree(reg, root, w),
        v.children[root] == (if reg.surfaces[id].in_tree && reg.surfaces[id].visual is Some {
            less(w.children[root], reg.surfaces[id].visual->0)
        } else {
            w.children[root]
        }),
    ensures
        tree(reg.removed(id), root, v),
{
    let n = reg.removed(id);
    let s = reg.surfaces[id];
    let list = w.children[root];
    let after = v.children[root];
    lemma_filtered(reg.stack, other_than(id));
    assert forall|x: SurfaceId, q: Slot| x != id implies #[trigger] visual_at(n, x, q)
        == visual_at(reg, x, q) by {}
    assert(visual_at(reg, id, Slot::Main) == s.visual);
    assert forall|x: SurfaceId, h: Handle| #[trigger] hangs(n, x, h) <==> hangs(reg, x, h) && x
        != id by {
        if x != id {
            assert(visual_at(n, x, Slot::Main) == visual_at(reg, x, Slot::Main));
        }
    }
    if s.in_tree && s.visual is Some {
        let child = s.visual->0;
        lemma_filtered(list, other_than(child));
        assert(hangs(reg, id, child));
    }
    assert forall|h: Handle| #[trigger] after.contains(h) <==> list.contains(h) && !(s.in_tree
        && s.visual == Some(h)) by {}
    assert forall|a: Handle, b: Handle| #[trigger] before(list, a, b) && s.visual != Some(a)
        && s.visual != Some(b) implies before(after, a, b) by {}
    assert forall|h: Handle| #[trigger] after.contains(h) implies exists|x: SurfaceId| #[trigger]
        hangs(n, x, h) by {
        let x = choose|x: SurfaceId| #[trigger] hangs(reg, x, h);
        assert(x != id);
        assert(hangs(n, x, h));
    }
    assert forall|x: SurfaceId, h: Handle| #[trigger] hangs(n, x, h) implies after.contains(
        h,
    ) by {
        assert(hangs(reg, x, h));
        if s.visual == Some(h) {
            assert(visual_at(reg, x, Slot::Main) == visual_at(reg, id, Slot::Main));
        }
    }
    assert forall|i: int| 0 <= i < n.stack.len() && visual_at(
        n,
        #[trigger] n.stack[i],
        Slot::Main,
    ) is Some implies n.surfaces[n.stack[i]].in_tree by {
        let x = n.stack[i];
        assert(n.stack.contains(x));
        assert(reg.stack.contains(x) && x != id);
        let k = choose|k: int| 0 <= k < reg.stack.len() && reg.stack[k] == x;
        assert(visual_at(reg, reg.stack[k], Slot::Main) is Some);
    }
    assert forall|x: SurfaceId, y: SurfaceId| #[trigger]
        before(n.stack, x, y) && visual_at(n, x, Slot::Main) is Some && visual_at(
            n,
            y,
            Slot::Main,
        ) is Some implies before(
        after,
        visual_at(n, x, Slot::Main)->0,
        visual_at(n, y, Slot::Main)->0,
    ) by {
        assert(before(reg.stack, x, y) && x != id && y != id);
        assert(visual_at(n, x, Slot::Main) == visual_at(reg, x, Slot::Main));
        assert(visual_at(n, y, Slot::Main) == visual_at(reg, y, Slot::Main));
        let a = visual_at(reg, x, Slot::Main)->0;
        let b = visual_at(reg, y, Slot::Main)->0;
        assert(before(list, a, b));
        assert(visual_at(reg, x, Slot::Main) != visual_at(reg, id, Slot::Main));
        assert(visual_at(reg, y, Slot::Main) != visual_at(reg, id, Slot::Main));
    }
}

proof fn lemma_freed_mirrors(m: Model, w: Screen, id: SurfaceId)
    requires
        m.core_wf(),
        agrees(m, w),
        m.reg.has(id),
    ensures
        mirrors(freed(m, id).model, done(w, freed(m, id).effects)),
{
    let t = freed(m, id);
    let n = t.model;
    let s = m.surface(id);
    assert(m.surface(id).wf());
    let v = done(w, s.detach_effects(m.root()));
    assert(visual_at(m.reg, id, Slot::Main) == s.visual);
    assert(visual_at(m.reg, id, Slot::Popup) == s.popup_visual);
    if m.devices is Some {
        lemma_root_known(w, m.devices->0);
    }
    lemma_detach_one(s, m.root(), w);
    match m.devices {
        Some(d) => {
            let commit = Effect::Commit { device: d.dcomp_device };
            lemma_done_push(w, s.detach_effects(m.root()), commit);
            assert(t.effects =~= s.detach_effects(m.root()).push(commit));
        },
        None => {
            assert(t.effects =~= s.detach_effects(m.root()));
        },
    }
    assert(done(w, t.effects) == v);
    assert(n.reg == m.reg.removed(id));
    assert forall|x: SurfaceId, q: Slot| x != id implies #[trigger] visual_at(n.reg, x, q)
        == visual_at(m.reg, x, q) && chain_at(n.reg, x, q) == chain_at(m.reg, x, q) && size_at(
        n.reg,
        x,
        q,
    ) == size_at(m.reg, x, q) by {}
    assert forall|x: SurfaceId, q: Slot| x != id implies #[trigger] chain_at(n.reg, x, q)
        == chain_at(m.reg, x, q) by {}
    assert forall|q: Slot| #[trigger] visual_at(n.reg, id, q) is None && chain_at(
        n.reg,
        id,
        q,
    ) is None by {}
    assert forall|q: Slot| #[trigger] chain_at(n.reg, id, q) is None by {}
    assert forall|a: SurfaceId, p: Slot, b: SurfaceId, q: Slot|
        #![trigger visual_at(n.reg, a, p), visual_at(n.reg, b, q)]
        visual_at(n.reg, a, p) is Some && visual_at(n.reg, a, p) == visual_at(
            n.reg,
            b,
            q,
        ) implies a == b && p == q by {
        assert(a != id && b != id);
        assert(visual_at(n.reg, a, p) == visual_at(m.reg, a, p));
        assert(visual_at(n.reg, b, q) == visual_at(m.reg, b, q));
    }
    assert forall|a: SurfaceId, p: Slot, b: SurfaceId, q: Slot|
        #![trigger chain_at(n.reg, a, p), chain_at(n.reg, b, q)]
        chain_at(n.reg, a, p) is Some && chain_at(n.reg, a, p) == chain_at(
            n.reg,
            b,
            q,
        ) implies a == b && p == q by {
        assert(a != id && b != id);
        assert(chain_at(n.reg, a, p) == chain_at(m.reg, a, p));
        assert(chain_at(n.reg, b, q) == chain_at(m.reg, b, q));
    }
    assert(apart(n.reg));
    assert forall|x: SurfaceId, q: Slot| #[trigger] visual_at(n.reg, x, q) is Some implies
        visual_at(m.reg, x, q) == visual_at(n.reg, x, q) && visual_at(m.reg, x, q) != s.visual
        && visual_at(m.reg, x, q) != s.popup_visual by {
        assert(x != id);
        assert(visual_at(n.reg, x, q) == visual_at(m.reg, x, q));
        assert(visual_at(m.reg, x, q) != visual_at(m.reg, id, Slot::Main));
        assert(visual_at(m.reg, x, q) != visual_at(m.reg, id, Slot::Popup));
    }
    assert(pictures(n.reg, n.devices, v)) by {
        assert forall|x: SurfaceId, q: Slot| #[trigger] visual_at(n.reg, x, q) is Some implies
            n.devices is Some && visual_made(v, n.devices->0, visual_at(n.reg, x, q)->0)
            && v.content[visual_at(n.reg, x, q)->0] == chain_at(n.reg, x, q) && (chain_at(
            n.reg,
            x,
            q,
        ) is Some ==> chain_made(v, n.devices->0, chain_at(n.reg, x, q)->0) && v.sizes[chain_at(
            n.reg,
            x,
            q,
        )->0] == (size_at(n.reg, x, q).0 as u32, size_at(n.reg, x, q).1 as u32)) by {
            assert(visual_at(m.reg, x, q) is Some);
        }
    }
    assert(no_leftovers(n.reg, v)) by {
        assert forall|h: Handle|
            v.made.contains_key(h) && (#[trigger] v.content[h]) is Some implies exists|
            x: SurfaceId,
            q: Slot,
        |
            #![trigger visual_at(n.reg, x, q)]
            visual_at(n.reg, x, q) == Some(h) by {
            assert(w.content[h] is Some);
            let (x, q) = choose|x: SurfaceId, q: Slot|
                #![trigger visual_at(m.reg, x, q)]
                visual_at(m.reg, x, q) == Some(h);
            assert(x != id);
            assert(visual_at(n.reg, x, q) == Some(h));
        }
    }
    assert(nested(n.reg, v)) by {
        assert forall|x: SurfaceId| #[trigger] visual_at(n.reg, x, Slot::Main) is Some implies
            v.children[visual_at(n.reg, x, Slot::Main)->0] == (match visual_at(
            n.reg,
            x,
            Slot::Popup,
        ) {
            Some(pv) => seq![pv],
            None => Seq::empty(),
        }) by {
            assert(visual_at(m.reg, x, Slot::Main) == visual_at(n.reg, x, Slot::Main));
            assert(x != id);
            assert(visual_at(n.reg, x, Slot::Popup) == visual_at(m.reg, x, Slot::Popup));
            assert(visual_made(w, m.devices->0, visual_at(m.reg, x, Slot::Main)->0));
        }
    }
    if let Some(d) = m.devices {
        lemma_removed_tree(m.reg, id, d.dcomp_root, w, v);
        let (base, dxgi_device, adapter) = choose|
            base: Handle,
            dxgi_device: Handle,
            adapter: Handle,
        | #[trigger]
            built_on(w, d, base, dxgi_device, adapter);
        assert(built_on(v, d, base, dxgi_device, adapter));
    }
}

proof fn lemma_unhook_all(
    ids: Seq<SurfaceId>,
    surfaces: Map<SurfaceId, Surface>,
    root: Handle,
    w: Screen,
)
    ensures
        ({
            let v = done(w, unhook_each(ids, surfaces, root));
            &&& v == (Screen { children: v.children, ..w })
            &&& forall|h: Handle| h != root ==> #[trigger] v.children[h] == w.children[h]
            &&& forall|x: Handle| #[trigger]
                v.children[root].contains(x) ==> w.children[root].contains(x) && forall|j: int|
                    0 <= j < ids.len() && surfaces[#[trigger] ids[j]].in_tree
                        ==> surfaces[ids[j]].visual != Some(x)
        }),
    decreases ids.len(),
{
    lemma_done_none(w);
    if ids.len() > 0 {
        let front = ids.drop_last();
        let s = surfaces[ids.last()];
        lemma_unhook_all(front, surfaces, root, w);
        let a = unhook_each(front, surfaces, root);
        let b = unhook_effects(s, root);
        let u = done(w, a);
        lemma_done_append(w, a, b);
        lemma_done_none(u);
        let v = done(u, b);
        if s.visual is Some && s.in_tree {
            lemma_done_one(u, Effect::RemoveVisual { parent: root, child: s.visual->0 });
        }
        assert forall|x: Handle| #[trigger] v.children[root].contains(x) implies w.children[root]
            .contains(x) && forall|j: int|
            0 <= j < ids.len() && surfaces[#[trigger] ids[j]].in_tree ==> surfaces[ids[j]].visual
                != Some(x) by {
            if s.visual is Some && s.in_tree {
                lemma_less(u.children[root], s.visual->0, x);
            }
            assert(u.children[root].contains(x));
            assert forall|j: int|
                0 <= j < ids.len() && surfaces[#[trigger] ids[j]].in_tree implies surfaces[ids[j]]
                .visual != Some(x) by {
                if j < front.len() {
                    assert(front[j] == ids[j]);
                }
            }
        }
    }
}

proof fn lemma_restacking_mirrors(m: Model, w: Screen, ordered: Seq<SurfaceId>)
    requires
        m.core_wf(),
        agrees(m, w),
    ensures
        mirrors(restacking(m, ordered).model, done(w, restacking(m, ordered).effects)),
{
    lemma_done_none(w);
    match m.devices {
        None => {
            lemma_still_mirrors(m, restacking(m, ordered).model, w);
        },
        Some(d) => {
            let root = d.dcomp_root;
            let fx = unhook_each(m.reg.live, m.reg.surfaces, root);
            let v = done(w, fx);
            lemma_unhook_all(m.reg.live, m.reg.surfaces, root, w);
            let reg = all_unhooked(m.reg).unstacked();
            let n = Model { reg, queue: ordered, ..m };
            assert forall|x: Handle| !v.children[root].contains(x) by {
                if v.children[root].contains(x) {
                    let id = choose|id: SurfaceId| #[trigger] hangs(m.reg, id, x);
                    assert(m.reg.has(id));
                    assert(m.reg.live.contains(id));
                    let j = choose|j: int| 0 <= j < m.reg.live.len() && m.reg.live[j] == id;
                    assert(m.reg.surfaces[m.reg.live[j]].in_tree);
                }
            }
            assert(v.children[root].len() == 0) by {
                if v.children[root].len() > 0 {
                    assert(v.children[root].contains(v.children[root][0]));
                }
            }
            assert forall|id: SurfaceId, slot: Slot| #[trigger] visual_at(reg, id, slot)
                == visual_at(m.reg, id, slot) && chain_at(reg, id, slot) == chain_at(
                m.reg,
                id,
                slot,
            ) && (visual_at(m.reg, id, slot) is Some ==> size_at(reg, id, slot) == size_at(
                m.reg,
                id,
                slot,
            )) by {}
            assert forall|id: SurfaceId, h: Handle| !#[trigger] hangs(reg, id, h) by {
                if m.reg.has(id) {
                    assert(reg.surfaces[id] == unhooked(m.reg.surfaces[id]));
                }
            }
            lemma_furnished_same(m, n, d, w, v);
            lemma_attaching_mirrors(n, w, fx, AttachFor::Restack, 0, d);
        },
    }
}

proof fn lemma_painted_mirrors(m: Model, w: Screen, paint: Paint)
    requires
        m.core_wf(),
        agrees(m, w),
    ensures
        mirrors(painted(m, paint).model, done(w, painted(m, paint).effects)),
{
    lemma_done_none(w);
    lemma_rebuild_mirrors(m, w, seq![], m.hwnd, After::Paint(paint));
    lemma_painting_mirrors(m, w, seq![], paint);
}

proof fn lemma_frame_begin_mirrors(m: Model, w: Screen, op: Operation)
    requires
        m.wf(),
        agrees(m, w),
        admissible(m, op),
        op is Present || op is PresentSoftware || op is Resize,
    ensures
        mirrors(begin(m, op).model, done(w, begin(m, op).effects)),
{
    let t = begin(m, op);
    lemma_done_none(w);
    match op {
        Operation::Present { surface, slot, info } => {
            if shared_given(surface, info) {
                let source = Source::Shared { shared_texture: info->0 };
                lemma_painted_mirrors(m, w, Paint { surface, slot, source });
            } else {
                lemma_still_mirrors(m, t.model, w);
            }
        },
        Operation::PresentSoftware { surface, slot, buffer, width, height } => {
            if memory_given(surface, buffer, width, height) {
                let source = Source::Software { address: buffer, width, height };
                lemma_painted_mirrors(m, w, Paint { surface, slot, source });
            } else {
                lemma_still_mirrors(m, t.model, w);
            }
        },
        Operation::Resize { surface, width, height } => {
            let f = Fit {
                surface,
                slot: Slot::Main,
                width,
                height,
                purpose: FitFor::Resize,
            };
            if t.model.stage is Idle {
                if t == fitted(m, seq![], f) {
                    let commit = Effect::Commit { device: m.devices->0.dcomp_device };
                    lemma_done_push(w, seq![], commit);
                }
                lemma_still_mirrors(m, t.model, w);
            } else {
                lemma_agrees_grows(m, t.model, w, w);
            }
        },
        _ => {},
    }
}

proof fn lemma_slot_changed(
    m: Model,
    n: Model,
    w: Screen,
    fx: Seq<Effect>,
    id: SurfaceId,
    slot: Slot,
)
    requires
        m.core_wf(),
        agrees(m, w),
        m.reg.has(id),
        n.devices == m.devices,
        n.hwnd == m.hwnd,
        n.reg == m.reg.put(id, n.reg.surfaces[id]),
        n.stage is Idle,
        n.reg.surfaces[id].wf(),
        same_visuals(m.surface(id), n.reg.surfaces[id]),
        chain_at(n.reg, id, slot) is None,
        forall|q: Slot|
            q != slot ==> #[trigger] chain_at(n.reg, id, q) == chain_at(m.reg, id, q) && size_at(
                n.reg,
                id,
                q,
            ) == size_at(m.reg, id, q),
        match visual_at(m.reg, id, slot) {
            Some(visual) => {
                let empty = Effect::SetContent { visual, content: None };
                fx == seq![empty] || (m.devices is Some && fx == seq![
                    empty,
                    Effect::Commit { device: m.devices->0.dcomp_device },
                ]) || (chain_at(m.reg, id, slot) is None && m.devices is Some && fx == seq![
                    Effect::Commit { device: m.devices->0.dcomp_device },
                ])
            },
            None => fx == Seq::<Effect>::empty() || (m.devices is Some && fx == seq![
                Effect::Commit { device: m.devices->0.dcomp_device },
            ]),
        },
    ensures
        mirrors(n, done(w, fx)),
{
    let v = done(w, fx);
    lemma_done_none(w);
    let commit = Effect::Commit { device: m.devices->0.dcomp_device };
    lemma_done_one(w, commit);
    match visual_at(m.reg, id, slot) {
        Some(visual) => {
            let empty = Effect::SetContent { visual, content: None };
            lemma_done_one(w, empty);
            lemma_done_push(w, seq![empty], commit);
            assert(seq![empty].push(commit) =~= seq![empty, commit]);
        },
        None => {},
    }
    lemma_rehang(m, n, w, v, id, slot);
}

proof fn lemma_flag_begin_mirrors(m: Model, w: Screen, op: Operation)
    requires
        m.wf(),
        agrees(m, w),
        admissible(m, op),
        op is SetVisible || op is BeginTransition || op is PopupShow || op is PopupHide,
    ensures
        mirrors(begin(m, op).model, done(w, begin(m, op).effects)),
{
    let t = begin(m, op);
    let n = t.model;
    lemma_done_none(w);
    match op {
        Operation::SetVisible { surface, visible } => {
            if surface == NULL_SURFACE || m.devices is None || m.surface(surface).visible
                == visible {
                lemma_still_mirrors(m, n, w);
            } else {
                assert(m.reg.has(surface));
                assert(m.surface(surface).wf());
                let commit = Effect::Commit { device: m.devices->0.dcomp_device };
                assert(n.reg =~= m.reg.put(surface, n.reg.surfaces[surface]));
                if m.surface(surface).visual is Some && !visible {
                    let visual = m.surface(surface).visual->0;
                    assert(t.effects =~= seq![
                        Effect::SetContent { visual, content: None },
                        commit,
                    ]);
                }
                lemma_slot_changed(m, n, w, t.effects, surface, Slot::Main);
            }
        },
        Operation::BeginTransition => {
            if m.gate.transitioning || m.reg.bottom() is None || m.devices is None {
                lemma_still_mirrors(m, n, w);
            } else {
                let p = m.reg.stack[0];
                assert(m.reg.has(p));
                assert(m.surface(p).wf());
                let commit = Effect::Commit { device: m.devices->0.dcomp_device };
                assert(n.reg =~= m.reg.put(p, n.reg.surfaces[p]));
                match m.surface(p).visual {
                    Some(visual) => {
                        assert(t.effects =~= seq![
                            Effect::SetContent { visual, content: None },
                            commit,
                        ]);
                    },
                    None => {
                        assert(t.effects =~= seq![commit]);
                    },
                }
                lemma_slot_changed(m, n, w, t.effects, p, Slot::Main);
            }
        },
        Operation::PopupShow { surface, x, y } => {
            if surface == NULL_SURFACE {
                lemma_still_mirrors(m, n, w);
            } else {
                assert(m.reg.has(surface));
                assert(m.surface(surface).wf());
                assert(n.reg =~= m.reg.put(surface, n.reg.surfaces[surface]));
                let c = chain_at(m.reg, surface, Slot::Popup);
                assert(c is Some ==> visual_at(m.reg, surface, Slot::Popup) is Some);
                lemma_rehang(m, n, w, w, surface, Slot::Popup);
                if let Some(visual) = m.surface(surface).popup_visual {
                    lemma_done_one(w, Effect::SetOffset { visual, x, y });
                }
                lemma_agrees_grows(n, n, w, done(w, t.effects));
            }
        },
        Operation::PopupHide { surface } => {
            if surface == NULL_SURFACE {
                lemma_still_mirrors(m, n, w);
            } else {
                assert(m.reg.has(surface));
                assert(m.surface(surface).wf());
                assert(n.reg =~= m.reg.put(surface, n.reg.surfaces[surface]));
                if let Some(visual) = m.surface(surface).popup_visual {
                    let empty = Effect::SetContent { visual, content: None };
                    match m.devices {
                        Some(d) => {
                            assert(t.effects =~= seq![
                                empty,
                                Effect::Commit { device: d.dcomp_device },
                            ]);
                        },
                        None => {
                            assert(t.effects =~= seq![empty]);
                        },
                    }
                }
                lemma_slot_changed(m, n, w, t.effects, surface, Slot::Popup);
            }
        },
        _ => {},
    }
}

/// State and screen agree after the first turn of every operation.
#[verifier::rlimit(30)]
pub proof fn lemma_begin_mirrors(m: Model, w: Screen, op: Operation)
    requires
        sound(m),
        mirrors(m, w),
        admissible(m, op),
    ensures
        mirrors(begin(m, op).model, done(w, begin(m, op).effects)),
{
    let t = begin(m, op);
    lemma_done_none(w);
    assert(agrees(m, w));
    match op {
        Operation::Init { hwnd } => {
            if m.devices is Some {
                lemma_still_mirrors(m, t.model, w);
            }
        },
        Operation::Cleanup => {
            lemma_cleaned_mirrors(m, w);
        },
        Operation::Rebind { hwnd } => {
            lemma_rebuild_mirrors(m, w, seq![], hwnd, After::Finish(Answer::Unit));
        },
        Operation::Probe | Operation::Alloc => {
            lemma_still_mirrors(m, t.model, w);
        },
        Operation::Free { surface } => {
            if surface == NULL_SURFACE {
                lemma_still_mirrors(m, t.model, w);
            } else {
                lemma_freed_mirrors(m, w, surface);
            }
        },
        Operation::Restack { ordered } => {
            lemma_restacking_mirrors(m, w, ordered);
        },
        Operation::Present { .. } | Operation::PresentSoftware { .. }
        | Operation::Resize { .. } => {
            lemma_frame_begin_mirrors(m, w, op);
        },
        Operation::SetVisible { .. } | Operation::BeginTransition | Operation::PopupShow { .. }
        | Operation::PopupHide { .. } => {
            lemma_flag_begin_mirrors(m, w, op);
        },
    }
}

/// The sizes and the transition are not on the screen: ending a transition,
/// reports of the window size and an expected size leave them agreeing.
pub proof fn lemma_sizes_mirror(
    m: Model,
    w: Screen,
    lw: i32,
    lh: i32,
    pw: i32,
    ph: i32,
    force_end: bool,
)
    requires
        m.idle(),
        mirrors(m, w),
    ensures
        mirrors(transition_ended(m), w),
        mirrors(size_noted(m, lw, lh, pw, ph, force_end), w),
        mirrors(size_expected(m, pw, ph), w),
{
    lemma_still_mirrors(m, size_expected(m, pw, ph), w);
    lemma_still_mirrors(m, transition_ended(m), w);
    lemma_still_mirrors(m, size_noted(m, lw, lh, pw, ph, force_end), w);
}

/// Nothing is left on the screen where everything is taken down: nothing hangs
/// under the root any more, and nothing shows anything.
pub proof fn lemma_taken_down(m: Model, w: Screen, op: Operation)
    requires
        sound(m),
        m.idle(),
        mirrors(m, w),
        op is Cleanup || op is Rebind,
    ensures
        ({
            let v = done(w, begin(m, op).effects);
            &&& m.devices is Some ==> v.children[m.devices->0.dcomp_root].len() == 0
            &&& forall|h: Handle| v.made.contains_key(h) ==> (#[trigger] v.content[h]) is None
        }),
{
    let all = detach_each(m.reg.live, m.reg.surfaces, m.root());
    let v = done(w, begin(m, op).effects);
    assert(begin(m, op).effects =~= all);
    lemma_begin_mirrors(m, w, op);
    let n = begin(m, op).model;
    assert forall|h: Handle| v.made.contains_key(h) implies (#[trigger] v.content[h]) is None by {
        if v.content[h] is Some {
            let (x, q) = choose|x: SurfaceId, q: Slot|
                #![trigger visual_at(n.reg, x, q)]
                visual_at(n.reg, x, q) == Some(h);
            assert(visual_at(n.reg, x, q) is Some);
        }
    }
    if let Some(d) = m.devices {
        let root = d.dcomp_root;
        assert forall|j: int|
            0 <= j < m.reg.live.len() && m.reg.surfaces[#[trigger] m.reg.live[j]].visual is Some
            implies m.reg.surfaces[m.reg.live[j]].visual != Some(root) by {
            let id = m.reg.live[j];
            assert(m.reg.live.contains(id));
            assert(visual_at(m.reg, id, Slot::Main) is Some);
            lemma_root_known(w, d);
        }
        lemma_detach_all(m.reg.live, m.reg.surfaces, m.root(), w);
        if v.children[root].len() > 0 {
            let x = v.children[root][0];
            assert(v.children[root].contains(x));
            assert(w.children[root].contains(x));
            let id = choose|id: SurfaceId| #[trigger] hangs(m.reg, id, x);
            assert(m.reg.has(id));
            assert(m.reg.live.contains(id));
            let j = choose|j: int| 0 <= j < m.reg.live.len() && m.reg.live[j] == id;
            assert(m.reg.surfaces[m.reg.live[j]].in_tree);
        }
    }
}

} // verus!
