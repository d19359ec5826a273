//! How surfaces are made, hooked to the root and built anew, call by call.

use vstd::prelude::*;
use crate::conduct::{memory_frame_starts, told};
use crate::devices::{CompositorDevices, InitProgress};
use crate::lifecycle::{unhook_each, unhooked};
use crate::operation::{admissible, begin, conversation, run, sized, sound, Operation};
use crate::outcome::{
    init_replies_ok, lemma_all_picked, lemma_recovery_restores, lemma_restack_outcome,
    revisual_replies, statuses,
};
use crate::properties::after_of;
use crate::protocol::{Answer, Effect, Handle, Hwnd, InitCall, Next, Reply, Request, SurfaceId};
use crate::rebuild::{attaching, nest_popup, next_attachable, resumed, revisualing};
use crate::registry::Registry;
use crate::resume::step;
use crate::screen::in_service;
use crate::state::{After, AttachFor, Model, Paint, Source, Stage, Turned};
use crate::surface::Surface;

verus! {

/// A surface gets a visual and a popup visual on the composition device, the
/// popup is nested in it, it is hooked to the root, and the change is committed.
/// Without devices or without a visual there is no surface, and nothing has
/// changed; it can do without a popup visual, and without being hooked.
pub proof fn lemma_allocation(m: Model, reply: Reply)
    requires
        m.wf(),
        m.expects(reply),
    ensures
        ({
            let t = step(m, reply);
            let d = m.devices->0;
            let making = Next::Ask(Request::CreateVisual { device: d.dcomp_device });
            &&& m.stage is AllocVisual ==> t.effects == Seq::<Effect>::empty() && match reply {
                Reply::Object(visual) => t.next == making && t.model == (Model {
                    stage: Stage::AllocPopup { visual },
                    ..m
                }),
                _ => t.next == Next::Return(Answer::Surface(0)) && t.model == (Model {
                    stage: Stage::Idle,
                    ..m
                }),
            }
            &&& m.stage is AllocPopup ==> t.next == Next::Ask(
                Request::AddVisual {
                    parent: d.dcomp_root,
                    child: m.stage->AllocPopup_visual,
                    insert_above: true,
                    reference: None,
                },
            ) && t.model == (Model { stage: t.model.stage, ..m }) && match reply {
                Reply::Object(popup) => t.effects == seq![
                    Effect::AddVisual {
                        parent: m.stage->AllocPopup_visual,
                        child: popup,
                        insert_above: true,
                        reference: None,
                    },
                ],
                _ => t.effects == Seq::<Effect>::empty(),
            }
            &&& m.stage is AllocAttach ==> {
                let s = t.model.surface(m.next_id);
                &&& t.next == Next::Return(Answer::Surface(m.next_id))
                &&& m.next_id != 0 && !m.reg.has(m.next_id) && t.model.reg.has(m.next_id)
                &&& t.effects == seq![Effect::Commit { device: d.dcomp_device }]
                &&& t.model.reg.live == m.reg.live.push(m.next_id)
                &&& t.model.reg.stack == m.reg.stack
                &&& t.model.next_id == m.next_id + 1
                &&& s.visual == Some(m.stage->AllocAttach_visual)
                &&& s.popup_visual == m.stage->AllocAttach_popup
                &&& s.in_tree == (reply->Status_0 >= 0)
                &&& s.visible && !s.popup_visible
                &&& s.swap_chain is None && s.popup_swap_chain is None
                &&& (s.sw, s.sh, s.popup_sw, s.popup_sh) == (0i32, 0i32, 0i32, 0i32)
            }
        }),
{
    if m.stage is AllocAttach {
        assert(!m.reg.has(m.next_id));
    }
}

/// A surface that is asked for needs devices; the first thing is its visual.
pub proof fn lemma_allocation_begins(m: Model)
    requires
        m.wf(),
        m.idle(),
    ensures
        ({
            let t = begin(m, Operation::Alloc);
            &&& t.effects == Seq::<Effect>::empty()
            &&& t.model == (Model { stage: t.model.stage, ..m })
            &&& t.next == (match m.devices {
                Some(d) => Next::Ask(Request::CreateVisual { device: d.dcomp_device }),
                None => Next::Return(Answer::Surface(0)),
            })
            &&& m.devices is None ==> t.model.idle()
        }),
{
}

/// Whether a reply is a failure of a call of the chain: an error status, a
/// device without context, or an object that is missing and needed.
pub open spec fn init_fails(call: InitCall, reply: Reply) -> bool {
    match reply {
        Reply::Device { status, device, context } => status < 0 || device is None || context
            is None,
        Reply::NoObject => !(call is AsAdapter3),
        Reply::Status(code) => code < 0,
        _ => false,
    }
}

/// The call that follows one that succeeded; none follows the last.
pub open spec fn init_follows(p: InitProgress, call: InitCall, reply: Reply) -> Option<InitCall> {
    match (call, reply) {
        (InitCall::CreateD3dDevice, Reply::Device { device, .. }) => Some(
            InitCall::AsDevice1 { base: device->0 },
        ),
        (InitCall::AsDevice1 { .. }, Reply::Object(h)) => Some(
            InitCall::AsDxgiDevice { d3d_device: h },
        ),
        (InitCall::AsDxgiDevice { .. }, Reply::Object(h)) => Some(
            InitCall::GetAdapter { dxgi_device: h },
        ),
        (InitCall::GetAdapter { .. }, Reply::Object(h)) => Some(
            InitCall::GetFactory { adapter: h },
        ),
        (InitCall::GetFactory { adapter }, _) => Some(InitCall::AsAdapter3 { adapter }),
        (InitCall::AsAdapter3 { .. }, _) => Some(
            InitCall::CreateDcompDevice { dxgi_device: p.dxgi_device },
        ),
        (InitCall::CreateDcompDevice { .. }, Reply::Object(h)) => Some(
            InitCall::CreateTarget { dcomp_device: h, hwnd: p.hwnd, topmost: false },
        ),
        (InitCall::CreateTarget { dcomp_device, .. }, _) => Some(
            InitCall::CreateRoot { dcomp_device },
        ),
        (InitCall::CreateRoot { .. }, Reply::Object(h)) => Some(
            InitCall::SetRoot { target: p.dcomp_target, root: h },
        ),
        (InitCall::SetRoot { .. }, _) => Some(InitCall::Commit { dcomp_device: p.dcomp_device }),
        _ => None,
    }
}

/// The devices that a chain has built once its last call has succeeded.
pub open spec fn completed(p: InitProgress) -> CompositorDevices {
    CompositorDevices {
        d3d_device: p.d3d_device,
        d3d_context: p.d3d_context,
        dxgi_factory: p.dxgi_factory,
        adapter3: p.adapter3,
        hwnd: p.hwnd,
        dcomp_device: p.dcomp_device,
        dcomp_target: p.dcomp_target,
        dcomp_root: p.dcomp_root,
    }
}

/// Setting up goes through its calls one after the other, each on what the ones
/// before it brought. It comes to `true` and devices for the window when the
/// last one succeeds, and to `false` and no devices as soon as one fails.
pub proof fn lemma_setting_up(m: Model, p: InitProgress, reply: Reply)
    requires
        m.wf(),
        m.stage == Stage::Init(p),
        m.expects(reply),
    ensures
        m.request() is Init,
        ({
            let call = m.request()->Init_0;
            let t = step(m, reply);
            &&& t.effects == Seq::<Effect>::empty()
            &&& if init_fails(call, reply) {
                &&& t.next == Next::Return(Answer::Flag(false))
                &&& t.model == (Model { stage: Stage::Idle, ..m })
            } else {
                match init_follows(p, call, reply) {
                    Some(next) => {
                        &&& t.next == Next::Ask(Request::Init(next))
                        &&& t.model == (Model { stage: t.model.stage, ..m })
                    },
                    None => {
                        &&& call is Commit
                        &&& t.next == Next::Return(Answer::Flag(true))
                        &&& t.model.devices == Some(completed(p))
                        &&& t.model == (Model {
                            devices: t.model.devices,
                            stage: Stage::Idle,
                            ..m
                        })
                    },
                }
            }
        }),
{
}

/// Setting up does nothing where there are devices already; otherwise the
/// window is noted, and the first call is for a hardware device.
pub proof fn lemma_setting_up_begins(m: Model, hwnd: Hwnd)
    requires
        m.wf(),
        m.idle(),
    ensures
        ({
            let t = begin(m, Operation::Init { hwnd });
            &&& t.effects == Seq::<Effect>::empty()
            &&& m.devices is Some ==> t.next == Next::Return(Answer::Flag(true)) && t.model == m
            &&& m.devices is None ==> t.next == Next::Ask(
                Request::Init(InitCall::CreateD3dDevice),
            ) && t.model == (Model { hwnd, stage: t.model.stage, ..m })
        }),
{
}

/// What comes once a rebuild is over: the answer that was waiting, or the frame
/// that had to wait, from its beginning.
pub open spec fn continues(n: Model, after: After, next: Next) -> bool {
    match after {
        After::Finish(answer) => next == Next::Return(answer),
        After::Paint(paint) => match paint.source {
            Source::Shared { shared_texture } => next == (match n.devices {
                Some(d) => Next::Ask(
                    Request::OpenSharedTexture { device: d.d3d_device, shared_texture },
                ),
                None => told(paint.slot, false),
            }),
            Source::Software { address, width, height } => memory_frame_starts(
                n,
                paint.surface,
                paint.slot,
                address,
                width,
                height,
                next,
            ),
        },
    }
}

/// A surface that can be hooked to the root is one that has a visual.
pub open spec fn has_visual(m: Model, id: SurfaceId) -> bool {
    m.reg.has(id) && m.surface(id).visual is Some
}

/// The queue is worked off from `from` on: the next surface in it that has a
/// visual is hooked to the root, right above the one on top of the stack so far,
/// if there is one; when there is none left, the tree is committed, devices
/// that are new are put in service, and what was to follow follows.
pub open spec fn works_off(
    m: Model,
    purpose: AttachFor,
    d: CompositorDevices,
    from: int,
    t: Turned,
) -> bool {
    let top = if m.reg.stack.len() == 0 {
        None
    } else {
        m.surface(m.reg.stack.last()).visual
    };
    &&& t.model.reg == m.reg
    &&& if forall|k: int| from <= k < m.queue.len() ==> !has_visual(m, #[trigger] m.queue[k]) {
        &&& t.effects.len() > 0
        &&& t.effects.last() == (Effect::Commit { device: d.dcomp_device })
        &&& t.model.devices == Some(d)
        &&& t.model.queue.len() == 0
        &&& match purpose {
            AttachFor::Restack => t.next == Next::Return(Answer::Unit),
            AttachFor::Rebuild { after, .. } => continues(t.model, after, t.next),
        }
    } else {
        exists|k: int| {
            &&& from <= k < m.queue.len()
            &&& has_visual(m, #[trigger] m.queue[k])
            &&& forall|j: int| from <= j < k ==> !has_visual(m, #[trigger] m.queue[j])
            &&& t.model == (Model { stage: t.model.stage, ..m })
            &&& t.model.stage matches Stage::Attach { purpose: p, index, .. } && p == purpose
                && index == k
            &&& t.next == Next::Ask(
                Request::AddVisual {
                    parent: d.dcomp_root,
                    child: m.surface(m.queue[k]).visual->0,
                    insert_above: top is Some,
                    reference: top,
                },
            )
        }
    }
}

proof fn lemma_next_attachable(m: Model, from: int)
    requires
        0 <= from <= m.queue.len(),
    ensures
        ({
            let i = next_attachable(m.queue, m.reg.surfaces, from);
            &&& from <= i <= m.queue.len()
            &&& i < m.queue.len() ==> has_visual(m, m.queue[i])
            &&& forall|j: int| from <= j < i ==> !has_visual(m, #[trigger] m.queue[j])
        }),
    decreases m.queue.len() - from,
{
    if from < m.queue.len() && !has_visual(m, m.queue[from]) {
        lemma_next_attachable(m, from + 1);
    }
}

proof fn lemma_continues(n: Model, fx: Seq<Effect>, after: After)
    requires
        n.after_ok(after),
    ensures
        ({
            let t = resumed(n, fx, after);
            &&& t.effects == fx
            &&& t.model == (Model { stage: t.model.stage, ..n })
            &&& continues(t.model, after, t.next)
        }),
{
    let t = resumed(n, fx, after);
    assert(t.model =~= (Model { stage: t.model.stage, ..n }));
}

proof fn lemma_attaching_works_off(
    m: Model,
    fx: Seq<Effect>,
    purpose: AttachFor,
    d: CompositorDevices,
    from: int,
    above: Option<Handle>,
)
    requires
        0 <= from <= m.queue.len() <= usize::MAX,
        match purpose {
            AttachFor::Restack => m.devices == Some(d),
            AttachFor::Rebuild { devices, after } => m.devices is None && devices == d
                && m.after_ok(after),
        },
        above == (if m.reg.stack.len() == 0 {
            None
        } else {
            m.surface(m.reg.stack.last()).visual
        }),
    ensures
        works_off(m, purpose, d, from, attaching(m, fx, purpose, from, above)),
{
    let t = attaching(m, fx, purpose, from, above);
    let i = next_attachable(m.queue, m.reg.surfaces, from);
    lemma_next_attachable(m, from);
    if i < m.queue.len() {
        assert(has_visual(m, m.queue[i]));
        assert(t.model =~= (Model { stage: t.model.stage, ..m }));
    } else {
        let e = Model { queue: Seq::empty(), ..m };
        match purpose {
            AttachFor::Restack => {},
            AttachFor::Rebuild { devices, after } => {
                lemma_continues(
                    Model { devices: Some(devices), ..e },
                    fx.push(Effect::Commit { device: devices.dcomp_device }),
                    after,
                );
            },
        }
    }
}

/// While surfaces are hooked to the root, the next one goes above the visual of
/// the surface on top of the stack so far, and below all if there is none.
pub open spec fn hooks_on_top(m: Model) -> bool {
    m.stage matches Stage::Attach { above, .. } ==> above == (if m.reg.stack.len() == 0 {
        None
    } else {
        m.surface(m.reg.stack.last()).visual
    })
}

/// A surface that was hooked to the root is in the tree and on top of the
/// stack; one that could not be is left out. Either way the rest of the queue is
/// worked off.
pub proof fn lemma_hooking(m: Model, code: i32)
    requires
        sound(m),
        m.stage is Attach,
        hooks_on_top(m),
    ensures
        ({
            let t = step(m, Reply::Status(code));
            let index = m.stage->Attach_index as int;
            let id = m.queue[index];
            let d = in_service(m)->0;
            let n = Model { reg: t.model.reg, ..m };
            &&& m.reg.has(id)
            &&& m.request() == (Request::AddVisual {
                parent: d.dcomp_root,
                child: m.surface(id).visual->0,
                insert_above: m.reg.stack.len() > 0 && m.surface(
                    m.reg.stack.last(),
                ).visual is Some,
                reference: if m.reg.stack.len() == 0 {
                    None
                } else {
                    m.surface(m.reg.stack.last()).visual
                },
            })
            &&& n.reg.live == m.reg.live
            &&& n.reg.stack == (if code >= 0 {
                m.reg.stack.push(id)
            } else {
                m.reg.stack
            })
            &&& forall|x: SurfaceId| #[trigger] n.reg.has(x) <==> m.reg.has(x)
            &&& forall|x: SurfaceId| x != id ==> #[trigger] n.surface(x) == m.surface(x)
            &&& n.surface(id) == (Surface {
                in_tree: m.surface(id).in_tree || code >= 0,
                ..m.surface(id)
            })
            &&& works_off(n, m.stage->purpose, d, index + 1, t)
            &&& hooks_on_top(t.model)
        }),
{
    let t = step(m, Reply::Status(code));
    match m.stage {
        Stage::Attach { purpose, index, above } => {
            let id = m.queue[index as int];
            let d = in_service(m)->0;
            let s = m.surface(id);
            if code < 0 {
                lemma_attaching_works_off(m, seq![], purpose, d, index + 1, above);
                assert(t.model.reg == m.reg);
                assert((Model { reg: t.model.reg, ..m }) =~= m);
            } else {
                let reg = m.reg.put(id, Surface { in_tree: true, ..s }).stacked(id);
                let n = Model { reg, ..m };
                assert(reg.stack.last() == id);
                lemma_attaching_works_off(n, seq![], purpose, d, index + 1, s.visual);
                assert(t.model.reg == reg);
            }
        },
        _ => {},
    }
}

/// A new stacking order begins with every surface that has a visual out of the
/// tree and an empty stack; then the order is worked off from its bottom.
pub proof fn lemma_restack_begins(m: Model, ordered: Seq<SurfaceId>)
    requires
        sound(m),
        admissible(m, Operation::Restack { ordered }),
    ensures
        ({
            let t = begin(m, Operation::Restack { ordered });
            let n = Model { reg: t.model.reg, queue: ordered, ..m };
            &&& m.devices is None ==> t.next == Next::Return(Answer::Unit) && t.model == m
                && t.effects == Seq::<Effect>::empty()
            &&& m.devices is Some ==> {
                &&& n.reg.stack.len() == 0
                &&& n.reg.live == m.reg.live
                &&& forall|x: SurfaceId| #[trigger] n.reg.has(x) <==> m.reg.has(x)
                &&& forall|x: SurfaceId| #[trigger]
                    m.reg.has(x) ==> n.surface(x) == (Surface {
                        in_tree: m.surface(x).in_tree && m.surface(x).visual is None,
                        ..m.surface(x)
                    })
                &&& works_off(n, AttachFor::Restack, m.devices->0, 0, t)
                &&& hooks_on_top(t.model)
            }
        }),
{
    let t = begin(m, Operation::Restack { ordered });
    match m.devices {
        None => {
            assert(t.model =~= m);
        },
        Some(d) => {
            let reg = t.model.reg;
            let n = Model { reg, queue: ordered, ..m };
            let fx = unhook_each(m.reg.live, m.reg.surfaces, d.dcomp_root);
            assert(t == attaching(n, fx, AttachFor::Restack, 0, None));
            lemma_attaching_works_off(n, fx, AttachFor::Restack, d, 0, None);
            assert forall|x: SurfaceId| #[trigger] n.reg.has(x) <==> m.reg.has(x) by {}
            assert forall|x: SurfaceId| #[trigger] m.reg.has(x) implies n.surface(x) == (Surface {
                in_tree: m.surface(x).in_tree && m.surface(x).visual is None,
                ..m.surface(x)
            }) by {
                assert(n.reg.surfaces[x] == unhooked(m.reg.surfaces[x]));
            }
        },
    }
}

/// Where every surface of an order has a visual and is hooked to the root, the
/// stack is that order.
pub proof fn lemma_restack_stacks_all(m: Model, ordered: Seq<SurfaceId>, codes: Seq<i32>)
    requires
        m.wf(),
        m.idle(),
        m.devices is Some,
        ordered.len() <= usize::MAX,
        forall|k: int|
            0 <= k < ordered.len() ==> m.reg.has(#[trigger] ordered[k]) && m.surface(
                ordered[k],
            ).visual is Some,
        codes.len() == ordered.len(),
        forall|k: int| 0 <= k < codes.len() ==> #[trigger] codes[k] >= 0,
    ensures
        ({
            let t = run(begin(m, Operation::Restack { ordered }), statuses(codes));
            &&& conversation(begin(m, Operation::Restack { ordered }), statuses(codes))
            &&& t.next == Next::Return(Answer::Unit)
            &&& t.model.reg.stack == ordered
            &&& forall|id: SurfaceId| #[trigger]
                m.reg.has(id) && m.surface(id).visual is Some ==> t.model.surface(id).in_tree
                    == ordered.contains(id)
        }),
{
    lemma_all_picked(ordered, m.reg.surfaces, 0, codes);
    lemma_restack_outcome(m, ordered, codes);
    assert(ordered.skip(0) =~= ordered);
}

/// The live surfaces from `index` on get new visuals on these devices, in the
/// order of their making; then they are stacked as they were.
pub open spec fn gives_visuals(
    m: Model,
    d: CompositorDevices,
    after: After,
    index: int,
    t: Turned,
) -> bool {
    if index < m.reg.live.len() {
        &&& t.next == Next::Ask(Request::CreateVisual { device: d.dcomp_device })
        &&& t.model == (Model { stage: t.model.stage, ..m })
        &&& t.model.stage == (Stage::RebuildVisual { devices: d, after, index: index as usize })
    } else {
        let n = Model { reg: t.model.reg, ..m };
        &&& n.reg.stack.len() == 0
        &&& n.reg.live == m.reg.live
        &&& n.reg.surfaces == m.reg.surfaces
        &&& works_off(n, AttachFor::Rebuild { devices: d, after }, d, 0, t)
        &&& hooks_on_top(t.model)
    }
}

proof fn lemma_revisualing_gives(
    m: Model,
    fx: Seq<Effect>,
    d: CompositorDevices,
    after: After,
    index: int,
)
    requires
        sized(m),
        m.devices is None,
        m.after_ok(after),
        0 <= index <= m.reg.live.len(),
    ensures
        gives_visuals(m, d, after, index, revisualing(m, fx, d, after, index)),
{
    let t = revisualing(m, fx, d, after, index);
    if index >= m.reg.live.len() {
        let n = Model { reg: m.reg.unstacked(), ..m };
        lemma_attaching_works_off(n, fx, AttachFor::Rebuild { devices: d, after }, d, 0, None);
        assert(t.model.reg == n.reg);
        assert((Model { reg: t.model.reg, ..m }) =~= n);
    }
}

/// Building anew goes through the same calls as setting up. When the last one
/// succeeds every live surface gets new visuals; as soon as one fails there are
/// no devices, and what was to follow follows without.
pub proof fn lemma_building_anew(m: Model, p: InitProgress, after: After, reply: Reply)
    requires
        sound(m),
        m.stage == (Stage::RebuildInit { progress: p, after }),
        m.expects(reply),
    ensures
        m.request() is Init,
        ({
            let call = m.request()->Init_0;
            let t = step(m, reply);
            if init_fails(call, reply) {
                &&& t.effects == Seq::<Effect>::empty()
                &&& t.model.devices is None
                &&& t.model.reg == m.reg
                &&& t.model.hwnd == m.hwnd
                &&& continues(t.model, after, t.next)
            } else {
                match init_follows(p, call, reply) {
                    Some(next) => {
                        &&& t.effects == Seq::<Effect>::empty()
                        &&& t.next == Next::Ask(Request::Init(next))
                        &&& t.model == (Model { stage: t.model.stage, ..m })
                        &&& after_of(t.model.stage) == Some(after)
                    },
                    None => call is Commit && gives_visuals(m, completed(p), after, 0, t),
                }
            }
        }),
{
    let call = m.request()->Init_0;
    if init_fails(call, reply) {
        lemma_continues(Model { queue: Seq::empty(), ..m }, seq![], after);
    } else if p.step is Commit {
        lemma_revisualing_gives(m, seq![], completed(p), after, 0);
    }
}

/// Each live surface gets a visual and a popup visual, nested in it; without a
/// visual it goes without both. A surface with new visuals has no swap chain and
/// no size, and is as visible as it was.
pub proof fn lemma_new_visuals(m: Model, reply: Reply)
    requires
        sound(m),
        m.expects(reply),
        m.stage is RebuildVisual || m.stage is RebuildPopup,
    ensures
        ({
            let t = step(m, reply);
            let d = in_service(m)->0;
            let after = after_of(m.stage)->0;
            &&& m.request() == (Request::CreateVisual { device: d.dcomp_device })
            &&& m.stage matches Stage::RebuildVisual { index, .. } ==> match reply {
                Reply::Object(visual) => t.next == Next::Ask(
                    Request::CreateVisual { device: d.dcomp_device },
                ) && t.effects == Seq::<Effect>::empty() && t.model == (Model {
                    stage: Stage::RebuildPopup { devices: d, after, index, visual },
                    ..m
                }),
                _ => gives_visuals(m, d, after, index + 1, t),
            }
            &&& m.stage matches Stage::RebuildPopup { index, visual, .. } ==> {
                let id = m.reg.live[index as int];
                let n = Model { reg: Registry { stack: m.reg.stack, ..t.model.reg }, ..m };
                let (old_s, s) = (m.surface(id), n.surface(id));
                &&& n.reg.live == m.reg.live
                &&& forall|x: SurfaceId| #[trigger] n.reg.has(x) <==> m.reg.has(x)
                &&& forall|x: SurfaceId| x != id ==> #[trigger] n.surface(x) == m.surface(x)
                &&& s.visual == Some(visual)
                &&& s.popup_visual == (match reply {
                    Reply::Object(popup) => Some(popup),
                    _ => None,
                })
                &&& s.swap_chain is None && s.popup_swap_chain is None
                &&& (s.sw, s.sh, s.popup_sw, s.popup_sh) == (0i32, 0i32, 0i32, 0i32)
                &&& !s.in_tree
                &&& (s.visible, s.popup_visible) == (old_s.visible, old_s.popup_visible)
                &&& reply is Object ==> t.effects.len() > 0 && t.effects[0] == (
                Effect::AddVisual {
                    parent: visual,
                    child: reply->Object_0,
                    insert_above: true,
                    reference: None,
                })
                &&& gives_visuals(n, d, after, index + 1, t)
            }
        }),
{
    let t = step(m, reply);
    let d = in_service(m)->0;
    match m.stage {
        Stage::RebuildVisual { after, index, .. } => {
            lemma_revisualing_gives(m, seq![], d, after, index + 1);
        },
        Stage::RebuildPopup { after, index, visual, .. } => {
            let id = m.reg.live[index as int];
            assert(m.reg.live.contains(id));
            assert(m.reg.has(id));
            let popup = match reply {
                Reply::Object(h) => Some(h),
                _ => None,
            };
            let c = m.put(id, m.surface(id).rebuilt(visual, popup));
            let fx = nest_popup(visual, popup);
            assert(t == revisualing(c, fx, d, after, index + 1));
            lemma_revisualing_gives(c, fx, d, after, index + 1);
            let n = Model { reg: Registry { stack: m.reg.stack, ..t.model.reg }, ..m };
            assert(n =~= c);
        },
        _ => {},
    }
}

proof fn lemma_frame_steps_do_not_hook(m: Model, reply: Reply)
    requires
        m.expects(reply),
        m.stage is Open || m.stage is Measure || m.stage is Judge || m.stage is Upload
            || m.stage is FitResize || m.stage is FitCheck || m.stage is FitCreate,
    ensures
        !(step(m, reply).model.stage is Attach),
{
}

/// At every time the next surface is hooked to the root right above the one on
/// top of the stack: no reply and no operation leads to a state in which it is
/// not so.
#[verifier::rlimit(30)]
pub proof fn lemma_hooks_on_top(m: Model, reply: Reply)
    requires
        sound(m),
        m.expects(reply),
        hooks_on_top(m),
    ensures
        hooks_on_top(step(m, reply).model),
{
    match m.stage {
        Stage::Attach { .. } => {
            lemma_hooking(m, reply->Status_0);
        },
        Stage::RebuildVisual { .. } | Stage::RebuildPopup { .. } => {
            lemma_new_visuals(m, reply);
        },
        Stage::RebuildInit { progress, after } => {
            lemma_building_anew(m, progress, after, reply);
        },
        Stage::Open(_) | Stage::Measure { .. } | Stage::Judge { .. } | Stage::Upload(_)
        | Stage::FitResize(_) | Stage::FitCheck(_) | Stage::FitCreate(_) => {
            lemma_frame_steps_do_not_hook(m, reply);
        },
        _ => {},
    }
}

proof fn lemma_frames_do_not_hook(m: Model, op: Operation)
    requires
        op is Present || op is PresentSoftware || op is Resize || op is Rebind,
    ensures
        !(begin(m, op).model.stage is Attach),
{
}

/// The same of the first turn of an operation.
pub proof fn lemma_begin_hooks_on_top(m: Model, op: Operation)
    requires
        sound(m),
        admissible(m, op),
    ensures
        hooks_on_top(begin(m, op).model),
{
    match op {
        Operation::Restack { ordered } => {
            lemma_restack_begins(m, ordered);
        },
        Operation::Present { .. } | Operation::PresentSoftware { .. } | Operation::Resize { .. }
        | Operation::Rebind { .. } => {
            lemma_frames_do_not_hook(m, op);
        },
        _ => {},
    }
}

/// Recovery from a lost device where every call succeeds: the same surfaces in
/// the same order, each with the visuals that were made for it, in the tree if
/// it is stacked, as visible as before, and empty until its next frame.
pub proof fn lemma_recovered_surfaces(
    m: Model,
    hwnd: Hwnd,
    init: Seq<Reply>,
    got: Seq<(Option<Handle>, Option<Handle>)>,
    codes: Seq<i32>,
)
    requires
        sound(m),
        m.idle(),
        init_replies_ok(init),
        got.len() == m.reg.live.len(),
        forall|k: int| 0 <= k < got.len() ==> (#[trigger] got[k]).0 is Some,
        codes.len() == m.reg.stack.len(),
        forall|k: int| 0 <= k < codes.len() ==> #[trigger] codes[k] >= 0,
    ensures
        ({
            let t = begin(m, Operation::Rebind { hwnd });
            let replies = init + revisual_replies(got) + statuses(codes);
            let n = run(t, replies).model;
            &&& conversation(t, replies)
            &&& run(t, replies).next == Next::Return(Answer::Unit)
            &&& n.devices is Some && (n.devices->0).hwnd == hwnd && n.hwnd == hwnd
            &&& n.reg.live == m.reg.live
            &&& n.reg.stack == m.reg.stack
            &&& forall|k: int|
                0 <= k < m.reg.live.len() ==> {
                    let id = #[trigger] m.reg.live[k];
                    let (old_s, s) = (m.surface(id), n.surface(id));
                    &&& n.reg.has(id)
                    &&& s.visual == got[k].0
                    &&& s.popup_visual == got[k].1
                    &&& s.in_tree == m.reg.stack.contains(id)
                    &&& s.visible == old_s.visible
                    &&& s.popup_visible == old_s.popup_visible
                    &&& s.swap_chain is None && s.popup_swap_chain is None
                    &&& (s.sw, s.sh, s.popup_sw, s.popup_sh) == (0i32, 0i32, 0i32, 0i32)
                }
        }),
{
    lemma_recovery_restores(m, hwnd, seq![], Answer::Unit, init, got, codes);
    let t = begin(m, Operation::Rebind { hwnd });
    let replies = init + revisual_replies(got) + statuses(codes);
    let n = run(t, replies).model;
    assert forall|k: int| 0 <= k < m.reg.live.len() implies n.reg.has(
        #[trigger] m.reg.live[k],
    ) by {
        assert(m.reg.live.contains(m.reg.live[k]));
        assert(m.reg.surfaces.dom().contains(m.reg.live[k]));
    }
    assert forall|k: int| 0 <= k < m.reg.live.len() implies got[k].0 == Some(
        (#[trigger] n.surface(m.reg.live[k])).visual->0,
    ) by {
        assert(got[k].0 is Some);
    }
}

/// A window that replaces another one has everything built anew for it, whether
/// or not there were devices.
pub proof fn lemma_rebinding_begins(m: Model, hwnd: Hwnd)
    requires
        m.wf(),
        m.idle(),
    ensures
        ({
            let t = begin(m, Operation::Rebind { hwnd });
            &&& t.next == Next::Ask(Request::Init(InitCall::CreateD3dDevice))
            &&& after_of(t.model.stage) == Some(After::Finish(Answer::Unit))
            &&& t.model.devices is None
            &&& t.model.hwnd == hwnd
            &&& t.model.queue == m.reg.stack
            &&& t.model.reg.live == m.reg.live
            &&& forall|x: SurfaceId| #[trigger] t.model.reg.has(x) <==> m.reg.has(x)
            &&& forall|x: SurfaceId| #[trigger]
                m.reg.has(x) ==> t.model.surface(x).visible == m.surface(x).visible
                    && t.model.surface(x).popup_visible == m.surface(x).popup_visible
                    && t.model.surface(x).visual is None && t.model.surface(x).popup_visual is None
                    && t.model.surface(x).swap_chain is None && t.model.surface(
                    x,
                ).popup_swap_chain is None
        }),
{
}

} // verus!
