//! What the host is asked and told, frame by frame and call by call.

use vstd::prelude::*;
use crate::gate::{PresentDecision, TransitionGate};
use crate::operation::{begin, Operation};
use crate::paint::{memory_given, shared_given, size_given};
use crate::properties::after_of;
use crate::protocol::{
    AlphaMode, Answer, BindFlags, BufferUsage, DeviceStatus, Effect, Handle, InitCall, Next,
    PixelData, PixelFormat, Reply, Request, Slot, SurfaceId, SwapChainDesc, SwapEffect, TextureDesc,
    TextureUsage, NULL_SURFACE,
};
use crate::resume::step;
use crate::screen::{chain_at, size_at, visible_at, visual_at};
use crate::state::{After, Fit, FitFor, Model, Paint, Source, Stage, Turned};

verus! {

/// What the caller hears of a frame: on a surface whether it was taken, on a
/// popup nothing.
pub open spec fn told(slot: Slot, taken: bool) -> Next {
    if slot is Main {
        Next::Return(Answer::Flag(taken))
    } else {
        Next::Return(Answer::Unit)
    }
}

/// A frame that is not taken leaves everything as it was, and nothing is done.
pub open spec fn refused(m: Model, slot: Slot, t: Turned) -> bool {
    &&& t.next == told(slot, false)
    &&& t.effects == Seq::<Effect>::empty()
    &&& t.model == (Model { stage: Stage::Idle, ..m })
}

/// The bottom-most surface of the stack is the main one.
pub open spec fn is_bottom(m: Model, id: SurfaceId) -> bool {
    m.reg.stack.len() > 0 && m.reg.stack[0] == id
}

/// Whether a slot is there to be seen.
pub open spec fn can_show(m: Model, id: SurfaceId, slot: Slot) -> bool {
    visible_at(m.reg, id, slot) && visual_at(m.reg, id, slot) is Some
}

/// The call that makes a swap chain of a size on the devices there are.
pub open spec fn making_chain(m: Model, width: i32, height: i32) -> Request {
    Request::CreateSwapChain {
        factory: m.devices->0.dxgi_factory,
        device: m.devices->0.d3d_device,
        chain_desc: SwapChainDesc {
            width: width as u32,
            height: height as u32,
            format: PixelFormat::B8G8R8A8Unorm,
            sample_count: 1,
            sample_quality: 0,
            buffer_usage: BufferUsage::RenderTargetOutput,
            buffer_count: 2,
            swap_effect: SwapEffect::FlipSequential,
            alpha_mode: AlphaMode::Premultiplied,
        },
    }
}

/// The call that fills a texture with pixels in memory.
pub open spec fn filling_texture(m: Model, address: u64, width: i32, height: i32) -> Request {
    Request::CreateTexture {
        device: m.devices->0.d3d_device,
        texture_desc: TextureDesc {
            width: width as u32,
            height: height as u32,
            mip_levels: 1,
            array_size: 1,
            format: PixelFormat::B8G8R8A8Unorm,
            sample_count: 1,
            sample_quality: 0,
            usage: TextureUsage::Default,
            bind_flags: BindFlags::ShaderResource,
        },
        data: PixelData { address, row_pitch: (4 * width) as u64 },
    }
}

/// The shared texture of a frame is counted, and nothing else is done.
pub open spec fn counts_only(
    fx: Seq<Effect>,
    slot: Slot,
    source: Source,
    width: i32,
    height: i32,
) -> bool {
    match source {
        Source::Shared { shared_texture } => fx == seq![
            Effect::NoteAccelPaint { slot, shared_texture, width, height },
        ],
        Source::Software { .. } => fx == Seq::<Effect>::empty(),
    }
}

/// A texture of a size goes on to a slot that can show it. Where the swap chain
/// of the slot has that size, or where the texture has none, the back buffer is
/// asked for; otherwise the swap chain is resized to it, or made in that size.
pub open spec fn goes_on(
    m: Model,
    id: SurfaceId,
    slot: Slot,
    source: Source,
    width: i32,
    height: i32,
    t: Turned,
) -> bool {
    let chain = chain_at(m.reg, id, slot);
    &&& t.model.reg == m.reg
    &&& t.model.devices == m.devices
    &&& if width <= 0 || height <= 0 {
        match chain {
            Some(c) => t.next == Next::Ask(Request::GetBuffer { chain: c, index: 0 })
                && counts_only(t.effects, slot, source, width, height),
            None => t.next == told(slot, false) && t.effects == Seq::<Effect>::empty(),
        }
    } else {
        match chain {
            Some(c) => if size_at(m.reg, id, slot) == (width, height) {
                t.next == Next::Ask(Request::GetBuffer { chain: c, index: 0 }) && counts_only(
                    t.effects,
                    slot,
                    source,
                    width,
                    height,
                )
            } else {
                t.next == Next::Ask(
                    Request::ResizeBuffers {
                        chain: c,
                        buffer_count: 2,
                        width: width as u32,
                        height: height as u32,
                        format: PixelFormat::B8G8R8A8Unorm,
                        flags: 0,
                    },
                ) && t.effects == Seq::<Effect>::empty()
            },
            None => t.next == Next::Ask(making_chain(m, width, height)) && t.effects == Seq::<
                Effect,
            >::empty(),
        }
    }
}

/// Everything is to be built anew for the window there is, from the first call
/// of the chain on; no device is in service meanwhile.
pub open spec fn starts_over(m: Model, after: After, t: Turned) -> bool {
    &&& t.next == Next::Ask(Request::Init(InitCall::CreateD3dDevice))
    &&& t.model.stage is RebuildInit
    &&& after_of(t.model.stage) == Some(after)
    &&& t.model.devices is None
    &&& t.model.hwnd == m.hwnd
    &&& t.model.queue == m.reg.stack
    &&& t.model.reg.live == m.reg.live
}

/// A shared texture that is handed over: it is opened on the device; without
/// devices everything is built anew first, if there is a window; and what is
/// null is not painted.
pub proof fn lemma_shared_frames_begin(m: Model, id: SurfaceId, slot: Slot, info: Option<u64>)
    requires
        m.wf(),
        m.idle(),
        id == NULL_SURFACE || m.reg.has(id),
    ensures
        ({
            let t = begin(m, Operation::Present { surface: id, slot, info });
            if id == 0 || info is None || info == Some(0u64) {
                refused(m, slot, t)
            } else if m.devices is Some {
                &&& t.effects == Seq::<Effect>::empty()
                &&& t.next == Next::Ask(
                    Request::OpenSharedTexture {
                        device: m.devices->0.d3d_device,
                        shared_texture: info->0,
                    },
                )
            } else if m.hwnd != 0 {
                starts_over(
                    m,
                    After::Paint(
                        Paint {
                            surface: id,
                            slot,
                            source: Source::Shared { shared_texture: info->0 },
                        },
                    ),
                    t,
                )
            } else {
                refused(m, slot, t)
            }
        }),
{
}

/// How a frame from memory starts where nothing has to be built first: one of
/// the main surface is put to the transition gate at its own size; any other is
/// uploaded, unless it is for a popup that cannot be seen.
pub open spec fn memory_frame_starts(
    m: Model,
    id: SurfaceId,
    slot: Slot,
    address: u64,
    width: i32,
    height: i32,
    next: Next,
) -> bool {
    if slot is Main && is_bottom(m, id) {
        next == Next::Ask(Request::JudgeMainFrame { gate: m.gate, frame: (width, height) })
    } else if m.devices is None || (slot is Popup && !can_show(m, id, slot)) {
        next == told(slot, false)
    } else {
        next == Next::Ask(filling_texture(m, address, width, height))
    }
}

/// Pixels in memory that are handed over.
pub proof fn lemma_memory_frames_begin(
    m: Model,
    id: SurfaceId,
    slot: Slot,
    buffer: u64,
    width: i32,
    height: i32,
)
    requires
        m.wf(),
        m.idle(),
        id == NULL_SURFACE || m.reg.has(id),
    ensures
        ({
            let t = begin(
                m,
                Operation::PresentSoftware { surface: id, slot, buffer, width, height },
            );
            let source = Source::Software { address: buffer, width, height };
            if id == 0 || buffer == 0 || width <= 0 || height <= 0 {
                refused(m, slot, t)
            } else if m.devices is None && m.hwnd != 0 {
                starts_over(m, After::Paint(Paint { surface: id, slot, source }), t)
            } else {
                &&& t.effects == Seq::<Effect>::empty()
                &&& t.model == (Model { stage: t.model.stage, ..m })
                &&& memory_frame_starts(m, id, slot, buffer, width, height, t.next)
            }
        }),
{
}

/// A shared texture that was opened is measured; one that could not be opened
/// is not taken.
pub proof fn lemma_opened_textures_are_measured(m: Model, paint: Paint, texture: Handle)
    requires
        m.wf(),
        m.stage == Stage::Open(paint),
    ensures
        ({
            let t = step(m, Reply::Object(texture));
            &&& t.next == Next::Ask(Request::TextureSize { texture })
            &&& t.effects == Seq::<Effect>::empty()
            &&& t.model == (Model { stage: t.model.stage, ..m })
        }),
        refused(m, paint.slot, step(m, Reply::NoObject)),
{
}

/// A shared texture that was measured: one for the main surface is put to the
/// transition gate, at the size that it has; any other goes on to its slot, if
/// that can show it, and never is put to the transition gate.
pub proof fn lemma_measured_textures(
    m: Model,
    paint: Paint,
    texture: Handle,
    width: u32,
    height: u32,
)
    requires
        m.wf(),
        m.stage == (Stage::Measure { paint, texture }),
    ensures
        ({
            let t = step(m, Reply::Size { width, height });
            let (id, slot) = (paint.surface, paint.slot);
            &&& t.model.gate == m.gate
            &&& if slot is Main && is_bottom(m, id) {
                &&& t.next == Next::Ask(
                    Request::JudgeMainFrame {
                        gate: m.gate,
                        frame: (width as i32, height as i32),
                    },
                )
                &&& t.effects == Seq::<Effect>::empty()
                &&& t.model == (Model { stage: t.model.stage, ..m })
            } else if can_show(m, id, slot) {
                goes_on(m, id, slot, paint.source, width as i32, height as i32, t)
            } else {
                refused(m, slot, t)
            }
        }),
{
}

/// What the transition gate decides on a frame of the main surface: a rejected
/// frame is not taken and changes nothing. One that ends the transition resets
/// the transition gate, and, as a shared texture, the logical size noted
/// meanwhile. A frame from memory that is let through is uploaded; a shared
/// texture goes on, unless it is wider or higher than the window by more than
/// two pixels.
pub proof fn lemma_judged_frames(
    m: Model,
    paint: Paint,
    opened: Option<Handle>,
    width: i32,
    height: i32,
    decision: PresentDecision,
)
    requires
        m.wf(),
        m.stage == (Stage::Judge { paint, opened, width, height }),
    ensures
        m.request() == (Request::JudgeMainFrame { gate: m.gate, frame: (width, height) }),
        paint.slot is Main && is_bottom(m, paint.surface),
        ({
            let t = step(m, Reply::Decision(decision));
            let id = paint.surface;
            let ends = decision is EndTransitionThenPresent;
            &&& t.model.gate == (if ends {
                TransitionGate { transitioning: false, captured: (0, 0), expected: (0, 0) }
            } else {
                m.gate
            })
            &&& (t.model.pending_lw, t.model.pending_lh) == (if ends && paint.source is Shared {
                (0i32, 0i32)
            } else {
                (m.pending_lw, m.pending_lh)
            })
            &&& t.model.reg == m.reg
            &&& decision is Reject ==> refused(m, Slot::Main, t)
            &&& !(decision is Reject) ==> match paint.source {
                Source::Software { address, width: w, height: h } => {
                    &&& (w, h) == (width, height)
                    &&& t.effects == Seq::<Effect>::empty()
                    &&& t.next == (if m.devices is Some {
                        Next::Ask(filling_texture(m, address, width, height))
                    } else {
                        Next::Return(Answer::Flag(false))
                    })
                },
                Source::Shared { .. } => {
                    if (m.mpv_pw > 0 && (width > m.mpv_pw + 2 || height > m.mpv_ph + 2))
                        || !can_show(m, id, Slot::Main) {
                        &&& t.next == Next::Return(Answer::Flag(false))
                        &&& t.effects == Seq::<Effect>::empty()
                        &&& t.model.idle()
                    } else {
                        goes_on(m, id, Slot::Main, paint.source, width, height, t)
                    }
                },
            }
        }),
{
}

/// A texture filled from memory goes on to its slot, if that can show it, at
/// the size of the pixels; without a texture the frame is not taken.
pub proof fn lemma_uploaded_frames(m: Model, paint: Paint, texture: Handle)
    requires
        m.wf(),
        m.stage == Stage::Upload(paint),
    ensures
        m.request() == filling_texture(
            m,
            paint.source->address,
            paint.source->width,
            paint.source->height,
        ),
        refused(m, paint.slot, step(m, Reply::NoObject)),
        ({
            let t = step(m, Reply::Object(texture));
            let (w, h) = (paint.source->width, paint.source->height);
            if can_show(m, paint.surface, paint.slot) {
                goes_on(m, paint.surface, paint.slot, paint.source, w, h, t)
            } else {
                refused(m, paint.slot, t)
            }
        }),
{
}

/// Everything but the swap chain and the size of one slot is as it was.
pub open spec fn one_slot_changed(
    m: Model,
    n: Model,
    id: SurfaceId,
    slot: Slot,
    chain: Option<Handle>,
    size: (i32, i32),
) -> bool {
    &&& n == (Model { reg: n.reg, stage: n.stage, ..m })
    &&& n.reg.live == m.reg.live
    &&& n.reg.stack == m.reg.stack
    &&& forall|x: SurfaceId| #[trigger] n.reg.has(x) <==> m.reg.has(x)
    &&& forall|x: SurfaceId, q: Slot| #[trigger]
        visual_at(n.reg, x, q) == visual_at(m.reg, x, q)
    &&& forall|x: SurfaceId, q: Slot|
        x != id || q != slot ==> #[trigger] chain_at(n.reg, x, q) == chain_at(m.reg, x, q)
    &&& forall|x: SurfaceId, q: Slot|
        x != id || q != slot ==> #[trigger] size_at(n.reg, x, q) == size_at(m.reg, x, q)
    &&& chain_at(n.reg, id, slot) == chain
    &&& size_at(n.reg, id, slot) == size
}

/// The swap chain of a slot was resized in place to the size that was asked
/// for: that size is noted, the shared texture is counted, and the frame goes on
/// to the back buffer of that swap chain; a surface that was resized is
/// committed. After a resize that failed the device is asked after.
pub proof fn lemma_resized_chains(m: Model, f: Fit, code: i32)
    requires
        m.wf(),
        m.stage == Stage::FitResize(f),
    ensures
        ({
            let t = step(m, Reply::Status(code));
            let chain = chain_at(m.reg, f.surface, f.slot)->0;
            let d = m.devices->0;
            &&& m.request() == (Request::ResizeBuffers {
                chain,
                buffer_count: 2,
                width: f.width as u32,
                height: f.height as u32,
                format: PixelFormat::B8G8R8A8Unorm,
                flags: 0,
            })
            &&& code >= 0 ==> one_slot_changed(
                m,
                t.model,
                f.surface,
                f.slot,
                Some(chain),
                (f.width, f.height),
            ) && match f.purpose {
                FitFor::Present { source, .. } => t.next == Next::Ask(
                    Request::GetBuffer { chain, index: 0 },
                ) && counts_only(t.effects, f.slot, source, f.width, f.height),
                FitFor::Resize => t.next == Next::Return(Answer::Unit) && t.effects == seq![
                    Effect::Commit { device: d.dcomp_device },
                ],
            }
            &&& code < 0 ==> t.next == Next::Ask(
                Request::DeviceRemovedReason { device: d.d3d_device },
            ) && t.effects == Seq::<Effect>::empty() && t.model == (Model {
                stage: t.model.stage,
                ..m
            })
        }),
{
    let t = step(m, Reply::Status(code));
    assert(m.reg.has(f.surface));
    if code >= 0 && f.purpose is Resize {
        assert(t.effects =~= seq![Effect::Commit { device: m.devices->0.dcomp_device }]);
    }
    if code >= 0 && f.purpose is Present {
        assert(counts_only(t.effects, f.slot, f.purpose->source, f.width, f.height)) by {
            match f.purpose->source {
                Source::Shared { shared_texture } => {
                    let note = Effect::NoteAccelPaint {
                        slot: f.slot,
                        shared_texture,
                        width: f.width,
                        height: f.height,
                    };
                    assert(t.effects =~= seq![note]);
                },
                Source::Software { .. } => {
                    assert(t.effects =~= Seq::empty());
                },
            }
        }
    }
}

/// After a resize that failed the visual is emptied first. On a device that is
/// there a swap chain of the same size is made in place of the old one; on one
/// that is lost everything is built anew, and the frame counts as not taken.
pub proof fn lemma_chains_after_a_failed_resize(m: Model, f: Fit, code: i32)
    requires
        m.wf(),
        m.stage == Stage::FitCheck(f),
    ensures
        ({
            let t = step(m, Reply::Status(code));
            let visual = visual_at(m.reg, f.surface, f.slot)->0;
            &&& m.request() == (Request::DeviceRemovedReason { device: m.devices->0.d3d_device })
            &&& t.effects.len() > 0
            &&& t.effects[0] == (Effect::SetContent { visual, content: None })
            &&& chain_at(t.model.reg, f.surface, f.slot) is None
            &&& code >= 0 ==> t.effects.len() == 1 && t.next == Next::Ask(
                making_chain(m, f.width, f.height),
            ) && t.model.devices == m.devices
            &&& code < 0 && m.hwnd != 0 ==> starts_over(
                m,
                After::Finish(
                    if f.purpose is Present && f.slot is Main {
                        Answer::Flag(false)
                    } else {
                        Answer::Unit
                    },
                ),
                t,
            )
            &&& code < 0 && f.purpose is Resize ==> t.effects.len() > 1 && t.effects[1] == (
            Effect::Commit { device: m.devices->0.dcomp_device })
            &&& code < 0 && m.hwnd == 0 ==> t.next == (if f.purpose is Present {
                told(f.slot, false)
            } else {
                Next::Return(Answer::Unit)
            })
        }),
{
    assert(m.reg.has(f.surface));
}

/// A swap chain that was made is bound to the visual of its slot, its size is
/// noted, and the frame goes on to its back buffer; a surface that was resized
/// is committed. Without a swap chain the frame is not taken.
pub proof fn lemma_made_chains_are_bound(m: Model, f: Fit, chain: Handle)
    requires
        m.wf(),
        m.stage == Stage::FitCreate(f),
    ensures
        m.request() == making_chain(m, f.width, f.height),
        ({
            let t = step(m, Reply::Object(chain));
            let visual = visual_at(m.reg, f.surface, f.slot)->0;
            &&& t.effects.len() > 0
            &&& t.effects[0] == (Effect::SetContent { visual, content: Some(chain) })
            &&& one_slot_changed(
                m,
                t.model,
                f.surface,
                f.slot,
                Some(chain),
                (f.width, f.height),
            )
            &&& match f.purpose {
                FitFor::Present { source, .. } => t.next == Next::Ask(
                    Request::GetBuffer { chain, index: 0 },
                ) && counts_only(t.effects.drop_first(), f.slot, source, f.width, f.height),
                FitFor::Resize => t.next == Next::Return(Answer::Unit)
                    && t.effects.drop_first() == seq![
                    Effect::Commit { device: m.devices->0.dcomp_device },
                ],
            }
        }),
        ({
            let t = step(m, Reply::NoObject);
            &&& t.model == (Model { stage: Stage::Idle, ..m })
            &&& f.purpose is Present ==> refused(m, f.slot, t)
            &&& f.purpose is Resize ==> t.next == Next::Return(Answer::Unit) && t.effects == seq![
                Effect::Commit { device: m.devices->0.dcomp_device },
            ]
        }),
{
    assert(m.reg.has(f.surface));
    let t = step(m, Reply::Object(chain));
    let u = step(m, Reply::NoObject);
    let commit = Effect::Commit { device: m.devices->0.dcomp_device };
    match f.purpose {
        FitFor::Present { source, .. } => {
            assert(u.effects =~= Seq::empty());
            match source {
                Source::Shared { shared_texture } => {
                    let note = Effect::NoteAccelPaint {
                        slot: f.slot,
                        shared_texture,
                        width: f.width,
                        height: f.height,
                    };
                    assert(t.effects.drop_first() =~= seq![note]);
                },
                Source::Software { .. } => {
                    assert(t.effects.drop_first() =~= Seq::empty());
                },
            }
        },
        FitFor::Resize => {
            assert(t.effects.drop_first() =~= seq![commit]);
            assert(u.effects =~= seq![commit]);
        },
    }
}

/// Every frame, shared or from memory, of a surface or of a popup, is copied
/// into the back buffer that came back, the copy is waited for, and the swap
/// chain that the back buffer belongs to is presented at once. Without a back
/// buffer the device is asked after.
pub proof fn lemma_frames_are_copied(m: Model, paint: Paint, texture: Handle, buffer: Handle)
    requires
        m.wf(),
        m.stage == (Stage::Buffer { paint, texture }),
    ensures
        ({
            let t = step(m, Reply::Object(buffer));
            let chain = chain_at(m.reg, paint.surface, paint.slot)->0;
            let d = m.devices->0;
            &&& m.request() == (Request::GetBuffer { chain, index: 0 })
            &&& t.effects == seq![
                Effect::CopyResource { context: d.d3d_context, target: buffer, source: texture },
                Effect::AwaitCopy { device: d.d3d_device, context: d.d3d_context },
            ]
            &&& t.next == Next::Ask(Request::Present { chain, sync_interval: 0, flags: 0 })
            &&& t.model == (Model { stage: t.model.stage, ..m })
        }),
        ({
            let t = step(m, Reply::NoObject);
            &&& t.next == Next::Ask(
                Request::DeviceRemovedReason { device: m.devices->0.d3d_device },
            )
            &&& t.effects == Seq::<Effect>::empty()
            &&& t.model == (Model { stage: t.model.stage, ..m })
        }),
{
}

/// A frame that was presented is committed and taken. After one that was not
/// the device is asked after: on a device that is there the frame is not taken,
/// on one that is lost everything is built anew and the frame counts as taken.
pub proof fn lemma_presented_frames(m: Model, paint: Paint, code: i32)
    requires
        m.wf(),
    ensures
        m.stage matches Stage::Show { paint: p, .. } && p == paint ==> ({
            let t = step(m, Reply::Status(code));
            let commit = Effect::Commit { device: m.devices->0.dcomp_device };
            if code >= 0 {
                &&& t.next == told(paint.slot, true)
                &&& t.effects == seq![commit]
                &&& t.model == (Model { stage: Stage::Idle, ..m })
            } else {
                &&& t.next == Next::Ask(
                    Request::DeviceRemovedReason { device: m.devices->0.d3d_device },
                )
                &&& t.effects == Seq::<Effect>::empty()
                &&& t.model == (Model { stage: t.model.stage, ..m })
            }
        }),
        m.stage matches Stage::ShowCheck { paint: p, .. } && p == paint ==> ({
            let t = step(m, Reply::Status(code));
            let commit = Effect::Commit { device: m.devices->0.dcomp_device };
            if code >= 0 {
                &&& t.next == told(paint.slot, false)
                &&& t.effects == (if m.stage->copied {
                    seq![commit]
                } else {
                    Seq::empty()
                })
                &&& t.model == (Model { stage: Stage::Idle, ..m })
            } else if m.hwnd == 0 {
                t.next == told(paint.slot, true)
            } else {
                &&& m.stage->copied ==> t.effects.len() > 0 && t.effects[0] == commit
                &&& starts_over(
                    m,
                    After::Finish(
                        if paint.slot is Main {
                            Answer::Flag(true)
                        } else {
                            Answer::Unit
                        },
                    ),
                    t,
                )
            }
        }),
{
}

/// A surface is resized only if it has a swap chain of another size, and then
/// to exactly the physical size that was asked for.
pub proof fn lemma_resizing(m: Model, id: SurfaceId, width: i32, height: i32)
    requires
        m.wf(),
        m.idle(),
        id == NULL_SURFACE || m.reg.has(id),
    ensures
        ({
            let t = begin(m, Operation::Resize { surface: id, width, height });
            let chain = chain_at(m.reg, id, Slot::Main);
            &&& t.model == (Model { stage: t.model.stage, ..m })
            &&& if id == 0 || width <= 0 || height <= 0 || m.devices is None || chain is None {
                t.next == Next::Return(Answer::Unit) && t.effects == Seq::<Effect>::empty()
            } else if size_at(m.reg, id, Slot::Main) == (width, height) {
                t.next == Next::Return(Answer::Unit) && t.effects == seq![
                    Effect::Commit { device: m.devices->0.dcomp_device },
                ]
            } else {
                t.effects == Seq::<Effect>::empty() && t.next == Next::Ask(
                    Request::ResizeBuffers {
                        chain: chain->0,
                        buffer_count: 2,
                        width: width as u32,
                        height: height as u32,
                        format: PixelFormat::B8G8R8A8Unorm,
                        flags: 0,
                    },
                )
            }
        }),
{
    if m.reg.has(id) {
        assert(m.surface(id).wf());
    }
    let t = begin(m, Operation::Resize { surface: id, width, height });
    if t.effects.len() > 0 {
        assert(t.effects =~= seq![Effect::Commit { device: m.devices->0.dcomp_device }]);
    }
}

/// Everything but one surface is as it was.
pub open spec fn one_surface_changed(m: Model, n: Model, id: SurfaceId) -> bool {
    &&& n == (Model { reg: n.reg, stage: n.stage, ..m })
    &&& n.reg.live == m.reg.live
    &&& n.reg.stack == m.reg.stack
    &&& forall|x: SurfaceId| #[trigger] n.reg.has(x) <==> m.reg.has(x)
    &&& forall|x: SurfaceId| x != id ==> #[trigger] n.surface(x) == m.surface(x)
    &&& n.surface(id).visual == m.surface(id).visual
    &&& n.surface(id).popup_visual == m.surface(id).popup_visual
    &&& n.surface(id).in_tree == m.surface(id).in_tree
}

/// Hiding a surface empties its visual, forgets its swap chain and commits;
/// showing it only commits. The popup is left alone. Nothing is done where the
/// surface is as asked already, or without devices.
pub proof fn lemma_visibility(m: Model, id: SurfaceId, visible: bool)
    requires
        m.wf(),
        m.idle(),
        m.reg.has(id),
    ensures
        ({
            let t = begin(m, Operation::SetVisible { surface: id, visible });
            let (s, n) = (m.surface(id), t.model.surface(id));
            let commit = Effect::Commit { device: m.devices->0.dcomp_device };
            &&& t.next == Next::Return(Answer::Unit)
            &&& one_surface_changed(m, t.model, id)
            &&& (n.popup_visible, n.popup_swap_chain, n.popup_sw, n.popup_sh) == (
                s.popup_visible,
                s.popup_swap_chain,
                s.popup_sw,
                s.popup_sh,
            )
            &&& m.devices is None || s.visible == visible ==> n == s && t.effects == Seq::<
                Effect,
            >::empty()
            &&& m.devices is Some && s.visible != visible ==> {
                &&& n.visible == visible
                &&& n.swap_chain is None
                &&& s.visual is Some ==> n.sw == 0 && n.sh == 0
                &&& t.effects == (match s.visual {
                    Some(v) => if visible {
                        seq![commit]
                    } else {
                        seq![Effect::SetContent { visual: v, content: None }, commit]
                    },
                    None => Seq::empty(),
                })
            }
        }),
        begin(m, Operation::SetVisible { surface: 0, visible }) == (Turned {
            model: m,
            effects: Seq::empty(),
            next: Next::Return(Answer::Unit),
        }),
{
    assert(id != NULL_SURFACE);
    assert(m.surface(id).wf());
    let t = begin(m, Operation::SetVisible { surface: id, visible });
    let u = begin(m, Operation::SetVisible { surface: 0, visible });
    assert(u.model =~= m);
    if m.devices is Some && m.surface(id).visible && !visible && m.surface(id).visual is Some {
        assert(t.effects =~= seq![
            Effect::SetContent { visual: m.surface(id).visual->0, content: None },
            Effect::Commit { device: m.devices->0.dcomp_device },
        ]);
    }
}

/// Showing a popup makes it visible and moves its visual to the place asked
/// for; its picture and its surface are left alone.
pub proof fn lemma_popup_showing(m: Model, id: SurfaceId, x: i32, y: i32)
    requires
        m.wf(),
        m.idle(),
        m.reg.has(id),
    ensures
        ({
            let t = begin(m, Operation::PopupShow { surface: id, x, y });
            let (s, n) = (m.surface(id), t.model.surface(id));
            &&& t.next == Next::Return(Answer::Unit)
            &&& one_surface_changed(m, t.model, id)
            &&& n.popup_visible
            &&& (n.visible, n.swap_chain, n.sw, n.sh) == (s.visible, s.swap_chain, s.sw, s.sh)
            &&& (n.popup_swap_chain, n.popup_sw, n.popup_sh) == (
                s.popup_swap_chain,
                s.popup_sw,
                s.popup_sh,
            )
            &&& t.effects == (match s.popup_visual {
                Some(visual) => seq![Effect::SetOffset { visual, x, y }],
                None => Seq::empty(),
            })
        }),
{
    assert(id != NULL_SURFACE);
}

/// Hiding a popup empties its visual, forgets its swap chain and commits; its
/// surface is left alone.
pub proof fn lemma_popup_hiding(m: Model, id: SurfaceId)
    requires
        m.wf(),
        m.idle(),
        m.reg.has(id),
    ensures
        ({
            let t = begin(m, Operation::PopupHide { surface: id });
            let (s, n) = (m.surface(id), t.model.surface(id));
            &&& t.next == Next::Return(Answer::Unit)
            &&& one_surface_changed(m, t.model, id)
            &&& !n.popup_visible
            &&& n.popup_swap_chain is None
            &&& s.popup_visual is Some ==> n.popup_sw == 0 && n.popup_sh == 0
            &&& (n.visible, n.swap_chain, n.sw, n.sh) == (s.visible, s.swap_chain, s.sw, s.sh)
            &&& t.effects == (match (s.popup_visual, m.devices) {
                (Some(visual), Some(d)) => seq![
                    Effect::SetContent { visual, content: None },
                    Effect::Commit { device: d.dcomp_device },
                ],
                (Some(visual), None) => seq![Effect::SetContent { visual, content: None }],
                (None, _) => Seq::empty(),
            })
        }),
{
    assert(id != NULL_SURFACE);
    assert(m.surface(id).wf());
    let t = begin(m, Operation::PopupHide { surface: id });
    match (m.surface(id).popup_visual, m.devices) {
        (Some(visual), Some(d)) => {
            assert(t.effects =~= seq![
                Effect::SetContent { visual, content: None },
                Effect::Commit { device: d.dcomp_device },
            ]);
        },
        (Some(visual), None) => {
            assert(t.effects =~= seq![Effect::SetContent { visual, content: None }]);
        },
        _ => {},
    }
}

/// A transition that begins captures the size of the window and empties the
/// main surface, popup and all other surfaces left alone; one that goes on is
/// not begun again.
pub proof fn lemma_transition_beginning(m: Model)
    requires
        m.wf(),
        m.idle(),
    ensures
        ({
            let t = begin(m, Operation::BeginTransition);
            let id = m.reg.stack[0];
            let (s, n) = (m.surface(id), t.model.surface(id));
            &&& t.next == Next::Return(Answer::Unit)
            &&& m.gate.transitioning ==> t.model == m && t.effects == Seq::<Effect>::empty()
            &&& !m.gate.transitioning ==> {
                &&& t.model.gate == (TransitionGate {
                    transitioning: true,
                    captured: (m.mpv_pw, m.mpv_ph),
                    expected: m.gate.expected,
                })
                &&& t.model.pending_lw == 0 && t.model.pending_lh == 0
                &&& if m.reg.stack.len() > 0 && m.devices is Some {
                    let commit = Effect::Commit { device: m.devices->0.dcomp_device };
                    &&& n.swap_chain is None && n.sw == 0 && n.sh == 0
                    &&& (n.visible, n.popup_visible, n.popup_swap_chain, n.popup_sw, n.popup_sh)
                        == (s.visible, s.popup_visible, s.popup_swap_chain, s.popup_sw, s.popup_sh)
                    &&& one_surface_changed(
                        m,
                        Model {
                            gate: m.gate,
                            pending_lw: m.pending_lw,
                            pending_lh: m.pending_lh,
                            ..t.model
                        },
                        id,
                    )
                    &&& t.effects == (match s.visual {
                        Some(visual) => seq![
                            Effect::SetContent { visual, content: None },
                            commit,
                        ],
                        None => seq![commit],
                    })
                } else {
                    t.model.reg == m.reg && t.effects == Seq::<Effect>::empty()
                }
            }
        }),
{
    let t = begin(m, Operation::BeginTransition);
    if m.gate.transitioning {
        assert(t.model =~= m);
    } else if m.reg.stack.len() > 0 && m.devices is Some {
        let id = m.reg.stack[0];
        assert(m.reg.has(id));
        let commit = Effect::Commit { device: m.devices->0.dcomp_device };
        match m.surface(id).visual {
            Some(visual) => {
                assert(t.effects =~= seq![Effect::SetContent { visual, content: None }, commit]);
            },
            None => {
                assert(t.effects =~= seq![commit]);
            },
        }
    }
}

/// A freed surface leaves the screen, popup first: each of its visuals leaves
/// its parent and is emptied, and the change is committed.
pub proof fn lemma_freeing(m: Model, id: SurfaceId)
    requires
        m.wf(),
        m.idle(),
        m.reg.has(id),
    ensures
        ({
            let t = begin(m, Operation::Free { surface: id });
            let s = m.surface(id);
            &&& t.next == Next::Return(Answer::Unit)
            &&& !t.model.reg.has(id)
            &&& forall|x: SurfaceId| x != id ==> #[trigger] t.model.reg.has(x) == m.reg.has(x)
            &&& forall|x: SurfaceId| x != id ==> #[trigger] t.model.surface(x) == m.surface(x)
            &&& t.model == (Model { reg: t.model.reg, ..m })
            &&& m.devices is Some ==> t.effects.len() > 0 && t.effects.last() == (Effect::Commit {
                device: m.devices->0.dcomp_device,
            })
            &&& s.visual is Some && s.popup_visual is Some ==> t.effects.len() >= 2
                && t.effects[0] == (Effect::RemoveVisual {
                parent: s.visual->0,
                child: s.popup_visual->0,
            }) && t.effects[1] == (Effect::SetContent {
                visual: s.popup_visual->0,
                content: None,
            })
        }),
        begin(m, Operation::Free { surface: 0 }) == (Turned {
            model: m,
            effects: Seq::empty(),
            next: Next::Return(Answer::Unit),
        }),
{
    assert(id != NULL_SURFACE);
    let u = begin(m, Operation::Free { surface: 0 });
    assert(u.model =~= m);
}

/// Nothing but the answer comes of asking after the device.
pub proof fn lemma_probing(m: Model, code: i32)
    requires
        m.wf(),
    ensures
        m.idle() && m.devices is None ==> begin(m, Operation::Probe) == (Turned {
            model: m,
            effects: Seq::empty(),
            next: Next::Return(Answer::Device(DeviceStatus::NotInitialized)),
        }),
        m.idle() && m.devices is Some ==> begin(m, Operation::Probe).next == Next::Ask(
            Request::DeviceRemovedReason { device: m.devices->0.d3d_device },
        ) && begin(m, Operation::Probe).effects == Seq::<Effect>::empty(),
        m.stage is Probe ==> step(m, Reply::Status(code)) == (Turned {
            model: Model { stage: Stage::Idle, ..m },
            effects: Seq::empty(),
            next: Next::Return(
                Answer::Device(
                    if code < 0 {
                        DeviceStatus::Removed
                    } else {
                        DeviceStatus::Alive
                    },
                ),
            ),
        }),
{
    if m.idle() {
        assert(begin(m, Operation::Probe).model =~= (Model {
            stage: begin(m, Operation::Probe).model.stage,
            ..m
        }));
    }
}

/// When there is a frame or a size at all: on a surface, with something in it.
pub proof fn lemma_frames_given(
    id: SurfaceId,
    info: Option<u64>,
    buffer: u64,
    width: i32,
    height: i32,
)
    ensures
        shared_given(id, info) <==> id != 0 && info is Some && info->0 != 0,
        memory_given(id, buffer, width, height) <==> id != 0 && buffer != 0 && width > 0 && height
            > 0,
        size_given(id, width, height) <==> id != 0 && width > 0 && height > 0,
{
}

/// A reply is expected exactly if it is of the kind that the call under way
/// gives: an object or none, a status, a device with its context, a size, or a
/// decision.
pub proof fn lemma_replies_fit_requests(m: Model, reply: Reply)
    requires
        !m.idle(),
    ensures
        m.expects(reply) <==> match m.request() {
            Request::Init(InitCall::CreateD3dDevice) => reply is Device,
            Request::Init(InitCall::SetRoot { .. }) => reply is Status,
            Request::Init(InitCall::Commit { .. }) => reply is Status,
            Request::Init(_) => reply is Object || reply is NoObject,
            Request::CreateVisual { .. } => reply is Object || reply is NoObject,
            Request::OpenSharedTexture { .. } => reply is Object || reply is NoObject,
            Request::CreateTexture { .. } => reply is Object || reply is NoObject,
            Request::CreateSwapChain { .. } => reply is Object || reply is NoObject,
            Request::GetBuffer { .. } => reply is Object || reply is NoObject,
            Request::AddVisual { .. } => reply is Status,
            Request::ResizeBuffers { .. } => reply is Status,
            Request::DeviceRemovedReason { .. } => reply is Status,
            Request::Present { .. } => reply is Status,
            Request::TextureSize { .. } => reply is Size,
            Request::JudgeMainFrame { .. } => reply is Decision,
        },
{
}

} // verus!
