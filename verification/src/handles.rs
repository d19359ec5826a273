//! Which of the host's objects the compositor still needs.
//!
//! The host keeps an object for as long as the state holds its handle. It may
//! let go of all others between two calls: nothing it is asked to do later
//! names them.

use vstd::prelude::*;
use crate::protocol::{Effect, Handle, InitCall, Reply, Request, SurfaceId};
use crate::state::{AttachFor, Fit, FitFor, Model, Stage, State};
use crate::surface::is_handle;

verus! {

impl Fit {
    /// The texture that waits to be shown.
    pub open spec fn holds(self, h: Handle) -> bool {
        self.purpose matches FitFor::Present { texture, .. } && texture == h
    }

    pub fn references(&self, h: Handle) -> (r: bool)
        ensures
            r == self.holds(h),
    {
        match self.purpose {
            FitFor::Present { texture, .. } => texture == h,
            FitFor::Resize => false,
        }
    }
}

impl Stage {
    /// The objects that belong to the operation under way.
    pub open spec fn holds(self, h: Handle) -> bool {
        match self {
            Stage::Idle | Stage::AllocVisual | Stage::Open(_) | Stage::Upload(_)
            | Stage::ShowCheck { .. } | Stage::Probe => false,
            Stage::Init(p) => p.holds(h),
            Stage::RebuildInit { progress, .. } => progress.holds(h),
            Stage::RebuildVisual { devices, .. } => devices.holds(h),
            Stage::RebuildPopup { devices, visual, .. } => devices.holds(h) || visual == h,
            Stage::Attach { purpose, above, .. } => {
                ||| above == Some(h)
                ||| purpose matches AttachFor::Rebuild { devices, .. } && devices.holds(h)
            },
            Stage::AllocPopup { visual } => visual == h,
            Stage::AllocAttach { visual, popup } => visual == h || popup == Some(h),
            Stage::Measure { texture, .. } => texture == h,
            Stage::Judge { opened, .. } => opened == Some(h),
            Stage::FitResize(f) | Stage::FitCheck(f) | Stage::FitCreate(f) => f.holds(h),
            Stage::Buffer { texture, .. } => texture == h,
            Stage::Show { texture, buffer, .. } => texture == h || buffer == h,
        }
    }

    pub fn references(&self, h: Handle) -> (r: bool)
        ensures
            r == self.holds(h),
    {
        match *self {
            Stage::Idle | Stage::AllocVisual | Stage::Open(_) | Stage::Upload(_)
            | Stage::ShowCheck { .. } | Stage::Probe => false,
            Stage::Init(p) => p.references(h),
            Stage::RebuildInit { progress, .. } => progress.references(h),
            Stage::RebuildVisual { devices, .. } => devices.references(h),
            Stage::RebuildPopup { devices, visual, .. } => devices.references(h) || visual == h,
            Stage::Attach { purpose, above, .. } => is_handle(above, h) || match purpose {
                AttachFor::Rebuild { devices, .. } => devices.references(h),
                AttachFor::Restack => false,
            },
            Stage::AllocPopup { visual } => visual == h,
            Stage::AllocAttach { visual, popup } => visual == h || is_handle(popup, h),
            Stage::Measure { texture, .. } => texture == h,
            Stage::Judge { opened, .. } => is_handle(opened, h),
            Stage::FitResize(f) | Stage::FitCheck(f) | Stage::FitCreate(f) => f.references(h),
            Stage::Buffer { texture, .. } => texture == h,
            Stage::Show { texture, buffer, .. } => texture == h || buffer == h,
        }
    }
}

impl Model {
    /// Whether an object is still needed: by the devices, by a surface, or by
    /// the operation under way.
    pub open spec fn holds(self, h: Handle) -> bool {
        self.keeps(h) || self.stage.holds(h)
    }

    /// The part of it that outlives the operation under way.
    pub open spec fn keeps(self, h: Handle) -> bool {
        ||| self.devices is Some && self.devices->0.holds(h)
        ||| exists|id: SurfaceId| #[trigger] self.reg.has(id) && self.surface(id).holds(h)
    }
}

/// Whether an effect names an object.
pub open spec fn effect_names(e: Effect, h: Handle) -> bool {
    match e {
        Effect::RemoveVisual { parent, child } => parent == h || child == h,
        Effect::AddVisual { parent, child, reference, .. } => parent == h || child == h
            || reference == Some(h),
        Effect::SetContent { visual, content } => visual == h || content == Some(h),
        Effect::Commit { device } => device == h,
        Effect::SetOffset { visual, .. } => visual == h,
        Effect::CopyResource { context, target, source } => context == h || target == h || source
            == h,
        Effect::AwaitCopy { device, context } => device == h || context == h,
        Effect::NoteAccelPaint { .. } => false,
    }
}

/// Whether a call of the chain that builds the devices names an object.
pub open spec fn init_call_names(c: InitCall, h: Handle) -> bool {
    match c {
        InitCall::CreateD3dDevice => false,
        InitCall::AsDevice1 { base } => base == h,
        InitCall::AsDxgiDevice { d3d_device } => d3d_device == h,
        InitCall::GetAdapter { dxgi_device } => dxgi_device == h,
        InitCall::GetFactory { adapter } => adapter == h,
        InitCall::AsAdapter3 { adapter } => adapter == h,
        InitCall::CreateDcompDevice { dxgi_device } => dxgi_device == h,
        InitCall::CreateTarget { dcomp_device, .. } => dcomp_device == h,
        InitCall::CreateRoot { dcomp_device } => dcomp_device == h,
        InitCall::SetRoot { target, root } => target == h || root == h,
        InitCall::Commit { dcomp_device } => dcomp_device == h,
    }
}

/// Whether a request names an object.
pub open spec fn request_names(r: Request, h: Handle) -> bool {
    match r {
        Request::Init(c) => init_call_names(c, h),
        Request::CreateVisual { device } => device == h,
        Request::AddVisual { parent, child, reference, .. } => parent == h || child == h
            || reference == Some(h),
        Request::OpenSharedTexture { device, .. } => device == h,
        Request::TextureSize { texture } => texture == h,
        Request::JudgeMainFrame { .. } => false,
        Request::CreateTexture { device, .. } => device == h,
        Request::ResizeBuffers { chain, .. } => chain == h,
        Request::CreateSwapChain { factory, device, .. } => factory == h || device == h,
        Request::DeviceRemovedReason { device } => device == h,
        Request::GetBuffer { chain, .. } => chain == h,
        Request::Present { chain, .. } => chain == h,
    }
}

/// Whether a reply brings an object.
pub open spec fn reply_names(reply: Reply, h: Handle) -> bool {
    match reply {
        Reply::Object(o) => o == h,
        Reply::Device { device, context, .. } => device == Some(h) || context == Some(h),
        _ => false,
    }
}

impl State {
    /// Whether the host must keep an object.
    pub fn references(&self, h: Handle) -> (r: bool)
        requires
            self@.reg.wf(),
        ensures
            r == self@.holds(h),
    {
        if let Some(d) = self.devices {
            if d.references(h) {
                return true;
            }
        }
        if self.stage.references(h) {
            return true;
        }
        let mut i: usize = 0;
        while i < self.surfaces.live.len()
            invariant
                i <= self@.reg.live.len(),
                self@.reg.wf(),
                forall|j: int|
                    0 <= j < i ==> !self@.surface(#[trigger] self@.reg.live[j]).holds(h),
            decreases self@.reg.live.len() - i,
        {
            let id = self.surfaces.live[i];
            assert(self@.reg.live.contains(id));
            assert(self@.reg.has(id));
            if self.surfaces.get(id).references(h) {
                return true;
            }
            i = i + 1;
        }
        assert forall|id: SurfaceId| #[trigger] self@.reg.has(id) implies !self@.surface(
            id,
        ).holds(h) by {
            assert(self@.reg.live.contains(id));
            let j = choose|j: int| 0 <= j < self@.reg.live.len() && self@.reg.live[j] == id;
            assert(!self@.surface(self@.reg.live[j]).holds(h));
        }
        false
    }
}

/// The state holds every object that the request it waits on names.
pub proof fn lemma_request_is_held(m: Model, h: Handle)
    requires
        m.wf(),
        !m.idle(),
        request_names(m.request(), h),
    ensures
        m.holds(h),
{
    match m.stage {
        Stage::Attach { index, .. } => {
            assert(m.reg.has(m.queue[index as int]));
        },
        Stage::FitResize(f) => {
            assert(m.reg.has(f.surface));
        },
        Stage::Buffer { paint, .. } => {
            assert(m.reg.has(paint.surface));
        },
        Stage::Show { paint, .. } => {
            assert(m.reg.has(paint.surface));
        },
        _ => {},
    }
}

/// Between two operations nothing is kept but the devices, and the visuals and
/// swap chains of the surfaces; and those all are.
pub proof fn lemma_kept_between_operations(m: Model, h: Handle)
    requires
        m.idle(),
    ensures
        m.holds(h) <==> {
            ||| m.devices matches Some(d) && (h == d.d3d_device || h == d.d3d_context || h
                == d.dxgi_factory || d.adapter3 == Some(h) || h == d.dcomp_device || h
                == d.dcomp_target || h == d.dcomp_root)
            ||| exists|id: SurfaceId| #[trigger]
                m.reg.has(id) && (m.surface(id).visual == Some(h) || m.surface(id).swap_chain
                    == Some(h) || m.surface(id).popup_visual == Some(h) || m.surface(
                    id,
                ).popup_swap_chain == Some(h))
        },
{
}

/// A frame on its way keeps its texture until it is shown, and the back buffer
/// it was copied into; of what an operation is at, nothing else of a frame is
/// kept.
pub proof fn lemma_kept_for_a_frame(m: Model, h: Handle)
    ensures
        m.stage matches Stage::Measure { texture, .. } ==> (m.stage.holds(h) <==> h == texture),
        m.stage matches Stage::Judge { opened, .. } ==> (m.stage.holds(h) <==> opened == Some(h)),
        m.stage matches Stage::Buffer { texture, .. } ==> (m.stage.holds(h) <==> h == texture),
        m.stage matches Stage::Show { texture, buffer, .. } ==> (m.stage.holds(h) <==> h == texture
            || h == buffer),
        m.stage is Open || m.stage is Upload || m.stage is ShowCheck || m.stage is Probe
            || m.stage is AllocVisual ==> !m.stage.holds(h),
{
}

} // verus!
