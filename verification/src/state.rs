//! The state of the compositor, and the operation it is in the middle of.

use vstd::prelude::*;
use crate::devices::{init_call, init_expects, CompositorDevices, InitProgress};
use crate::gate::{idle_gate, TransitionGate};
use crate::protocol::{
    AlphaMode, Answer, BindFlags, BufferUsage, Effect, Handle, Hwnd, Next, PixelData, PixelFormat,
    Reply, Request, Slot, SurfaceId, SwapChainDesc, SwapEffect, TextureDesc, TextureUsage, Turn,
    INVALID_HWND, NULL_SURFACE,
};
use crate::registry::{Registry, SurfaceStack};
use crate::surface::Surface;

verus! {

/// Where the pixels of a frame come from.
#[derive(Clone, Copy, Debug, PartialEq, Eq)]
pub enum Source {
    /// A texture of another process.
    Shared { shared_texture: u64 },
    /// Rows of four-byte pixels in memory.
    Software { address: u64, width: i32, height: i32 },
}

/// A frame to be shown in a slot of a surface.
#[derive(Clone, Copy, Debug, PartialEq, Eq)]
pub struct Paint {
    pub surface: SurfaceId,
    pub slot: Slot,
    pub source: Source,
}

/// What follows once the devices have been rebuilt, or could not be.
#[derive(Clone, Copy, Debug, PartialEq, Eq)]
pub enum After {
    Finish(Answer),
    Paint(Paint),
}

/// Why surfaces are hooked to the root.
#[derive(Clone, Copy, Debug, PartialEq, Eq)]
pub enum AttachFor {
    /// A new stacking order was asked for.
    Restack,
    /// The devices are new.
    Rebuild { devices: CompositorDevices, after: After },
}

/// Why a swap chain is brought to a size.
#[derive(Clone, Copy, Debug, PartialEq, Eq)]
pub enum FitFor {
    /// A texture is to be shown in it.
    Present { source: Source, texture: Handle },
    /// The surface was resized.
    Resize,
}

/// A swap chain that is being brought to a size.
#[derive(Clone, Copy, Debug, PartialEq, Eq)]
pub struct Fit {
    pub surface: SurfaceId,
    pub slot: Slot,
    pub width: i32,
    pub height: i32,
    pub purpose: FitFor,
}

/// The call that the operation under way waits on.
#[derive(Clone, Copy, Debug, PartialEq, Eq)]
pub enum Stage {
    /// No operation is under way.
    Idle,
    /// A call of the chain that builds the first devices.
    Init(InitProgress),
    /// A call of the chain that builds new devices.
    RebuildInit { progress: InitProgress, after: After },
    /// A new visual for the live surface at `index`.
    RebuildVisual { devices: CompositorDevices, after: After, index: usize },
    /// A new popup visual for the live surface at `index`.
    RebuildPopup { devices: CompositorDevices, after: After, index: usize, visual: Handle },
    /// The surface at `index` of the queue being hooked to the root, above
    /// the visual `above`.
    Attach { purpose: AttachFor, index: usize, above: Option<Handle> },
    /// The visual of a surface being made.
    AllocVisual,
    /// Its popup visual.
    AllocPopup { visual: Handle },
    /// Its visual being hooked to the root.
    AllocAttach { visual: Handle, popup: Option<Handle> },
    /// A shared texture being opened.
    Open(Paint),
    /// The size of a shared texture.
    Measure { paint: Paint, texture: Handle },
    /// The decision on a frame for the main surface.
    Judge { paint: Paint, opened: Option<Handle>, width: i32, height: i32 },
    /// A texture being filled from memory.
    Upload(Paint),
    /// A swap chain being resized in place.
    FitResize(Fit),
    /// The device, after a resize that failed.
    FitCheck(Fit),
    /// A swap chain being made.
    FitCreate(Fit),
    /// The back buffer to copy a frame into.
    Buffer { paint: Paint, texture: Handle },
    /// The frame being shown.
    Show { paint: Paint, texture: Handle, buffer: Handle },
    /// The device, after a frame could not be shown; `copied` says whether the
    /// frame had got as far as the back buffer.
    ShowCheck { paint: Paint, copied: bool },
    /// The device, when somebody asks after it.
    Probe,
}

/// The state, mathematically.
#[verifier::ext_equal]
pub struct Model {
    pub devices: Option<CompositorDevices>,
    pub hwnd: Hwnd,
    pub reg: Registry,
    pub next_id: SurfaceId,
    pub gate: TransitionGate,
    pub mpv_pw: i32,
    pub mpv_ph: i32,
    pub pending_lw: i32,
    pub pending_lh: i32,
    pub queue: Seq<SurfaceId>,
    pub stage: Stage,
}

/// What one step comes to: the state after it, and what the host is told.
#[verifier::ext_equal]
pub struct Turned {
    pub model: Model,
    pub effects: Seq<Effect>,
    pub next: Next,
}

/// A frame in memory has a positive size.
pub open spec fn source_ok(source: Source) -> bool {
    source matches Source::Software { width, height, .. } ==> width > 0 && height > 0
}

/// The description of a swap chain of a size.
pub open spec fn chain_desc(width: i32, height: i32) -> SwapChainDesc {
    SwapChainDesc {
        width: width as u32,
        height: height as u32,
        format: PixelFormat::B8G8R8A8Unorm,
        sample_count: 1,
        sample_quality: 0,
        buffer_usage: BufferUsage::RenderTargetOutput,
        buffer_count: 2,
        swap_effect: SwapEffect::FlipSequential,
        alpha_mode: AlphaMode::Premultiplied,
    }
}

/// The description of a texture of a size.
pub open spec fn texture_desc(width: i32, height: i32) -> TextureDesc {
    TextureDesc {
        width: width as u32,
        height: height as u32,
        mip_levels: 1,
        array_size: 1,
        format: PixelFormat::B8G8R8A8Unorm,
        sample_count: 1,
        sample_quality: 0,
        usage: TextureUsage::Default,
        bind_flags: BindFlags::ShaderResource,
    }
}

/// The pixels of a frame in memory: rows lie one after the other.
pub open spec fn pixel_data(address: u64, width: i32) -> PixelData {
    PixelData { address, row_pitch: (width * 4) as u64 }
}

impl Model {
    pub open spec fn initial() -> Model {
        Model {
            devices: None,
            hwnd: INVALID_HWND,
            reg: Registry::empty(),
            next_id: 1,
            gate: idle_gate(),
            mpv_pw: 0,
            mpv_ph: 0,
            pending_lw: 0,
            pending_lh: 0,
            queue: Seq::empty(),
            stage: Stage::Idle,
        }
    }

    /// What is kept of a surface.
    pub open spec fn surface(self, id: SurfaceId) -> Surface {
        self.reg.surfaces[id]
    }

    /// The state with a surface changed.
    pub open spec fn put(self, id: SurfaceId, s: Surface) -> Model {
        Model { reg: self.reg.put(id, s), ..self }
    }

    /// The root visual, if there are devices.
    pub open spec fn root(self) -> Option<Handle> {
        match self.devices {
            Some(d) => Some(d.dcomp_root),
            None => None,
        }
    }

    /// Whether what follows a rebuild can still be done.
    pub open spec fn after_ok(self, after: After) -> bool {
        after matches After::Paint(p) ==> self.reg.has(p.surface) && source_ok(p.source)
    }

    /// A swap chain is only brought to a positive size, and only where the slot
    /// is shown and has a visual.
    pub open spec fn fit_ok(self, f: Fit) -> bool {
        &&& self.devices is Some
        &&& self.reg.has(f.surface)
        &&& f.width > 0 && f.height > 0
        &&& self.surface(f.surface).visual_of(f.slot) is Some
        &&& self.surface(f.surface).shown(f.slot)
        &&& f.purpose matches FitFor::Present { source, .. } ==> source_ok(source)
        &&& f.purpose is Resize ==> f.slot is Main
    }

    /// A frame is only shown where the slot is shown and has a swap chain.
    pub open spec fn show_ok(self, p: Paint) -> bool {
        &&& self.devices is Some
        &&& self.reg.has(p.surface)
        &&& source_ok(p.source)
        &&& self.surface(p.surface).shown(p.slot)
        &&& self.surface(p.surface).chain_of(p.slot) is Some
    }

    /// The operation under way fits the rest of the state.
    pub open spec fn stage_wf(self) -> bool {
        match self.stage {
            Stage::Idle => self.queue.len() == 0,
            Stage::Init(_) => self.devices is None && self.queue.len() == 0,
            Stage::RebuildInit { after, .. } => self.devices is None && self.after_ok(after),
            Stage::RebuildVisual { after, index, .. } => self.devices is None && self.after_ok(
                after,
            ) && index < self.reg.live.len(),
            Stage::RebuildPopup { after, index, .. } => self.devices is None && self.after_ok(
                after,
            ) && index < self.reg.live.len(),
            Stage::Attach { purpose, index, .. } => {
                &&& index < self.queue.len()
                &&& self.reg.stack.len() <= index
                &&& self.reg.has(self.queue[index as int])
                &&& self.surface(self.queue[index as int]).visual is Some
                &&& match purpose {
                    AttachFor::Restack => self.devices is Some,
                    AttachFor::Rebuild { after, .. } => self.devices is None && self.after_ok(
                        after,
                    ),
                }
            },
            Stage::AllocVisual | Stage::AllocPopup { .. } | Stage::AllocAttach { .. } => {
                self.devices is Some && self.queue.len() == 0 && self.next_id < u64::MAX
            },
            Stage::Open(p) => {
                &&& self.devices is Some
                &&& self.queue.len() == 0
                &&& self.reg.has(p.surface)
                &&& p.source is Shared
            },
            Stage::Measure { paint, .. } => {
                &&& self.devices is Some
                &&& self.queue.len() == 0
                &&& self.reg.has(paint.surface)
                &&& paint.source is Shared
            },
            Stage::Judge { paint, opened, width, height } => {
                &&& self.queue.len() == 0
                &&& self.reg.has(paint.surface)
                &&& self.reg.bottom() == Some(paint.surface)
                &&& paint.slot is Main
                &&& source_ok(paint.source)
                &&& match paint.source {
                    Source::Shared { .. } => opened is Some && self.devices is Some,
                    Source::Software { width: w, height: h, .. } => width == w && height == h,
                }
            },
            Stage::Upload(p) => {
                &&& self.devices is Some
                &&& self.queue.len() == 0
                &&& self.reg.has(p.surface)
                &&& p.source is Software
                &&& source_ok(p.source)
            },
            Stage::FitResize(f) | Stage::FitCheck(f) => {
                &&& self.queue.len() == 0
                &&& self.fit_ok(f)
                &&& self.surface(f.surface).chain_of(f.slot) is Some
            },
            Stage::FitCreate(f) => {
                &&& self.queue.len() == 0
                &&& self.fit_ok(f)
                &&& self.surface(f.surface).chain_of(f.slot) is None
            },
            Stage::Buffer { paint, .. } => self.queue.len() == 0 && self.show_ok(paint),
            Stage::Show { paint, .. } => self.queue.len() == 0 && self.show_ok(paint),
            Stage::ShowCheck { paint, .. } => self.queue.len() == 0 && self.show_ok(paint),
            Stage::Probe => self.devices is Some && self.queue.len() == 0,
        }
    }

    /// What holds whatever operation is under way: no surface has a name that
    /// is still to be given out, and only surfaces are queued.
    pub open spec fn core_wf(self) -> bool {
        &&& self.reg.wf()
        &&& self.next_id != NULL_SURFACE
        &&& forall|id: SurfaceId| #[trigger] self.reg.has(id) ==> id < self.next_id
        &&& forall|i: int|
            0 <= i < self.queue.len() ==> #[trigger] self.queue[i] == NULL_SURFACE || self.reg.has(
                self.queue[i],
            )
    }

    /// The invariant of the compositor.
    pub open spec fn wf(self) -> bool {
        self.core_wf() && self.stage_wf()
    }

    pub open spec fn idle(self) -> bool {
        self.stage is Idle
    }

    /// The request that the operation under way waits on.
    pub open spec fn request(self) -> Request {
        match self.stage {
            Stage::Init(p) => Request::Init(init_call(p)),
            Stage::RebuildInit { progress, .. } => Request::Init(init_call(progress)),
            Stage::RebuildVisual { devices, .. } => Request::CreateVisual {
                device: devices.dcomp_device,
            },
            Stage::RebuildPopup { devices, .. } => Request::CreateVisual {
                device: devices.dcomp_device,
            },
            Stage::Attach { purpose, index, above } => Request::AddVisual {
                parent: match purpose {
                    AttachFor::Restack => self.devices->0.dcomp_root,
                    AttachFor::Rebuild { devices, .. } => devices.dcomp_root,
                },
                child: self.surface(self.queue[index as int]).visual->0,
                insert_above: above is Some,
                reference: above,
            },
            Stage::AllocVisual => Request::CreateVisual { device: self.devices->0.dcomp_device },
            Stage::AllocPopup { .. } => Request::CreateVisual {
                device: self.devices->0.dcomp_device,
            },
            Stage::AllocAttach { visual, .. } => Request::AddVisual {
                parent: self.devices->0.dcomp_root,
                child: visual,
                insert_above: true,
                reference: None,
            },
            Stage::Open(p) => Request::OpenSharedTexture {
                device: self.devices->0.d3d_device,
                shared_texture: p.source->shared_texture,
            },
            Stage::Measure { texture, .. } => Request::TextureSize { texture },
            Stage::Judge { width, height, .. } => Request::JudgeMainFrame {
                gate: self.gate,
                frame: (width, height),
            },
            Stage::Upload(p) => Request::CreateTexture {
                device: self.devices->0.d3d_device,
                texture_desc: texture_desc(p.source->width, p.source->height),
                data: pixel_data(p.source->address, p.source->width),
            },
            Stage::FitResize(f) => Request::ResizeBuffers {
                chain: self.surface(f.surface).chain_of(f.slot)->0,
                buffer_count: 2,
                width: f.width as u32,
                height: f.height as u32,
                format: PixelFormat::B8G8R8A8Unorm,
                flags: 0,
            },
            Stage::FitCheck(_) => Request::DeviceRemovedReason {
                device: self.devices->0.d3d_device,
            },
            Stage::FitCreate(f) => Request::CreateSwapChain {
                factory: self.devices->0.dxgi_factory,
                device: self.devices->0.d3d_device,
                chain_desc: chain_desc(f.width, f.height),
            },
            Stage::Buffer { paint, .. } => Request::GetBuffer {
                chain: self.surface(paint.surface).chain_of(paint.slot)->0,
                index: 0,
            },
            Stage::Show { paint, .. } => Request::Present {
                chain: self.surface(paint.surface).chain_of(paint.slot)->0,
                sync_interval: 0,
                flags: 0,
            },
            Stage::ShowCheck { .. } => Request::DeviceRemovedReason {
                device: self.devices->0.d3d_device,
            },
            Stage::Probe | Stage::Idle => Request::DeviceRemovedReason {
                device: self.devices->0.d3d_device,
            },
        }
    }

    /// Whether a reply is of the kind that the operation under way waits on.
    pub open spec fn expects(self, reply: Reply) -> bool {
        match self.stage {
            Stage::Idle => false,
            Stage::Init(p) => init_expects(p.step, reply),
            Stage::RebuildInit { progress, .. } => init_expects(progress.step, reply),
            Stage::RebuildVisual { .. } | Stage::RebuildPopup { .. } | Stage::AllocVisual
            | Stage::AllocPopup { .. } | Stage::Open(_) | Stage::Upload(_) | Stage::FitCreate(_)
            | Stage::Buffer { .. } => reply is Object || reply is NoObject,
            Stage::Attach { .. } | Stage::AllocAttach { .. } | Stage::FitResize(_)
            | Stage::FitCheck(_) | Stage::Show { .. } | Stage::ShowCheck { .. }
            | Stage::Probe => reply is Status,
            Stage::Measure { .. } => reply is Size,
            Stage::Judge { .. } => reply is Decision,
        }
    }

    /// The operation goes on: these effects, then the request of the stage.
    pub open spec fn asks(self, effects: Seq<Effect>, stage: Stage) -> Turned {
        let model = Model { stage, ..self };
        Turned { model, effects, next: Next::Ask(model.request()) }
    }

    /// The operation is over: these effects, then the answer.
    pub open spec fn answers(self, effects: Seq<Effect>, answer: Answer) -> Turned {
        Turned {
            model: Model { stage: Stage::Idle, ..self },
            effects,
            next: Next::Return(answer),
        }
    }
}

/// The state of the compositor. Only the operations change it, so that what
/// they rely on holds of every state there is.
pub struct State {
    pub(crate) devices: Option<CompositorDevices>,
    /// The window, kept so that lost devices can be built again for it.
    pub(crate) hwnd: Hwnd,
    pub(crate) surfaces: SurfaceStack,
    /// The next surface to be made gets this name.
    pub(crate) next_id: SurfaceId,
    pub(crate) gate: TransitionGate,
    /// Physical size of the player window.
    pub(crate) mpv_pw: i32,
    pub(crate) mpv_ph: i32,
    /// Logical window size noted during a transition.
    pub(crate) pending_lw: i32,
    pub(crate) pending_lh: i32,
    /// The stacking order that is being put in place; empty in between.
    pub(crate) queue: Vec<SurfaceId>,
    pub(crate) stage: Stage,
}

impl View for State {
    type V = Model;

    open(crate) spec fn view(&self) -> Model {
        Model {
            devices: self.devices,
            hwnd: self.hwnd,
            reg: self.surfaces@,
            next_id: self.next_id,
            gate: self.gate,
            mpv_pw: self.mpv_pw,
            mpv_ph: self.mpv_ph,
            pending_lw: self.pending_lw,
            pending_lh: self.pending_lh,
            queue: self.queue@,
            stage: self.stage,
        }
    }
}

/// State and turn after a step, put together.
pub open spec fn turned(st: State, turn: Turn) -> Turned {
    Turned { model: st@, effects: turn.effects@, next: turn.next }
}

impl State {
    pub fn new() -> (r: State)
        ensures
            r@ == Model::initial(),
            r@.wf(),
    {
        let r = State {
            devices: None,
            hwnd: INVALID_HWND,
            surfaces: SurfaceStack::new(),
            next_id: 1,
            gate: TransitionGate::new(),
            mpv_pw: 0,
            mpv_ph: 0,
            pending_lw: 0,
            pending_lh: 0,
            queue: Vec::new(),
            stage: Stage::Idle,
        };
        assert(r@ =~= Model::initial());
        r
    }

    /// The devices, if there are any.
    pub fn devices(&self) -> (r: Option<CompositorDevices>)
        ensures
            r == self@.devices,
    {
        self.devices
    }

    /// The window that everything is built for.
    pub fn hwnd(&self) -> (r: Hwnd)
        ensures
            r == self@.hwnd,
    {
        self.hwnd
    }

    /// The surfaces and their stacking order.
    pub fn surfaces(&self) -> (r: &SurfaceStack)
        ensures
            r@ == self@.reg,
    {
        &self.surfaces
    }

    /// Whether there is a name left for another surface.
    pub fn has_name_left(&self) -> (r: bool)
        ensures
            r == (self@.next_id < u64::MAX),
    {
        self.next_id < u64::MAX
    }

    /// The transition, if one is going on.
    pub fn gate(&self) -> (r: TransitionGate)
        ensures
            r == self@.gate,
    {
        self.gate
    }

    /// Physical size of the player window.
    pub fn window_size(&self) -> (r: (i32, i32))
        ensures
            r == (self@.mpv_pw, self@.mpv_ph),
    {
        (self.mpv_pw, self.mpv_ph)
    }

    /// Logical window size noted during a transition.
    pub fn pending_size(&self) -> (r: (i32, i32))
        ensures
            r == (self@.pending_lw, self@.pending_lh),
    {
        (self.pending_lw, self.pending_lh)
    }

    /// The call that the operation under way waits on.
    pub fn stage(&self) -> (r: Stage)
        ensures
            r == self@.stage,
    {
        self.stage
    }

    /// Whether no operation is under way.
    pub fn is_idle(&self) -> (r: bool)
        ensures
            r == self@.idle(),
    {
        match self.stage {
            Stage::Idle => true,
            _ => false,
        }
    }

    /// Whether there is such a surface.
    pub fn is_live(&self, id: SurfaceId) -> (r: bool)
        ensures
            r == self@.reg.has(id),
    {
        self.surfaces.is_live(id)
    }

    /// Whether a reply is of the kind that the operation under way waits on.
    pub fn accepts(&self, reply: &Reply) -> (r: bool)
        ensures
            r == self@.expects(*reply),
    {
        match self.stage {
            Stage::Idle => false,
            Stage::Init(p) => p.expects(reply),
            Stage::RebuildInit { progress, .. } => progress.expects(reply),
            Stage::RebuildVisual { .. } | Stage::RebuildPopup { .. } | Stage::AllocVisual
            | Stage::AllocPopup { .. } | Stage::Open(_) | Stage::Upload(_) | Stage::FitCreate(_)
            | Stage::Buffer { .. } => match reply {
                Reply::Object(_) | Reply::NoObject => true,
                _ => false,
            },
            Stage::Attach { .. } | Stage::AllocAttach { .. } | Stage::FitResize(_)
            | Stage::FitCheck(_) | Stage::Show { .. } | Stage::ShowCheck { .. }
            | Stage::Probe => match reply {
                Reply::Status(_) => true,
                _ => false,
            },
            Stage::Measure { .. } => match reply {
                Reply::Size { .. } => true,
                _ => false,
            },
            Stage::Judge { .. } => match reply {
                Reply::Decision(_) => true,
                _ => false,
            },
        }
    }

    /// The root visual, if there are devices.
    pub fn root(&self) -> (r: Option<Handle>)
        ensures
            r == self@.root(),
    {
        match self.devices {
            Some(d) => Some(d.dcomp_root),
            None => None,
        }
    }

    /// Changes a surface.
    pub(crate) fn put(&mut self, id: SurfaceId, s: Surface)
        requires
            old(self)@.core_wf(),
            old(self)@.reg.has(id),
            s.wf(),
        ensures
            final(self)@ == old(self)@.put(id, s),
            final(self)@.core_wf(),
    {
        self.surfaces.put(id, s);
        assert(self@ =~= old(self)@.put(id, s));
        assert(forall|x: SurfaceId| #[trigger] self@.reg.has(x) <==> old(self)@.reg.has(x));
    }

    /// The request that the operation under way waits on.
    pub fn current_request(&self) -> (r: Request)
        requires
            self@.reg.wf(),
            self@.stage_wf(),
            !self@.idle(),
        ensures
            r == self@.request(),
    {
        match self.stage {
            Stage::Init(p) => Request::Init(p.call()),
            Stage::RebuildInit { progress, .. } => Request::Init(progress.call()),
            Stage::RebuildVisual { devices, .. } => Request::CreateVisual {
                device: devices.dcomp_device,
            },
            Stage::RebuildPopup { devices, .. } => Request::CreateVisual {
                device: devices.dcomp_device,
            },
            Stage::Attach { purpose, index, above } => Request::AddVisual {
                parent: match purpose {
                    AttachFor::Restack => self.devices.unwrap().dcomp_root,
                    AttachFor::Rebuild { devices, .. } => devices.dcomp_root,
                },
                child: self.surfaces.get(self.queue[index]).visual.unwrap(),
                insert_above: above.is_some(),
                reference: above,
            },
            Stage::AllocVisual => Request::CreateVisual {
                device: self.devices.unwrap().dcomp_device,
            },
            Stage::AllocPopup { .. } => Request::CreateVisual {
                device: self.devices.unwrap().dcomp_device,
            },
            Stage::AllocAttach { visual, .. } => Request::AddVisual {
                parent: self.devices.unwrap().dcomp_root,
                child: visual,
                insert_above: true,
                reference: None,
            },
            Stage::Open(p) => {
                let shared_texture: u64 = match p.source {
                    Source::Shared { shared_texture } => shared_texture,
                    _ => 0,
                };
                Request::OpenSharedTexture {
                    device: self.devices.unwrap().d3d_device,
                    shared_texture,
                }
            },
            Stage::Measure { texture, .. } => Request::TextureSize { texture },
            Stage::Judge { width, height, .. } => Request::JudgeMainFrame {
                gate: self.gate,
                frame: (width, height),
            },
            Stage::Upload(p) => {
                let (address, width, height): (u64, i32, i32) = match p.source {
                    Source::Software { address, width, height } => (address, width, height),
                    _ => (0, 1, 1),
                };
                Request::CreateTexture {
                    device: self.devices.unwrap().d3d_device,
                    texture_desc: TextureDesc {
                        width: width as u32,
                        height: height as u32,
                        mip_levels: 1,
                        array_size: 1,
                        format: PixelFormat::B8G8R8A8Unorm,
                        sample_count: 1,
                        sample_quality: 0,
                        usage: TextureUsage::Default,
                        bind_flags: BindFlags::ShaderResource,
                    },
                    data: PixelData { address, row_pitch: width as u64 * 4 },
                }
            },
            Stage::FitResize(f) => Request::ResizeBuffers {
                chain: self.surfaces.get(f.surface).get_chain(f.slot).unwrap(),
                buffer_count: 2,
                width: f.width as u32,
                height: f.height as u32,
                format: PixelFormat::B8G8R8A8Unorm,
                flags: 0,
            },
            Stage::FitCheck(_) => Request::DeviceRemovedReason {
                device: self.devices.unwrap().d3d_device,
            },
            Stage::FitCreate(f) => Request::CreateSwapChain {
                factory: self.devices.unwrap().dxgi_factory,
                device: self.devices.unwrap().d3d_device,
                chain_desc: SwapChainDesc {
                    width: f.width as u32,
                    height: f.height as u32,
                    format: PixelFormat::B8G8R8A8Unorm,
                    sample_count: 1,
                    sample_quality: 0,
                    buffer_usage: BufferUsage::RenderTargetOutput,
                    buffer_count: 2,
                    swap_effect: SwapEffect::FlipSequential,
                    alpha_mode: AlphaMode::Premultiplied,
                },
            },
            Stage::Buffer { paint, .. } => Request::GetBuffer {
                chain: self.surfaces.get(paint.surface).get_chain(paint.slot).unwrap(),
                index: 0,
            },
            Stage::Show { paint, .. } => Request::Present {
                chain: self.surfaces.get(paint.surface).get_chain(paint.slot).unwrap(),
                sync_interval: 0,
                flags: 0,
            },
            _ => Request::DeviceRemovedReason { device: self.devices.unwrap().d3d_device },
        }
    }

    /// Goes on with the operation: these effects, then the request of the
    /// stage.
    pub(crate) fn ask(&mut self, effects: Vec<Effect>, stage: Stage) -> (r: Turn)
        requires
            old(self)@.core_wf(),
            (Model { stage, ..old(self)@ }).stage_wf(),
            !(stage is Idle),
        ensures
            turned(*final(self), r) == old(self)@.asks(effects@, stage),
            final(self)@.wf(),
    {
        self.stage = stage;
        assert(self@ =~= (Model { stage, ..old(self)@ }));
        Turn { effects, next: Next::Ask(self.current_request()) }
    }

    /// Ends the operation: these effects, then the answer.
    pub(crate) fn finish(&mut self, effects: Vec<Effect>, answer: Answer) -> (r: Turn)
        requires
            old(self)@.core_wf(),
            old(self)@.queue.len() == 0,
        ensures
            turned(*final(self), r) == old(self)@.answers(effects@, answer),
            final(self)@.wf(),
    {
        self.stage = Stage::Idle;
        assert(self@ =~= (Model { stage: Stage::Idle, ..old(self)@ }));
        Turn { effects, next: Next::Return(answer) }
    }
}

} // verus!
