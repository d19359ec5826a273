//! What the compositor and its host say to each other.
//!
//! The compositor decides, the host owns the COM objects and makes the calls.
//! A [`Turn`] is what the compositor wants done next: a list of [`Effect`]s
//! whose outcome it does not look at, in order, and then either one
//! [`Request`] whose [`Reply`] it needs to go on, or the [`Answer`] of the
//! operation. COM objects are named by [`Handle`]s that the host gives out.

use vstd::prelude::*;
use crate::gate::{PresentDecision, TransitionGate};

verus! {

/// A COM object held by the host.
pub type Handle = u64;

/// A surface; zero stands for the null pointer.
pub type SurfaceId = u64;

/// A native window; zero is the invalid window.
pub type Hwnd = u64;

/// The null surface.
pub const NULL_SURFACE: u64 = 0;

/// The invalid window.
pub const INVALID_HWND: u64 = 0;

#[derive(Clone, Copy, Debug, PartialEq, Eq)]
pub enum PixelFormat {
    B8G8R8A8Unorm,
}

#[derive(Clone, Copy, Debug, PartialEq, Eq)]
pub enum BufferUsage {
    RenderTargetOutput,
}

#[derive(Clone, Copy, Debug, PartialEq, Eq)]
pub enum SwapEffect {
    FlipSequential,
}

#[derive(Clone, Copy, Debug, PartialEq, Eq)]
pub enum AlphaMode {
    Premultiplied,
}

#[derive(Clone, Copy, Debug, PartialEq, Eq)]
pub enum TextureUsage {
    Default,
}

#[derive(Clone, Copy, Debug, PartialEq, Eq)]
pub enum BindFlags {
    ShaderResource,
}

/// Description of a composition swap chain; what is not listed is zero.
#[derive(Clone, Copy, Debug, PartialEq, Eq)]
pub struct SwapChainDesc {
    pub width: u32,
    pub height: u32,
    pub format: PixelFormat,
    pub sample_count: u32,
    pub sample_quality: u32,
    pub buffer_usage: BufferUsage,
    pub buffer_count: u32,
    pub swap_effect: SwapEffect,
    pub alpha_mode: AlphaMode,
}

/// Description of a texture that is filled at creation; what is not listed is
/// zero.
#[derive(Clone, Copy, Debug, PartialEq, Eq)]
pub struct TextureDesc {
    pub width: u32,
    pub height: u32,
    pub mip_levels: u32,
    pub array_size: u32,
    pub format: PixelFormat,
    pub sample_count: u32,
    pub sample_quality: u32,
    pub usage: TextureUsage,
    pub bind_flags: BindFlags,
}

/// The pixels a texture is filled with: where they start, and how many bytes
/// one row takes. The slice pitch is zero.
#[derive(Clone, Copy, Debug, PartialEq, Eq)]
pub struct PixelData {
    pub address: u64,
    pub row_pitch: u64,
}

/// Which of the two pictures of a surface is meant.
#[derive(Clone, Copy, Debug, PartialEq, Eq)]
pub enum Slot {
    Main,
    Popup,
}

/// A call whose outcome does not matter.
#[derive(Clone, Copy, Debug, PartialEq, Eq)]
pub enum Effect {
    /// Take `child` out of the children of `parent`.
    RemoveVisual { parent: Handle, child: Handle },
    /// Make `child` a child of `parent`, above or below the reference.
    AddVisual { parent: Handle, child: Handle, insert_above: bool, reference: Option<Handle> },
    /// Bind a swap chain to a visual, or nothing.
    SetContent { visual: Handle, content: Option<Handle> },
    /// Commit what was changed on a composition device.
    Commit { device: Handle },
    /// Move a visual to a place given in logical pixels.
    SetOffset { visual: Handle, x: i32, y: i32 },
    /// Enqueue a copy of one texture into another.
    CopyResource { context: Handle, target: Handle, source: Handle },
    /// Wait until what was enqueued on the context is done, a while at most.
    AwaitCopy { device: Handle, context: Handle },
    /// Count a shared texture that is about to be shown.
    NoteAccelPaint { slot: Slot, shared_texture: u64, width: i32, height: i32 },
}

/// One call of the chain that builds the devices.
#[derive(Clone, Copy, Debug, PartialEq, Eq)]
pub enum InitCall {
    /// Hardware D3D11 device with BGRA support and its immediate context.
    CreateD3dDevice,
    AsDevice1 { base: Handle },
    AsDxgiDevice { d3d_device: Handle },
    GetAdapter { dxgi_device: Handle },
    GetFactory { adapter: Handle },
    AsAdapter3 { adapter: Handle },
    CreateDcompDevice { dxgi_device: Handle },
    CreateTarget { dcomp_device: Handle, hwnd: Hwnd, topmost: bool },
    CreateRoot { dcomp_device: Handle },
    SetRoot { target: Handle, root: Handle },
    Commit { dcomp_device: Handle },
}

/// A call whose outcome decides what comes next.
#[derive(Clone, Copy, Debug, PartialEq, Eq)]
pub enum Request {
    Init(InitCall),
    CreateVisual { device: Handle },
    AddVisual { parent: Handle, child: Handle, insert_above: bool, reference: Option<Handle> },
    OpenSharedTexture { device: Handle, shared_texture: u64 },
    TextureSize { texture: Handle },
    /// What the transition gate makes of a frame for the main surface.
    JudgeMainFrame { gate: TransitionGate, frame: (i32, i32) },
    CreateTexture { device: Handle, texture_desc: TextureDesc, data: PixelData },
    ResizeBuffers {
        chain: Handle,
        buffer_count: u32,
        width: u32,
        height: u32,
        format: PixelFormat,
        flags: u32,
    },
    CreateSwapChain { factory: Handle, device: Handle, chain_desc: SwapChainDesc },
    DeviceRemovedReason { device: Handle },
    GetBuffer { chain: Handle, index: u32 },
    Present { chain: Handle, sync_interval: u32, flags: u32 },
}

/// What came back from a request.
#[derive(Clone, Copy, Debug, PartialEq, Eq)]
pub enum Reply {
    /// The call gave an object.
    Object(Handle),
    /// The call failed, or succeeded and gave no object.
    NoObject,
    /// The `HRESULT` of a call that gives nothing else.
    Status(i32),
    /// Device creation: its `HRESULT` and the two objects it filled in.
    Device { status: i32, device: Option<Handle>, context: Option<Handle> },
    /// The size of a texture.
    Size { width: u32, height: u32 },
    /// What the transition gate decided.
    Decision(PresentDecision),
}

/// Whether the graphics device is still there.
#[derive(Clone, Copy, Debug, PartialEq, Eq)]
pub enum DeviceStatus {
    NotInitialized,
    Alive,
    Removed,
}

/// What an operation gives back to its caller.
#[derive(Clone, Copy, Debug, PartialEq, Eq)]
pub enum Answer {
    Unit,
    Flag(bool),
    Surface(SurfaceId),
    Device(DeviceStatus),
}

#[derive(Clone, Copy, Debug, PartialEq, Eq)]
pub enum Next {
    Ask(Request),
    Return(Answer),
}

/// What the host is to do: the effects in order, then `next`.
#[derive(Debug)]
pub struct Turn {
    pub effects: Vec<Effect>,
    pub next: Next,
}

} // verus!
