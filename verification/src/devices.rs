//! The devices that everything is drawn with, and the chain of calls that
//! builds them.

use vstd::prelude::*;
use crate::protocol::{Handle, Hwnd, InitCall, Reply};
use crate::status::hresult_is_err;
use crate::surface::is_handle;

verus! {

/// The devices, all built for one window.
#[derive(Clone, Copy, Debug, PartialEq, Eq)]
pub struct CompositorDevices {
    pub d3d_device: Handle,
    pub d3d_context: Handle,
    pub dxgi_factory: Handle,
    /// Missing on adapters that do not report video memory.
    pub adapter3: Option<Handle>,
    pub hwnd: Hwnd,
    pub dcomp_device: Handle,
    /// Held only to keep the target alive.
    pub dcomp_target: Handle,
    pub dcomp_root: Handle,
}

impl CompositorDevices {
    pub open spec fn holds(self, h: Handle) -> bool {
        ||| self.d3d_device == h
        ||| self.d3d_context == h
        ||| self.dxgi_factory == h
        ||| self.adapter3 == Some(h)
        ||| self.dcomp_device == h
        ||| self.dcomp_target == h
        ||| self.dcomp_root == h
    }

    pub fn references(&self, h: Handle) -> (r: bool)
        ensures
            r == self.holds(h),
    {
        self.d3d_device == h || self.d3d_context == h || self.dxgi_factory == h || is_handle(
            self.adapter3,
            h,
        ) || self.dcomp_device == h || self.dcomp_target == h || self.dcomp_root == h
    }
}

/// How far the chain has come: the call whose reply is awaited.
#[derive(Clone, Copy, Debug, PartialEq, Eq)]
pub enum InitStep {
    D3dDevice,
    Device1,
    DxgiDevice,
    Adapter,
    Factory,
    Adapter3,
    DcompDevice,
    Target,
    Root,
    BindRoot,
    Commit,
}

/// The chain under way: the objects got so far, zero where none is yet.
#[derive(Clone, Copy, Debug, PartialEq, Eq)]
pub struct InitProgress {
    pub step: InitStep,
    pub hwnd: Hwnd,
    pub base: Handle,
    pub d3d_context: Handle,
    pub d3d_device: Handle,
    pub dxgi_device: Handle,
    pub adapter: Handle,
    pub dxgi_factory: Handle,
    pub adapter3: Option<Handle>,
    pub dcomp_device: Handle,
    pub dcomp_target: Handle,
    pub dcomp_root: Handle,
}

/// What a reply makes of the chain.
#[derive(Clone, Copy, Debug, PartialEq, Eq)]
pub enum InitOutcome {
    Continue(InitProgress),
    Ready(CompositorDevices),
    Failed,
}

/// The chain at its first call.
pub open spec fn init_start(hwnd: Hwnd) -> InitProgress {
    InitProgress {
        step: InitStep::D3dDevice,
        hwnd,
        base: 0,
        d3d_context: 0,
        d3d_device: 0,
        dxgi_device: 0,
        adapter: 0,
        dxgi_factory: 0,
        adapter3: None,
        dcomp_device: 0,
        dcomp_target: 0,
        dcomp_root: 0,
    }
}

/// The call that a step waits on.
pub open spec fn init_call(p: InitProgress) -> InitCall {
    match p.step {
        InitStep::D3dDevice => InitCall::CreateD3dDevice,
        InitStep::Device1 => InitCall::AsDevice1 { base: p.base },
        InitStep::DxgiDevice => InitCall::AsDxgiDevice { d3d_device: p.d3d_device },
        InitStep::Adapter => InitCall::GetAdapter { dxgi_device: p.dxgi_device },
        InitStep::Factory => InitCall::GetFactory { adapter: p.adapter },
        InitStep::Adapter3 => InitCall::AsAdapter3 { adapter: p.adapter },
        InitStep::DcompDevice => InitCall::CreateDcompDevice { dxgi_device: p.dxgi_device },
        InitStep::Target => InitCall::CreateTarget {
            dcomp_device: p.dcomp_device,
            hwnd: p.hwnd,
            topmost: false,
        },
        InitStep::Root => InitCall::CreateRoot { dcomp_device: p.dcomp_device },
        InitStep::BindRoot => InitCall::SetRoot { target: p.dcomp_target, root: p.dcomp_root },
        InitStep::Commit => InitCall::Commit { dcomp_device: p.dcomp_device },
    }
}

/// Whether a reply is of the kind that a step waits on.
pub open spec fn init_expects(step: InitStep, reply: Reply) -> bool {
    match step {
        InitStep::D3dDevice => reply is Device,
        InitStep::BindRoot | InitStep::Commit => reply is Status,
        _ => reply is Object || reply is NoObject,
    }
}

/// The devices that a finished chain has built.
pub open spec fn built(p: InitProgress) -> CompositorDevices {
    CompositorDevices {
        d3d_device: p.d3d_device,
        d3d_context: p.d3d_context,
        dxgi_factory: p.dxgi_factory,
        adapter3: p.adapter3,
        hwnd: p.hwnd,
        dcomp_device: p.dcomp_device,
        dcomp_target: p.dcomp_target,
        dcomp_root: p.dcomp_root,
    }
}

/// What an object makes of a step that waits on one.
pub open spec fn init_object(p: InitProgress, h: Handle) -> InitProgress {
    match p.step {
        InitStep::Device1 => InitProgress { step: InitStep::DxgiDevice, d3d_device: h, ..p },
        InitStep::DxgiDevice => InitProgress { step: InitStep::Adapter, dxgi_device: h, ..p },
        InitStep::Adapter => InitProgress { step: InitStep::Factory, adapter: h, ..p },
        InitStep::Factory => InitProgress { step: InitStep::Adapter3, dxgi_factory: h, ..p },
        InitStep::Adapter3 => InitProgress {
            step: InitStep::DcompDevice,
            adapter3: Some(h),
            ..p
        },
        InitStep::DcompDevice => InitProgress { step: InitStep::Target, dcomp_device: h, ..p },
        InitStep::Target => InitProgress { step: InitStep::Root, dcomp_target: h, ..p },
        InitStep::Root => InitProgress { step: InitStep::BindRoot, dcomp_root: h, ..p },
        _ => p,
    }
}

/// Every call of the chain must succeed, but for the one that asks for the
/// video memory interface of the adapter.
pub open spec fn init_next(p: InitProgress, reply: Reply) -> InitOutcome {
    match reply {
        Reply::Device { status, device: Some(base), context: Some(d3d_context) } => if status >= 0 {
            InitOutcome::Continue(InitProgress { step: InitStep::Device1, base, d3d_context, ..p })
        } else {
            InitOutcome::Failed
        },
        Reply::Object(h) => InitOutcome::Continue(init_object(p, h)),
        Reply::NoObject => if p.step is Adapter3 {
            InitOutcome::Continue(InitProgress { step: InitStep::DcompDevice, adapter3: None, ..p })
        } else {
            InitOutcome::Failed
        },
        Reply::Status(code) => if code < 0 {
            InitOutcome::Failed
        } else if p.step is BindRoot {
            InitOutcome::Continue(InitProgress { step: InitStep::Commit, ..p })
        } else {
            InitOutcome::Ready(built(p))
        },
        _ => InitOutcome::Failed,
    }
}

/// How many objects, counting device and context as one, a step has behind it.
pub open spec fn init_rank(step: InitStep) -> int {
    match step {
        InitStep::D3dDevice => 0,
        InitStep::Device1 => 1,
        InitStep::DxgiDevice => 2,
        InitStep::Adapter => 3,
        InitStep::Factory => 4,
        InitStep::Adapter3 => 5,
        InitStep::DcompDevice => 6,
        InitStep::Target => 7,
        InitStep::Root => 8,
        InitStep::BindRoot => 9,
        InitStep::Commit => 10,
    }
}

impl InitProgress {
    /// The objects got so far.
    pub open spec fn holds(self, h: Handle) -> bool {
        let n = init_rank(self.step);
        ||| n >= 1 && (self.base == h || self.d3d_context == h)
        ||| n >= 2 && self.d3d_device == h
        ||| n >= 3 && self.dxgi_device == h
        ||| n >= 4 && self.adapter == h
        ||| n >= 5 && self.dxgi_factory == h
        ||| n >= 6 && self.adapter3 == Some(h)
        ||| n >= 7 && self.dcomp_device == h
        ||| n >= 8 && self.dcomp_target == h
        ||| n >= 9 && self.dcomp_root == h
    }

    fn rank(&self) -> (r: u8)
        ensures
            r == init_rank(self.step),
    {
        match self.step {
            InitStep::D3dDevice => 0,
            InitStep::Device1 => 1,
            InitStep::DxgiDevice => 2,
            InitStep::Adapter => 3,
            InitStep::Factory => 4,
            InitStep::Adapter3 => 5,
            InitStep::DcompDevice => 6,
            InitStep::Target => 7,
            InitStep::Root => 8,
            InitStep::BindRoot => 9,
            InitStep::Commit => 10,
        }
    }

    pub fn references(&self, h: Handle) -> (r: bool)
        ensures
            r == self.holds(h),
    {
        let n: u8 = self.rank();
        n >= 1 && (self.base == h || self.d3d_context == h) || n >= 2 && self.d3d_device == h || n
            >= 3 && self.dxgi_device == h || n >= 4 && self.adapter == h || n >= 5
            && self.dxgi_factory == h || n >= 6 && is_handle(self.adapter3, h) || n >= 7
            && self.dcomp_device == h || n >= 8 && self.dcomp_target == h || n >= 9
            && self.dcomp_root == h
    }

    /// The call to make.
    pub fn call(&self) -> (r: InitCall)
        ensures
            r == init_call(*self),
    {
        match self.step {
            InitStep::D3dDevice => InitCall::CreateD3dDevice,
            InitStep::Device1 => InitCall::AsDevice1 { base: self.base },
            InitStep::DxgiDevice => InitCall::AsDxgiDevice { d3d_device: self.d3d_device },
            InitStep::Adapter => InitCall::GetAdapter { dxgi_device: self.dxgi_device },
            InitStep::Factory => InitCall::GetFactory { adapter: self.adapter },
            InitStep::Adapter3 => InitCall::AsAdapter3 { adapter: self.adapter },
            InitStep::DcompDevice => InitCall::CreateDcompDevice { dxgi_device: self.dxgi_device },
            InitStep::Target => InitCall::CreateTarget {
                dcomp_device: self.dcomp_device,
                hwnd: self.hwnd,
                topmost: false,
            },
            InitStep::Root => InitCall::CreateRoot { dcomp_device: self.dcomp_device },
            InitStep::BindRoot => InitCall::SetRoot {
                target: self.dcomp_target,
                root: self.dcomp_root,
            },
            InitStep::Commit => InitCall::Commit { dcomp_device: self.dcomp_device },
        }
    }

    pub fn expects(&self, reply: &Reply) -> (r: bool)
        ensures
            r == init_expects(self.step, *reply),
    {
        match self.step {
            InitStep::D3dDevice => match reply {
                Reply::Device { .. } => true,
                _ => false,
            },
            InitStep::BindRoot | InitStep::Commit => match reply {
                Reply::Status(_) => true,
                _ => false,
            },
            _ => match reply {
                Reply::Object(_) | Reply::NoObject => true,
                _ => false,
            },
        }
    }

    fn with_object(self, h: Handle) -> (r: InitProgress)
        ensures
            r == init_object(self, h),
    {
        let mut p = self;
        match p.step {
            InitStep::Device1 => {
                p.d3d_device = h;
                p.step = InitStep::DxgiDevice;
            },
            InitStep::DxgiDevice => {
                p.dxgi_device = h;
                p.step = InitStep::Adapter;
            },
            InitStep::Adapter => {
                p.adapter = h;
                p.step = InitStep::Factory;
            },
            InitStep::Factory => {
                p.dxgi_factory = h;
                p.step = InitStep::Adapter3;
            },
            InitStep::Adapter3 => {
                p.adapter3 = Some(h);
                p.step = InitStep::DcompDevice;
            },
            InitStep::DcompDevice => {
                p.dcomp_device = h;
                p.step = InitStep::Target;
            },
            InitStep::Target => {
                p.dcomp_target = h;
                p.step = InitStep::Root;
            },
            InitStep::Root => {
                p.dcomp_root = h;
                p.step = InitStep::BindRoot;
            },
            _ => {},
        }
        p
    }

    /// Goes on with the reply to the call.
    pub fn next(self, reply: Reply) -> (r: InitOutcome)
        requires
            init_expects(self.step, reply),
        ensures
            r == init_next(self, reply),
    {
        match reply {
            Reply::Device { status, device, context } => {
                if hresult_is_err(status) {
                    return InitOutcome::Failed;
                }
                match (device, context) {
                    (Some(base), Some(d3d_context)) => {
                        let mut p = self;
                        p.base = base;
                        p.d3d_context = d3d_context;
                        p.step = InitStep::Device1;
                        InitOutcome::Continue(p)
                    },
                    _ => InitOutcome::Failed,
                }
            },
            Reply::Object(h) => InitOutcome::Continue(self.with_object(h)),
            Reply::NoObject => match self.step {
                InitStep::Adapter3 => {
                    let mut p = self;
                    p.adapter3 = None;
                    p.step = InitStep::DcompDevice;
                    InitOutcome::Continue(p)
                },
                _ => InitOutcome::Failed,
            },
            Reply::Status(code) => {
                if hresult_is_err(code) {
                    return InitOutcome::Failed;
                }
                match self.step {
                    InitStep::BindRoot => {
                        let mut p = self;
                        p.step = InitStep::Commit;
                        InitOutcome::Continue(p)
                    },
                    _ => InitOutcome::Ready(
                        CompositorDevices {
                            d3d_device: self.d3d_device,
                            d3d_context: self.d3d_context,
                            dxgi_factory: self.dxgi_factory,
                            adapter3: self.adapter3,
                            hwnd: self.hwnd,
                            dcomp_device: self.dcomp_device,
                            dcomp_target: self.dcomp_target,
                            dcomp_root: self.dcomp_root,
                        },
                    ),
                }
            },
            _ => InitOutcome::Failed,
        }
    }
}

/// Begins the chain that builds the devices for a window.
pub fn init_devices(hwnd: Hwnd) -> (r: InitProgress)
    ensures
        r == init_start(hwnd),
{
    InitProgress {
        step: InitStep::D3dDevice,
        hwnd,
        base: 0,
        d3d_context: 0,
        d3d_device: 0,
        dxgi_device: 0,
        adapter: 0,
        dxgi_factory: 0,
        adapter3: None,
        dcomp_device: 0,
        dcomp_target: 0,
        dcomp_root: 0,
    }
}

} // verus!
