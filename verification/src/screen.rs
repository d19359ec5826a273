//! What is on the screen.
//!
//! A [`Screen`] is what a host that does as it is told has made of the calls so
//! far: which object came from which call, what hangs where, and what is shown.
//! It knows nothing of how the compositor decides. [`mirrors`] says when the
//! state of the compositor and the screen agree; they agree after every turn.

use vstd::prelude::*;
use crate::devices::{CompositorDevices, InitProgress, InitStep};
use crate::protocol::{
    AlphaMode, BindFlags, BufferUsage, Effect, Handle, InitCall, PixelFormat, Reply, Request, Slot,
    SurfaceId, SwapEffect, TextureDesc, TextureUsage,
};
use crate::registry::{other_than, Registry};
use crate::state::{AttachFor, FitFor, Model, Paint, Source, Stage};

verus! {

/// The objects of a host and what it has done with them.
#[verifier::ext_equal]
pub struct Screen {
    /// The call that each object came from.
    pub made: Map<Handle, Request>,
    /// The immediate context that came with a device.
    pub contexts: Map<Handle, Handle>,
    /// The root visual of a composition target.
    pub roots: Map<Handle, Handle>,
    /// What a visual shows.
    pub content: Map<Handle, Option<Handle>>,
    /// The children of a visual, bottom to top.
    pub children: Map<Handle, Seq<Handle>>,
    /// The size of the buffers of a swap chain, or of a texture.
    pub sizes: Map<Handle, (u32, u32)>,
    /// The back buffer last asked for of a swap chain.
    pub back: Map<Handle, Handle>,
    /// The texture last copied into another.
    pub copied: Map<Handle, Handle>,
    /// Whether the last copy was waited for.
    pub awaited: bool,
    /// The texture that a swap chain shows.
    pub front: Map<Handle, Handle>,
    /// Where a visual was moved to.
    pub offsets: Map<Handle, (i32, i32)>,
    /// The shared textures counted, with slot and size.
    pub noted: Seq<(Slot, u64, i32, i32)>,
    /// Whether a visual that is added above no other goes on top of all, and
    /// whether one that is added below no other does.
    pub above_none_is_top: bool,
    pub below_none_is_top: bool,
}

/// A new object: a visual without content and children, if it is one.
pub open spec fn bear(w: Screen, h: Handle, request: Request) -> Screen {
    Screen {
        made: w.made.insert(h, request),
        content: w.content.insert(h, None),
        children: w.children.insert(h, Seq::empty()),
        ..w
    }
}

/// A list of children with one more: next to the reference, if there is one.
pub open spec fn with_child(
    w: Screen,
    list: Seq<Handle>,
    child: Handle,
    insert_above: bool,
    reference: Option<Handle>,
) -> Seq<Handle> {
    match reference {
        Some(r) => if insert_above {
            list.insert(list.index_of(r) + 1, child)
        } else {
            list.insert(list.index_of(r), child)
        },
        None => if (insert_above && w.above_none_is_top) || (!insert_above
            && w.below_none_is_top) {
            list.push(child)
        } else {
            seq![child] + list
        },
    }
}

/// A list of children without one of them.
pub open spec fn less(list: Seq<Handle>, child: Handle) -> Seq<Handle> {
    list.filter(other_than(child))
}

/// A visual becomes a child of another.
pub open spec fn adopt(
    w: Screen,
    parent: Handle,
    child: Handle,
    insert_above: bool,
    reference: Option<Handle>,
) -> Screen {
    Screen {
        children: w.children.insert(
            parent,
            with_child(w, w.children[parent], child, insert_above, reference),
        ),
        ..w
    }
}

/// The screen after a call whose outcome does not matter.
pub open spec fn effected(w: Screen, e: Effect) -> Screen {
    match e {
        Effect::RemoveVisual { parent, child } => Screen {
            children: w.children.insert(
                parent,
                less(w.children[parent], child),
            ),
            ..w
        },
        Effect::AddVisual { parent, child, insert_above, reference } => adopt(
            w,
            parent,
            child,
            insert_above,
            reference,
        ),
        Effect::SetContent { visual, content } => Screen {
            content: w.content.insert(visual, content),
            ..w
        },
        Effect::Commit { .. } => w,
        Effect::SetOffset { visual, x, y } => Screen {
            offsets: w.offsets.insert(visual, (x, y)),
            ..w
        },
        Effect::CopyResource { target, source, .. } => Screen {
            copied: w.copied.insert(target, source),
            awaited: false,
            ..w
        },
        Effect::AwaitCopy { .. } => Screen { awaited: true, ..w },
        Effect::NoteAccelPaint { slot, shared_texture, width, height } => Screen {
            noted: w.noted.push((slot, shared_texture, width, height)),
            ..w
        },
    }
}

/// The screen after a row of such calls.
pub open spec fn done(w: Screen, fx: Seq<Effect>) -> Screen
    decreases fx.len(),
{
    if fx.len() == 0 {
        w
    } else {
        effected(done(w, fx.drop_last()), fx.last())
    }
}

/// The screen after a call that came back with this reply. A call that failed
/// has done nothing.
pub open spec fn called(w: Screen, request: Request, reply: Reply) -> Screen {
    match (request, reply) {
        (_, Reply::Device { device, context, .. }) => {
            let a = match device {
                Some(h) => bear(w, h, request),
                None => w,
            };
            let b = match context {
                Some(h) => bear(a, h, request),
                None => a,
            };
            if device is Some && context is Some {
                Screen { contexts: b.contexts.insert(device->0, context->0), ..b }
            } else {
                b
            }
        },
        (Request::CreateSwapChain { chain_desc, .. }, Reply::Object(h)) => Screen {
            sizes: w.sizes.insert(h, (chain_desc.width, chain_desc.height)),
            ..bear(w, h, request)
        },
        (Request::CreateTexture { texture_desc, .. }, Reply::Object(h)) => Screen {
            sizes: w.sizes.insert(h, (texture_desc.width, texture_desc.height)),
            ..bear(w, h, request)
        },
        (Request::GetBuffer { chain, .. }, Reply::Object(h)) => Screen {
            back: w.back.insert(chain, h),
            ..bear(w, h, request)
        },
        (_, Reply::Object(h)) => bear(w, h, request),
        (Request::TextureSize { texture }, Reply::Size { width, height }) => Screen {
            sizes: w.sizes.insert(texture, (width, height)),
            ..w
        },
        (_, Reply::Status(code)) => if code < 0 {
            w
        } else {
            match request {
                Request::Init(InitCall::SetRoot { target, root }) => Screen {
                    roots: w.roots.insert(target, root),
                    ..w
                },
                Request::AddVisual { parent, child, insert_above, reference } => adopt(
                    w,
                    parent,
                    child,
                    insert_above,
                    reference,
                ),
                Request::ResizeBuffers { chain, width, height, .. } => Screen {
                    sizes: w.sizes.insert(chain, (width, height)),
                    ..w
                },
                Request::Present { chain, .. } => Screen {
                    front: w.front.insert(chain, w.copied[w.back[chain]]),
                    ..w
                },
                _ => w,
            }
        },
        _ => w,
    }
}

/// What a host can reply: an object that it hands out is a new one, and a
/// visual that is a child of another already cannot be added to it again.
pub open spec fn plausible(w: Screen, request: Request, reply: Reply) -> bool {
    &&& reply matches Reply::Object(h) ==> !w.made.contains_key(h)
    &&& reply matches Reply::Device { device, context, .. } ==> {
        &&& device is Some ==> !w.made.contains_key(device->0)
        &&& context is Some ==> !w.made.contains_key(context->0)
        &&& device is Some && context is Some ==> device != context
    }
    &&& match (request, reply) {
        (Request::AddVisual { parent, child, .. }, Reply::Status(code)) => code >= 0
            ==> !w.children[parent].contains(child),
        _ => true,
    }
}

/// The visual in a slot of a surface, if there is such a surface.
pub open spec fn visual_at(reg: Registry, id: SurfaceId, slot: Slot) -> Option<Handle> {
    if !reg.surfaces.contains_key(id) {
        None
    } else {
        match slot {
            Slot::Main => reg.surfaces[id].visual,
            Slot::Popup => reg.surfaces[id].popup_visual,
        }
    }
}

/// The swap chain in a slot of a surface.
pub open spec fn chain_at(reg: Registry, id: SurfaceId, slot: Slot) -> Option<Handle> {
    if !reg.surfaces.contains_key(id) {
        None
    } else {
        match slot {
            Slot::Main => reg.surfaces[id].swap_chain,
            Slot::Popup => reg.surfaces[id].popup_swap_chain,
        }
    }
}

/// The size noted for a slot of a surface.
pub open spec fn size_at(reg: Registry, id: SurfaceId, slot: Slot) -> (i32, i32) {
    match slot {
        Slot::Main => (reg.surfaces[id].sw, reg.surfaces[id].sh),
        Slot::Popup => (reg.surfaces[id].popup_sw, reg.surfaces[id].popup_sh),
    }
}

/// Whether a slot of a surface is to be seen.
pub open spec fn visible_at(reg: Registry, id: SurfaceId, slot: Slot) -> bool {
    match slot {
        Slot::Main => reg.surfaces[id].visible,
        Slot::Popup => reg.surfaces[id].popup_visible,
    }
}

/// No visual and no swap chain is used twice.
pub open spec fn apart(reg: Registry) -> bool {
    &&& forall|a: SurfaceId, p: Slot, b: SurfaceId, q: Slot|
        #![trigger visual_at(reg, a, p), visual_at(reg, b, q)]
        visual_at(reg, a, p) is Some && visual_at(reg, a, p) == visual_at(reg, b, q) ==> a == b
            && p == q
    &&& forall|a: SurfaceId, p: Slot, b: SurfaceId, q: Slot|
        #![trigger chain_at(reg, a, p), chain_at(reg, b, q)]
        chain_at(reg, a, p) is Some && chain_at(reg, a, p) == chain_at(reg, b, q) ==> a == b && p
            == q
}

/// A swap chain for premultiplied BGRA pictures with two buffers, made on these
/// devices.
pub open spec fn chain_made(w: Screen, d: CompositorDevices, c: Handle) -> bool {
    &&& w.made.contains_key(c)
    &&& w.made[c] matches Request::CreateSwapChain { factory, device, chain_desc }
    &&& factory == d.dxgi_factory
    &&& device == d.d3d_device
    &&& chain_desc.format == PixelFormat::B8G8R8A8Unorm
    &&& chain_desc.sample_count == 1
    &&& chain_desc.sample_quality == 0
    &&& chain_desc.buffer_usage == BufferUsage::RenderTargetOutput
    &&& chain_desc.buffer_count == 2
    &&& chain_desc.swap_effect == SwapEffect::FlipSequential
    &&& chain_desc.alpha_mode == AlphaMode::Premultiplied
}

/// A visual made on these devices.
pub open spec fn visual_made(w: Screen, d: CompositorDevices, v: Handle) -> bool {
    w.made.contains_key(v) && w.made[v] == (Request::CreateVisual { device: d.dcomp_device })
}

/// Every visual of a surface shows the swap chain of its slot and nothing else,
/// and the buffers of that swap chain have the size that is noted. Without
/// devices there are no visuals.
pub open spec fn pictures(reg: Registry, d: Option<CompositorDevices>, w: Screen) -> bool {
    forall|id: SurfaceId, slot: Slot|
        #![trigger visual_at(reg, id, slot)]
        visual_at(reg, id, slot) is Some ==> d is Some && visual_made(
            w,
            d->0,
            visual_at(reg, id, slot)->0,
        ) && w.content[visual_at(reg, id, slot)->0] == chain_at(reg, id, slot) && (chain_at(
            reg,
            id,
            slot,
        ) is Some ==> chain_made(w, d->0, chain_at(reg, id, slot)->0) && w.sizes[chain_at(
            reg,
            id,
            slot,
        )->0] == (size_at(reg, id, slot).0 as u32, size_at(reg, id, slot).1 as u32))
}

/// Nothing else shows anything.
pub open spec fn no_leftovers(reg: Registry, w: Screen) -> bool {
    forall|v: Handle|
        w.made.contains_key(v) && (#[trigger] w.content[v]) is Some ==> exists|
            id: SurfaceId,
            slot: Slot,
        |
            #![trigger visual_at(reg, id, slot)]
            visual_at(reg, id, slot) == Some(v)
}

/// The popup of a surface is nested in it.
pub open spec fn nested(reg: Registry, w: Screen) -> bool {
    forall|id: SurfaceId|
        #![trigger visual_at(reg, id, Slot::Main)]
        visual_at(reg, id, Slot::Main) is Some ==> w.children[visual_at(reg, id, Slot::Main)->0]
            == (match visual_at(reg, id, Slot::Popup) {
            Some(popup) => seq![popup],
            None => Seq::empty(),
        })
}

/// One comes before another in a list.
pub open spec fn before<A>(s: Seq<A>, x: A, y: A) -> bool {
    exists|i: int, j: int| 0 <= i < j < s.len() && #[trigger] s[i] == x && #[trigger] s[j] == y
}

/// Whether a surface is in the tree with a visual.
pub open spec fn hangs(reg: Registry, id: SurfaceId, v: Handle) -> bool {
    visual_at(reg, id, Slot::Main) == Some(v) && reg.surfaces[id].in_tree
}

/// Under the root hang the visuals of the surfaces that are in the tree, and no
/// others, and those of stacked surfaces in the order of the stack.
pub open spec fn tree(reg: Registry, root: Handle, w: Screen) -> bool {
    let list = w.children[root];
    &&& list.no_duplicates()
    &&& forall|v: Handle| #[trigger]
        list.contains(v) ==> exists|id: SurfaceId| #[trigger] hangs(reg, id, v)
    &&& forall|id: SurfaceId, v: Handle| #[trigger] hangs(reg, id, v) ==> list.contains(v)
    &&& forall|i: int|
        0 <= i < reg.stack.len() ==> visual_at(reg, #[trigger] reg.stack[i], Slot::Main) is Some
            ==> reg.surfaces[reg.stack[i]].in_tree
    &&& forall|x: SurfaceId, y: SurfaceId| #[trigger]
        before(reg.stack, x, y) && visual_at(reg, x, Slot::Main) is Some && visual_at(
            reg,
            y,
            Slot::Main,
        ) is Some ==> before(
            list,
            visual_at(reg, x, Slot::Main)->0,
            visual_at(reg, y, Slot::Main)->0,
        )
}

/// Under the root hang exactly the surfaces stacked so far, bottom to top.
pub open spec fn tree_so_far(reg: Registry, root: Handle, w: Screen) -> bool {
    let list = w.children[root];
    &&& list.len() == reg.stack.len()
    &&& list.no_duplicates()
    &&& forall|i: int|
        0 <= i < list.len() ==> hangs(reg, #[trigger] reg.stack[i], list[i])
    &&& forall|id: SurfaceId, v: Handle| #[trigger]
        hangs(reg, id, v) ==> reg.stack.contains(id)
}

/// The devices come from one hardware device: factory and adapter are its own,
/// the composition device is made on it, the target is that of the window, and
/// the root is the root of that target.
pub open spec fn built_on(
    w: Screen,
    d: CompositorDevices,
    base: Handle,
    dxgi_device: Handle,
    adapter: Handle,
) -> bool {
    &&& made_by(w, base, InitCall::CreateD3dDevice)
    &&& w.contexts[base] == d.d3d_context
    &&& w.made.contains_key(d.d3d_context)
    &&& made_by(w, d.d3d_device, InitCall::AsDevice1 { base })
    &&& made_by(w, dxgi_device, InitCall::AsDxgiDevice { d3d_device: d.d3d_device })
    &&& made_by(w, adapter, InitCall::GetAdapter { dxgi_device })
    &&& made_by(w, d.dxgi_factory, InitCall::GetFactory { adapter })
    &&& d.adapter3 is Some ==> made_by(w, d.adapter3->0, InitCall::AsAdapter3 { adapter })
    &&& made_by(w, d.dcomp_device, InitCall::CreateDcompDevice { dxgi_device })
    &&& made_by(
        w,
        d.dcomp_target,
        InitCall::CreateTarget { dcomp_device: d.dcomp_device, hwnd: d.hwnd, topmost: false },
    )
    &&& made_by(w, d.dcomp_root, InitCall::CreateRoot { dcomp_device: d.dcomp_device })
    &&& w.roots[d.dcomp_target] == d.dcomp_root
}

/// Whether an object came from this call of the chain that builds devices.
pub open spec fn made_by(w: Screen, h: Handle, call: InitCall) -> bool {
    w.made.contains_key(h) && w.made[h] == Request::Init(call)
}

pub open spec fn built(w: Screen, d: CompositorDevices) -> bool {
    exists|base: Handle, dxgi_device: Handle, adapter: Handle| #[trigger]
        built_on(w, d, base, dxgi_device, adapter)
}

/// How many calls of the chain have come back.
pub open spec fn calls_back(step: InitStep) -> int {
    match step {
        InitStep::D3dDevice => 0,
        InitStep::Device1 => 1,
        InitStep::DxgiDevice => 2,
        InitStep::Adapter => 3,
        InitStep::Factory => 4,
        InitStep::Adapter3 => 5,
        InitStep::DcompDevice => 6,
        InitStep::Target => 7,
        InitStep::Root => 8,
        InitStep::BindRoot => 9,
        InitStep::Commit => 10,
    }
}

/// The objects that a chain under way has got so far come from the calls they
/// should come from.
pub open spec fn building(w: Screen, p: InitProgress) -> bool {
    let n = calls_back(p.step);
    &&& n >= 1 ==> made_by(w, p.base, InitCall::CreateD3dDevice) && w.contexts[p.base]
        == p.d3d_context && w.made.contains_key(p.d3d_context)
    &&& n >= 2 ==> made_by(w, p.d3d_device, InitCall::AsDevice1 { base: p.base })
    &&& n >= 3 ==> made_by(w, p.dxgi_device, InitCall::AsDxgiDevice { d3d_device: p.d3d_device })
    &&& n >= 4 ==> made_by(w, p.adapter, InitCall::GetAdapter { dxgi_device: p.dxgi_device })
    &&& n >= 5 ==> made_by(w, p.dxgi_factory, InitCall::GetFactory { adapter: p.adapter })
    &&& n >= 6 && p.adapter3 is Some ==> made_by(
        w,
        p.adapter3->0,
        InitCall::AsAdapter3 { adapter: p.adapter },
    )
    &&& n >= 7 ==> made_by(
        w,
        p.dcomp_device,
        InitCall::CreateDcompDevice { dxgi_device: p.dxgi_device },
    )
    &&& n >= 8 ==> made_by(
        w,
        p.dcomp_target,
        InitCall::CreateTarget { dcomp_device: p.dcomp_device, hwnd: p.hwnd, topmost: false },
    )
    &&& n >= 9 ==> made_by(
        w,
        p.dcomp_root,
        InitCall::CreateRoot { dcomp_device: p.dcomp_device },
    ) && w.children[p.dcomp_root] == Seq::<Handle>::empty()
    &&& n >= 10 ==> w.roots[p.dcomp_target] == p.dcomp_root
}

/// The devices in service: those that the state has, or those that are about
/// to be put in service.
pub open spec fn in_service(m: Model) -> Option<CompositorDevices> {
    match m.stage {
        Stage::RebuildVisual { devices, .. } => Some(devices),
        Stage::RebuildPopup { devices, .. } => Some(devices),
        Stage::Attach { purpose: AttachFor::Rebuild { devices, .. }, .. } => Some(devices),
        _ => m.devices,
    }
}

/// The texture holds the frame: it is the shared texture that was handed over,
/// opened on these devices, or it was filled from the pixels in memory, row
/// after row of four bytes each.
pub open spec fn holds_frame(
    w: Screen,
    d: CompositorDevices,
    source: Source,
    texture: Handle,
) -> bool {
    &&& w.made.contains_key(texture)
    &&& match source {
        Source::Shared { shared_texture } => w.made[texture] == (Request::OpenSharedTexture {
            device: d.d3d_device,
            shared_texture,
        }),
        Source::Software { address, width, height } => {
            &&& w.made[texture] matches Request::CreateTexture { device, texture_desc, data }
            &&& device == d.d3d_device
            &&& texture_desc == (TextureDesc {
                width: width as u32,
                height: height as u32,
                mip_levels: 1,
                array_size: 1,
                format: PixelFormat::B8G8R8A8Unorm,
                sample_count: 1,
                sample_quality: 0,
                usage: TextureUsage::Default,
                bind_flags: BindFlags::ShaderResource,
            })
            &&& data.address == address
            &&& data.row_pitch == 4 * width
            &&& w.sizes[texture] == (width as u32, height as u32)
        },
    }
}

/// A frame of this size: the size of its texture.
pub open spec fn measures(w: Screen, texture: Handle, width: i32, height: i32) -> bool {
    w.sizes[texture].0 as i32 == width && w.sizes[texture].1 as i32 == height
}

/// The swap chain of a slot has the size of a texture, if that has one.
pub open spec fn fits(w: Screen, c: Handle, texture: Handle) -> bool {
    w.sizes[texture].0 as i32 > 0 && w.sizes[texture].1 as i32 > 0 ==> w.sizes[c]
        == w.sizes[texture]
}

/// A visual that belongs to no surface yet.
pub open spec fn spare(
    reg: Registry,
    w: Screen,
    d: CompositorDevices,
    v: Handle,
    popup: Option<Handle>,
) -> bool {
    &&& visual_made(w, d, v)
    &&& w.content[v] is None
    &&& w.children[v] == (match popup {
        Some(pv) => seq![pv],
        None => Seq::empty(),
    })
    &&& forall|id: SurfaceId, slot: Slot| #[trigger] visual_at(reg, id, slot) != Some(v)
}

/// What the operation under way has got so far is what it should be.
pub open spec fn on_its_way(m: Model, w: Screen) -> bool {
    match m.stage {
        Stage::Init(p) => building(w, p) && p.hwnd == m.hwnd,
        Stage::RebuildInit { progress, .. } => building(w, progress) && progress.hwnd == m.hwnd,
        Stage::RebuildVisual { devices, index, .. } => {
            &&& w.children[devices.dcomp_root] == Seq::<Handle>::empty()
            &&& forall|id: SurfaceId, v: Handle| !#[trigger] hangs(m.reg, id, v)
            &&& forall|k: int, slot: Slot|
                index <= k < m.reg.live.len() ==> #[trigger] visual_at(m.reg, m.reg.live[k], slot)
                    is None
        },
        Stage::RebuildPopup { devices, index, visual, .. } => {
            &&& w.children[devices.dcomp_root] == Seq::<Handle>::empty()
            &&& forall|id: SurfaceId, v: Handle| !#[trigger] hangs(m.reg, id, v)
            &&& forall|k: int, slot: Slot|
                index <= k < m.reg.live.len() ==> #[trigger] visual_at(m.reg, m.reg.live[k], slot)
                    is None
            &&& spare(m.reg, w, devices, visual, None)
        },
        Stage::Attach { above, .. } => {
            &&& in_service(m) is Some
            &&& tree_so_far(m.reg, in_service(m)->0.dcomp_root, w)
            &&& above == (if m.reg.stack.len() == 0 {
                None
            } else {
                visual_at(m.reg, m.reg.stack.last(), Slot::Main)
            })
        },
        Stage::AllocPopup { visual } => spare(m.reg, w, m.devices->0, visual, None),
        Stage::AllocAttach { visual, popup } => {
            &&& spare(m.reg, w, m.devices->0, visual, popup)
            &&& popup is Some ==> popup != Some(visual) && visual_made(w, m.devices->0, popup->0)
                && w.content[popup->0] is None && forall|id: SurfaceId, slot: Slot| #[trigger]
                visual_at(m.reg, id, slot) != popup
        },
        Stage::Measure { paint, texture } => holds_frame(
            w,
            m.devices->0,
            paint.source,
            texture,
        ),
        Stage::Judge { paint, opened, width, height } => opened is Some ==> holds_frame(
            w,
            m.devices->0,
            paint.source,
            opened->0,
        ) && measures(w, opened->0, width, height),
        Stage::FitResize(f) | Stage::FitCheck(f) | Stage::FitCreate(f) => match f.purpose {
            FitFor::Present { source, texture } => holds_frame(w, m.devices->0, source, texture)
                && measures(w, texture, f.width, f.height),
            FitFor::Resize => true,
        },
        Stage::Buffer { paint, texture } => ready_to_show(m, w, paint, texture),
        Stage::Show { paint, texture, buffer } => {
            &&& ready_to_show(m, w, paint, texture)
            &&& chain_at(m.reg, paint.surface, paint.slot) is Some
            &&& w.made.contains_key(buffer)
            &&& w.made[buffer] == (Request::GetBuffer {
                chain: chain_at(m.reg, paint.surface, paint.slot)->0,
                index: 0,
            })
            &&& w.back[chain_at(m.reg, paint.surface, paint.slot)->0] == buffer
            &&& w.copied[buffer] == texture
            &&& w.awaited
        },
        _ => true,
    }
}

/// A frame about to be copied into the back buffer: its texture holds it, the
/// swap chain has its size, and a shared texture was counted last.
pub open spec fn ready_to_show(m: Model, w: Screen, paint: Paint, texture: Handle) -> bool {
    &&& holds_frame(w, m.devices->0, paint.source, texture)
    &&& fits(w, chain_at(m.reg, paint.surface, paint.slot)->0, texture)
    &&& paint.source matches Source::Shared { shared_texture } ==> w.noted.len() > 0
        && w.noted.last() == (
        paint.slot,
        shared_texture,
        w.sizes[texture].0 as i32,
        w.sizes[texture].1 as i32,
    )
}

/// The tree, but where it is being put up.
pub open spec fn standing(m: Model, w: Screen) -> bool {
    m.devices is Some && !(m.stage is Attach) ==> tree(m.reg, m.devices->0.dcomp_root, w)
}

/// State and screen agree.
pub open spec fn mirrors(m: Model, w: Screen) -> bool {
    &&& apart(m.reg)
    &&& pictures(m.reg, in_service(m), w)
    &&& no_leftovers(m.reg, w)
    &&& nested(m.reg, w)
    &&& standing(m, w)
    &&& in_service(m) is Some ==> built(w, in_service(m)->0) && in_service(m)->0.hwnd == m.hwnd
    &&& on_its_way(m, w)
}

/// A screen on which nothing was done yet.
pub open spec fn blank(w: Screen) -> bool {
    w.made.dom() == Set::<Handle>::empty()
}

/// At first state and screen agree.
pub proof fn lemma_blank_mirrors(w: Screen)
    requires
        blank(w),
    ensures
        mirrors(Model::initial(), w),
{
    assert forall|h: Handle| !w.made.contains_key(h) by {
        assert(!w.made.dom().contains(h));
    }
}

} // verus!
