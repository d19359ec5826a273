//! Frames: from what the browser hands over to what is shown.

use vstd::prelude::*;
use crate::gate::{decided, PresentDecision};
use crate::protocol::{Answer, Effect, Handle, Slot, SurfaceId, Turn, INVALID_HWND, NULL_SURFACE};
use crate::recovery::{rebuild, rebuild_devices_and_visuals};
use crate::state::{
    source_ok, turned, After, Fit, FitFor, Model, Paint, Source, Stage, State, Turned,
};
use crate::swap_chain::{ensure_swap_chain, fit, make_answer, paint_answer};

verus! {

/// A frame that is not shown.
pub open spec fn dropped(m: Model, effects: Seq<Effect>, slot: Slot) -> Turned {
    m.answers(effects, paint_answer(slot, false))
}

/// Whether a frame of the main surface is larger than the window, by more than
/// what rounding explains. No window size is known before the first report.
pub open spec fn oversized(m: Model, width: int, height: int) -> bool {
    m.mpv_pw > 0 && (width > m.mpv_pw + 2 || height > m.mpv_ph + 2)
}

/// Whether the transition gate has a say: on frames for the bottom-most
/// surface.
pub open spec fn gated(m: Model, paint: Paint) -> bool {
    paint.slot is Main && m.reg.bottom() == Some(paint.surface)
}

/// A frame arrives. Where devices are missing and there is a window to build
/// them for, they are built first.
pub open spec fn painted(m: Model, paint: Paint) -> Turned {
    if m.devices is None && m.hwnd != INVALID_HWND {
        rebuild(m, m.hwnd, seq![], After::Paint(paint))
    } else {
        painting(m, seq![], paint)
    }
}

/// The first step of a frame, whether or not there are devices now: a shared
/// texture is opened; a frame from memory is uploaded, unless it has to be
/// decided on first.
pub open spec fn painting(m: Model, effects: Seq<Effect>, paint: Paint) -> Turned {
    match paint.source {
        Source::Shared { .. } => if m.devices is None {
            dropped(m, effects, paint.slot)
        } else {
            m.asks(effects, Stage::Open(paint))
        },
        Source::Software { width, height, .. } => if gated(m, paint) {
            m.asks(effects, Stage::Judge { paint, opened: None, width, height })
        } else {
            uploading(m, effects, paint)
        },
    }
}

/// Whether a slot can show anything: it is visible, and there is a visual.
pub open spec fn showable(m: Model, paint: Paint) -> bool {
    m.surface(paint.surface).shown(paint.slot) && m.surface(paint.surface).visual_of(
        paint.slot,
    ) is Some
}

/// A frame from memory becomes a texture. A popup that cannot be shown is not
/// uploaded.
pub open spec fn uploading(m: Model, effects: Seq<Effect>, paint: Paint) -> Turned {
    if m.devices is None || (paint.slot is Popup && !showable(m, paint)) {
        dropped(m, effects, paint.slot)
    } else {
        m.asks(effects, Stage::Upload(paint))
    }
}

/// A shared texture was opened, or not.
pub open spec fn opened(m: Model, paint: Paint, got: Option<Handle>) -> Turned {
    match got {
        Some(texture) => m.asks(seq![], Stage::Measure { paint, texture }),
        None => dropped(m, seq![], paint.slot),
    }
}

/// A shared texture was measured.
pub open spec fn measured(
    m: Model,
    paint: Paint,
    texture: Handle,
    width: i32,
    height: i32,
) -> Turned {
    if gated(m, paint) {
        m.asks(seq![], Stage::Judge { paint, opened: Some(texture), width, height })
    } else {
        textured(m, paint, texture, width, height)
    }
}

/// A frame of the main surface was decided on. One that ends the transition
/// resets the transition gate; a shared texture that does so also clears the
/// logical size noted meanwhile, and one larger than the window is not shown.
pub open spec fn judged(
    m: Model,
    paint: Paint,
    texture: Option<Handle>,
    width: i32,
    height: i32,
    decision: PresentDecision,
) -> Turned {
    let passed = Model { gate: decided(m.gate, decision), ..m };
    if decision is Reject {
        dropped(passed, seq![], paint.slot)
    } else if paint.source is Software {
        uploading(passed, seq![], paint)
    } else {
        let settled = if decision is EndTransitionThenPresent {
            Model { pending_lw: 0, pending_lh: 0, ..passed }
        } else {
            passed
        };
        if oversized(settled, width as int, height as int) {
            dropped(settled, seq![], paint.slot)
        } else {
            textured(settled, paint, texture->0, width, height)
        }
    }
}

/// A frame from memory was uploaded, or not.
pub open spec fn uploaded(m: Model, paint: Paint, got: Option<Handle>) -> Turned {
    match got {
        Some(texture) => textured(m, paint, texture, paint.source->width, paint.source->height),
        None => dropped(m, seq![], paint.slot),
    }
}

/// A texture is there: where the slot can show it, the swap chain is brought
/// to its size.
pub open spec fn textured(
    m: Model,
    paint: Paint,
    texture: Handle,
    width: i32,
    height: i32,
) -> Turned {
    if showable(m, paint) {
        fit(
            m,
            seq![],
            Fit {
                surface: paint.surface,
                slot: paint.slot,
                width,
                height,
                purpose: FitFor::Present { source: paint.source, texture },
            },
        )
    } else {
        dropped(m, seq![], paint.slot)
    }
}

fn drop_frame(st: &mut State, effects: Vec<Effect>, slot: Slot) -> (r: Turn)
    requires
        old(st)@.core_wf(),
        old(st)@.queue.len() == 0,
    ensures
        turned(*final(st), r) == dropped(old(st)@, effects@, slot),
        final(st)@.wf(),
{
    st.finish(effects, make_answer(slot, false))
}

fn is_gated(st: &State, paint: Paint) -> (r: bool)
    ensures
        r == gated(st@, paint),
{
    match paint.slot {
        Slot::Main => st.surfaces.is_main(paint.surface),
        Slot::Popup => false,
    }
}

fn is_oversized(st: &State, width: i32, height: i32) -> (r: bool)
    ensures
        r == oversized(st@, width as int, height as int),
{
    st.mpv_pw > 0 && (width as i64 > st.mpv_pw as i64 + 2 || height as i64 > st.mpv_ph as i64 + 2)
}

fn is_showable(st: &State, paint: Paint) -> (r: bool)
    requires
        st@.reg.has(paint.surface),
    ensures
        r == showable(st@, paint),
{
    let s = st.surfaces.get(paint.surface);
    s.is_shown(paint.slot) && s.get_visual(paint.slot).is_some()
}

/// Builds missing devices before a frame is painted; see [`painted`].
pub(crate) fn retry_recovery_if_needed(st: &mut State, paint: Paint) -> (r: Turn)
    requires
        old(st)@.wf(),
        old(st)@.idle(),
        old(st)@.reg.has(paint.surface),
        source_ok(paint.source),
    ensures
        turned(*final(st), r) == painted(old(st)@, paint),
        final(st)@.wf(),
{
    if st.devices.is_none() && st.hwnd != INVALID_HWND {
        rebuild_devices_and_visuals(st, st.hwnd, Vec::new(), After::Paint(paint))
    } else {
        paint_frame(st, Vec::new(), paint)
    }
}

/// The first step of a frame; see [`painting`].
pub(crate) fn paint_frame(st: &mut State, effects: Vec<Effect>, paint: Paint) -> (r: Turn)
    requires
        old(st)@.core_wf(),
        old(st)@.queue.len() == 0,
        old(st)@.reg.has(paint.surface),
        source_ok(paint.source),
    ensures
        turned(*final(st), r) == painting(old(st)@, effects@, paint),
        final(st)@.wf(),
{
    match paint.source {
        Source::Shared { .. } => {
            if st.devices.is_none() {
                drop_frame(st, effects, paint.slot)
            } else {
                st.ask(effects, Stage::Open(paint))
            }
        },
        Source::Software { width, height, .. } => {
            if is_gated(st, paint) {
                st.ask(effects, Stage::Judge { paint, opened: None, width, height })
            } else {
                upload(st, effects, paint)
            }
        },
    }
}

fn upload(st: &mut State, effects: Vec<Effect>, paint: Paint) -> (r: Turn)
    requires
        old(st)@.core_wf(),
        old(st)@.queue.len() == 0,
        old(st)@.reg.has(paint.surface),
        paint.source is Software,
        source_ok(paint.source),
    ensures
        turned(*final(st), r) == uploading(old(st)@, effects@, paint),
        final(st)@.wf(),
{
    if st.devices.is_none() {
        return drop_frame(st, effects, paint.slot);
    }
    match paint.slot {
        Slot::Popup => {
            if !is_showable(st, paint) {
                return drop_frame(st, effects, paint.slot);
            }
        },
        Slot::Main => {},
    }
    st.ask(effects, Stage::Upload(paint))
}

/// The texture that was opened, if it could be.
pub(crate) fn on_opened(st: &mut State, paint: Paint, got: Option<Handle>) -> (r: Turn)
    requires
        old(st)@.wf(),
        old(st)@.stage == Stage::Open(paint),
    ensures
        turned(*final(st), r) == opened(old(st)@, paint, got),
        final(st)@.wf(),
{
    match got {
        Some(texture) => st.ask(Vec::new(), Stage::Measure { paint, texture }),
        None => drop_frame(st, Vec::new(), paint.slot),
    }
}

/// The size of the texture that was opened.
pub(crate) fn on_measured(
    st: &mut State,
    paint: Paint,
    texture: Handle,
    width: i32,
    height: i32,
) -> (r: Turn)
    requires
        old(st)@.wf(),
        old(st)@.stage == (Stage::Measure { paint, texture }),
    ensures
        turned(*final(st), r) == measured(old(st)@, paint, texture, width, height),
        final(st)@.wf(),
{
    if is_gated(st, paint) {
        st.ask(Vec::new(), Stage::Judge { paint, opened: Some(texture), width, height })
    } else {
        show_texture(st, paint, texture, width, height)
    }
}

/// The decision on a frame of the main surface.
pub(crate) fn on_judged(
    st: &mut State,
    paint: Paint,
    texture: Option<Handle>,
    width: i32,
    height: i32,
    decision: PresentDecision,
) -> (r: Turn)
    requires
        old(st)@.wf(),
        old(st)@.stage == (Stage::Judge { paint, opened: texture, width, height }),
    ensures
        turned(*final(st), r) == judged(old(st)@, paint, texture, width, height, decision),
        final(st)@.wf(),
{
    st.gate.apply(decision);
    let ghost passed = Model { gate: decided(old(st)@.gate, decision), ..old(st)@ };
    assert(st@ =~= passed);
    match decision {
        PresentDecision::Reject => {
            return drop_frame(st, Vec::new(), paint.slot);
        },
        _ => {},
    }
    match paint.source {
        Source::Software { .. } => {
            return upload(st, Vec::new(), paint);
        },
        Source::Shared { .. } => {},
    }
    match decision {
        PresentDecision::EndTransitionThenPresent => {
            st.pending_lw = 0;
            st.pending_lh = 0;
            assert(st@ =~= (Model { pending_lw: 0, pending_lh: 0, ..passed }));
        },
        _ => {},
    }
    if is_oversized(st, width, height) {
        drop_frame(st, Vec::new(), paint.slot)
    } else {
        show_texture(st, paint, texture.unwrap(), width, height)
    }
}

/// The texture that was filled from memory, if it could be.
pub(crate) fn on_uploaded(st: &mut State, paint: Paint, got: Option<Handle>) -> (r: Turn)
    requires
        old(st)@.wf(),
        old(st)@.stage == Stage::Upload(paint),
    ensures
        turned(*final(st), r) == uploaded(old(st)@, paint, got),
        final(st)@.wf(),
{
    match (got, paint.source) {
        (Some(texture), Source::Software { width, height, .. }) => show_texture(
            st,
            paint,
            texture,
            width,
            height,
        ),
        _ => drop_frame(st, Vec::new(), paint.slot),
    }
}

fn show_texture(
    st: &mut State,
    paint: Paint,
    texture: Handle,
    width: i32,
    height: i32,
) -> (r: Turn)
    requires
        old(st)@.core_wf(),
        old(st)@.queue.len() == 0,
        old(st)@.devices is Some,
        old(st)@.reg.has(paint.surface),
        source_ok(paint.source),
    ensures
        turned(*final(st), r) == textured(old(st)@, paint, texture, width, height),
        final(st)@.wf(),
{
    if is_showable(st, paint) {
        let f = Fit {
            surface: paint.surface,
            slot: paint.slot,
            width,
            height,
            purpose: FitFor::Present { source: paint.source, texture },
        };
        ensure_swap_chain(st, Vec::new(), f)
    } else {
        drop_frame(st, Vec::new(), paint.slot)
    }
}

/// What a caller may hand over as a surface: null, or a live surface.
pub open spec fn known(m: Model, s: SurfaceId) -> bool {
    s == NULL_SURFACE || m.reg.has(s)
}

/// Whether there is a shared frame at all: a surface, a paint info and a
/// texture in it.
pub open spec fn shared_given(s: SurfaceId, info: Option<u64>) -> bool {
    s != NULL_SURFACE && info is Some && info != Some(0u64)
}

/// Whether there is a frame in memory at all: a surface, a buffer and a
/// positive size.
pub open spec fn memory_given(s: SurfaceId, buffer: u64, width: i32, height: i32) -> bool {
    s != NULL_SURFACE && buffer != 0 && width > 0 && height > 0
}

/// Whether there is a size to bring a surface to.
pub open spec fn size_given(s: SurfaceId, pw: i32, ph: i32) -> bool {
    s != NULL_SURFACE && pw > 0 && ph > 0
}

/// A shared texture for a slot. `info` is the paint info, if there is one, by
/// the shared texture handle in it; null surfaces, infos and handles are not
/// painted.
pub open spec fn shared_frame(m: Model, s: SurfaceId, slot: Slot, info: Option<u64>) -> Turned {
    if !shared_given(s, info) {
        dropped(m, seq![], slot)
    } else {
        painted(
            m,
            Paint { surface: s, slot, source: Source::Shared { shared_texture: info->0 } },
        )
    }
}

/// Pixels in memory for a slot. Null surfaces and buffers, and sizes that are
/// not positive, are not painted.
pub open spec fn memory_frame(
    m: Model,
    s: SurfaceId,
    slot: Slot,
    buffer: u64,
    width: i32,
    height: i32,
) -> Turned {
    if !memory_given(s, buffer, width, height) {
        dropped(m, seq![], slot)
    } else {
        painted(
            m,
            Paint { surface: s, slot, source: Source::Software { address: buffer, width, height } },
        )
    }
}

/// Whether there is a shared frame at all. Callers can ask before they wait
/// for the state.
pub fn has_shared_frame(s: SurfaceId, info: Option<u64>) -> (r: bool)
    ensures
        r == shared_given(s, info),
{
    match info {
        Some(shared_texture) => s != NULL_SURFACE && shared_texture != 0,
        None => false,
    }
}

/// Whether there is a frame in memory at all. Callers can ask before they wait
/// for the state.
pub fn has_memory_frame(s: SurfaceId, buffer: u64, width: i32, height: i32) -> (r: bool)
    ensures
        r == memory_given(s, buffer, width, height),
{
    s != NULL_SURFACE && buffer != 0 && width > 0 && height > 0
}

/// Whether there is a size to bring a surface to. Callers can ask before they
/// wait for the state.
pub fn has_size(s: SurfaceId, pw: i32, ph: i32) -> (r: bool)
    ensures
        r == size_given(s, pw, ph),
{
    s != NULL_SURFACE && pw > 0 && ph > 0
}

fn start_shared(st: &mut State, s: SurfaceId, slot: Slot, info: Option<u64>) -> (r: Turn)
    requires
        old(st)@.wf(),
        old(st)@.idle(),
        known(old(st)@, s),
    ensures
        turned(*final(st), r) == shared_frame(old(st)@, s, slot, info),
        final(st)@.wf(),
{
    if !has_shared_frame(s, info) {
        return drop_frame(st, Vec::new(), slot);
    }
    match info {
        Some(shared_texture) => {
            retry_recovery_if_needed(
                st,
                Paint { surface: s, slot, source: Source::Shared { shared_texture } },
            )
        },
        None => drop_frame(st, Vec::new(), slot),
    }
}

fn start_memory(
    st: &mut State,
    s: SurfaceId,
    slot: Slot,
    buffer: u64,
    width: i32,
    height: i32,
) -> (r: Turn)
    requires
        old(st)@.wf(),
        old(st)@.idle(),
        known(old(st)@, s),
    ensures
        turned(*final(st), r) == memory_frame(old(st)@, s, slot, buffer, width, height),
        final(st)@.wf(),
{
    if !has_memory_frame(s, buffer, width, height) {
        return drop_frame(st, Vec::new(), slot);
    }
    retry_recovery_if_needed(
        st,
        Paint { surface: s, slot, source: Source::Software { address: buffer, width, height } },
    )
}

/// Shows a shared texture on a surface. The operation answers whether the
/// frame was taken.
pub fn win_surface_present(st: &mut State, s: SurfaceId, info: Option<u64>) -> (r: Turn)
    requires
        old(st)@.wf(),
        old(st)@.idle(),
        known(old(st)@, s),
    ensures
        turned(*final(st), r) == shared_frame(old(st)@, s, Slot::Main, info),
        final(st)@.wf(),
{
    start_shared(st, s, Slot::Main, info)
}

/// Shows pixels in memory on a surface. The operation answers whether the
/// frame was taken.
pub fn win_surface_present_software(
    st: &mut State,
    s: SurfaceId,
    buffer: u64,
    w: i32,
    h: i32,
) -> (r: Turn)
    requires
        old(st)@.wf(),
        old(st)@.idle(),
        known(old(st)@, s),
    ensures
        turned(*final(st), r) == memory_frame(old(st)@, s, Slot::Main, buffer, w, h),
        final(st)@.wf(),
{
    start_memory(st, s, Slot::Main, buffer, w, h)
}

/// Shows a shared texture on the popup of a surface.
pub fn win_popup_present(
    st: &mut State,
    s: SurfaceId,
    info: Option<u64>,
    _lw: i32,
    _lh: i32,
) -> (r: Turn)
    requires
        old(st)@.wf(),
        old(st)@.idle(),
        known(old(st)@, s),
    ensures
        turned(*final(st), r) == shared_frame(old(st)@, s, Slot::Popup, info),
        final(st)@.wf(),
{
    start_shared(st, s, Slot::Popup, info)
}

/// Shows pixels in memory on the popup of a surface.
pub fn win_popup_present_software(
    st: &mut State,
    s: SurfaceId,
    buffer: u64,
    pw: i32,
    ph: i32,
    _lw: i32,
    _lh: i32,
) -> (r: Turn)
    requires
        old(st)@.wf(),
        old(st)@.idle(),
        known(old(st)@, s),
    ensures
        turned(*final(st), r) == memory_frame(old(st)@, s, Slot::Popup, buffer, pw, ph),
        final(st)@.wf(),
{
    start_memory(st, s, Slot::Popup, buffer, pw, ph)
}

/// A surface was resized: an existing swap chain is brought to the physical
/// size at once, so that it is not stretched until the next frame.
pub open spec fn resized(m: Model, s: SurfaceId, pw: i32, ph: i32) -> Turned {
    if !size_given(s, pw, ph) || m.devices is None || m.surface(s).swap_chain is None || m.surface(
        s,
    ).visual is None {
        m.answers(seq![], Answer::Unit)
    } else {
        fit(
            m,
            seq![],
            Fit { surface: s, slot: Slot::Main, width: pw, height: ph, purpose: FitFor::Resize },
        )
    }
}

/// Brings the swap chain of a surface to a physical size, if it has one.
pub fn win_surface_resize(
    st: &mut State,
    s: SurfaceId,
    _lw: i32,
    _lh: i32,
    pw: i32,
    ph: i32,
) -> (r: Turn)
    requires
        old(st)@.wf(),
        old(st)@.idle(),
        known(old(st)@, s),
    ensures
        turned(*final(st), r) == resized(old(st)@, s, pw, ph),
        final(st)@.wf(),
{
    if !has_size(s, pw, ph) || st.devices.is_none() {
        return st.finish(Vec::new(), Answer::Unit);
    }
    let surf = st.surfaces.get(s);
    if surf.swap_chain.is_none() || surf.visual.is_none() {
        return st.finish(Vec::new(), Answer::Unit);
    }
    let f = Fit {
        surface: s,
        slot: Slot::Main,
        width: pw,
        height: ph,
        purpose: FitFor::Resize,
    };
    ensure_swap_chain(st, Vec::new(), f)
}

} // verus!
