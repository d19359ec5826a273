//! Bringing swap chains to a size, and showing frames in them.

use vstd::prelude::*;
use crate::protocol::{Answer, Effect, Handle, Slot, Turn};
use crate::recovery::{recover_from_device_loss, recovered};
use crate::state::{source_ok, turned, Fit, FitFor, Model, Paint, Source, Stage, State, Turned};
use crate::status::hresult_is_err;

verus! {

/// What the caller of a paint is told: the popup has no result.
pub open spec fn paint_answer(slot: Slot, shown: bool) -> Answer {
    match slot {
        Slot::Main => Answer::Flag(shown),
        Slot::Popup => Answer::Unit,
    }
}

/// The count of shared textures, which frames from memory are no part of.
pub open spec fn paint_note(f: Fit, source: Source) -> Seq<Effect> {
    match source {
        Source::Shared { shared_texture } => seq![
            Effect::NoteAccelPaint {
                slot: f.slot,
                shared_texture,
                width: f.width,
                height: f.height,
            },
        ],
        Source::Software { .. } => seq![],
    }
}

/// A swap chain is brought to a size: a size that is not positive and the size
/// it has already leave it alone; otherwise it is resized, or made if there is
/// none.
pub open spec fn fit(m: Model, effects: Seq<Effect>, f: Fit) -> Turned {
    let s = m.surface(f.surface);
    if f.width <= 0 || f.height <= 0 {
        fitted(m, effects, f)
    } else if s.chain_of(f.slot) is None {
        m.asks(effects, Stage::FitCreate(f))
    } else if s.size_of(f.slot) == (f.width, f.height) {
        fitted(m, effects, f)
    } else {
        m.asks(effects, Stage::FitResize(f))
    }
}

/// The swap chain is as it will be: a resized surface is committed; a frame
/// goes on to the back buffer if there is a swap chain at all.
pub open spec fn fitted(m: Model, effects: Seq<Effect>, f: Fit) -> Turned {
    match f.purpose {
        FitFor::Resize => m.answers(
            effects.push(Effect::Commit { device: m.devices->0.dcomp_device }),
            Answer::Unit,
        ),
        FitFor::Present { source, texture } => {
            if m.surface(f.surface).chain_of(f.slot) is None {
                m.answers(effects, paint_answer(f.slot, false))
            } else {
                m.asks(
                    effects + paint_note(f, source),
                    Stage::Buffer {
                        paint: Paint { surface: f.surface, slot: f.slot, source },
                        texture,
                    },
                )
            }
        },
    }
}

/// A resize in place came back. One that failed has the device looked at.
pub open spec fn fit_resized(m: Model, f: Fit, code: i32) -> Turned {
    if code < 0 {
        m.asks(seq![], Stage::FitCheck(f))
    } else {
        fitted(
            m.put(f.surface, m.surface(f.surface).with_size(f.slot, f.width, f.height)),
            seq![],
            f,
        )
    }
}

/// After a failed resize the swap chain is let go. If the device is gone with
/// it, everything is rebuilt; otherwise a new swap chain is made.
pub open spec fn fit_checked(m: Model, f: Fit, code: i32) -> Turned {
    let s = m.surface(f.surface);
    let dropped = m.put(f.surface, s.with_chain(f.slot, None));
    let emptied = seq![Effect::SetContent { visual: s.visual_of(f.slot)->0, content: None }];
    if code < 0 {
        match f.purpose {
            FitFor::Resize => recovered(
                dropped,
                emptied.push(Effect::Commit { device: m.devices->0.dcomp_device }),
                Answer::Unit,
            ),
            FitFor::Present { .. } => recovered(dropped, emptied, paint_answer(f.slot, false)),
        }
    } else {
        dropped.asks(emptied, Stage::FitCreate(f))
    }
}

/// A new swap chain is bound to the visual; without one nothing changes.
pub open spec fn fit_created(m: Model, f: Fit, made: Option<Handle>) -> Turned {
    let s = m.surface(f.surface);
    match made {
        Some(chain) => fitted(
            m.put(
                f.surface,
                s.with_chain(f.slot, Some(chain)).with_size(f.slot, f.width, f.height),
            ),
            seq![Effect::SetContent { visual: s.visual_of(f.slot)->0, content: Some(chain) }],
            f,
        ),
        None => fitted(m, seq![], f),
    }
}

/// The frame is copied into the back buffer and shown; without a back buffer
/// the device is looked at.
pub open spec fn buffered(m: Model, paint: Paint, texture: Handle, got: Option<Handle>) -> Turned {
    let d = m.devices->0;
    match got {
        Some(buffer) => m.asks(
            seq![
                Effect::CopyResource { context: d.d3d_context, target: buffer, source: texture },
                Effect::AwaitCopy { device: d.d3d_device, context: d.d3d_context },
            ],
            Stage::Show { paint, texture, buffer },
        ),
        None => m.asks(seq![], Stage::ShowCheck { paint, copied: false }),
    }
}

/// A frame that was shown is committed; after one that was not, the device is
/// looked at.
pub open spec fn shown(m: Model, paint: Paint, code: i32) -> Turned {
    if code < 0 {
        m.asks(seq![], Stage::ShowCheck { paint, copied: true })
    } else {
        m.answers(
            seq![Effect::Commit { device: m.devices->0.dcomp_device }],
            paint_answer(paint.slot, true),
        )
    }
}

/// A frame could not be shown. With the device gone everything is rebuilt and
/// the frame counts as taken; otherwise it counts as not shown.
pub open spec fn show_checked(m: Model, paint: Paint, copied: bool, code: i32) -> Turned {
    let effects = if copied {
        seq![Effect::Commit { device: m.devices->0.dcomp_device }]
    } else {
        seq![]
    };
    if code < 0 {
        recovered(m, effects, paint_answer(paint.slot, true))
    } else {
        m.answers(effects, paint_answer(paint.slot, false))
    }
}

pub(crate) fn make_answer(slot: Slot, shown: bool) -> (r: Answer)
    ensures
        r == paint_answer(slot, shown),
{
    match slot {
        Slot::Main => Answer::Flag(shown),
        Slot::Popup => Answer::Unit,
    }
}

/// What a surface must meet before one of its swap chains is fitted.
pub open spec fn fit_ready(m: Model, f: Fit) -> bool {
    &&& m.core_wf()
    &&& m.queue.len() == 0
    &&& f.width > 0 && f.height > 0 ==> m.fit_ok(f)
    &&& m.devices is Some
    &&& m.reg.has(f.surface)
    &&& m.surface(f.surface).visual_of(f.slot) is Some
    &&& m.surface(f.surface).shown(f.slot)
    &&& f.purpose matches FitFor::Present { source, .. } ==> source_ok(source)
}

fn finish_fit(st: &mut State, effects: Vec<Effect>, f: Fit) -> (r: Turn)
    requires
        fit_ready(old(st)@, f),
    ensures
        turned(*final(st), r) == fitted(old(st)@, effects@, f),
        final(st)@.wf(),
{
    let mut effects = effects;
    match f.purpose {
        FitFor::Resize => {
            effects.push(Effect::Commit { device: st.devices.unwrap().dcomp_device });
            st.finish(effects, Answer::Unit)
        },
        FitFor::Present { source, texture } => {
            let ghost before = effects@;
            if st.surfaces.get(f.surface).get_chain(f.slot).is_none() {
                return st.finish(effects, make_answer(f.slot, false));
            }
            match source {
                Source::Shared { shared_texture } => {
                    effects.push(
                        Effect::NoteAccelPaint {
                            slot: f.slot,
                            shared_texture,
                            width: f.width,
                            height: f.height,
                        },
                    );
                },
                Source::Software { .. } => {},
            }
            assert(effects@ =~= before + paint_note(f, source));
            st.ask(
                effects,
                Stage::Buffer {
                    paint: Paint { surface: f.surface, slot: f.slot, source },
                    texture,
                },
            )
        },
    }
}

/// Brings a swap chain to a size; see [`fit`].
pub(crate) fn ensure_swap_chain(st: &mut State, effects: Vec<Effect>, f: Fit) -> (r: Turn)
    requires
        fit_ready(old(st)@, f),
    ensures
        turned(*final(st), r) == fit(old(st)@, effects@, f),
        final(st)@.wf(),
{
    if f.width <= 0 || f.height <= 0 {
        return finish_fit(st, effects, f);
    }
    let s = st.surfaces.get(f.surface);
    if s.get_chain(f.slot).is_none() {
        return st.ask(effects, Stage::FitCreate(f));
    }
    let (sw, sh) = s.get_size(f.slot);
    if sw == f.width && sh == f.height {
        finish_fit(st, effects, f)
    } else {
        st.ask(effects, Stage::FitResize(f))
    }
}

/// The reply to a resize in place.
pub(crate) fn on_fit_resized(st: &mut State, f: Fit, code: i32) -> (r: Turn)
    requires
        old(st)@.wf(),
        old(st)@.stage == Stage::FitResize(f),
    ensures
        turned(*final(st), r) == fit_resized(old(st)@, f, code),
        final(st)@.wf(),
{
    if hresult_is_err(code) {
        st.ask(Vec::new(), Stage::FitCheck(f))
    } else {
        let mut s = st.surfaces.get(f.surface);
        s.set_size(f.slot, f.width, f.height);
        st.put(f.surface, s);
        finish_fit(st, Vec::new(), f)
    }
}

/// The state of the device after a resize that failed.
pub(crate) fn on_fit_checked(st: &mut State, f: Fit, code: i32) -> (r: Turn)
    requires
        old(st)@.wf(),
        old(st)@.stage == Stage::FitCheck(f),
    ensures
        turned(*final(st), r) == fit_checked(old(st)@, f, code),
        final(st)@.wf(),
{
    let mut s = st.surfaces.get(f.surface);
    let visual = s.get_visual(f.slot).unwrap();
    s.set_chain(f.slot, None);
    st.put(f.surface, s);
    let mut effects: Vec<Effect> = Vec::new();
    effects.push(Effect::SetContent { visual, content: None });
    assert(effects@ =~= seq![Effect::SetContent { visual, content: None }]);
    if hresult_is_err(code) {
        match f.purpose {
            FitFor::Resize => {
                effects.push(Effect::Commit { device: st.devices.unwrap().dcomp_device });
                recover_from_device_loss(st, effects, Answer::Unit)
            },
            FitFor::Present { .. } => recover_from_device_loss(
                st,
                effects,
                make_answer(f.slot, false),
            ),
        }
    } else {
        st.ask(effects, Stage::FitCreate(f))
    }
}

/// The swap chain that was made, if one was.
pub(crate) fn on_fit_created(st: &mut State, f: Fit, made: Option<Handle>) -> (r: Turn)
    requires
        old(st)@.wf(),
        old(st)@.stage == Stage::FitCreate(f),
    ensures
        turned(*final(st), r) == fit_created(old(st)@, f, made),
        final(st)@.wf(),
{
    match made {
        Some(chain) => {
            let mut s = st.surfaces.get(f.surface);
            let visual = s.get_visual(f.slot).unwrap();
            s.set_chain(f.slot, Some(chain));
            s.set_size(f.slot, f.width, f.height);
            st.put(f.surface, s);
            let mut effects: Vec<Effect> = Vec::new();
            effects.push(Effect::SetContent { visual, content: Some(chain) });
            assert(effects@ =~= seq![Effect::SetContent { visual, content: Some(chain) }]);
            finish_fit(st, effects, f)
        },
        None => finish_fit(st, Vec::new(), f),
    }
}

/// The back buffer, if it could be had.
pub(crate) fn on_buffer(
    st: &mut State,
    paint: Paint,
    texture: Handle,
    got: Option<Handle>,
) -> (r: Turn)
    requires
        old(st)@.wf(),
        old(st)@.stage == (Stage::Buffer { paint, texture }),
    ensures
        turned(*final(st), r) == buffered(old(st)@, paint, texture, got),
        final(st)@.wf(),
{
    match got {
        Some(buffer) => {
            let d = st.devices.unwrap();
            let mut effects: Vec<Effect> = Vec::new();
            effects.push(
                Effect::CopyResource { context: d.d3d_context, target: buffer, source: texture },
            );
            effects.push(Effect::AwaitCopy { device: d.d3d_device, context: d.d3d_context });
            assert(effects@ =~= seq![
                Effect::CopyResource { context: d.d3d_context, target: buffer, source: texture },
                Effect::AwaitCopy { device: d.d3d_device, context: d.d3d_context },
            ]);
            st.ask(effects, Stage::Show { paint, texture, buffer })
        },
        None => st.ask(Vec::new(), Stage::ShowCheck { paint, copied: false }),
    }
}

/// The outcome of showing a frame.
pub(crate) fn on_shown(st: &mut State, paint: Paint, code: i32) -> (r: Turn)
    requires
        old(st)@.wf(),
        old(st)@.stage matches Stage::Show { paint: p, .. } && p == paint,
    ensures
        turned(*final(st), r) == shown(old(st)@, paint, code),
        final(st)@.wf(),
{
    if hresult_is_err(code) {
        st.ask(Vec::new(), Stage::ShowCheck { paint, copied: true })
    } else {
        let mut effects: Vec<Effect> = Vec::new();
        let device = st.devices.unwrap().dcomp_device;
        effects.push(Effect::Commit { device });
        assert(effects@ =~= seq![Effect::Commit { device }]);
        st.finish(effects, make_answer(paint.slot, true))
    }
}

/// The state of the device after a frame that could not be shown.
pub(crate) fn on_show_checked(st: &mut State, paint: Paint, copied: bool, code: i32) -> (r: Turn)
    requires
        old(st)@.wf(),
        old(st)@.stage == (Stage::ShowCheck { paint, copied }),
    ensures
        turned(*final(st), r) == show_checked(old(st)@, paint, copied, code),
        final(st)@.wf(),
{
    let mut effects: Vec<Effect> = Vec::new();
    if copied {
        let device = st.devices.unwrap().dcomp_device;
        effects.push(Effect::Commit { device });
        assert(effects@ =~= seq![Effect::Commit { device }]);
    }
    if hresult_is_err(code) {
        recover_from_device_loss(st, effects, make_answer(paint.slot, true))
    } else {
        st.finish(effects, make_answer(paint.slot, false))
    }
}

} // verus!
