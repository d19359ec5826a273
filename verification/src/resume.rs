//! Going on with an operation once the host has made the call it waits on.

use vstd::prelude::*;
use crate::lifecycle::{
    alloc_popup, alloc_visual, allocated, initialized, on_alloc_popup, on_alloc_visual,
    on_allocated, on_init, on_probed, probed,
};
use crate::paint::{
    judged, measured, on_judged, on_measured, on_opened, on_uploaded, opened, uploaded,
};
use crate::protocol::{Answer, Handle, Reply, Turn};
use crate::rebuild::{
    attach_replied, on_attached, on_rebuild_init, on_repopuped, on_revisualed, rebuild_init,
    repopuped, revisualed,
};
use crate::state::{turned, Model, Stage, State, Turned};
use crate::swap_chain::{
    buffered, fit_checked, fit_created, fit_resized, on_buffer, on_fit_checked, on_fit_created,
    on_fit_resized, on_show_checked, on_shown, show_checked, shown,
};

verus! {

/// The object in a reply, if there is one.
pub open spec fn object(reply: Reply) -> Option<Handle> {
    match reply {
        Reply::Object(h) => Some(h),
        _ => None,
    }
}

/// What the reply makes of the operation under way.
pub open spec fn step(m: Model, reply: Reply) -> Turned {
    match (m.stage, reply) {
        (Stage::Init(p), _) => initialized(m, p, reply),
        (Stage::RebuildInit { progress, after }, _) => rebuild_init(m, progress, after, reply),
        (Stage::RebuildVisual { devices, after, index }, _) => revisualed(
            m,
            devices,
            after,
            index as int,
            object(reply),
        ),
        (Stage::RebuildPopup { devices, after, index, visual }, _) => repopuped(
            m,
            devices,
            after,
            index as int,
            visual,
            object(reply),
        ),
        (Stage::AllocVisual, _) => alloc_visual(m, object(reply)),
        (Stage::AllocPopup { visual }, _) => alloc_popup(m, visual, object(reply)),
        (Stage::Open(paint), _) => opened(m, paint, object(reply)),
        (Stage::Upload(paint), _) => uploaded(m, paint, object(reply)),
        (Stage::FitCreate(f), _) => fit_created(m, f, object(reply)),
        (Stage::Buffer { paint, texture }, _) => buffered(m, paint, texture, object(reply)),
        (Stage::Attach { purpose, index, above }, Reply::Status(code)) => attach_replied(
            m,
            purpose,
            index as int,
            above,
            code,
        ),
        (Stage::AllocAttach { visual, popup }, Reply::Status(code)) => allocated(
            m,
            visual,
            popup,
            code,
        ),
        (Stage::FitResize(f), Reply::Status(code)) => fit_resized(m, f, code),
        (Stage::FitCheck(f), Reply::Status(code)) => fit_checked(m, f, code),
        (Stage::Show { paint, .. }, Reply::Status(code)) => shown(m, paint, code),
        (Stage::ShowCheck { paint, copied }, Reply::Status(code)) => show_checked(
            m,
            paint,
            copied,
            code,
        ),
        (Stage::Probe, Reply::Status(code)) => probed(m, code),
        (Stage::Measure { paint, texture }, Reply::Size { width, height }) => measured(
            m,
            paint,
            texture,
            width as i32,
            height as i32,
        ),
        (Stage::Judge { paint, opened, width, height }, Reply::Decision(decision)) => judged(
            m,
            paint,
            opened,
            width,
            height,
            decision,
        ),
        _ => m.answers(seq![], Answer::Unit),
    }
}

fn reply_object(reply: &Reply) -> (r: Option<Handle>)
    ensures
        r == object(*reply),
{
    match reply {
        Reply::Object(h) => Some(*h),
        _ => None,
    }
}

/// Goes on with the operation under way.
pub fn resume(st: &mut State, reply: Reply) -> (r: Turn)
    requires
        old(st)@.wf(),
        old(st)@.expects(reply),
    ensures
        turned(*final(st), r) == step(old(st)@, reply),
        final(st)@.wf(),
{
    let got = reply_object(&reply);
    match (st.stage, reply) {
        (Stage::Init(p), _) => on_init(st, p, reply),
        (Stage::RebuildInit { progress, after }, _) => on_rebuild_init(st, progress, after, reply),
        (Stage::RebuildVisual { devices, after, index }, _) => on_revisualed(
            st,
            devices,
            after,
            index,
            got,
        ),
        (Stage::RebuildPopup { devices, after, index, visual }, _) => on_repopuped(
            st,
            devices,
            after,
            index,
            visual,
            got,
        ),
        (Stage::AllocVisual, _) => on_alloc_visual(st, got),
        (Stage::AllocPopup { visual }, _) => on_alloc_popup(st, visual, got),
        (Stage::Open(paint), _) => on_opened(st, paint, got),
        (Stage::Upload(paint), _) => on_uploaded(st, paint, got),
        (Stage::FitCreate(f), _) => on_fit_created(st, f, got),
        (Stage::Buffer { paint, texture }, _) => on_buffer(st, paint, texture, got),
        (Stage::Attach { purpose, index, above }, Reply::Status(code)) => on_attached(
            st,
            purpose,
            index,
            above,
            code,
        ),
        (Stage::AllocAttach { visual, popup }, Reply::Status(code)) => on_allocated(
            st,
            visual,
            popup,
            code,
        ),
        (Stage::FitResize(f), Reply::Status(code)) => on_fit_resized(st, f, code),
        (Stage::FitCheck(f), Reply::Status(code)) => on_fit_checked(st, f, code),
        (Stage::Show { paint, .. }, Reply::Status(code)) => on_shown(st, paint, code),
        (Stage::ShowCheck { paint, copied }, Reply::Status(code)) => on_show_checked(
            st,
            paint,
            copied,
            code,
        ),
        (Stage::Probe, Reply::Status(code)) => on_probed(st, code),
        (Stage::Measure { paint, texture }, Reply::Size { width, height }) => on_measured(
            st,
            paint,
            texture,
            #[verifier::truncate]
            (width as i32),
            #[verifier::truncate]
            (height as i32),
        ),
        (Stage::Judge { paint, opened, width, height }, Reply::Decision(decision)) => on_judged(
            st,
            paint,
            opened,
            width,
            height,
            decision,
        ),
        _ => {
            assert(false);
            st.finish(Vec::new(), Answer::Unit)
        },
    }
}

} // verus!
