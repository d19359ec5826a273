//! Showing and hiding the popup of a surface.

use vstd::prelude::*;
use crate::lifecycle::commit_if_any;
use crate::paint::known;
use crate::protocol::{Answer, Effect, SurfaceId, Turn, NULL_SURFACE};
use crate::state::{turned, Model, State, Turned};
use crate::surface::Surface;

verus! {

/// The popup of a surface is visible from now on, at a place given in logical
/// pixels.
pub open spec fn popup_shown(m: Model, s: SurfaceId, x: i32, y: i32) -> Turned {
    if s == NULL_SURFACE {
        m.answers(seq![], Answer::Unit)
    } else {
        m.put(s, Surface { popup_visible: true, ..m.surface(s) }).answers(
            match m.surface(s).popup_visual {
                Some(visual) => seq![Effect::SetOffset { visual, x, y }],
                None => seq![],
            },
            Answer::Unit,
        )
    }
}

/// The popup of a surface is hidden from now on; it loses its swap chain, so
/// that no stale frame comes back.
pub open spec fn popup_hidden(m: Model, s: SurfaceId) -> Turned {
    if s == NULL_SURFACE {
        m.answers(seq![], Answer::Unit)
    } else {
        let surf = Surface { popup_visible: false, ..m.surface(s) };
        match surf.popup_visual {
            Some(visual) => m.put(
                s,
                Surface { popup_swap_chain: None, popup_sw: 0, popup_sh: 0, ..surf },
            ).answers(
                seq![Effect::SetContent { visual, content: None }] + commit_if_any(m),
                Answer::Unit,
            ),
            None => m.put(s, surf).answers(seq![], Answer::Unit),
        }
    }
}

/// Shows the popup of a surface.
pub fn win_popup_show(st: &mut State, s: SurfaceId, x: i32, y: i32) -> (r: Turn)
    requires
        old(st)@.wf(),
        old(st)@.idle(),
        known(old(st)@, s),
    ensures
        turned(*final(st), r) == popup_shown(old(st)@, s, x, y),
        final(st)@.wf(),
{
    if s == NULL_SURFACE {
        return st.finish(Vec::new(), Answer::Unit);
    }
    let mut surf = st.surfaces.get(s);
    surf.popup_visible = true;
    st.put(s, surf);
    let mut effects: Vec<Effect> = Vec::new();
    if let Some(visual) = surf.popup_visual {
        effects.push(Effect::SetOffset { visual, x, y });
    }
    assert(effects@ =~= popup_shown(old(st)@, s, x, y).effects);
    st.finish(effects, Answer::Unit)
}

/// Hides the popup of a surface.
pub fn win_popup_hide(st: &mut State, s: SurfaceId) -> (r: Turn)
    requires
        old(st)@.wf(),
        old(st)@.idle(),
        known(old(st)@, s),
    ensures
        turned(*final(st), r) == popup_hidden(old(st)@, s),
        final(st)@.wf(),
{
    if s == NULL_SURFACE {
        return st.finish(Vec::new(), Answer::Unit);
    }
    let mut surf = st.surfaces.get(s);
    surf.popup_visible = false;
    let mut effects: Vec<Effect> = Vec::new();
    if let Some(visual) = surf.popup_visual {
        effects.push(Effect::SetContent { visual, content: None });
        surf.popup_swap_chain = None;
        surf.popup_sw = 0;
        surf.popup_sh = 0;
        if let Some(d) = st.devices {
            effects.push(Effect::Commit { device: d.dcomp_device });
        }
    }
    st.put(s, surf);
    assert(effects@ =~= popup_hidden(old(st)@, s).effects);
    st.finish(effects, Answer::Unit)
}

} // verus!
