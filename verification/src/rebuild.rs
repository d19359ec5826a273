//! Building everything anew, and hooking surfaces to the root in order.

use vstd::prelude::*;
use crate::devices::{init_next, CompositorDevices, InitOutcome, InitProgress};
use crate::paint::{paint_frame, painting};
use crate::protocol::{Answer, Effect, Handle, Reply, SurfaceId, Turn};
use crate::state::{turned, After, AttachFor, Model, Stage, State, Turned};
use crate::status::hresult_is_err;
use crate::surface::Surface;

verus! {

/// Whether a surface can be hooked to the root: it is one, and has a visual.
pub open spec fn attachable(surfaces: Map<SurfaceId, Surface>, id: SurfaceId) -> bool {
    surfaces.contains_key(id) && surfaces[id].visual is Some
}

/// The first place at or behind `from` with a surface that can be hooked to
/// the root, or the length of the order if there is none.
pub open spec fn next_attachable(
    order: Seq<SurfaceId>,
    surfaces: Map<SurfaceId, Surface>,
    from: int,
) -> int
    decreases order.len() - from,
{
    if from >= order.len() {
        order.len() as int
    } else if attachable(surfaces, order[from]) {
        from
    } else {
        next_attachable(order, surfaces, from + 1)
    }
}

/// A surface that is in the tree now.
pub open spec fn hooked(s: Surface) -> Surface {
    Surface { in_tree: true, ..s }
}

/// What follows a rebuild.
pub open spec fn resumed(m: Model, effects: Seq<Effect>, after: After) -> Turned {
    match after {
        After::Finish(answer) => m.answers(effects, answer),
        After::Paint(paint) => painting(m, effects, paint),
    }
}

/// The queue is worked off from `from` on: the next surface that has a visual
/// is hooked to the root above the one hooked before it.
pub open spec fn attaching(
    m: Model,
    effects: Seq<Effect>,
    purpose: AttachFor,
    from: int,
    above: Option<Handle>,
) -> Turned {
    let index = next_attachable(m.queue, m.reg.surfaces, from);
    if index < m.queue.len() {
        m.asks(effects, Stage::Attach { purpose, index: index as usize, above })
    } else {
        attached(Model { queue: Seq::empty(), ..m }, effects, purpose)
    }
}

/// All surfaces are hooked: the tree is committed, and new devices are put in
/// service.
pub open spec fn attached(m: Model, effects: Seq<Effect>, purpose: AttachFor) -> Turned {
    match purpose {
        AttachFor::Restack => m.answers(
            effects.push(Effect::Commit { device: m.devices->0.dcomp_device }),
            Answer::Unit,
        ),
        AttachFor::Rebuild { devices, after } => resumed(
            Model { devices: Some(devices), ..m },
            effects.push(Effect::Commit { device: devices.dcomp_device }),
            after,
        ),
    }
}

/// A surface was hooked to the root, and is then the top of the stack; or it
/// could not be, and is left out.
pub open spec fn attach_replied(
    m: Model,
    purpose: AttachFor,
    index: int,
    above: Option<Handle>,
    code: i32,
) -> Turned {
    let id = m.queue[index];
    let s = m.surface(id);
    if code < 0 {
        attaching(m, seq![], purpose, index + 1, above)
    } else {
        attaching(
            Model { reg: m.reg.put(id, hooked(s)).stacked(id), ..m },
            seq![],
            purpose,
            index + 1,
            s.visual,
        )
    }
}

/// The live surfaces from `index` on get new visuals; then they are stacked as
/// they were.
pub open spec fn revisualing(
    m: Model,
    effects: Seq<Effect>,
    devices: CompositorDevices,
    after: After,
    index: int,
) -> Turned {
    if index < m.reg.live.len() {
        m.asks(effects, Stage::RebuildVisual { devices, after, index: index as usize })
    } else {
        attaching(
            Model { reg: m.reg.unstacked(), ..m },
            effects,
            AttachFor::Rebuild { devices, after },
            0,
            None,
        )
    }
}

/// A call of the chain that builds new devices came back. Where it failed,
/// there are no devices.
pub open spec fn rebuild_init(m: Model, p: InitProgress, after: After, reply: Reply) -> Turned {
    match init_next(p, reply) {
        InitOutcome::Continue(progress) => m.asks(
            seq![],
            Stage::RebuildInit { progress, after },
        ),
        InitOutcome::Failed => resumed(Model { queue: Seq::empty(), ..m }, seq![], after),
        InitOutcome::Ready(devices) => revisualing(m, seq![], devices, after, 0),
    }
}

/// A surface got its new visual; one that did not goes without.
pub open spec fn revisualed(
    m: Model,
    devices: CompositorDevices,
    after: After,
    index: int,
    got: Option<Handle>,
) -> Turned {
    match got {
        Some(visual) => m.asks(
            seq![],
            Stage::RebuildPopup { devices, after, index: index as usize, visual },
        ),
        None => revisualing(m, seq![], devices, after, index + 1),
    }
}

/// The popup of a surface is nested in its visual.
pub open spec fn nest_popup(visual: Handle, popup: Option<Handle>) -> Seq<Effect> {
    match popup {
        Some(pv) => seq![
            Effect::AddVisual { parent: visual, child: pv, insert_above: true, reference: None },
        ],
        None => seq![],
    }
}

/// A surface got its new popup visual, or goes without.
pub open spec fn repopuped(
    m: Model,
    devices: CompositorDevices,
    after: After,
    index: int,
    visual: Handle,
    popup: Option<Handle>,
) -> Turned {
    let id = m.reg.live[index];
    revisualing(
        m.put(id, m.surface(id).rebuilt(visual, popup)),
        nest_popup(visual, popup),
        devices,
        after,
        index + 1,
    )
}

/// The effects of [`nest_popup`].
pub(crate) fn popup_effects(visual: Handle, popup: Option<Handle>) -> (r: Vec<Effect>)
    ensures
        r@ == nest_popup(visual, popup),
{
    let mut effects: Vec<Effect> = Vec::new();
    if let Some(pv) = popup {
        effects.push(
            Effect::AddVisual { parent: visual, child: pv, insert_above: true, reference: None },
        );
    }
    assert(effects@ =~= nest_popup(visual, popup));
    effects
}

fn resume_after(st: &mut State, effects: Vec<Effect>, after: After) -> (r: Turn)
    requires
        old(st)@.core_wf(),
        old(st)@.queue.len() == 0,
        old(st)@.after_ok(after),
    ensures
        turned(*final(st), r) == resumed(old(st)@, effects@, after),
        final(st)@.wf(),
{
    match after {
        After::Finish(answer) => st.finish(effects, answer),
        After::Paint(paint) => paint_frame(st, effects, paint),
    }
}

/// What a state must meet before surfaces are hooked to the root.
pub open spec fn attach_ready(m: Model, purpose: AttachFor) -> bool {
    &&& m.core_wf()
    &&& match purpose {
        AttachFor::Restack => m.devices is Some,
        AttachFor::Rebuild { after, .. } => m.devices is None && m.after_ok(after),
    }
}

proof fn lemma_next_attachable(
    order: Seq<SurfaceId>,
    surfaces: Map<SurfaceId, Surface>,
    from: int,
    to: int,
)
    requires
        from <= to <= order.len(),
        forall|k: int| from <= k < to ==> !attachable(surfaces, #[trigger] order[k]),
    ensures
        next_attachable(order, surfaces, from) == next_attachable(order, surfaces, to),
    decreases to - from,
{
    if from < to {
        lemma_next_attachable(order, surfaces, from + 1, to);
    }
}

fn find_attachable(st: &State, from: usize) -> (r: usize)
    requires
        from <= st@.queue.len(),
    ensures
        from <= r,
        r == next_attachable(st@.queue, st@.reg.surfaces, from as int),
        r < st@.queue.len() ==> attachable(st@.reg.surfaces, st@.queue[r as int]),
{
    let mut i: usize = from;
    while i < st.queue.len()
        invariant
            from <= i <= st@.queue.len(),
            forall|k: int|
                from <= k < i ==> !attachable(st@.reg.surfaces, #[trigger] st@.queue[k]),
        decreases st@.queue.len() - i,
    {
        let id = st.queue[i];
        if st.surfaces.is_live(id) && st.surfaces.get(id).visual.is_some() {
            proof {
                lemma_next_attachable(st@.queue, st@.reg.surfaces, from as int, i as int);
            }
            return i;
        }
        i = i + 1;
    }
    proof {
        lemma_next_attachable(st@.queue, st@.reg.surfaces, from as int, i as int);
    }
    i
}

/// Hooks the surfaces of the queue to the root; see [`attaching`].
pub(crate) fn attach_from(
    st: &mut State,
    effects: Vec<Effect>,
    purpose: AttachFor,
    from: usize,
    above: Option<Handle>,
) -> (r: Turn)
    requires
        attach_ready(old(st)@, purpose),
        old(st)@.reg.stack.len() <= from <= old(st)@.queue.len(),
    ensures
        turned(*final(st), r) == attaching(old(st)@, effects@, purpose, from as int, above),
        final(st)@.wf(),
{
    let ghost m = st@;
    let mut effects = effects;
    let index = find_attachable(st, from);
    if index < st.queue.len() {
        return st.ask(effects, Stage::Attach { purpose, index, above });
    }
    st.queue = Vec::new();
    match purpose {
        AttachFor::Restack => {
            assert(st@ =~= (Model { queue: Seq::empty(), ..m }));
            effects.push(Effect::Commit { device: st.devices.unwrap().dcomp_device });
            st.finish(effects, Answer::Unit)
        },
        AttachFor::Rebuild { devices, after } => {
            st.devices = Some(devices);
            assert(st@ =~= (Model { queue: Seq::empty(), devices: Some(devices), ..m }));
            effects.push(Effect::Commit { device: devices.dcomp_device });
            resume_after(st, effects, after)
        },
    }
}

/// The outcome of hooking a surface to the root.
pub(crate) fn on_attached(
    st: &mut State,
    purpose: AttachFor,
    index: usize,
    above: Option<Handle>,
    code: i32,
) -> (r: Turn)
    requires
        old(st)@.wf(),
        old(st)@.stage == (Stage::Attach { purpose, index, above }),
    ensures
        turned(*final(st), r) == attach_replied(old(st)@, purpose, index as int, above, code),
        final(st)@.wf(),
{
    assert(index < st.queue.len());
    if hresult_is_err(code) {
        attach_from(st, Vec::new(), purpose, index + 1, above)
    } else {
        let id = st.queue[index];
        let mut s = st.surfaces.get(id);
        let visual = s.visual;
        s.in_tree = true;
        st.put(id, s);
        st.surfaces.push_stack(id);
        assert(st@ =~= (Model {
            reg: old(st)@.reg.put(id, hooked(old(st)@.surface(id))).stacked(id),
            ..old(st)@
        }));
        assert(forall|x: SurfaceId| #[trigger] st@.reg.has(x) <==> old(st)@.reg.has(x));
        attach_from(st, Vec::new(), purpose, index + 1, visual)
    }
}

fn revisual_from(
    st: &mut State,
    effects: Vec<Effect>,
    devices: CompositorDevices,
    after: After,
    index: usize,
) -> (r: Turn)
    requires
        old(st)@.core_wf(),
        old(st)@.devices is None,
        old(st)@.after_ok(after),
    ensures
        turned(*final(st), r) == revisualing(old(st)@, effects@, devices, after, index as int),
        final(st)@.wf(),
{
    if index < st.surfaces.live.len() {
        st.ask(effects, Stage::RebuildVisual { devices, after, index })
    } else {
        st.surfaces.clear_stack();
        assert(st@ =~= (Model { reg: old(st)@.reg.unstacked(), ..old(st)@ }));
        assert(forall|x: SurfaceId| #[trigger] st@.reg.has(x) <==> old(st)@.reg.has(x));
        attach_from(st, effects, AttachFor::Rebuild { devices, after }, 0, None)
    }
}

/// A call of the chain that builds new devices came back.
pub(crate) fn on_rebuild_init(
    st: &mut State,
    progress: InitProgress,
    after: After,
    reply: Reply,
) -> (r: Turn)
    requires
        old(st)@.wf(),
        old(st)@.stage == (Stage::RebuildInit { progress, after }),
        old(st)@.expects(reply),
    ensures
        turned(*final(st), r) == rebuild_init(old(st)@, progress, after, reply),
        final(st)@.wf(),
{
    match progress.next(reply) {
        InitOutcome::Continue(progress) => st.ask(
            Vec::new(),
            Stage::RebuildInit { progress, after },
        ),
        InitOutcome::Failed => {
            st.queue = Vec::new();
            assert(st@ =~= (Model { queue: Seq::empty(), ..old(st)@ }));
            resume_after(st, Vec::new(), after)
        },
        InitOutcome::Ready(devices) => revisual_from(st, Vec::new(), devices, after, 0),
    }
}

/// The new visual of a surface, if there is one.
pub(crate) fn on_revisualed(
    st: &mut State,
    devices: CompositorDevices,
    after: After,
    index: usize,
    got: Option<Handle>,
) -> (r: Turn)
    requires
        old(st)@.wf(),
        old(st)@.stage == (Stage::RebuildVisual { devices, after, index }),
    ensures
        turned(*final(st), r) == revisualed(old(st)@, devices, after, index as int, got),
        final(st)@.wf(),
{
    assert(index < st.surfaces.live.len());
    match got {
        Some(visual) => st.ask(
            Vec::new(),
            Stage::RebuildPopup { devices, after, index, visual },
        ),
        None => revisual_from(st, Vec::new(), devices, after, index + 1),
    }
}

/// The new popup visual of a surface, if there is one.
pub(crate) fn on_repopuped(
    st: &mut State,
    devices: CompositorDevices,
    after: After,
    index: usize,
    visual: Handle,
    popup: Option<Handle>,
) -> (r: Turn)
    requires
        old(st)@.wf(),
        old(st)@.stage == (Stage::RebuildPopup { devices, after, index, visual }),
    ensures
        turned(*final(st), r) == repopuped(old(st)@, devices, after, index as int, visual, popup),
        final(st)@.wf(),
{
    let id = st.surfaces.live[index];
    assert(index < st.surfaces.live.len());
    assert(st@.reg.live.contains(id));
    let mut s = st.surfaces.get(id);
    s.visual = Some(visual);
    s.popup_visual = popup;
    s.swap_chain = None;
    s.sw = 0;
    s.sh = 0;
    s.popup_swap_chain = None;
    s.popup_sw = 0;
    s.popup_sh = 0;
    s.in_tree = false;
    st.put(id, s);
    revisual_from(st, popup_effects(visual, popup), devices, after, index + 1)
}

} // verus!
