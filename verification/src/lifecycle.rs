//! Setting the compositor up and down, and making, stacking and freeing
//! surfaces.

use vstd::prelude::*;
use crate::devices::{init_devices, init_next, init_start, InitOutcome, InitProgress};
use crate::paint::known;
use crate::protocol::{
    Answer, DeviceStatus, Effect, Handle, Hwnd, Reply, SurfaceId, Turn, NULL_SURFACE,
};
use crate::rebuild::{attach_from, attaching, nest_popup, popup_effects};
use crate::recovery::{detach_all, detach_each, rebuild, rebuild_devices_and_visuals};
use crate::registry::Registry;
use crate::state::{turned, After, AttachFor, Model, Stage, State, Turned};
use crate::status::hresult_is_err;
use crate::surface::{detach_surface, Surface};

verus! {

/// The compositor is set up for a window, unless it is already; it then stays
/// as it is.
pub open spec fn initializing(m: Model, hwnd: Hwnd) -> Turned {
    if m.devices is Some {
        m.answers(seq![], Answer::Flag(true))
    } else {
        (Model { hwnd, ..m }).asks(seq![], Stage::Init(init_start(hwnd)))
    }
}

/// A call of the chain that builds the first devices came back.
pub open spec fn initialized(m: Model, p: InitProgress, reply: Reply) -> Turned {
    match init_next(p, reply) {
        InitOutcome::Continue(progress) => m.asks(seq![], Stage::Init(progress)),
        InitOutcome::Failed => m.answers(seq![], Answer::Flag(false)),
        InitOutcome::Ready(devices) => (Model { devices: Some(devices), ..m }).answers(
            seq![],
            Answer::Flag(true),
        ),
    }
}

/// Every surface is detached and forgotten, and the devices are let go.
pub open spec fn cleaned(m: Model) -> Turned {
    (Model { reg: Registry::empty(), devices: None, ..m }).answers(
        detach_each(m.reg.live, m.reg.surfaces, m.root()),
        Answer::Unit,
    )
}

/// A surface that is being made needs devices.
pub open spec fn allocating(m: Model) -> Turned {
    if m.devices is None {
        m.answers(seq![], Answer::Surface(NULL_SURFACE))
    } else {
        m.asks(seq![], Stage::AllocVisual)
    }
}

/// No visual, no surface.
pub open spec fn alloc_visual(m: Model, got: Option<Handle>) -> Turned {
    match got {
        Some(visual) => m.asks(seq![], Stage::AllocPopup { visual }),
        None => m.answers(seq![], Answer::Surface(NULL_SURFACE)),
    }
}

/// A popup visual is nested; a surface can do without one.
pub open spec fn alloc_popup(m: Model, visual: Handle, popup: Option<Handle>) -> Turned {
    m.asks(nest_popup(visual, popup), Stage::AllocAttach { visual, popup })
}

/// The new surface, in the tree or not.
pub open spec fn made(visual: Handle, popup: Option<Handle>, in_tree: bool) -> Surface {
    Surface { visual: Some(visual), popup_visual: popup, in_tree, ..Surface::fresh() }
}

/// The surface is there, whether or not it could be hooked to the root. It is
/// not stacked yet.
pub open spec fn allocated(m: Model, visual: Handle, popup: Option<Handle>, code: i32) -> Turned {
    (Model {
        reg: m.reg.added(m.next_id, made(visual, popup, code >= 0)),
        next_id: (m.next_id + 1) as u64,
        ..m
    }).answers(
        seq![Effect::Commit { device: m.devices->0.dcomp_device }],
        Answer::Surface(m.next_id),
    )
}

/// The commit that follows a change, if there are devices.
pub open spec fn commit_if_any(m: Model) -> Seq<Effect> {
    match m.devices {
        Some(d) => seq![Effect::Commit { device: d.dcomp_device }],
        None => seq![],
    }
}

/// A surface is forgotten and detached.
pub open spec fn freed(m: Model, s: SurfaceId) -> Turned {
    if s == NULL_SURFACE {
        m.answers(seq![], Answer::Unit)
    } else {
        (Model { reg: m.reg.removed(s), ..m }).answers(
            m.surface(s).detach_effects(m.root()) + commit_if_any(m),
            Answer::Unit,
        )
    }
}

/// A surface out of the tree. One without a visual is left as it is.
pub open spec fn unhooked(s: Surface) -> Surface {
    if s.visual is Some {
        Surface { in_tree: false, ..s }
    } else {
        s
    }
}

/// What taking a surface out of the tree calls.
pub open spec fn unhook_effects(s: Surface, root: Handle) -> Seq<Effect> {
    if s.visual is Some && s.in_tree {
        seq![Effect::RemoveVisual { parent: root, child: s.visual->0 }]
    } else {
        seq![]
    }
}

/// What taking these surfaces out of the tree one after the other calls.
pub open spec fn unhook_each(
    ids: Seq<SurfaceId>,
    surfaces: Map<SurfaceId, Surface>,
    root: Handle,
) -> Seq<Effect>
    decreases ids.len(),
{
    if ids.len() == 0 {
        Seq::empty()
    } else {
        unhook_each(ids.drop_last(), surfaces, root) + unhook_effects(surfaces[ids.last()], root)
    }
}

/// All surfaces out of the tree.
pub open spec fn all_unhooked(reg: Registry) -> Registry {
    Registry { surfaces: reg.surfaces.map_values(|s: Surface| unhooked(s)), ..reg }
}

/// A new stacking order, bottom to top: every surface leaves the tree, then
/// those of the order are hooked to the root one above the other.
pub open spec fn restacking(m: Model, ordered: Seq<SurfaceId>) -> Turned {
    match m.devices {
        None => m.answers(seq![], Answer::Unit),
        Some(d) => attaching(
            Model { reg: all_unhooked(m.reg).unstacked(), queue: ordered, ..m },
            unhook_each(m.reg.live, m.reg.surfaces, d.dcomp_root),
            AttachFor::Restack,
            0,
            None,
        ),
    }
}

/// Somebody asks after the device.
pub open spec fn probing(m: Model) -> Turned {
    if m.devices is None {
        m.answers(seq![], Answer::Device(DeviceStatus::NotInitialized))
    } else {
        m.asks(seq![], Stage::Probe)
    }
}

pub open spec fn probed(m: Model, code: i32) -> Turned {
    m.answers(
        seq![],
        Answer::Device(
            if code < 0 {
                DeviceStatus::Removed
            } else {
                DeviceStatus::Alive
            },
        ),
    )
}

/// Builds the devices for a window. The operation answers whether there are
/// devices.
pub fn jfn_win_init_compositor(st: &mut State, hwnd: Hwnd) -> (r: Turn)
    requires
        old(st)@.wf(),
        old(st)@.idle(),
    ensures
        turned(*final(st), r) == initializing(old(st)@, hwnd),
        final(st)@.wf(),
{
    if st.devices.is_some() {
        return st.finish(Vec::new(), Answer::Flag(true));
    }
    st.hwnd = hwnd;
    assert(st@ =~= (Model { hwnd, ..old(st)@ }));
    st.ask(Vec::new(), Stage::Init(init_devices(hwnd)))
}

/// A call of the chain that builds the first devices came back.
pub(crate) fn on_init(st: &mut State, p: InitProgress, reply: Reply) -> (r: Turn)
    requires
        old(st)@.wf(),
        old(st)@.stage == Stage::Init(p),
        old(st)@.expects(reply),
    ensures
        turned(*final(st), r) == initialized(old(st)@, p, reply),
        final(st)@.wf(),
{
    match p.next(reply) {
        InitOutcome::Continue(progress) => st.ask(Vec::new(), Stage::Init(progress)),
        InitOutcome::Failed => st.finish(Vec::new(), Answer::Flag(false)),
        InitOutcome::Ready(devices) => {
            st.devices = Some(devices);
            assert(st@ =~= (Model { devices: Some(devices), ..old(st)@ }));
            st.finish(Vec::new(), Answer::Flag(true))
        },
    }
}

/// Releases all surfaces and the devices.
pub fn jfn_win_cleanup_compositor(st: &mut State) -> (r: Turn)
    requires
        old(st)@.wf(),
        old(st)@.idle(),
    ensures
        turned(*final(st), r) == cleaned(old(st)@),
        final(st)@.wf(),
{
    let mut effects: Vec<Effect> = Vec::new();
    let root = st.root();
    detach_all(st, root, &mut effects);
    st.surfaces.clear();
    st.devices = None;
    assert(st@ =~= (Model { reg: Registry::empty(), devices: None, ..old(st)@ }));
    assert(effects@ =~= detach_each(old(st)@.reg.live, old(st)@.reg.surfaces, old(st)@.root()));
    st.finish(effects, Answer::Unit)
}

/// Builds everything anew for a window that replaces the one before. Unlike
/// [`jfn_win_init_compositor`] it does so in any case.
pub fn jfn_win_rebind_compositor_hwnd(st: &mut State, new_hwnd: Hwnd) -> (r: Turn)
    requires
        old(st)@.wf(),
        old(st)@.idle(),
    ensures
        turned(*final(st), r) == rebuild(
            old(st)@,
            new_hwnd,
            seq![],
            After::Finish(Answer::Unit),
        ),
        final(st)@.wf(),
{
    rebuild_devices_and_visuals(st, new_hwnd, Vec::new(), After::Finish(Answer::Unit))
}

/// Asks whether the device has been removed; nothing comes of it but the
/// answer.
pub fn win_probe_device_removed_diagnostic(st: &mut State) -> (r: Turn)
    requires
        old(st)@.wf(),
        old(st)@.idle(),
    ensures
        turned(*final(st), r) == probing(old(st)@),
        final(st)@.wf(),
{
    if st.devices.is_none() {
        st.finish(Vec::new(), Answer::Device(DeviceStatus::NotInitialized))
    } else {
        st.ask(Vec::new(), Stage::Probe)
    }
}

/// The state of the device that was asked after.
pub(crate) fn on_probed(st: &mut State, code: i32) -> (r: Turn)
    requires
        old(st)@.wf(),
        old(st)@.stage is Probe,
    ensures
        turned(*final(st), r) == probed(old(st)@, code),
        final(st)@.wf(),
{
    let status = if hresult_is_err(code) {
        DeviceStatus::Removed
    } else {
        DeviceStatus::Alive
    };
    st.finish(Vec::new(), Answer::Device(status))
}

/// Makes a surface. The operation answers the surface, null if it could not be
/// made.
pub fn win_alloc_surface(st: &mut State) -> (r: Turn)
    requires
        old(st)@.wf(),
        old(st)@.idle(),
        old(st)@.next_id < u64::MAX,
    ensures
        turned(*final(st), r) == allocating(old(st)@),
        final(st)@.wf(),
{
    if st.devices.is_none() {
        st.finish(Vec::new(), Answer::Surface(NULL_SURFACE))
    } else {
        st.ask(Vec::new(), Stage::AllocVisual)
    }
}

/// The visual of the surface that is being made, if there is one.
pub(crate) fn on_alloc_visual(st: &mut State, got: Option<Handle>) -> (r: Turn)
    requires
        old(st)@.wf(),
        old(st)@.stage is AllocVisual,
    ensures
        turned(*final(st), r) == alloc_visual(old(st)@, got),
        final(st)@.wf(),
{
    match got {
        Some(visual) => st.ask(Vec::new(), Stage::AllocPopup { visual }),
        None => st.finish(Vec::new(), Answer::Surface(NULL_SURFACE)),
    }
}

/// Its popup visual, if there is one.
pub(crate) fn on_alloc_popup(st: &mut State, visual: Handle, popup: Option<Handle>) -> (r: Turn)
    requires
        old(st)@.wf(),
        old(st)@.stage == (Stage::AllocPopup { visual }),
    ensures
        turned(*final(st), r) == alloc_popup(old(st)@, visual, popup),
        final(st)@.wf(),
{
    st.ask(popup_effects(visual, popup), Stage::AllocAttach { visual, popup })
}

/// The outcome of hooking it to the root.
pub(crate) fn on_allocated(
    st: &mut State,
    visual: Handle,
    popup: Option<Handle>,
    code: i32,
) -> (r: Turn)
    requires
        old(st)@.wf(),
        old(st)@.stage == (Stage::AllocAttach { visual, popup }),
    ensures
        turned(*final(st), r) == allocated(old(st)@, visual, popup, code),
        final(st)@.wf(),
{
    let mut s = Surface::new();
    s.in_tree = !hresult_is_err(code);
    s.visual = Some(visual);
    s.popup_visual = popup;
    let id = st.next_id;
    assert(!st@.reg.has(id));
    st.surfaces.add_live(id, s);
    st.next_id = id + 1;
    assert(st@ =~= (Model {
        reg: old(st)@.reg.added(id, made(visual, popup, code >= 0)),
        next_id: (id + 1) as u64,
        ..old(st)@
    }));
    assert(forall|x: SurfaceId| #[trigger]
        st@.reg.has(x) <==> old(st)@.reg.has(x) || x == id);
    let mut effects: Vec<Effect> = Vec::new();
    let device = st.devices.unwrap().dcomp_device;
    effects.push(Effect::Commit { device });
    assert(effects@ =~= seq![Effect::Commit { device }]);
    st.finish(effects, Answer::Surface(id))
}

/// Frees a surface.
pub fn win_free_surface(st: &mut State, s: SurfaceId) -> (r: Turn)
    requires
        old(st)@.wf(),
        old(st)@.idle(),
        known(old(st)@, s),
    ensures
        turned(*final(st), r) == freed(old(st)@, s),
        final(st)@.wf(),
{
    if s == NULL_SURFACE {
        return st.finish(Vec::new(), Answer::Unit);
    }
    let mut effects: Vec<Effect> = Vec::new();
    let mut surf = st.surfaces.get(s);
    let root = st.root();
    st.surfaces.remove(s);
    detach_surface(&mut surf, root, &mut effects);
    if let Some(d) = st.devices {
        effects.push(Effect::Commit { device: d.dcomp_device });
    }
    assert(effects@ =~= old(st)@.surface(s).detach_effects(old(st)@.root()) + commit_if_any(
        old(st)@,
    ));
    assert(st@ =~= (Model { reg: old(st)@.reg.removed(s), ..old(st)@ }));
    assert(forall|x: SurfaceId| #[trigger] st@.reg.has(x) ==> old(st)@.reg.has(x));
    st.finish(effects, Answer::Unit)
}

fn unhook_all(st: &mut State, root: Handle) -> (effects: Vec<Effect>)
    requires
        old(st)@.core_wf(),
    ensures
        final(st)@ == (Model { reg: all_unhooked(old(st)@.reg), ..old(st)@ }),
        final(st)@.core_wf(),
        effects@ == unhook_each(old(st)@.reg.live, old(st)@.reg.surfaces, root),
{
    let ghost m = old(st)@;
    let mut effects: Vec<Effect> = Vec::new();
    let mut i: usize = 0;
    assert(m.reg.live.take(0) =~= Seq::<SurfaceId>::empty());
    while i < st.surfaces.live.len()
        invariant
            m.core_wf(),
            st@.core_wf(),
            i <= m.reg.live.len(),
            st@ == (Model { reg: Registry { surfaces: st@.reg.surfaces, ..m.reg }, ..m }),
            forall|id: SurfaceId| #[trigger]
                st@.reg.surfaces.contains_key(id) <==> m.reg.surfaces.contains_key(id),
            forall|j: int|
                0 <= j < i ==> st@.reg.surfaces[#[trigger] m.reg.live[j]] == unhooked(
                    m.reg.surfaces[m.reg.live[j]],
                ),
            forall|j: int|
                i <= j < m.reg.live.len() ==> st@.reg.surfaces[#[trigger] m.reg.live[j]]
                    == m.reg.surfaces[m.reg.live[j]],
            effects@ == unhook_each(m.reg.live.take(i as int), m.reg.surfaces, root),
        decreases m.reg.live.len() - i,
    {
        let id = st.surfaces.live[i];
        assert(st@.reg.has(id));
        let mut s = st.surfaces.get(id);
        assert(s.wf());
        if let Some(v) = s.visual {
            if s.in_tree {
                effects.push(Effect::RemoveVisual { parent: root, child: v });
                s.in_tree = false;
            }
        }
        st.put(id, s);
        proof {
            assert(m.reg.live.take(i + 1).drop_last() =~= m.reg.live.take(i as int));
            assert(effects@ =~= unhook_each(m.reg.live.take(i + 1), m.reg.surfaces, root));
        }
        i = i + 1;
    }
    proof {
        assert(m.reg.live.take(i as int) =~= m.reg.live);
        let want = all_unhooked(m.reg);
        assert forall|id: SurfaceId| want.surfaces.contains_key(id) implies st@.reg.surfaces[id]
            == want.surfaces[id] by {
            assert(m.reg.live.contains(id));
            let j = choose|j: int| 0 <= j < m.reg.live.len() && m.reg.live[j] == id;
            assert(st@.reg.surfaces[m.reg.live[j]] == unhooked(m.reg.surfaces[m.reg.live[j]]));
        }
        assert(st@.reg.surfaces =~= want.surfaces);
        assert(st@ =~= (Model { reg: want, ..m }));
    }
    effects
}

/// Puts surfaces in a stacking order, bottom to top; null entries are passed
/// over. Popup visuals stay nested in their surfaces.
pub fn win_restack(st: &mut State, ordered: Vec<SurfaceId>) -> (r: Turn)
    requires
        old(st)@.wf(),
        old(st)@.idle(),
        forall|i: int| 0 <= i < ordered@.len() ==> known(old(st)@, #[trigger] ordered@[i]),
    ensures
        turned(*final(st), r) == restacking(old(st)@, ordered@),
        final(st)@.wf(),
{
    match st.devices {
        None => st.finish(Vec::new(), Answer::Unit),
        Some(d) => {
            let ghost order = ordered@;
            let effects = unhook_all(st, d.dcomp_root);
            st.surfaces.clear_stack();
            st.queue = ordered;
            assert(st@ =~= (Model {
                reg: all_unhooked(old(st)@.reg).unstacked(),
                queue: order,
                ..old(st)@
            }));
            assert(forall|x: SurfaceId| #[trigger] st@.reg.has(x) <==> old(st)@.reg.has(x));
            assert forall|i: int| 0 <= i < st@.queue.len() implies #[trigger] st@.queue[i]
                == NULL_SURFACE || st@.reg.has(st@.queue[i]) by {
                assert(known(old(st)@, order[i]));
            }
            attach_from(st, effects, AttachFor::Restack, 0, None)
        },
    }
}

} // verus!
