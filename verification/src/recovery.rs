//! Tearing everything down before the devices are built anew.

use vstd::prelude::*;
use crate::devices::{init_devices, init_start};
use crate::protocol::{Answer, Effect, Handle, Hwnd, SurfaceId, Turn, INVALID_HWND};
use crate::registry::Registry;
use crate::state::{turned, After, Model, Stage, State, Turned};
use crate::surface::{detach_surface, Surface};

verus! {

/// What detaching these surfaces one after the other calls.
pub open spec fn detach_each(
    ids: Seq<SurfaceId>,
    surfaces: Map<SurfaceId, Surface>,
    root: Option<Handle>,
) -> Seq<Effect>
    decreases ids.len(),
{
    if ids.len() == 0 {
        Seq::empty()
    } else {
        detach_each(ids.drop_last(), surfaces, root) + surfaces[ids.last()].detach_effects(root)
    }
}

/// All surfaces let go of what they own.
pub open spec fn all_detached(reg: Registry) -> Registry {
    Registry { surfaces: reg.surfaces.map_values(|s: Surface| s.detached()), ..reg }
}

/// A rebuild for a window begins: every surface is detached from the old
/// devices, the devices are gone, and the first call of the chain that builds
/// new ones is made. The stacking order is remembered.
pub open spec fn rebuild(m: Model, hwnd: Hwnd, effects: Seq<Effect>, after: After) -> Turned {
    (Model {
        reg: all_detached(m.reg),
        devices: None,
        hwnd,
        queue: m.reg.stack,
        ..m
    }).asks(
        effects + detach_each(m.reg.live, m.reg.surfaces, m.root()),
        Stage::RebuildInit { progress: init_start(hwnd), after },
    )
}

/// The devices were lost: they are rebuilt for the window there is, then the
/// operation ends with `answer`. Without a window it ends at once.
pub open spec fn recovered(m: Model, effects: Seq<Effect>, answer: Answer) -> Turned {
    if m.hwnd == INVALID_HWND {
        m.answers(effects, answer)
    } else {
        rebuild(m, m.hwnd, effects, After::Finish(answer))
    }
}

/// Detaches every surface, in the order of their making.
pub(crate) fn detach_all(st: &mut State, root: Option<Handle>, effects: &mut Vec<Effect>)
    requires
        old(st)@.core_wf(),
    ensures
        final(st)@ == (Model { reg: all_detached(old(st)@.reg), ..old(st)@ }),
        final(st)@.core_wf(),
        final(effects)@ == old(effects)@ + detach_each(
            old(st)@.reg.live,
            old(st)@.reg.surfaces,
            root,
        ),
{
    let ghost m = old(st)@;
    let ghost fx = old(effects)@;
    let mut i: usize = 0;
    assert(m.reg.live.take(0) =~= Seq::<SurfaceId>::empty());
    while i < st.surfaces.live.len()
        invariant
            m.core_wf(),
            st@.core_wf(),
            i <= m.reg.live.len(),
            st@ == (Model { reg: Registry { surfaces: st@.reg.surfaces, ..m.reg }, ..m }),
            forall|id: SurfaceId| #[trigger]
                st@.reg.surfaces.contains_key(id) <==> m.reg.surfaces.contains_key(id),
            forall|j: int|
                0 <= j < i ==> st@.reg.surfaces[#[trigger] m.reg.live[j]]
                    == m.reg.surfaces[m.reg.live[j]].detached(),
            forall|j: int|
                i <= j < m.reg.live.len() ==> st@.reg.surfaces[#[trigger] m.reg.live[j]]
                    == m.reg.surfaces[m.reg.live[j]],
            effects@ == fx + detach_each(m.reg.live.take(i as int), m.reg.surfaces, root),
        decreases m.reg.live.len() - i,
    {
        let id = st.surfaces.live[i];
        assert(m.reg.live.contains(id));
        let mut s = st.surfaces.get(id);
        detach_surface(&mut s, root, effects);
        st.put(id, s);
        proof {
            assert(m.reg.live.take(i + 1).drop_last() =~= m.reg.live.take(i as int));
            assert(effects@ =~= fx + detach_each(
                m.reg.live.take(i + 1),
                m.reg.surfaces,
                root,
            ));
        }
        i = i + 1;
    }
    proof {
        assert(m.reg.live.take(i as int) =~= m.reg.live);
        let want = all_detached(m.reg);
        assert forall|id: SurfaceId| want.surfaces.contains_key(id) implies st@.reg.surfaces[id]
            == want.surfaces[id] by {
            assert(m.reg.live.contains(id));
            let j = choose|j: int| 0 <= j < m.reg.live.len() && m.reg.live[j] == id;
            assert(st@.reg.surfaces[m.reg.live[j]] == m.reg.surfaces[m.reg.live[j]].detached());
        }
        assert(st@.reg.surfaces =~= want.surfaces);
        assert(st@ =~= (Model { reg: want, ..m }));
    }
}

/// Tears everything down and begins to build it anew for `target_hwnd`. Used
/// when the devices were lost and when the player window was replaced.
pub(crate) fn rebuild_devices_and_visuals(
    st: &mut State,
    target_hwnd: Hwnd,
    effects: Vec<Effect>,
    after: After,
) -> (r: Turn)
    requires
        old(st)@.core_wf(),
        old(st)@.after_ok(after),
    ensures
        turned(*final(st), r) == rebuild(old(st)@, target_hwnd, effects@, after),
        final(st)@.wf(),
{
    let mut effects = effects;
    let root = st.root();
    detach_all(st, root, &mut effects);
    let mut queue: Vec<SurfaceId> = Vec::new();
    let mut i: usize = 0;
    while i < st.surfaces.stack.len()
        invariant
            i <= st.surfaces.stack.len(),
            queue@ == st.surfaces.stack@.take(i as int),
        decreases st.surfaces.stack.len() - i,
    {
        queue.push(st.surfaces.stack[i]);
        i = i + 1;
        assert(queue@ =~= st.surfaces.stack@.take(i as int));
    }
    assert(queue@ =~= st@.reg.stack);
    st.devices = None;
    st.hwnd = target_hwnd;
    st.queue = queue;
    assert(st@ =~= (Model {
        reg: all_detached(old(st)@.reg),
        devices: None,
        hwnd: target_hwnd,
        queue: old(st)@.reg.stack,
        ..old(st)@
    }));
    assert(forall|x: SurfaceId| #[trigger] st@.reg.has(x) <==> old(st)@.reg.has(x));
    st.ask(effects, Stage::RebuildInit { progress: init_devices(target_hwnd), after })
}

/// The devices were lost; see [`recovered`].
pub(crate) fn recover_from_device_loss(
    st: &mut State,
    effects: Vec<Effect>,
    answer: Answer,
) -> (r: Turn)
    requires
        old(st)@.core_wf(),
        old(st)@.queue.len() == 0,
    ensures
        turned(*final(st), r) == recovered(old(st)@, effects@, answer),
        final(st)@.wf(),
{
    if st.hwnd == INVALID_HWND {
        st.finish(effects, answer)
    } else {
        rebuild_devices_and_visuals(st, st.hwnd, effects, After::Finish(answer))
    }
}

} // verus!
