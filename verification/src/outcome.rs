//! What building, rebuilding and restacking come to in the end.

use vstd::prelude::*;
use crate::devices::{
    init_expects, init_next, init_start, CompositorDevices, InitOutcome, InitProgress,
};
use crate::lifecycle::{all_unhooked, initialized, initializing, restacking, unhook_each};
use crate::operation::{conversation, follow_up, run};
use crate::paint::painted;
use crate::protocol::{Answer, Effect, Handle, Hwnd, Next, Reply, SurfaceId, INVALID_HWND};
use crate::rebuild::{
    attachable, attached, attaching, hooked, nest_popup, next_attachable, rebuild_init, repopuped,
    resumed, revisualed, revisualing,
};
use crate::recovery::{all_detached, rebuild, recovered};
use crate::registry::Registry;
use crate::resume::{object, step};
use crate::state::{After, AttachFor, Model, Paint, Stage, Turned};
use crate::surface::Surface;

verus! {

/// How many places of an order, from `from` on, hold a surface that can be
/// hooked to the root.
pub open spec fn hook_count(
    order: Seq<SurfaceId>,
    surfaces: Map<SurfaceId, Surface>,
    from: int,
) -> nat
    decreases order.len() - from,
{
    if from >= order.len() {
        0
    } else if attachable(surfaces, order[from]) {
        1 + hook_count(order, surfaces, from + 1)
    } else {
        hook_count(order, surfaces, from + 1)
    }
}

/// The surfaces of an order that end up stacked: those that have a visual and
/// whose hooking to the root succeeded, in that order. There is one status for
/// each surface that has a visual.
pub open spec fn picked(
    order: Seq<SurfaceId>,
    surfaces: Map<SurfaceId, Surface>,
    from: int,
    codes: Seq<i32>,
) -> Seq<SurfaceId>
    decreases order.len() - from,
{
    if from >= order.len() {
        Seq::empty()
    } else if !attachable(surfaces, order[from]) {
        picked(order, surfaces, from + 1, codes)
    } else if codes[0] < 0 {
        picked(order, surfaces, from + 1, codes.drop_first())
    } else {
        seq![order[from]] + picked(order, surfaces, from + 1, codes.drop_first())
    }
}

/// The surfaces with those of a list in the tree.
pub open spec fn hooked_all(
    surfaces: Map<SurfaceId, Surface>,
    ids: Seq<SurfaceId>,
) -> Map<SurfaceId, Surface> {
    surfaces.map_entries(
        |id: SurfaceId, s: Surface|
            if ids.contains(id) {
                hooked(s)
            } else {
                s
            },
    )
}

/// The registry once an order was worked off.
pub open spec fn restacked(
    reg: Registry,
    order: Seq<SurfaceId>,
    from: int,
    codes: Seq<i32>,
) -> Registry {
    let ids = picked(order, reg.surfaces, from, codes);
    Registry {
        live: reg.live,
        stack: reg.stack + ids,
        surfaces: hooked_all(reg.surfaces, ids),
    }
}

/// Replies that are statuses.
pub open spec fn statuses(codes: Seq<i32>) -> Seq<Reply> {
    codes.map_values(|code: i32| Reply::Status(code))
}

proof fn lemma_same_attachable(
    order: Seq<SurfaceId>,
    a: Map<SurfaceId, Surface>,
    b: Map<SurfaceId, Surface>,
    from: int,
    codes: Seq<i32>,
)
    requires
        forall|id: SurfaceId| attachable(a, id) <==> #[trigger] attachable(b, id),
    ensures
        next_attachable(order, a, from) == next_attachable(order, b, from),
        hook_count(order, a, from) == hook_count(order, b, from),
        picked(order, a, from, codes) == picked(order, b, from, codes),
    decreases order.len() - from,
{
    if from < order.len() {
        lemma_same_attachable(order, a, b, from + 1, codes);
        lemma_same_attachable(order, a, b, from + 1, codes.drop_first());
    }
}

proof fn lemma_skip(
    order: Seq<SurfaceId>,
    surfaces: Map<SurfaceId, Surface>,
    from: int,
    codes: Seq<i32>,
)
    requires
        0 <= from <= order.len(),
    ensures
        ({
            let i = next_attachable(order, surfaces, from);
            &&& from <= i <= order.len()
            &&& i < order.len() ==> attachable(surfaces, order[i])
            &&& hook_count(order, surfaces, from) == hook_count(order, surfaces, i)
            &&& picked(order, surfaces, from, codes) == picked(order, surfaces, i, codes)
        }),
    decreases order.len() - from,
{
    if from < order.len() && !attachable(surfaces, order[from]) {
        lemma_skip(order, surfaces, from + 1, codes);
    }
}

proof fn lemma_attached_any_stage(
    m: Model,
    n: Model,
    fx: Seq<Effect>,
    purpose: AttachFor,
)
    requires
        n == (Model { stage: n.stage, ..m }),
    ensures
        attached(m, fx, purpose) == attached(n, fx, purpose),
{
    match purpose {
        AttachFor::Restack => {
            assert(attached(m, fx, purpose).model =~= attached(n, fx, purpose).model);
        },
        AttachFor::Rebuild { devices, after } => {
            let a = Model { devices: Some(devices), ..m };
            let b = Model { devices: Some(devices), ..n };
            lemma_resumed_any_stage(
                a,
                b,
                fx.push(Effect::Commit { device: devices.dcomp_device }),
                after,
            );
        },
    }
}

proof fn lemma_resumed_any_stage(m: Model, n: Model, fx: Seq<Effect>, after: After)
    requires
        n == (Model { stage: n.stage, ..m }),
    ensures
        resumed(m, fx, after) == resumed(n, fx, after),
{
    assert forall|stage: Stage| m.asks(fx, stage) == #[trigger] n.asks(fx, stage) by {
        assert(m.asks(fx, stage).model =~= n.asks(fx, stage).model);
    }
    assert forall|answer: Answer| m.answers(fx, answer) == #[trigger] n.answers(fx, answer) by {
        assert(m.answers(fx, answer).model =~= n.answers(fx, answer).model);
    }
}

proof fn lemma_restacked_one(reg: Registry, order: Seq<SurfaceId>, i: int, codes: Seq<i32>)
    requires
        0 <= i < order.len(),
        attachable(reg.surfaces, order[i]),
        codes.len() > 0,
        codes[0] >= 0,
    ensures
        restacked(
            reg.put(order[i], hooked(reg.surfaces[order[i]])).stacked(order[i]),
            order,
            i + 1,
            codes.drop_first(),
        ) == restacked(reg, order, i, codes),
{
    let id = order[i];
    let next = reg.put(id, hooked(reg.surfaces[id])).stacked(id);
    assert(forall|x: SurfaceId|
        attachable(reg.surfaces, x) <==> #[trigger] attachable(next.surfaces, x));
    lemma_same_attachable(order, reg.surfaces, next.surfaces, i + 1, codes.drop_first());
    let rest = picked(order, reg.surfaces, i + 1, codes.drop_first());
    let ids = seq![id] + rest;
    assert(ids == picked(order, reg.surfaces, i, codes));
    assert(next.stack + rest =~= reg.stack + ids);
    assert(ids[0] == id);
    assert forall|x: SurfaceId| ids.contains(x) <==> x == id || #[trigger] rest.contains(x) by {
        if rest.contains(x) {
            let k = choose|k: int| 0 <= k < rest.len() && rest[k] == x;
            assert(ids[k + 1] == x);
        }
        if ids.contains(x) && x != id {
            let k = choose|k: int| 0 <= k < ids.len() && ids[k] == x;
            assert(rest[k - 1] == x);
        }
    }
    assert(hooked_all(next.surfaces, rest) =~= hooked_all(reg.surfaces, ids));
}

proof fn lemma_restacked_none(reg: Registry)
    ensures
        hooked_all(reg.surfaces, Seq::empty()) == reg.surfaces,
{
    assert(hooked_all(reg.surfaces, Seq::empty()) =~= reg.surfaces);
}

/// Working off an order, whatever becomes of each surface: once every surface
/// that has a visual was tried, the stack is what was picked, and nothing else
/// has changed.
pub proof fn lemma_attach_run(
    m: Model,
    fx: Seq<Effect>,
    purpose: AttachFor,
    from: int,
    above: Option<Handle>,
    codes: Seq<i32>,
)
    requires
        m.queue.len() <= usize::MAX,
        0 <= from <= m.queue.len(),
        codes.len() == hook_count(m.queue, m.reg.surfaces, from),
    ensures
        conversation(attaching(m, fx, purpose, from, above), statuses(codes)),
        run(attaching(m, fx, purpose, from, above), statuses(codes)) == attached(
            Model {
                reg: restacked(m.reg, m.queue, from, codes),
                queue: Seq::empty(),
                ..m
            },
            if codes.len() == 0 {
                fx
            } else {
                seq![]
            },
            purpose,
        ),
    decreases m.queue.len() - from,
{
    let t = attaching(m, fx, purpose, from, above);
    let q = m.queue;
    let i = next_attachable(q, m.reg.surfaces, from);
    lemma_skip(q, m.reg.surfaces, from, codes);
    if i >= q.len() {
        lemma_restacked_none(m.reg);
        assert(m.reg.stack + Seq::<SurfaceId>::empty() =~= m.reg.stack);
        assert(restacked(m.reg, q, from, codes) =~= m.reg);
    } else {
        reveal(follow_up);
        let id = q[i];
        let s = m.reg.surfaces[id];
        let reply = Reply::Status(codes[0]);
        let rest = codes.drop_first();
        assert(statuses(codes)[0] == reply);
        assert(statuses(codes).drop_first() =~= statuses(rest));
        let a = t.model;
        let (n, top) = if codes[0] < 0 {
            (a, above)
        } else {
            (Model { reg: m.reg.put(id, hooked(s)).stacked(id), ..a }, s.visual)
        };
        assert(follow_up(a, reply) == attaching(n, seq![], purpose, i + 1, top));
        assert(forall|x: SurfaceId|
            attachable(m.reg.surfaces, x) <==> #[trigger] attachable(n.reg.surfaces, x));
        lemma_same_attachable(q, m.reg.surfaces, n.reg.surfaces, i + 1, rest);
        lemma_attach_run(n, seq![], purpose, i + 1, top, rest);
        if codes[0] >= 0 {
            lemma_restacked_one(m.reg, q, i, codes);
        }
        assert(restacked(n.reg, q, i + 1, rest) == restacked(m.reg, q, from, codes));
        lemma_attached_any_stage(
            Model { reg: restacked(m.reg, q, from, codes), queue: Seq::empty(), ..m },
            Model { reg: restacked(m.reg, q, from, codes), queue: Seq::empty(), ..n },
            seq![],
            purpose,
        );
    }
}

/// Only surfaces of the order that have a visual are picked.
pub proof fn lemma_picked_attachable(
    order: Seq<SurfaceId>,
    surfaces: Map<SurfaceId, Surface>,
    from: int,
    codes: Seq<i32>,
    id: SurfaceId,
)
    requires
        0 <= from <= order.len(),
        picked(order, surfaces, from, codes).contains(id),
    ensures
        attachable(surfaces, id),
        order.contains(id),
    decreases order.len() - from,
{
    let ids = picked(order, surfaces, from, codes);
    let k = choose|k: int| 0 <= k < ids.len() && ids[k] == id;
    if from >= order.len() {
    } else if !attachable(surfaces, order[from]) {
        lemma_picked_attachable(order, surfaces, from + 1, codes, id);
    } else {
        let rest = picked(order, surfaces, from + 1, codes.drop_first());
        if codes[0] < 0 {
            lemma_picked_attachable(order, surfaces, from + 1, codes.drop_first(), id);
        } else if k > 0 {
            assert(rest[k - 1] == id);
            lemma_picked_attachable(order, surfaces, from + 1, codes.drop_first(), id);
        }
    }
}

/// A new stacking order, whatever becomes of each surface: the stack is what
/// was picked of the order, exactly those surfaces are in the tree, the
/// bottom-most of them is the main surface, and nothing else has changed.
pub proof fn lemma_restack_outcome(m: Model, ordered: Seq<SurfaceId>, codes: Seq<i32>)
    requires
        m.idle(),
        m.devices is Some,
        m.queue.len() == 0,
        ordered.len() <= usize::MAX,
        codes.len() == hook_count(ordered, m.reg.surfaces, 0),
    ensures
        conversation(restacking(m, ordered), statuses(codes)),
        ({
            let t = run(restacking(m, ordered), statuses(codes));
            let ids = picked(ordered, m.reg.surfaces, 0, codes);
            &&& t.next == Next::Return(Answer::Unit)
            &&& t.model.reg.stack == ids
            &&& t.model.reg.bottom() == (if ids.len() > 0 {
                Some(ids[0])
            } else {
                None
            })
            &&& t.model == (Model { reg: t.model.reg, ..m })
            &&& t.model.reg.live == m.reg.live
            &&& t.model.reg.surfaces.dom() == m.reg.surfaces.dom()
            &&& forall|id: SurfaceId| #[trigger]
                m.reg.has(id) ==> t.model.surface(id) == (Surface {
                    in_tree: if m.surface(id).visual is Some {
                        ids.contains(id)
                    } else {
                        m.surface(id).in_tree
                    },
                    ..m.surface(id)
                })
        }),
{
    let d = m.devices->0;
    let fx = unhook_each(m.reg.live, m.reg.surfaces, d.dcomp_root);
    let reg = all_unhooked(m.reg).unstacked();
    let n = Model { reg, queue: ordered, ..m };
    assert(forall|x: SurfaceId|
        attachable(m.reg.surfaces, x) <==> #[trigger] attachable(reg.surfaces, x));
    lemma_same_attachable(ordered, m.reg.surfaces, reg.surfaces, 0, codes);
    lemma_attach_run(n, fx, AttachFor::Restack, 0, None, codes);
    let t = run(restacking(m, ordered), statuses(codes));
    let ids = picked(ordered, m.reg.surfaces, 0, codes);
    assert(Seq::<SurfaceId>::empty() + ids =~= ids);
    assert(t.model.reg == restacked(reg, ordered, 0, codes));
    assert(t.model.queue =~= m.queue);
    assert(t.model =~= (Model { reg: t.model.reg, ..m }));
    assert(t.model.reg.surfaces.dom() =~= m.reg.surfaces.dom());
    assert forall|id: SurfaceId| #[trigger] m.reg.has(id) && ids.contains(id) implies attachable(
        m.reg.surfaces,
        id,
    ) by {
        lemma_picked_attachable(ordered, m.reg.surfaces, 0, codes, id);
    }
}

/// Where every surface of an order has a visual and every hooking succeeds,
/// the whole order is picked.
pub proof fn lemma_all_picked(
    order: Seq<SurfaceId>,
    surfaces: Map<SurfaceId, Surface>,
    from: int,
    codes: Seq<i32>,
)
    requires
        0 <= from <= order.len(),
        forall|k: int| from <= k < order.len() ==> attachable(surfaces, #[trigger] order[k]),
        codes.len() == order.len() - from,
        forall|k: int| 0 <= k < codes.len() ==> #[trigger] codes[k] >= 0,
    ensures
        hook_count(order, surfaces, from) == order.len() - from,
        picked(order, surfaces, from, codes) == order.skip(from),
    decreases order.len() - from,
{
    if from < order.len() {
        lemma_all_picked(order, surfaces, from + 1, codes.drop_first());
        assert(seq![order[from]] + order.skip(from + 1) =~= order.skip(from));
    } else {
        assert(order.skip(from) =~= Seq::empty());
    }
}

/// What a row of replies makes of the chain that builds the devices. A reply
/// of the wrong kind, or one too many, counts as a failure.
pub open spec fn init_run(p: InitProgress, replies: Seq<Reply>) -> InitOutcome
    decreases replies.len(),
{
    if replies.len() == 0 {
        InitOutcome::Continue(p)
    } else if !init_expects(p.step, replies[0]) {
        InitOutcome::Failed
    } else {
        match init_next(p, replies[0]) {
            InitOutcome::Continue(q) => init_run(q, replies.drop_first()),
            outcome => if replies.len() == 1 {
                outcome
            } else {
                InitOutcome::Failed
            },
        }
    }
}

/// The replies of a chain in which every call succeeds. The video memory
/// interface may be missing.
pub open spec fn init_replies_ok(replies: Seq<Reply>) -> bool {
    &&& replies.len() == 11
    &&& replies[0] matches Reply::Device { status, device, context } && status >= 0
        && device is Some && context is Some
    &&& replies[1] is Object
    &&& replies[2] is Object
    &&& replies[3] is Object
    &&& replies[4] is Object
    &&& replies[5] is Object || replies[5] is NoObject
    &&& replies[6] is Object
    &&& replies[7] is Object
    &&& replies[8] is Object
    &&& replies[9] matches Reply::Status(code) && code >= 0
    &&& replies[10] matches Reply::Status(code) && code >= 0
}

/// The devices that such replies bring.
pub open spec fn devices_from(hwnd: Hwnd, replies: Seq<Reply>) -> CompositorDevices {
    CompositorDevices {
        d3d_device: replies[1]->Object_0,
        d3d_context: replies[0]->context->0,
        dxgi_factory: replies[4]->Object_0,
        adapter3: object(replies[5]),
        hwnd,
        dcomp_device: replies[6]->Object_0,
        dcomp_target: replies[7]->Object_0,
        dcomp_root: replies[8]->Object_0,
    }
}

/// A chain in which every call succeeds builds the devices.
pub proof fn lemma_init_succeeds(hwnd: Hwnd, replies: Seq<Reply>)
    requires
        init_replies_ok(replies),
    ensures
        init_run(init_start(hwnd), replies) == InitOutcome::Ready(devices_from(hwnd, replies)),
{
    reveal_with_fuel(init_run, 12);
    let r1 = replies.drop_first();
    let r2 = r1.drop_first();
    let r3 = r2.drop_first();
    let r4 = r3.drop_first();
    let r5 = r4.drop_first();
    let r6 = r5.drop_first();
    let r7 = r6.drop_first();
    let r8 = r7.drop_first();
    let r9 = r8.drop_first();
    let r10 = r9.drop_first();
    assert(r1[0] == replies[1] && r2[0] == replies[2] && r3[0] == replies[3] && r4[0] == replies[4]
        && r5[0] == replies[5] && r6[0] == replies[6] && r7[0] == replies[7] && r8[0] == replies[8]
        && r9[0] == replies[9] && r10[0] == replies[10]);
    assert(r10.len() == 1);
}

/// Setting up comes to devices and the answer `true` where every call
/// succeeds.
pub proof fn lemma_init_outcome(m: Model, hwnd: Hwnd, replies: Seq<Reply>)
    requires
        m.idle(),
        m.devices is None,
        init_replies_ok(replies),
    ensures
        conversation(initializing(m, hwnd), replies),
        run(initializing(m, hwnd), replies) == (Model {
            hwnd,
            devices: Some(devices_from(hwnd, replies)),
            ..m
        }).answers(seq![], Answer::Flag(true)),
{
    lemma_init_succeeds(hwnd, replies);
    lemma_init_run(Model { hwnd, ..m }, init_start(hwnd), replies);
}

proof fn lemma_init_run(m: Model, p: InitProgress, replies: Seq<Reply>)
    requires
        !(init_run(p, replies) is Continue),
        init_run(p, replies) is Failed ==> fails_in_order(p, replies),
    ensures
        conversation(m.asks(seq![], Stage::Init(p)), replies),
        run(m.asks(seq![], Stage::Init(p)), replies) == (match init_run(p, replies) {
            InitOutcome::Ready(devices) => (Model { devices: Some(devices), ..m }).answers(
                seq![],
                Answer::Flag(true),
            ),
            _ => m.answers(seq![], Answer::Flag(false)),
        }),
    decreases replies.len(),
{
    let n = Model { stage: Stage::Init(p), ..m };
    if replies.len() > 0 {
        let next = follow_up(n, replies[0]);
        let rest = replies.drop_first();
        assert(next == initialized(n, p, replies[0])) by {
            reveal(follow_up);
        }
        assert(rest.len() == 0 ==> conversation(next, rest) && run(next, rest) == next);
        match init_next(p, replies[0]) {
            InitOutcome::Continue(q) => {
                lemma_init_run(m, q, replies.drop_first());
                assert(n.asks(seq![], Stage::Init(q)) == m.asks(seq![], Stage::Init(q))) by {
                    assert(n.asks(seq![], Stage::Init(q)).model =~= m.asks(
                        seq![],
                        Stage::Init(q),
                    ).model);
                }
            },
            InitOutcome::Failed => {
                assert(n.answers(seq![], Answer::Flag(false)).model =~= m.answers(
                    seq![],
                    Answer::Flag(false),
                ).model);
            },
            InitOutcome::Ready(devices) => {
                assert((Model { devices: Some(devices), ..n }).answers(
                    seq![],
                    Answer::Flag(true),
                ).model =~= (Model { devices: Some(devices), ..m }).answers(
                    seq![],
                    Answer::Flag(true),
                ).model);
            },
        }
    }
}

/// Whether these replies go on until one fails, and end there.
pub open spec fn fails_in_order(p: InitProgress, replies: Seq<Reply>) -> bool
    decreases replies.len(),
{
    &&& replies.len() > 0
    &&& init_expects(p.step, replies[0])
    &&& match init_next(p, replies[0]) {
        InitOutcome::Continue(q) => fails_in_order(q, replies.drop_first()),
        InitOutcome::Failed => replies.len() == 1,
        InitOutcome::Ready(_) => false,
    }
}

/// Setting up comes to the answer `false` as soon as a call fails, and leaves
/// the state as it was but for the window: nothing that was built is kept.
pub proof fn lemma_init_failure(m: Model, hwnd: Hwnd, replies: Seq<Reply>)
    requires
        m.idle(),
        m.devices is None,
        fails_in_order(init_start(hwnd), replies),
    ensures
        conversation(initializing(m, hwnd), replies),
        run(initializing(m, hwnd), replies) == (Model { hwnd, ..m }).answers(
            seq![],
            Answer::Flag(false),
        ),
{
    lemma_fails(init_start(hwnd), replies);
    lemma_init_run(Model { hwnd, ..m }, init_start(hwnd), replies);
}

proof fn lemma_fails(p: InitProgress, replies: Seq<Reply>)
    requires
        fails_in_order(p, replies),
    ensures
        init_run(p, replies) is Failed,
    decreases replies.len(),
{
    match init_next(p, replies[0]) {
        InitOutcome::Continue(q) => {
            lemma_fails(q, replies.drop_first());
        },
        _ => {},
    }
}

/// The reply that brings an object, or none.
pub open spec fn as_reply(got: Option<Handle>) -> Reply {
    match got {
        Some(h) => Reply::Object(h),
        None => Reply::NoObject,
    }
}

/// The replies that bring each live surface its visual and its popup visual,
/// or none of them: without a visual no popup visual is asked for.
pub open spec fn revisual_replies(got: Seq<(Option<Handle>, Option<Handle>)>) -> Seq<Reply>
    decreases got.len(),
{
    if got.len() == 0 {
        Seq::empty()
    } else {
        let (visual, popup) = got[0];
        (if visual is Some {
            seq![as_reply(visual), as_reply(popup)]
        } else {
            seq![as_reply(visual)]
        }) + revisual_replies(got.drop_first())
    }
}

/// The surfaces with their new visuals, from the live one at `index` on.
pub open spec fn revisualed_from(
    reg: Registry,
    index: int,
    got: Seq<(Option<Handle>, Option<Handle>)>,
) -> Registry
    decreases got.len(),
{
    if got.len() == 0 {
        reg
    } else {
        let (visual, popup) = got[0];
        let id = reg.live[index];
        let next = if visual is Some {
            reg.put(id, reg.surfaces[id].rebuilt(visual->0, popup))
        } else {
            reg
        };
        revisualed_from(next, index + 1, got.drop_first())
    }
}

/// The effects that nest the popup of the surface that came last.
pub open spec fn last_nesting(
    fx: Seq<Effect>,
    got: Seq<(Option<Handle>, Option<Handle>)>,
) -> Seq<Effect> {
    if got.len() == 0 {
        fx
    } else if got.last().0 is Some {
        nest_popup(got.last().0->0, got.last().1)
    } else {
        seq![]
    }
}

pub proof fn lemma_run_append(t: Turned, a: Seq<Reply>, b: Seq<Reply>)
    requires
        conversation(t, a),
        conversation(run(t, a), b),
    ensures
        conversation(t, a + b),
        run(t, a + b) == run(run(t, a), b),
    decreases a.len(),
{
    if a.len() == 0 {
        assert(a + b =~= b);
    } else {
        let next = follow_up(t.model, a[0]);
        assert((a + b).drop_first() =~= a.drop_first() + b);
        lemma_run_append(next, a.drop_first(), b);
    }
}

pub proof fn lemma_run_one(t: Turned, reply: Reply)
    requires
        t.next is Ask,
        t.model.expects(reply),
    ensures
        conversation(t, seq![reply]),
        run(t, seq![reply]) == follow_up(t.model, reply),
{
    let one = seq![reply];
    assert(one.drop_first() =~= Seq::empty());
    let next = follow_up(t.model, reply);
    assert(conversation(next, one.drop_first()));
    assert(run(next, one.drop_first()) == next);
}

proof fn lemma_revisualing_any_stage(
    m: Model,
    n: Model,
    fx: Seq<Effect>,
    devices: CompositorDevices,
    after: After,
    index: int,
)
    requires
        n == (Model { stage: n.stage, ..m }),
    ensures
        revisualing(m, fx, devices, after, index) == revisualing(n, fx, devices, after, index),
{
    assert forall|stage: Stage| m.asks(fx, stage) == #[trigger] n.asks(fx, stage) by {
        assert(m.asks(fx, stage).model =~= n.asks(fx, stage).model);
    }
    let a = Model { reg: m.reg.unstacked(), ..m };
    let b = Model { reg: n.reg.unstacked(), ..n };
    let purpose = AttachFor::Rebuild { devices, after };
    assert forall|stage: Stage| a.asks(fx, stage) == #[trigger] b.asks(fx, stage) by {
        assert(a.asks(fx, stage).model =~= b.asks(fx, stage).model);
    }
    lemma_attached_any_stage(
        Model { queue: Seq::empty(), ..a },
        Model { queue: Seq::empty(), ..b },
        fx,
        purpose,
    );
}

/// One live surface gets its visuals, or does not.
proof fn lemma_revisual_one(
    m: Model,
    fx: Seq<Effect>,
    devices: CompositorDevices,
    after: After,
    index: int,
    visual: Option<Handle>,
    popup: Option<Handle>,
)
    requires
        m.reg.live.len() <= usize::MAX,
        0 <= index < m.reg.live.len(),
    ensures
        ({
            let t = revisualing(m, fx, devices, after, index);
            let id = m.reg.live[index];
            let replies = if visual is Some {
                seq![as_reply(visual), as_reply(popup)]
            } else {
                seq![as_reply(visual)]
            };
            let (n, effects) = if visual is Some {
                (m.put(id, m.surface(id).rebuilt(visual->0, popup)), nest_popup(visual->0, popup))
            } else {
                (m, seq![])
            };
            &&& conversation(t, replies)
            &&& run(t, replies) == revisualing(n, effects, devices, after, index + 1)
        }),
{
    let t = revisualing(m, fx, devices, after, index);
    let id = m.reg.live[index];
    let a = t.model;
    lemma_run_one(t, as_reply(visual));
    assert(follow_up(a, as_reply(visual)) == revisualed(a, devices, after, index, visual)) by {
        reveal(follow_up);
    }
    match visual {
        None => {
            lemma_revisualing_any_stage(m, a, seq![], devices, after, index + 1);
        },
        Some(v) => {
            let u = follow_up(a, as_reply(visual));
            let b = u.model;
            lemma_run_one(u, as_reply(popup));
            assert(follow_up(b, as_reply(popup)) == repopuped(b, devices, after, index, v, popup))
                by {
                reveal(follow_up);
            }
            lemma_run_append(t, seq![as_reply(visual)], seq![as_reply(popup)]);
            assert(seq![as_reply(visual)] + seq![as_reply(popup)] =~= seq![
                as_reply(visual),
                as_reply(popup),
            ]);
            let s = m.surface(id).rebuilt(v, popup);
            lemma_revisualing_any_stage(
                m.put(id, s),
                b.put(id, s),
                nest_popup(v, popup),
                devices,
                after,
                index + 1,
            );
        },
    }
}

proof fn lemma_revisual_run(
    m: Model,
    fx: Seq<Effect>,
    devices: CompositorDevices,
    after: After,
    index: int,
    got: Seq<(Option<Handle>, Option<Handle>)>,
)
    requires
        m.reg.live.len() <= usize::MAX,
        0 <= index <= m.reg.live.len(),
        got.len() == m.reg.live.len() - index,
    ensures
        conversation(revisualing(m, fx, devices, after, index), revisual_replies(got)),
        run(revisualing(m, fx, devices, after, index), revisual_replies(got)) == revisualing(
            Model { reg: revisualed_from(m.reg, index, got), ..m },
            last_nesting(fx, got),
            devices,
            after,
            m.reg.live.len() as int,
        ),
    decreases got.len(),
{
    let t = revisualing(m, fx, devices, after, index);
    if got.len() > 0 {
        let (visual, popup) = got[0];
        let id = m.reg.live[index];
        lemma_revisual_one(m, fx, devices, after, index, visual, popup);
        let first = if visual is Some {
            seq![as_reply(visual), as_reply(popup)]
        } else {
            seq![as_reply(visual)]
        };
        let (n, effects) = if visual is Some {
            (m.put(id, m.surface(id).rebuilt(visual->0, popup)), nest_popup(visual->0, popup))
        } else {
            (m, seq![])
        };
        lemma_revisual_run(n, effects, devices, after, index + 1, got.drop_first());
        lemma_run_append(t, first, revisual_replies(got.drop_first()));
        assert(last_nesting(effects, got.drop_first()) == last_nesting(fx, got)) by {
            if got.len() > 1 {
                assert(got.drop_first().last() == got.last());
            }
        }
    } else {
        assert(m == (Model { reg: revisualed_from(m.reg, index, got), ..m }));
    }
}

proof fn lemma_rebuild_init_run(
    m: Model,
    fx: Seq<Effect>,
    p: InitProgress,
    after: After,
    replies: Seq<Reply>,
)
    requires
        init_run(p, replies) is Ready || fails_in_order(p, replies),
    ensures
        conversation(m.asks(fx, Stage::RebuildInit { progress: p, after }), replies),
        run(m.asks(fx, Stage::RebuildInit { progress: p, after }), replies) == (match init_run(
            p,
            replies,
        ) {
            InitOutcome::Ready(devices) => revisualing(m, seq![], devices, after, 0),
            _ => resumed(Model { queue: Seq::empty(), ..m }, seq![], after),
        }),
    decreases replies.len(),
{
    if fails_in_order(p, replies) {
        lemma_fails(p, replies);
    }
    let n = Model { stage: Stage::RebuildInit { progress: p, after }, ..m };
    let next = follow_up(n, replies[0]);
    let rest = replies.drop_first();
    assert(next == rebuild_init(n, p, after, replies[0])) by {
        reveal(follow_up);
    }
    assert(rest.len() == 0 ==> conversation(next, rest) && run(next, rest) == next);
    match init_next(p, replies[0]) {
        InitOutcome::Continue(q) => {
            let stage = Stage::RebuildInit { progress: q, after };
            assert(n.asks(seq![], stage).model =~= m.asks(seq![], stage).model);
            lemma_rebuild_init_run(m, seq![], q, after, rest);
        },
        InitOutcome::Failed => {
            lemma_resumed_any_stage(
                Model { queue: Seq::empty(), ..m },
                Model { queue: Seq::empty(), ..n },
                seq![],
                after,
            );
        },
        InitOutcome::Ready(devices) => {
            lemma_revisualing_any_stage(m, n, seq![], devices, after, 0);
        },
    }
}

/// A rebuild whose devices come up, whatever becomes of each visual: the
/// surfaces have the visuals that were made, those of the old stack that could
/// be hooked to the root are stacked in the old order, and what was to follow
/// follows.
pub proof fn lemma_rebuild_outcome(
    m: Model,
    hwnd: Hwnd,
    fx: Seq<Effect>,
    after: After,
    init: Seq<Reply>,
    got: Seq<(Option<Handle>, Option<Handle>)>,
    codes: Seq<i32>,
)
    requires
        m.reg.live.len() <= usize::MAX,
        m.reg.stack.len() <= usize::MAX,
        init_replies_ok(init),
        got.len() == m.reg.live.len(),
        codes.len() == hook_count(
            m.reg.stack,
            revisualed_from(all_detached(m.reg), 0, got).surfaces,
            0,
        ),
    ensures
        ({
            let t = rebuild(m, hwnd, fx, after);
            let replies = init + revisual_replies(got) + statuses(codes);
            let devices = devices_from(hwnd, init);
            let reg = revisualed_from(all_detached(m.reg), 0, got).unstacked();
            let nested = if codes.len() == 0 {
                last_nesting(seq![], got)
            } else {
                seq![]
            };
            &&& conversation(t, replies)
            &&& run(t, replies) == resumed(
                Model {
                    devices: Some(devices),
                    hwnd,
                    reg: restacked(reg, m.reg.stack, 0, codes),
                    queue: Seq::empty(),
                    ..m
                },
                nested.push(Effect::Commit { device: devices.dcomp_device }),
                after,
            )
        }),
{
    let t = rebuild(m, hwnd, fx, after);
    let devices = devices_from(hwnd, init);
    let b = Model {
        reg: all_detached(m.reg),
        devices: None,
        hwnd,
        queue: m.reg.stack,
        ..m
    };
    let fx0 = t.effects;
    lemma_init_succeeds(hwnd, init);
    lemma_rebuild_init_run(b, fx0, init_start(hwnd), after, init);
    lemma_revisual_run(b, seq![], devices, after, 0, got);
    let reg = revisualed_from(b.reg, 0, got);
    lemma_revisualed_from(b.reg, 0, got);
    let c = Model { reg, ..b };
    let n = Model { reg: reg.unstacked(), ..c };
    let nested = last_nesting(seq![], got);
    lemma_attach_run(n, nested, AttachFor::Rebuild { devices, after }, 0, None, codes);
    lemma_run_append(t, init, revisual_replies(got));
    lemma_run_append(t, init + revisual_replies(got), statuses(codes));
}

proof fn lemma_revisualed_from(
    reg: Registry,
    index: int,
    got: Seq<(Option<Handle>, Option<Handle>)>,
)
    requires
        0 <= index,
        index + got.len() <= reg.live.len(),
    ensures
        revisualed_from(reg, index, got).live == reg.live,
        revisualed_from(reg, index, got).stack == reg.stack,
    decreases got.len(),
{
    if got.len() > 0 {
        let (visual, popup) = got[0];
        let id = reg.live[index];
        let next = if visual is Some {
            reg.put(id, reg.surfaces[id].rebuilt(visual->0, popup))
        } else {
            reg
        };
        lemma_revisualed_from(next, index + 1, got.drop_first());
    }
}

/// A rebuild whose devices do not come up: every surface is detached, there
/// are no devices, the window is the one it was for, and what was to follow
/// follows.
pub proof fn lemma_rebuild_failure(
    m: Model,
    hwnd: Hwnd,
    fx: Seq<Effect>,
    after: After,
    replies: Seq<Reply>,
)
    requires
        fails_in_order(init_start(hwnd), replies),
    ensures
        conversation(rebuild(m, hwnd, fx, after), replies),
        run(rebuild(m, hwnd, fx, after), replies) == resumed(
            Model {
                reg: all_detached(m.reg),
                devices: None,
                hwnd,
                queue: Seq::empty(),
                ..m
            },
            seq![],
            after,
        ),
{
    let t = rebuild(m, hwnd, fx, after);
    let b = Model {
        reg: all_detached(m.reg),
        devices: None,
        hwnd,
        queue: m.reg.stack,
        ..m
    };
    lemma_fails(init_start(hwnd), replies);
    lemma_rebuild_init_run(b, t.effects, init_start(hwnd), after, replies);
}

proof fn lemma_revisualed_surfaces(
    reg: Registry,
    index: int,
    got: Seq<(Option<Handle>, Option<Handle>)>,
)
    requires
        reg.wf(),
        0 <= index,
        index + got.len() == reg.live.len(),
    ensures
        ({
            let after = revisualed_from(reg, index, got);
            &&& after.surfaces.dom() == reg.surfaces.dom()
            &&& forall|k: int|
                0 <= k < index ==> after.surfaces[#[trigger] reg.live[k]]
                    == reg.surfaces[reg.live[k]]
            &&& forall|k: int|
                index <= k < reg.live.len() ==> after.surfaces[#[trigger] reg.live[k]] == (if got[k
                    - index].0 is Some {
                    reg.surfaces[reg.live[k]].rebuilt(got[k - index].0->0, got[k - index].1)
                } else {
                    reg.surfaces[reg.live[k]]
                })
        }),
    decreases got.len(),
{
    if got.len() > 0 {
        let (visual, popup) = got[0];
        let id = reg.live[index];
        assert(reg.live.contains(id));
        assert(reg.has(id));
        let next = if visual is Some {
            reg.put(id, reg.surfaces[id].rebuilt(visual->0, popup))
        } else {
            reg
        };
        assert(next.surfaces.dom() =~= reg.surfaces.dom());
        assert(next.wf());
        lemma_revisualed_surfaces(next, index + 1, got.drop_first());
        let after = revisualed_from(reg, index, got);
        assert(after == revisualed_from(next, index + 1, got.drop_first()));
        assert forall|k: int| 0 <= k < index implies after.surfaces[#[trigger] reg.live[k]]
            == reg.surfaces[reg.live[k]] by {
            assert(next.live[k] == reg.live[k]);
            assert(reg.live[k] != id);
        }
        assert forall|k: int|
            index <= k < reg.live.len() implies after.surfaces[#[trigger] reg.live[k]] == (if got[k
            - index].0 is Some {
            reg.surfaces[reg.live[k]].rebuilt(got[k - index].0->0, got[k - index].1)
        } else {
            reg.surfaces[reg.live[k]]
        }) by {
            assert(next.live[k] == reg.live[k]);
            if k > index {
                assert(reg.live[k] != id);
                assert(got.drop_first()[k - index - 1] == got[k - index]);
            }
        }
    }
}

/// Recovery from a lost device, where every call succeeds, gives back what
/// there was: the same surfaces, stacked in the same order, each with new
/// visuals and as visible as before, in the tree if it is stacked, and without
/// a swap chain until its next frame.
pub proof fn lemma_recovery_restores(
    m: Model,
    hwnd: Hwnd,
    fx: Seq<Effect>,
    answer: Answer,
    init: Seq<Reply>,
    got: Seq<(Option<Handle>, Option<Handle>)>,
    codes: Seq<i32>,
)
    requires
        m.core_wf(),
        m.reg.live.len() <= usize::MAX,
        m.reg.stack.len() <= usize::MAX,
        init_replies_ok(init),
        got.len() == m.reg.live.len(),
        forall|k: int| 0 <= k < got.len() ==> (#[trigger] got[k]).0 is Some,
        codes.len() == m.reg.stack.len(),
        forall|k: int| 0 <= k < codes.len() ==> #[trigger] codes[k] >= 0,
    ensures
        ({
            let t = rebuild(m, hwnd, fx, After::Finish(answer));
            let replies = init + revisual_replies(got) + statuses(codes);
            let n = run(t, replies).model;
            &&& conversation(t, replies)
            &&& run(t, replies).next == Next::Return(answer)
            &&& n.devices == Some(devices_from(hwnd, init))
            &&& n.hwnd == hwnd
            &&& n.reg.live == m.reg.live
            &&& n.reg.stack == m.reg.stack
            &&& n.reg.surfaces.dom() == m.reg.surfaces.dom()
            &&& forall|k: int|
                0 <= k < m.reg.live.len() ==> n.surface(#[trigger] m.reg.live[k]) == (Surface {
                    in_tree: m.reg.stack.contains(m.reg.live[k]),
                    ..m.surface(m.reg.live[k]).rebuilt(got[k].0->0, got[k].1)
                })
        }),
{
    let old_reg = all_detached(m.reg);
    assert(forall|x: SurfaceId| #[trigger] old_reg.has(x) <==> m.reg.has(x));
    assert forall|id: SurfaceId| #[trigger]
        old_reg.surfaces.contains_key(id) implies old_reg.surfaces[id].wf() by {
        assert(m.reg.surfaces.contains_key(id));
    }
    assert(old_reg.wf());
    let reg = revisualed_from(old_reg, 0, got);
    lemma_revisualed_surfaces(old_reg, 0, got);
    lemma_revisualed_from(old_reg, 0, got);
    let stack = m.reg.stack;
    assert forall|k: int| 0 <= k < stack.len() implies attachable(
        reg.surfaces,
        #[trigger] stack[k],
    ) by {
        assert(m.reg.has(stack[k]));
        assert(m.reg.live.contains(stack[k]));
        let j = choose|j: int| 0 <= j < m.reg.live.len() && m.reg.live[j] == stack[k];
        assert(reg.surfaces[old_reg.live[j]] == old_reg.surfaces[old_reg.live[j]].rebuilt(
            got[j].0->0,
            got[j].1,
        ));
        assert(reg.surfaces.dom().contains(stack[k]));
    }
    lemma_all_picked(stack, reg.surfaces, 0, codes);
    assert(stack.skip(0) =~= stack);
    lemma_rebuild_outcome(m, hwnd, fx, After::Finish(answer), init, got, codes);
    let t = rebuild(m, hwnd, fx, After::Finish(answer));
    let replies = init + revisual_replies(got) + statuses(codes);
    let n = run(t, replies).model;
    assert(n.reg == restacked(reg.unstacked(), stack, 0, codes));
    assert(Seq::<SurfaceId>::empty() + stack =~= stack);
    assert(n.reg.surfaces.dom() =~= m.reg.surfaces.dom());
    assert forall|k: int| 0 <= k < m.reg.live.len() implies n.surface(#[trigger] m.reg.live[k])
        == (Surface {
        in_tree: m.reg.stack.contains(m.reg.live[k]),
        ..m.surface(m.reg.live[k]).rebuilt(got[k].0->0, got[k].1)
    }) by {
        let id = m.reg.live[k];
        assert(m.reg.live.contains(id));
        assert(m.reg.has(id));
        assert(old_reg.live[k] == id);
        assert(reg.surfaces[old_reg.live[k]] == old_reg.surfaces[id].rebuilt(
            got[k].0->0,
            got[k].1,
        ));
    }
}

/// A recovery that failed is tried again: it leaves no devices, and the next
/// frame begins with another attempt for the same window.
pub proof fn lemma_failed_recovery_is_retried(
    m: Model,
    fx: Seq<Effect>,
    answer: Answer,
    replies: Seq<Reply>,
    paint: Paint,
)
    requires
        m.hwnd != INVALID_HWND,
        fails_in_order(init_start(m.hwnd), replies),
    ensures
        conversation(recovered(m, fx, answer), replies),
        ({
            let t = run(recovered(m, fx, answer), replies);
            &&& t.next == Next::Return(answer)
            &&& t.model.devices is None
            &&& t.model.hwnd == m.hwnd
            &&& painted(t.model, paint) == rebuild(t.model, m.hwnd, seq![], After::Paint(paint))
        }),
{
    lemma_rebuild_failure(m, m.hwnd, fx, After::Finish(answer), replies);
}

} // verus!
