//! What a frame comes to where every call succeeds.

use vstd::prelude::*;
use crate::gate::{decided, PresentDecision};
use crate::operation::{conversation, follow_up, run};
use crate::outcome::{lemma_run_append, lemma_run_one};
use crate::paint::{
    gated, judged, measured, memory_frame, opened, oversized, shared_frame, showable, textured,
    uploaded,
};
use crate::protocol::{Effect, Handle, Next, Reply, Slot, SurfaceId, NULL_SURFACE};
use crate::state::{Fit, FitFor, Model, Paint, Source, Stage};
use crate::surface::Surface;
use crate::swap_chain::{buffered, fit_created, fit_resized, paint_answer, shown};

verus! {

/// The reply, if one is needed, that brings a swap chain to the size of a
/// frame: a new one, or a resize that succeeds.
pub open spec fn fit_replies(
    s: Surface,
    slot: Slot,
    width: i32,
    height: i32,
    chain: Handle,
) -> Seq<Reply> {
    if s.chain_of(slot) is None {
        seq![Reply::Object(chain)]
    } else if s.size_of(slot) == (width, height) {
        seq![]
    } else {
        seq![Reply::Status(0)]
    }
}

/// The surface with a swap chain of the size of the frame.
pub open spec fn fitted_surface(
    s: Surface,
    slot: Slot,
    width: i32,
    height: i32,
    chain: Handle,
) -> Surface {
    (if s.chain_of(slot) is None {
        s.with_chain(slot, Some(chain))
    } else {
        s
    }).with_size(slot, width, height)
}

/// The back buffer, and the frame shown.
pub open spec fn show_replies(buffer: Handle) -> Seq<Reply> {
    seq![Reply::Object(buffer), Reply::Status(0)]
}

proof fn lemma_shown(m: Model, fx: Seq<Effect>, paint: Paint, texture: Handle, buffer: Handle)
    ensures
        ({
            let t = m.asks(fx, Stage::Buffer { paint, texture });
            let u = run(t, show_replies(buffer));
            &&& conversation(t, show_replies(buffer))
            &&& u.next == Next::Return(paint_answer(paint.slot, true))
            &&& u.model == (Model { stage: Stage::Idle, ..m })
            &&& u.effects == seq![Effect::Commit { device: m.devices->0.dcomp_device }]
        }),
{
    let t = m.asks(fx, Stage::Buffer { paint, texture });
    let a = t.model;
    let got = Reply::Object(buffer);
    let done = Reply::Status(0);
    lemma_run_one(t, got);
    let u = follow_up(a, got);
    assert(u == buffered(a, paint, texture, Some(buffer))) by {
        reveal(follow_up);
    }
    lemma_run_one(u, done);
    assert(follow_up(u.model, done) == shown(u.model, paint, 0)) by {
        reveal(follow_up);
    }
    lemma_run_append(t, seq![got], seq![done]);
    assert(seq![got] + seq![done] =~= show_replies(buffer));
}

/// A texture that its slot can show, and that has a size, is shown in a swap
/// chain of that size where every call succeeds.
pub proof fn lemma_textured_outcome(
    m: Model,
    paint: Paint,
    texture: Handle,
    width: i32,
    height: i32,
    chain: Handle,
    buffer: Handle,
)
    requires
        m.devices is Some,
        m.reg.has(paint.surface),
        showable(m, paint),
        width > 0,
        height > 0,
    ensures
        ({
            let t = textured(m, paint, texture, width, height);
            let s = m.surface(paint.surface);
            let replies = fit_replies(s, paint.slot, width, height, chain) + show_replies(buffer);
            let u = run(t, replies);
            &&& conversation(t, replies)
            &&& u.next == Next::Return(paint_answer(paint.slot, true))
            &&& u.effects == seq![Effect::Commit { device: m.devices->0.dcomp_device }]
            &&& u.model == (Model {
                stage: Stage::Idle,
                ..m.put(paint.surface, fitted_surface(s, paint.slot, width, height, chain))
            })
        }),
{
    let t = textured(m, paint, texture, width, height);
    let s = m.surface(paint.surface);
    let slot = paint.slot;
    let prep = fit_replies(s, slot, width, height, chain);
    let f = Fit {
        surface: paint.surface,
        slot,
        width,
        height,
        purpose: FitFor::Present { source: paint.source, texture },
    };
    let n = m.put(paint.surface, fitted_surface(s, slot, width, height, chain));
    if s.chain_of(slot) is None {
        lemma_run_one(t, prep[0]);
        assert(follow_up(t.model, prep[0]) == fit_created(t.model, f, Some(chain))) by {
            reveal(follow_up);
        }
    } else if s.size_of(slot) == (width, height) {
        assert(prep =~= Seq::empty());
        assert(conversation(t, prep) && run(t, prep) == t);
        assert(n =~= m) by {
            assert(m.reg.surfaces.insert(paint.surface, s) =~= m.reg.surfaces);
        }
    } else {
        lemma_run_one(t, prep[0]);
        assert(follow_up(t.model, prep[0]) == fit_resized(t.model, f, 0)) by {
            reveal(follow_up);
        }
    }
    let u = run(t, prep);
    let fx = u.effects;
    assert(u == n.asks(fx, Stage::Buffer { paint, texture })) by {
        assert(u.model =~= n.asks(fx, Stage::Buffer { paint, texture }).model);
    }
    lemma_shown(n, fx, paint, texture, buffer);
    lemma_run_append(t, prep, show_replies(buffer));
}

/// The decision on a frame, where one is asked for.
pub open spec fn verdict(m: Model, paint: Paint, decision: PresentDecision) -> Seq<Reply> {
    if gated(m, paint) {
        seq![Reply::Decision(decision)]
    } else {
        seq![]
    }
}

/// The state once a shared frame was let through.
pub open spec fn let_through(m: Model, paint: Paint, decision: PresentDecision) -> Model {
    if gated(m, paint) && decision is EndTransitionThenPresent {
        if paint.source is Shared {
            Model { gate: decided(m.gate, decision), pending_lw: 0, pending_lh: 0, ..m }
        } else {
            Model { gate: decided(m.gate, decision), ..m }
        }
    } else {
        m
    }
}

/// A shared texture for a slot that can show it: where every call succeeds,
/// and the frame, if it is one of the main surface, is let through and not
/// larger than the window, it is shown at its own size and taken.
pub proof fn lemma_shared_frame_outcome(
    m: Model,
    s: SurfaceId,
    slot: Slot,
    shared_texture: u64,
    decision: PresentDecision,
    texture: Handle,
    width: u32,
    height: u32,
    chain: Handle,
    buffer: Handle,
)
    requires
        m.wf(),
        m.idle(),
        m.devices is Some,
        m.reg.has(s),
        shared_texture != 0,
        0 < width <= i32::MAX,
        0 < height <= i32::MAX,
        ({
            let paint = Paint { surface: s, slot, source: Source::Shared { shared_texture } };
            &&& showable(m, paint)
            &&& gated(m, paint) ==> !(decision is Reject) && !oversized(
                m,
                width as int,
                height as int,
            )
        }),
    ensures
        ({
            let paint = Paint { surface: s, slot, source: Source::Shared { shared_texture } };
            let t = shared_frame(m, s, slot, Some(shared_texture));
            let old_s = m.surface(s);
            let (w, h) = (width as i32, height as i32);
            let replies = seq![Reply::Object(texture), Reply::Size { width, height }] + verdict(
                m,
                paint,
                decision,
            ) + (fit_replies(old_s, slot, w, h, chain) + show_replies(buffer));
            let u = run(t, replies);
            &&& conversation(t, replies)
            &&& u.next == Next::Return(paint_answer(slot, true))
            &&& u.model == let_through(m, paint, decision).put(
                s,
                fitted_surface(old_s, slot, w, h, chain),
            )
        }),
{
    let paint = Paint { surface: s, slot, source: Source::Shared { shared_texture } };
    let t = shared_frame(m, s, slot, Some(shared_texture));
    let old_s = m.surface(s);
    let (w, h) = (width as i32, height as i32);
    let rest = fit_replies(old_s, slot, w, h, chain) + show_replies(buffer);
    assert(s != NULL_SURFACE);
    let got = Reply::Object(texture);
    let size = Reply::Size { width, height };
    lemma_run_one(t, got);
    let a = follow_up(t.model, got);
    assert(a == opened(t.model, paint, Some(texture))) by {
        reveal(follow_up);
    }
    lemma_run_one(a, size);
    let b = follow_up(a.model, size);
    assert(b == measured(a.model, paint, texture, w, h)) by {
        reveal(follow_up);
    }
    lemma_run_append(t, seq![got], seq![size]);
    let first = seq![got, size];
    assert(seq![got] + seq![size] =~= first);
    let v = verdict(m, paint, decision);
    let n = let_through(m, paint, decision);
    let c = run(b, v);
    if gated(m, paint) {
        lemma_run_one(b, v[0]);
        assert(follow_up(b.model, v[0]) == judged(
            b.model,
            paint,
            Some(texture),
            w,
            h,
            decision,
        )) by {
            reveal(follow_up);
        }
        let n1 = Model { stage: b.model.stage, ..n };
        assert(c == textured(n1, paint, texture, w, h)) by {
            assert(n1.gate == decided(m.gate, decision));
        }
        lemma_textured_outcome(n1, paint, texture, w, h, chain, buffer);
    } else {
        assert(v =~= Seq::empty());
        assert(conversation(b, v) && c == b);
        lemma_textured_outcome(a.model, paint, texture, w, h, chain, buffer);
    }
    lemma_run_append(t, first, v);
    lemma_run_append(t, first + v, rest);
    assert(run(t, first + v + rest).model =~= n.put(s, fitted_surface(old_s, slot, w, h, chain)));
}

/// Pixels in memory for a slot that can show them: where every call succeeds,
/// and the frame, if it is one of the main surface, is let through, it is shown
/// at its own size and taken.
pub proof fn lemma_memory_frame_outcome(
    m: Model,
    s: SurfaceId,
    slot: Slot,
    buffer_address: u64,
    decision: PresentDecision,
    texture: Handle,
    width: i32,
    height: i32,
    chain: Handle,
    buffer: Handle,
)
    requires
        m.wf(),
        m.idle(),
        m.devices is Some,
        m.reg.has(s),
        buffer_address != 0,
        width > 0,
        height > 0,
        ({
            let source = Source::Software { address: buffer_address, width, height };
            let paint = Paint { surface: s, slot, source };
            &&& showable(m, paint)
            &&& gated(m, paint) ==> !(decision is Reject)
        }),
    ensures
        ({
            let source = Source::Software { address: buffer_address, width, height };
            let paint = Paint { surface: s, slot, source };
            let t = memory_frame(m, s, slot, buffer_address, width, height);
            let old_s = m.surface(s);
            let replies = verdict(m, paint, decision) + seq![Reply::Object(texture)] + (fit_replies(
                old_s,
                slot,
                width,
                height,
                chain,
            ) + show_replies(buffer));
            let u = run(t, replies);
            &&& conversation(t, replies)
            &&& u.next == Next::Return(paint_answer(slot, true))
            &&& u.model == let_through(m, paint, decision).put(
                s,
                fitted_surface(old_s, slot, width, height, chain),
            )
        }),
{
    let source = Source::Software { address: buffer_address, width, height };
    let paint = Paint { surface: s, slot, source };
    let t = memory_frame(m, s, slot, buffer_address, width, height);
    let old_s = m.surface(s);
    let rest = fit_replies(old_s, slot, width, height, chain) + show_replies(buffer);
    assert(s != NULL_SURFACE);
    let v = verdict(m, paint, decision);
    let n = let_through(m, paint, decision);
    let got = Reply::Object(texture);
    let a = run(t, v);
    if gated(m, paint) {
        lemma_run_one(t, v[0]);
        assert(follow_up(t.model, v[0]) == judged(t.model, paint, None, width, height, decision))
            by {
            reveal(follow_up);
        }
    } else {
        assert(v =~= Seq::empty());
        assert(conversation(t, v) && a == t);
    }
    assert(a == n.asks(seq![], Stage::Upload(paint))) by {
        assert(a.model =~= n.asks(seq![], Stage::Upload(paint)).model);
    }
    lemma_run_one(a, got);
    let b = follow_up(a.model, got);
    assert(b == uploaded(a.model, paint, Some(texture))) by {
        reveal(follow_up);
    }
    lemma_textured_outcome(a.model, paint, texture, width, height, chain, buffer);
    lemma_run_append(t, v, seq![got]);
    lemma_run_append(t, v + seq![got], rest);
    assert(run(t, v + seq![got] + rest).model =~= n.put(
        s,
        fitted_surface(old_s, slot, width, height, chain),
    ));
}

} // verus!
