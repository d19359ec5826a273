//! Finding out what the display that the window is on really shows.
//!
//! The outputs of the adapter are gone through in order until one drives the
//! monitor of the window; its mode and colour space are reported.

use vstd::prelude::*;
use crate::devices::CompositorDevices;
use crate::diagnostics::read_actual_output_mode;
use crate::protocol::{Handle, Hwnd};
use crate::state::State;

verus! {

/// A monitor, as the host names it.
pub type Monitor = u64;

/// The status of an enumeration that has come to its end.
pub const ERROR_NOT_FOUND: i32 = -2005270526;

/// Which reply is awaited.
#[derive(Clone, Copy, Debug, PartialEq, Eq)]
pub enum ProbeStage {
    Monitor,
    Output,
    Desc { output: Handle },
    Mode { output: Handle },
    Output6 { output: Handle, mode: Option<(u32, u32, u32)> },
    Desc1 { output6: Handle, mode: Option<(u32, u32, u32)> },
}

/// A search under way.
#[derive(Clone, Copy, Debug, PartialEq, Eq)]
pub struct OutputProbe {
    pub adapter3: Handle,
    pub hwnd: Hwnd,
    /// The monitor that the window is on, once known.
    pub monitor: Monitor,
    /// The output to look at next.
    pub index: u32,
    pub stage: ProbeStage,
}

/// The call to make.
#[derive(Clone, Copy, Debug, PartialEq, Eq)]
pub enum ProbeRequest {
    /// The monitor nearest to a window.
    MonitorOf { hwnd: Hwnd },
    EnumOutput { adapter3: Handle, index: u32 },
    /// The monitor that an output drives.
    MonitorOfOutput { output: Handle },
    /// The current mode of the display device of an output.
    DisplayMode { output: Handle },
    AsOutput6 { output: Handle },
    ColorSpace { output6: Handle },
}

#[derive(Clone, Copy, Debug, PartialEq, Eq)]
pub enum ProbeReply {
    Monitor(Monitor),
    /// A call that gives an object or a description failed with this status.
    Failed(i32),
    Object(Handle),
    /// The `BOOL` of the call, and what it filled in.
    Mode { ok: i32, width: u32, height: u32, frequency: u32 },
    ColorSpace { color_space: i32, bits_per_color: u32 },
}

/// What is known of the output.
#[derive(Clone, Copy, Debug, PartialEq, Eq)]
pub struct OutputReport {
    pub color_space: i32,
    pub bits_per_color: u32,
    pub mode: Option<(u32, u32, u32)>,
}

#[derive(Clone, Copy, Debug, PartialEq, Eq)]
pub enum ProbeOutcome {
    /// There is nothing to say.
    Nothing,
    /// The outputs could not be gone through to the end.
    EnumFailed { index: u32, status: i32 },
    /// The output was found, but does not tell its colour space.
    DescFailed { status: i32 },
    Report(OutputReport),
}

#[derive(Clone, Copy, Debug, PartialEq, Eq)]
pub enum ProbeStep {
    Ask(OutputProbe),
    Done(ProbeOutcome),
}

/// The search from its beginning; there is none without an adapter to ask.
pub open spec fn probe_start(devices: Option<CompositorDevices>) -> ProbeStep {
    match devices {
        Some(d) => match d.adapter3 {
            Some(adapter3) => ProbeStep::Ask(
                OutputProbe {
                    adapter3,
                    hwnd: d.hwnd,
                    monitor: 0,
                    index: 0,
                    stage: ProbeStage::Monitor,
                },
            ),
            None => ProbeStep::Done(ProbeOutcome::Nothing),
        },
        None => ProbeStep::Done(ProbeOutcome::Nothing),
    }
}

/// The call that a search waits on.
pub open spec fn probe_request(p: OutputProbe) -> ProbeRequest {
    match p.stage {
        ProbeStage::Monitor => ProbeRequest::MonitorOf { hwnd: p.hwnd },
        ProbeStage::Output => ProbeRequest::EnumOutput { adapter3: p.adapter3, index: p.index },
        ProbeStage::Desc { output } => ProbeRequest::MonitorOfOutput { output },
        ProbeStage::Mode { output } => ProbeRequest::DisplayMode { output },
        ProbeStage::Output6 { output, .. } => ProbeRequest::AsOutput6 { output },
        ProbeStage::Desc1 { output6, .. } => ProbeRequest::ColorSpace { output6 },
    }
}

/// Whether a reply is of the kind that a search waits on. The number of an
/// output fits into 32 bits.
pub open spec fn probe_expects(p: OutputProbe, reply: ProbeReply) -> bool {
    match p.stage {
        ProbeStage::Monitor => reply is Monitor,
        ProbeStage::Output => (reply is Object && p.index < u32::MAX) || reply is Failed,
        ProbeStage::Desc { .. } => reply is Monitor || reply is Failed,
        ProbeStage::Mode { .. } => reply is Mode,
        ProbeStage::Output6 { .. } => reply is Object || reply is Failed,
        ProbeStage::Desc1 { .. } => reply is ColorSpace || reply is Failed,
    }
}

/// What a reply makes of a search: an output that drives another monitor, or
/// does not say which, is passed over; the first that drives the right one is
/// the one.
pub open spec fn probe_next(p: OutputProbe, reply: ProbeReply) -> ProbeStep {
    match (p.stage, reply) {
        (ProbeStage::Monitor, ProbeReply::Monitor(monitor)) => ProbeStep::Ask(
            OutputProbe { monitor, stage: ProbeStage::Output, ..p },
        ),
        (ProbeStage::Output, ProbeReply::Object(output)) => ProbeStep::Ask(
            OutputProbe { index: (p.index + 1) as u32, stage: ProbeStage::Desc { output }, ..p },
        ),
        (ProbeStage::Output, ProbeReply::Failed(status)) => ProbeStep::Done(
            if status == ERROR_NOT_FOUND {
                ProbeOutcome::Nothing
            } else {
                ProbeOutcome::EnumFailed { index: p.index, status }
            },
        ),
        (ProbeStage::Desc { output }, ProbeReply::Monitor(monitor)) => ProbeStep::Ask(
            if monitor == p.monitor {
                OutputProbe { stage: ProbeStage::Mode { output }, ..p }
            } else {
                OutputProbe { stage: ProbeStage::Output, ..p }
            },
        ),
        (ProbeStage::Desc { .. }, ProbeReply::Failed(_)) => ProbeStep::Ask(
            OutputProbe { stage: ProbeStage::Output, ..p },
        ),
        (ProbeStage::Mode { output }, ProbeReply::Mode { ok, width, height, frequency }) => {
            ProbeStep::Ask(
                OutputProbe {
                    stage: ProbeStage::Output6 {
                        output,
                        mode: if ok != 0 {
                            Some((width, height, frequency))
                        } else {
                            None
                        },
                    },
                    ..p
                },
            )
        },
        (ProbeStage::Output6 { mode, .. }, ProbeReply::Object(output6)) => ProbeStep::Ask(
            OutputProbe { stage: ProbeStage::Desc1 { output6, mode }, ..p },
        ),
        (
            ProbeStage::Desc1 { mode, .. },
            ProbeReply::ColorSpace { color_space, bits_per_color },
        ) => ProbeStep::Done(
            ProbeOutcome::Report(OutputReport { color_space, bits_per_color, mode }),
        ),
        (ProbeStage::Desc1 { .. }, ProbeReply::Failed(status)) => ProbeStep::Done(
            ProbeOutcome::DescFailed { status },
        ),
        _ => ProbeStep::Done(ProbeOutcome::Nothing),
    }
}

/// Begins the search on these devices.
pub fn log_output_colorspace(devices: &CompositorDevices) -> (r: ProbeStep)
    ensures
        r == probe_start(Some(*devices)),
{
    match devices.adapter3 {
        Some(adapter3) => ProbeStep::Ask(
            OutputProbe {
                adapter3,
                hwnd: devices.hwnd,
                monitor: 0,
                index: 0,
                stage: ProbeStage::Monitor,
            },
        ),
        None => ProbeStep::Done(ProbeOutcome::Nothing),
    }
}

/// Begins the search on the devices there are, if there are any.
pub fn jfn_win_log_output_colorspace(st: &State) -> (r: ProbeStep)
    ensures
        r == probe_start(st@.devices),
{
    match st.devices {
        Some(d) => log_output_colorspace(&d),
        None => ProbeStep::Done(ProbeOutcome::Nothing),
    }
}

impl OutputProbe {
    /// The call to make.
    pub fn request(&self) -> (r: ProbeRequest)
        ensures
            r == probe_request(*self),
    {
        match self.stage {
            ProbeStage::Monitor => ProbeRequest::MonitorOf { hwnd: self.hwnd },
            ProbeStage::Output => ProbeRequest::EnumOutput {
                adapter3: self.adapter3,
                index: self.index,
            },
            ProbeStage::Desc { output } => ProbeRequest::MonitorOfOutput { output },
            ProbeStage::Mode { output } => ProbeRequest::DisplayMode { output },
            ProbeStage::Output6 { output, .. } => ProbeRequest::AsOutput6 { output },
            ProbeStage::Desc1 { output6, .. } => ProbeRequest::ColorSpace { output6 },
        }
    }

    pub fn accepts(&self, reply: &ProbeReply) -> (r: bool)
        ensures
            r == probe_expects(*self, *reply),
    {
        match (self.stage, *reply) {
            (ProbeStage::Monitor, ProbeReply::Monitor(_)) => true,
            (ProbeStage::Output, ProbeReply::Object(_)) => self.index < u32::MAX,
            (ProbeStage::Output, ProbeReply::Failed(_)) => true,
            (ProbeStage::Desc { .. }, ProbeReply::Monitor(_)) => true,
            (ProbeStage::Desc { .. }, ProbeReply::Failed(_)) => true,
            (ProbeStage::Mode { .. }, ProbeReply::Mode { .. }) => true,
            (ProbeStage::Output6 { .. }, ProbeReply::Object(_)) => true,
            (ProbeStage::Output6 { .. }, ProbeReply::Failed(_)) => true,
            (ProbeStage::Desc1 { .. }, ProbeReply::ColorSpace { .. }) => true,
            (ProbeStage::Desc1 { .. }, ProbeReply::Failed(_)) => true,
            _ => false,
        }
    }

    fn at(self, stage: ProbeStage) -> (r: ProbeStep)
        ensures
            r == ProbeStep::Ask(OutputProbe { stage, ..self }),
    {
        let mut p = self;
        p.stage = stage;
        ProbeStep::Ask(p)
    }

    /// Goes on with the reply to the call.
    pub fn next(self, reply: ProbeReply) -> (r: ProbeStep)
        requires
            probe_expects(self, reply),
        ensures
            r == probe_next(self, reply),
    {
        match (self.stage, reply) {
            (ProbeStage::Monitor, ProbeReply::Monitor(monitor)) => {
                let mut p = self;
                p.monitor = monitor;
                p.at(ProbeStage::Output)
            },
            (ProbeStage::Output, ProbeReply::Object(output)) => {
                let mut p = self;
                p.index = p.index + 1;
                p.at(ProbeStage::Desc { output })
            },
            (ProbeStage::Output, ProbeReply::Failed(status)) => {
                if status == ERROR_NOT_FOUND {
                    ProbeStep::Done(ProbeOutcome::Nothing)
                } else {
                    ProbeStep::Done(ProbeOutcome::EnumFailed { index: self.index, status })
                }
            },
            (ProbeStage::Desc { output }, ProbeReply::Monitor(monitor)) => {
                if monitor == self.monitor {
                    self.at(ProbeStage::Mode { output })
                } else {
                    self.at(ProbeStage::Output)
                }
            },
            (ProbeStage::Desc { .. }, ProbeReply::Failed(_)) => self.at(ProbeStage::Output),
            (ProbeStage::Mode { output }, ProbeReply::Mode { ok, width, height, frequency }) => {
                let mode = read_actual_output_mode(ok, width, height, frequency);
                self.at(ProbeStage::Output6 { output, mode })
            },
            (ProbeStage::Output6 { mode, .. }, ProbeReply::Object(output6)) => self.at(
                ProbeStage::Desc1 { output6, mode },
            ),
            (
                ProbeStage::Desc1 { mode, .. },
                ProbeReply::ColorSpace { color_space, bits_per_color },
            ) => ProbeStep::Done(
                ProbeOutcome::Report(OutputReport { color_space, bits_per_color, mode }),
            ),
            (ProbeStage::Desc1 { .. }, ProbeReply::Failed(status)) => ProbeStep::Done(
                ProbeOutcome::DescFailed { status },
            ),
            _ => ProbeStep::Done(ProbeOutcome::Nothing),
        }
    }
}

/// Whether these replies are expected one after the other.
pub open spec fn probe_conversation(step: ProbeStep, replies: Seq<ProbeReply>) -> bool
    decreases replies.len(),
{
    replies.len() > 0 ==> match step {
        ProbeStep::Ask(p) => probe_expects(p, replies[0]) && probe_conversation(
            probe_next(p, replies[0]),
            replies.drop_first(),
        ),
        ProbeStep::Done(_) => false,
    }
}

/// Where the replies lead to.
pub open spec fn probe_run(step: ProbeStep, replies: Seq<ProbeReply>) -> ProbeStep
    decreases replies.len(),
{
    if replies.len() == 0 {
        step
    } else {
        match step {
            ProbeStep::Ask(p) => probe_run(probe_next(p, replies[0]), replies.drop_first()),
            ProbeStep::Done(_) => step,
        }
    }
}

/// The replies that go through a row of outputs, each with what it says of the
/// monitor it drives.
pub open spec fn output_replies(outputs: Seq<(Handle, ProbeReply)>) -> Seq<ProbeReply>
    decreases outputs.len(),
{
    if outputs.len() == 0 {
        Seq::empty()
    } else {
        let (output, desc) = outputs[0];
        seq![ProbeReply::Object(output), desc] + output_replies(outputs.drop_first())
    }
}

/// The search stops at the first output that drives the monitor of the window,
/// and at no other.
pub proof fn lemma_first_output_on_the_monitor(
    p: OutputProbe,
    outputs: Seq<(Handle, ProbeReply)>,
)
    requires
        p.stage is Output,
        p.index + outputs.len() <= u32::MAX,
        outputs.len() > 0,
        forall|k: int|
            0 <= k < outputs.len() - 1 ==> (outputs[k].1 is Monitor || outputs[k].1 is Failed)
                && (#[trigger] outputs[k]).1 != ProbeReply::Monitor(p.monitor),
        outputs.last().1 == ProbeReply::Monitor(p.monitor),
    ensures
        probe_conversation(ProbeStep::Ask(p), output_replies(outputs)),
        probe_run(ProbeStep::Ask(p), output_replies(outputs)) == ProbeStep::Ask(
            OutputProbe {
                index: (p.index + outputs.len()) as u32,
                stage: ProbeStage::Mode { output: outputs.last().0 },
                ..p
            },
        ),
    decreases outputs.len(),
{
    let (output, desc) = outputs[0];
    let replies = output_replies(outputs);
    let rest = outputs.drop_first();
    let a = OutputProbe { index: (p.index + 1) as u32, stage: ProbeStage::Desc { output }, ..p };
    let b = probe_next(a, replies[1]);
    assert(replies[0] == ProbeReply::Object(output));
    assert(replies.drop_first().drop_first() =~= output_replies(rest));
    assert(replies.drop_first()[0] == replies[1]);
    assert(probe_next(p, replies[0]) == ProbeStep::Ask(a));
    if outputs.len() == 1 {
        assert(outputs.last() == outputs[0]);
        assert(output_replies(rest) =~= Seq::empty());
        assert(probe_conversation(b, output_replies(rest)));
        assert(probe_run(b, output_replies(rest)) == b);
    } else {
        assert(outputs[0].1 != ProbeReply::Monitor(p.monitor));
        let q = OutputProbe { stage: ProbeStage::Output, ..a };
        assert(b == ProbeStep::Ask(q));
        assert(rest.last() == outputs.last());
        assert forall|k: int| 0 <= k < rest.len() - 1 implies (rest[k].1 is Monitor
            || rest[k].1 is Failed) && (#[trigger] rest[k]).1 != ProbeReply::Monitor(q.monitor) by {
            assert(rest[k] == outputs[k + 1]);
        }
        lemma_first_output_on_the_monitor(q, rest);
    }
    assert(probe_conversation(ProbeStep::Ask(a), replies.drop_first()));
    assert(probe_run(ProbeStep::Ask(a), replies.drop_first()) == probe_run(
        b,
        output_replies(rest),
    ));
}

/// The calls of a search: the monitor of the window, then the outputs of the
/// adapter by their numbers, and of the one on that monitor its mode and colour
/// space.
pub proof fn lemma_output_calls(d: CompositorDevices, p: OutputProbe)
    ensures
        d.adapter3 is None ==> probe_start(Some(d)) == ProbeStep::Done(ProbeOutcome::Nothing),
        probe_start(None) == ProbeStep::Done(ProbeOutcome::Nothing),
        d.adapter3 matches Some(adapter3) ==> match probe_start(Some(d)) {
            ProbeStep::Ask(q) => q.adapter3 == adapter3 && q.index == 0 && probe_request(q) == (
            ProbeRequest::MonitorOf { hwnd: d.hwnd }),
            ProbeStep::Done(_) => false,
        },
        p.stage is Monitor ==> probe_request(p) == (ProbeRequest::MonitorOf { hwnd: p.hwnd }),
        p.stage is Output ==> probe_request(p) == (ProbeRequest::EnumOutput {
            adapter3: p.adapter3,
            index: p.index,
        }),
        p.stage matches ProbeStage::Desc { output } ==> probe_request(p) == (
        ProbeRequest::MonitorOfOutput { output }),
        p.stage matches ProbeStage::Mode { output } ==> probe_request(p) == (
        ProbeRequest::DisplayMode { output }),
        p.stage matches ProbeStage::Output6 { output, .. } ==> probe_request(p) == (
        ProbeRequest::AsOutput6 { output }),
        p.stage matches ProbeStage::Desc1 { output6, .. } ==> probe_request(p) == (
        ProbeRequest::ColorSpace { output6 }),
{
}

proof fn lemma_probe_append(step: ProbeStep, a: Seq<ProbeReply>, b: Seq<ProbeReply>)
    requires
        probe_conversation(step, a),
        probe_conversation(probe_run(step, a), b),
    ensures
        probe_conversation(step, a + b),
        probe_run(step, a + b) == probe_run(probe_run(step, a), b),
    decreases a.len(),
{
    if a.len() == 0 {
        assert(a + b =~= b);
    } else {
        assert((a + b).drop_first() =~= a.drop_first() + b);
        match step {
            ProbeStep::Ask(p) => {
                lemma_probe_append(probe_next(p, a[0]), a.drop_first(), b);
            },
            _ => {},
        }
    }
}

/// What a search comes to where an output drives the monitor of the window: the
/// colour space and the bit depth of that output, and its mode if that could be
/// read.
pub proof fn lemma_output_report(
    d: CompositorDevices,
    monitor: Monitor,
    outputs: Seq<(Handle, ProbeReply)>,
    ok: i32,
    mode: (u32, u32, u32),
    output6: Handle,
    color_space: i32,
    bits_per_color: u32,
)
    requires
        d.adapter3 is Some,
        0 < outputs.len() <= u32::MAX,
        forall|k: int|
            0 <= k < outputs.len() - 1 ==> (outputs[k].1 is Monitor || outputs[k].1 is Failed)
                && (#[trigger] outputs[k]).1 != ProbeReply::Monitor(monitor),
        outputs.last().1 == ProbeReply::Monitor(monitor),
    ensures
        ({
            let replies = seq![ProbeReply::Monitor(monitor)] + output_replies(outputs) + seq![
                ProbeReply::Mode { ok, width: mode.0, height: mode.1, frequency: mode.2 },
                ProbeReply::Object(output6),
                ProbeReply::ColorSpace { color_space, bits_per_color },
            ];
            &&& probe_conversation(probe_start(Some(d)), replies)
            &&& probe_run(probe_start(Some(d)), replies) == ProbeStep::Done(
                ProbeOutcome::Report(
                    OutputReport {
                        color_space,
                        bits_per_color,
                        mode: if ok != 0 {
                            Some(mode)
                        } else {
                            None
                        },
                    },
                ),
            )
        }),
{
    reveal_with_fuel(probe_conversation, 4);
    reveal_with_fuel(probe_run, 4);
    let start = probe_start(Some(d));
    let first = seq![ProbeReply::Monitor(monitor)];
    let p = OutputProbe {
        adapter3: d.adapter3->0,
        hwnd: d.hwnd,
        monitor,
        index: 0,
        stage: ProbeStage::Output,
    };
    assert(first.drop_first() =~= Seq::empty());
    assert(probe_conversation(start, first) && probe_run(start, first) == ProbeStep::Ask(p));
    lemma_first_output_on_the_monitor(p, outputs);
    lemma_probe_append(start, first, output_replies(outputs));
    let found = probe_run(start, first + output_replies(outputs));
    let last = seq![
        ProbeReply::Mode { ok, width: mode.0, height: mode.1, frequency: mode.2 },
        ProbeReply::Object(output6),
        ProbeReply::ColorSpace { color_space, bits_per_color },
    ];
    let l1 = last.drop_first();
    let l2 = l1.drop_first();
    assert(l1[0] == last[1] && l2[0] == last[2]);
    assert(l2.drop_first() =~= Seq::empty());
    assert(probe_conversation(found, last));
    lemma_probe_append(start, first + output_replies(outputs), last);
}

/// How a search ends early: an enumeration that has come to its end has nothing
/// to say; one that failed says where and how, with the number of the output
/// that it failed at; and an output that does not tell its colour space is said
/// to fail.
pub proof fn lemma_output_failures(p: OutputProbe, status: i32)
    ensures
        p.stage is Output ==> probe_next(p, ProbeReply::Failed(status)) == ProbeStep::Done(
            if status == -2005270526 {
                ProbeOutcome::Nothing
            } else {
                ProbeOutcome::EnumFailed { index: p.index, status }
            },
        ),
        p.stage is Desc ==> probe_next(p, ProbeReply::Failed(status)) == ProbeStep::Ask(
            OutputProbe { stage: ProbeStage::Output, ..p },
        ),
        p.stage is Output6 ==> probe_next(p, ProbeReply::Failed(status)) == ProbeStep::Done(
            ProbeOutcome::Nothing,
        ),
        p.stage is Desc1 ==> probe_next(p, ProbeReply::Failed(status)) == ProbeStep::Done(
            ProbeOutcome::DescFailed { status },
        ),
{
}

} // verus!
