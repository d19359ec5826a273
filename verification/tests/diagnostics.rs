use win_compositor::devices::CompositorDevices;
use win_compositor::diagnostics::{
    copy_was_slow, log_vram_usage, read_actual_output_mode, vram_adapter,
    wait_for_copy_completion, AccelPaintDiag, CopyWait, Growth, VideoMemory,
};
use win_compositor::output::{
    jfn_win_log_output_colorspace, log_output_colorspace, OutputProbe, OutputReport, ProbeOutcome,
    ProbeReply, ProbeRequest, ProbeStep, ERROR_NOT_FOUND,
};
use win_compositor::lifecycle::jfn_win_init_compositor;
use win_compositor::protocol::Reply;
use win_compositor::resume::resume;
use win_compositor::state::State;

fn devices(adapter3: Option<u64>) -> CompositorDevices {
    CompositorDevices {
        d3d_device: 102,
        d3d_context: 101,
        dxgi_factory: 105,
        adapter3,
        hwnd: 77,
        dcomp_device: 107,
        dcomp_target: 108,
        dcomp_root: 109,
    }
}

fn asking(step: ProbeStep) -> OutputProbe {
    match step {
        ProbeStep::Ask(p) => p,
        ProbeStep::Done(outcome) => panic!("unexpected outcome {:?}", outcome),
    }
}

fn next(p: OutputProbe, reply: ProbeReply) -> ProbeStep {
    assert!(p.accepts(&reply));
    p.next(reply)
}

#[test]
fn new_and_repeated_textures() {
    let mut d = AccelPaintDiag::new();
    let r = d.log_accel_paint_diag(7, 0);
    assert_eq!((r.frame_count, r.distinct_count), (1, 1));
    assert!(r.is_new && r.logged && !r.periodic);
    let r = d.log_accel_paint_diag(7, 1);
    assert_eq!((r.frame_count, r.distinct_count), (2, 1));
    assert!(!r.is_new && !r.logged);
    assert_eq!(r.growth, None);
}

#[test]
fn a_small_pool_is_counted_once() {
    let mut d = AccelPaintDiag::new();
    for i in 0..100 {
        d.log_accel_paint_diag(i % 8, i);
    }
    assert_eq!(d.distinct_count(), 8);
    assert_eq!(*d.recent_handles(), vec![0, 1, 2, 3, 4, 5, 6, 7]);
}

#[test]
fn a_larger_pool_is_counted_again_and_again() {
    let mut d = AccelPaintDiag::new();
    for i in 0..27 {
        d.log_accel_paint_diag(i % 9, i);
    }
    assert_eq!(d.distinct_count(), 27);
    assert_eq!(*d.recent_handles(), vec![1, 2, 3, 4, 5, 6, 7, 8]);
}

#[test]
fn periodic_reports_tell_the_growth() {
    let mut d = AccelPaintDiag::new();
    for i in 1..200 {
        assert!(!d.log_accel_paint_diag(5, i).periodic);
    }
    let r = d.log_accel_paint_diag(5, 1000);
    assert!(r.periodic && r.logged && !r.is_new);
    assert_eq!(r.frame_count, 200);
    assert_eq!(r.growth, None);
    for i in 0..199 {
        d.log_accel_paint_diag(if i < 3 { 100 + i } else { 5 }, 2000);
    }
    let r = d.log_accel_paint_diag(6, 4500);
    assert_eq!(r.growth, Some(Growth { new_handles: 4, elapsed: 3500 }));
    for _ in 0..199 {
        d.log_accel_paint_diag(6, 5000);
    }
    // A clock that went back counts as standing still.
    let r = d.log_accel_paint_diag(6, 10);
    assert_eq!(r.growth, Some(Growth { new_handles: 0, elapsed: 0 }));
}

#[test]
fn video_memory_in_megabytes() {
    let info = VideoMemory {
        current_usage: 3 * 1048576 + 1048575,
        budget: 1 << 33,
        current_reservation: 1048575,
        available_for_reservation: u64::MAX,
    };
    let mb = log_vram_usage(0, info).unwrap();
    assert_eq!(mb.usage_mb, 3);
    assert_eq!(mb.budget_mb, 8192);
    assert_eq!(mb.reservation_mb, 0);
    assert_eq!(mb.available_for_reservation_mb, 17592186044415);
    assert!(log_vram_usage(1, info).is_some());
    assert!(log_vram_usage(-1, info).is_none());
    assert_eq!(vram_adapter(&devices(Some(4))), Some(4));
    assert_eq!(vram_adapter(&devices(None)), None);
}

#[test]
fn waiting_for_a_copy() {
    assert_eq!(wait_for_copy_completion(0, 0), CopyWait::Again);
    assert_eq!(wait_for_copy_completion(0, 200_000_000), CopyWait::Again);
    assert_eq!(wait_for_copy_completion(0, 200_000_001), CopyWait::TimedOut);
    assert_eq!(wait_for_copy_completion(1, 0), CopyWait::Finished);
    assert_eq!(wait_for_copy_completion(-1, u64::MAX), CopyWait::Finished);
    assert!(!copy_was_slow(1_000_000));
    assert!(copy_was_slow(1_000_001));
}

#[test]
fn a_display_mode_that_could_be_read() {
    assert_eq!(read_actual_output_mode(1, 3840, 2160, 60), Some((3840, 2160, 60)));
    assert_eq!(read_actual_output_mode(-1, 3840, 2160, 60), Some((3840, 2160, 60)));
    assert_eq!(read_actual_output_mode(0, 3840, 2160, 60), None);
}

#[test]
fn the_output_of_the_window_is_reported() {
    let p = asking(log_output_colorspace(&devices(Some(106))));
    assert_eq!(p.request(), ProbeRequest::MonitorOf { hwnd: 77 });
    let p = asking(next(p, ProbeReply::Monitor(9)));
    assert_eq!(p.request(), ProbeRequest::EnumOutput { adapter3: 106, index: 0 });
    let p = asking(next(p, ProbeReply::Object(300)));
    assert_eq!(p.request(), ProbeRequest::MonitorOfOutput { output: 300 });
    // Another monitor, then one that does not say which.
    let p = asking(next(p, ProbeReply::Monitor(8)));
    assert_eq!(p.request(), ProbeRequest::EnumOutput { adapter3: 106, index: 1 });
    let p = asking(next(p, ProbeReply::Object(301)));
    let p = asking(next(p, ProbeReply::Failed(-1)));
    assert_eq!(p.request(), ProbeRequest::EnumOutput { adapter3: 106, index: 2 });
    let p = asking(next(p, ProbeReply::Object(302)));
    let p = asking(next(p, ProbeReply::Monitor(9)));
    assert_eq!(p.request(), ProbeRequest::DisplayMode { output: 302 });
    let mode = ProbeReply::Mode { ok: 1, width: 3840, height: 2160, frequency: 24 };
    let p = asking(next(p, mode));
    assert_eq!(p.request(), ProbeRequest::AsOutput6 { output: 302 });
    let p = asking(next(p, ProbeReply::Object(303)));
    assert_eq!(p.request(), ProbeRequest::ColorSpace { output6: 303 });
    let colors = ProbeReply::ColorSpace { color_space: 12, bits_per_color: 10 };
    assert_eq!(
        next(p, colors),
        ProbeStep::Done(ProbeOutcome::Report(OutputReport {
            color_space: 12,
            bits_per_color: 10,
            mode: Some((3840, 2160, 24)),
        }))
    );
    assert_eq!(
        next(p, ProbeReply::Failed(-5)),
        ProbeStep::Done(ProbeOutcome::DescFailed { status: -5 })
    );
}

#[test]
fn outputs_that_run_out() {
    let p = asking(log_output_colorspace(&devices(Some(106))));
    let p = asking(next(p, ProbeReply::Monitor(9)));
    assert_eq!(
        next(p, ProbeReply::Failed(ERROR_NOT_FOUND)),
        ProbeStep::Done(ProbeOutcome::Nothing)
    );
    assert_eq!(
        next(p, ProbeReply::Failed(-3)),
        ProbeStep::Done(ProbeOutcome::EnumFailed { index: 0, status: -3 })
    );
    assert!(!p.accepts(&ProbeReply::Monitor(9)));
}

#[test]
fn an_output_without_colour_space_interface() {
    let p = asking(log_output_colorspace(&devices(Some(106))));
    let p = asking(next(p, ProbeReply::Monitor(9)));
    let p = asking(next(p, ProbeReply::Object(300)));
    let p = asking(next(p, ProbeReply::Monitor(9)));
    let mode = ProbeReply::Mode { ok: 0, width: 1, height: 2, frequency: 3 };
    let p = asking(next(p, mode));
    assert_eq!(next(p, ProbeReply::Failed(-1)), ProbeStep::Done(ProbeOutcome::Nothing));
}

#[test]
fn every_frame_counts_when_no_texture_comes_back() {
    let mut d = AccelPaintDiag::new();
    for i in 0..500 {
        d.log_accel_paint_diag(1000 + i, i);
    }
    assert_eq!((d.distinct_count(), d.frame_count()), (500, 500));
}

#[test]
fn the_count_lies_between_textures_and_frames() {
    let mut d = AccelPaintDiag::new();
    // Twelve textures, each shown twice in a row, twice over.
    for i in 0..48 {
        d.log_accel_paint_diag(i / 2 % 12, i);
    }
    assert_eq!((d.distinct_count(), d.frame_count()), (24, 48));
}

fn set_up(adapter3: Reply) -> State {
    let mut st = State::new();
    jfn_win_init_compositor(&mut st, 77);
    resume(&mut st, Reply::Device { status: 0, device: Some(100), context: Some(101) });
    for h in 102..106 {
        resume(&mut st, Reply::Object(h));
    }
    resume(&mut st, adapter3);
    for h in 107..110 {
        resume(&mut st, Reply::Object(h));
    }
    resume(&mut st, Reply::Status(0));
    resume(&mut st, Reply::Status(0));
    st
}

#[test]
fn nothing_to_ask_about_outputs() {
    let st = State::new();
    assert_eq!(jfn_win_log_output_colorspace(&st), ProbeStep::Done(ProbeOutcome::Nothing));
    let st = set_up(Reply::NoObject);
    assert!(st.devices().is_some());
    assert_eq!(jfn_win_log_output_colorspace(&st), ProbeStep::Done(ProbeOutcome::Nothing));
    let st = set_up(Reply::Object(106));
    let p = asking(jfn_win_log_output_colorspace(&st));
    assert_eq!(p.request(), ProbeRequest::MonitorOf { hwnd: 77 });
}
