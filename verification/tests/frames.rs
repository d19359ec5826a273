use win_compositor::gate::PresentDecision;
use win_compositor::lifecycle::{
    jfn_win_init_compositor, jfn_win_rebind_compositor_hwnd, win_alloc_surface, win_restack,
};
use win_compositor::paint::{
    has_memory_frame, has_shared_frame, has_size, win_popup_present, win_popup_present_software, win_surface_present,
    win_surface_present_software, win_surface_resize,
};
use win_compositor::popup::{win_popup_hide, win_popup_show};
use win_compositor::protocol::{
    AlphaMode, Answer, BindFlags, BufferUsage, Effect, InitCall, Next, PixelData, PixelFormat,
    Reply, Request, Slot, SwapChainDesc, SwapEffect, TextureDesc, TextureUsage, Turn,
};
use win_compositor::resume::resume;
use win_compositor::state::State;
use win_compositor::transition::{jfn_win_update_surface_size, win_surface_set_visible};

const LOST: i32 = -2005270523;

fn ask(turn: Turn) -> (Vec<Effect>, Request) {
    match turn.next {
        Next::Ask(request) => (turn.effects, request),
        Next::Return(answer) => panic!("unexpected answer {:?}", answer),
    }
}

fn answer(turn: Turn) -> (Vec<Effect>, Answer) {
    match turn.next {
        Next::Return(answer) => (turn.effects, answer),
        Next::Ask(request) => panic!("unexpected request {:?}", request),
    }
}

fn go(st: &mut State, reply: Reply) -> Turn {
    assert!(st.accepts(&reply));
    resume(st, reply)
}

fn init_replies(base: u64) -> Vec<Reply> {
    let mut replies =
        vec![Reply::Device { status: 0, device: Some(base), context: Some(base + 1) }];
    for i in 2..10 {
        replies.push(Reply::Object(base + i));
    }
    replies.push(Reply::Status(0));
    replies.push(Reply::Status(0));
    replies
}

/// Devices for window 77, two surfaces, the first of them the main one.
fn ready() -> State {
    let mut st = State::new();
    jfn_win_init_compositor(&mut st, 77);
    for reply in init_replies(100) {
        go(&mut st, reply);
    }
    for visual in [201, 203] {
        win_alloc_surface(&mut st);
        go(&mut st, Reply::Object(visual));
        go(&mut st, Reply::Object(visual + 1));
        go(&mut st, Reply::Status(0));
    }
    win_restack(&mut st, vec![1, 2]);
    go(&mut st, Reply::Status(0));
    go(&mut st, Reply::Status(0));
    assert!(st.is_idle());
    st
}

fn size(width: u32, height: u32) -> Reply {
    Reply::Size { width, height }
}

/// Shows a shared texture on surface 2 and has every call succeed.
fn show(st: &mut State, chain: u64, width: u32, height: u32) {
    win_surface_present(st, 2, Some(900));
    go(st, Reply::Object(500));
    go(st, size(width, height));
    go(st, Reply::Object(chain));
    go(st, Reply::Object(501));
    assert_eq!(answer(go(st, Reply::Status(0))).1, Answer::Flag(true));
}

/// Loses the devices of a ready state: a rebuild is tried and fails.
fn without_devices() -> State {
    let mut st = ready();
    jfn_win_rebind_compositor_hwnd(&mut st, 77);
    go(&mut st, Reply::Device { status: -1, device: None, context: None });
    assert!(st.is_idle() && st.devices().is_none());
    st
}

#[test]
fn a_shared_frame_from_end_to_end() {
    let mut st = ready();
    let (effects, request) = ask(win_surface_present(&mut st, 2, Some(900)));
    assert!(effects.is_empty());
    assert_eq!(request, Request::OpenSharedTexture { device: 102, shared_texture: 900 });
    let (_, request) = ask(go(&mut st, Reply::Object(500)));
    assert_eq!(request, Request::TextureSize { texture: 500 });
    let (effects, request) = ask(go(&mut st, size(640, 480)));
    assert!(effects.is_empty());
    assert_eq!(
        request,
        Request::CreateSwapChain {
            factory: 105,
            device: 102,
            chain_desc: SwapChainDesc {
                width: 640,
                height: 480,
                format: PixelFormat::B8G8R8A8Unorm,
                sample_count: 1,
                sample_quality: 0,
                buffer_usage: BufferUsage::RenderTargetOutput,
                buffer_count: 2,
                swap_effect: SwapEffect::FlipSequential,
                alpha_mode: AlphaMode::Premultiplied,
            },
        }
    );
    let (effects, request) = ask(go(&mut st, Reply::Object(600)));
    assert_eq!(
        effects,
        vec![
            Effect::SetContent { visual: 203, content: Some(600) },
            Effect::NoteAccelPaint {
                slot: Slot::Main,
                shared_texture: 900,
                width: 640,
                height: 480,
            },
        ]
    );
    assert_eq!(request, Request::GetBuffer { chain: 600, index: 0 });
    let (effects, request) = ask(go(&mut st, Reply::Object(501)));
    assert_eq!(
        effects,
        vec![
            Effect::CopyResource { context: 101, target: 501, source: 500 },
            Effect::AwaitCopy { device: 102, context: 101 },
        ]
    );
    assert_eq!(request, Request::Present { chain: 600, sync_interval: 0, flags: 0 });
    let (effects, result) = answer(go(&mut st, Reply::Status(0)));
    assert_eq!(effects, vec![Effect::Commit { device: 107 }]);
    assert_eq!(result, Answer::Flag(true));
    let s = st.surfaces().get(2);
    assert_eq!((s.swap_chain, s.sw, s.sh), (Some(600), 640, 480));
    // The textures are let go with the frame, the swap chain is kept.
    assert!(!st.references(500) && !st.references(501));
    assert!(st.references(600));
    assert_eq!(st.surfaces().get(1).swap_chain, None);
}

#[test]
fn a_frame_of_the_same_size_uses_the_swap_chain() {
    let mut st = ready();
    show(&mut st, 600, 640, 480);
    win_surface_present(&mut st, 2, Some(900));
    go(&mut st, Reply::Object(500));
    let (_, request) = ask(go(&mut st, size(640, 480)));
    assert_eq!(request, Request::GetBuffer { chain: 600, index: 0 });
}

#[test]
fn a_frame_of_another_size_resizes_the_swap_chain() {
    let mut st = ready();
    show(&mut st, 600, 640, 480);
    win_surface_present(&mut st, 2, Some(900));
    go(&mut st, Reply::Object(500));
    let (_, request) = ask(go(&mut st, size(800, 600)));
    assert_eq!(
        request,
        Request::ResizeBuffers {
            chain: 600,
            buffer_count: 2,
            width: 800,
            height: 600,
            format: PixelFormat::B8G8R8A8Unorm,
            flags: 0,
        }
    );
    let (_, request) = ask(go(&mut st, Reply::Status(0)));
    assert_eq!(request, Request::GetBuffer { chain: 600, index: 0 });
    let s = st.surfaces().get(2);
    assert_eq!((s.swap_chain, s.sw, s.sh), (Some(600), 800, 600));
}

#[test]
fn a_failed_resize_makes_a_new_swap_chain() {
    let mut st = ready();
    show(&mut st, 600, 640, 480);
    win_surface_present(&mut st, 2, Some(900));
    go(&mut st, Reply::Object(500));
    go(&mut st, size(800, 600));
    let (_, request) = ask(go(&mut st, Reply::Status(-1)));
    assert_eq!(request, Request::DeviceRemovedReason { device: 102 });
    let (effects, request) = ask(go(&mut st, Reply::Status(0)));
    assert_eq!(effects, vec![Effect::SetContent { visual: 203, content: None }]);
    assert!(matches!(request, Request::CreateSwapChain { .. }));
    // Without a new swap chain the frame is not taken, and the old one is gone.
    let (effects, result) = answer(go(&mut st, Reply::NoObject));
    assert!(effects.is_empty());
    assert_eq!(result, Answer::Flag(false));
    assert_eq!(st.surfaces().get(2).swap_chain, None);
    assert!(!st.references(600));
}

#[test]
fn a_failed_resize_on_a_lost_device_recovers() {
    let mut st = ready();
    show(&mut st, 600, 640, 480);
    win_surface_present(&mut st, 2, Some(900));
    go(&mut st, Reply::Object(500));
    go(&mut st, size(800, 600));
    go(&mut st, Reply::Status(-1));
    let (effects, request) = ask(go(&mut st, Reply::Status(LOST)));
    assert_eq!(effects[0], Effect::SetContent { visual: 203, content: None });
    assert_eq!(request, Request::Init(InitCall::CreateD3dDevice));
    // The rebuild fails; the frame is not taken.
    let failed = Reply::Device { status: -1, device: None, context: None };
    assert_eq!(answer(go(&mut st, failed)).1, Answer::Flag(false));
}

#[test]
fn a_frame_that_cannot_be_presented_is_not_taken() {
    let mut st = ready();
    show(&mut st, 600, 640, 480);
    win_surface_present(&mut st, 2, Some(900));
    go(&mut st, Reply::Object(500));
    go(&mut st, size(640, 480));
    go(&mut st, Reply::Object(501));
    let (_, request) = ask(go(&mut st, Reply::Status(-1)));
    assert_eq!(request, Request::DeviceRemovedReason { device: 102 });
    let (effects, result) = answer(go(&mut st, Reply::Status(0)));
    assert_eq!(effects, vec![Effect::Commit { device: 107 }]);
    assert_eq!(result, Answer::Flag(false));
    assert!(st.devices().is_some());
}

#[test]
fn a_frame_without_back_buffer_is_not_taken() {
    let mut st = ready();
    show(&mut st, 600, 640, 480);
    win_surface_present(&mut st, 2, Some(900));
    go(&mut st, Reply::Object(500));
    go(&mut st, size(640, 480));
    ask(go(&mut st, Reply::NoObject));
    let (effects, result) = answer(go(&mut st, Reply::Status(0)));
    assert!(effects.is_empty());
    assert_eq!(result, Answer::Flag(false));
}

#[test]
fn a_frame_on_a_lost_device_is_taken_after_a_rebuild() {
    let mut st = ready();
    show(&mut st, 600, 640, 480);
    win_surface_present(&mut st, 2, Some(900));
    go(&mut st, Reply::Object(500));
    go(&mut st, size(640, 480));
    go(&mut st, Reply::Object(501));
    go(&mut st, Reply::Status(LOST));
    let (effects, request) = ask(go(&mut st, Reply::Status(LOST)));
    assert_eq!(effects[0], Effect::Commit { device: 107 });
    assert_eq!(effects.len(), 9);
    assert_eq!(request, Request::Init(InitCall::CreateD3dDevice));
    for reply in init_replies(300) {
        go(&mut st, reply);
    }
    for h in [401, 402, 403, 404] {
        go(&mut st, Reply::Object(h));
    }
    let (effects, request) = ask(Turn {
        effects: Vec::new(),
        next: Next::Ask(st.current_request()),
    });
    assert!(effects.is_empty());
    assert_eq!(
        request,
        Request::AddVisual { parent: 309, child: 401, insert_above: false, reference: None }
    );
    let (_, request) = ask(go(&mut st, Reply::Status(0)));
    assert_eq!(
        request,
        Request::AddVisual { parent: 309, child: 403, insert_above: true, reference: Some(401) }
    );
    let (effects, result) = answer(go(&mut st, Reply::Status(0)));
    assert_eq!(effects, vec![Effect::Commit { device: 307 }]);
    assert_eq!(result, Answer::Flag(true));
    // Same surfaces, same order, same visibility; new visuals, no swap chain.
    assert_eq!(*st.surfaces().live(), vec![1, 2]);
    assert_eq!(*st.surfaces().stack(), vec![1, 2]);
    let s = st.surfaces().get(2);
    assert_eq!((s.visual, s.popup_visual), (Some(403), Some(404)));
    assert_eq!((s.swap_chain, s.sw, s.sh), (None, 0, 0));
    assert!(s.visible && s.in_tree);
    assert!(!st.references(600) && !st.references(203) && !st.references(107));
}

#[test]
fn a_recovery_that_failed_is_tried_again_with_the_next_frame() {
    let mut st = ready();
    show(&mut st, 600, 640, 480);
    win_surface_present(&mut st, 2, Some(900));
    go(&mut st, Reply::Object(500));
    go(&mut st, size(640, 480));
    go(&mut st, Reply::NoObject);
    go(&mut st, Reply::Status(LOST));
    let failed = Reply::Device { status: -1, device: None, context: None };
    assert_eq!(answer(go(&mut st, failed)).1, Answer::Flag(true));
    assert!(st.devices().is_none());
    let (_, request) = ask(win_surface_present(&mut st, 2, Some(900)));
    assert_eq!(request, Request::Init(InitCall::CreateD3dDevice));
    // This time it works, and the frame goes on.
    for reply in init_replies(300) {
        go(&mut st, reply);
    }
    for h in [401, 402, 403, 404] {
        go(&mut st, Reply::Object(h));
    }
    go(&mut st, Reply::Status(0));
    let (effects, request) = ask(go(&mut st, Reply::Status(0)));
    assert_eq!(effects, vec![Effect::Commit { device: 307 }]);
    assert_eq!(request, Request::OpenSharedTexture { device: 302, shared_texture: 900 });
}

#[test]
fn a_retry_that_fails_drops_the_frame() {
    let mut st = without_devices();
    win_surface_present(&mut st, 2, Some(900));
    let failed = Reply::Device { status: -1, device: None, context: None };
    assert_eq!(answer(go(&mut st, failed)).1, Answer::Flag(false));
    // Pixels for the main surface are still decided on.
    win_surface_present_software(&mut st, 1, 4096, 10, 10);
    let failed = Reply::Device { status: -1, device: None, context: None };
    let (_, request) = ask(go(&mut st, failed));
    assert!(matches!(request, Request::JudgeMainFrame { frame: (10, 10), .. }));
    let present = Reply::Decision(PresentDecision::Present);
    assert_eq!(answer(go(&mut st, present)).1, Answer::Flag(false));
}

#[test]
fn a_visual_that_cannot_be_made_anew_leaves_its_surface_out() {
    let mut st = without_devices();
    win_surface_present(&mut st, 2, Some(900));
    for reply in init_replies(300) {
        go(&mut st, reply);
    }
    go(&mut st, Reply::NoObject);
    go(&mut st, Reply::Object(403));
    let (_, request) = ask(go(&mut st, Reply::NoObject));
    assert_eq!(
        request,
        Request::AddVisual { parent: 309, child: 403, insert_above: false, reference: None }
    );
    go(&mut st, Reply::Status(0));
    assert_eq!(*st.surfaces().stack(), vec![2]);
    assert_eq!(st.surfaces().get(1).visual, None);
    assert_eq!(st.surfaces().get(2).popup_visual, None);
    assert!(st.surfaces().is_main(2));
}

#[test]
fn null_arguments_are_not_painted() {
    let mut st = ready();
    assert_eq!(answer(win_surface_present(&mut st, 0, Some(900))).1, Answer::Flag(false));
    assert_eq!(answer(win_surface_present(&mut st, 1, None)).1, Answer::Flag(false));
    assert_eq!(answer(win_surface_present(&mut st, 1, Some(0))).1, Answer::Flag(false));
    for (s, buffer, w, h) in
        [(0, 4096, 1, 1), (1, 0, 1, 1), (1, 4096, 0, 1), (1, 4096, 1, 0), (1, 4096, -3, 4)]
    {
        let turn = win_surface_present_software(&mut st, s, buffer, w, h);
        assert_eq!(answer(turn).1, Answer::Flag(false));
        let turn = win_popup_present_software(&mut st, s, buffer, w, h, 0, 0);
        assert_eq!(answer(turn).1, Answer::Unit);
    }
    assert_eq!(answer(win_popup_present(&mut st, 0, Some(900), 0, 0)).1, Answer::Unit);
    assert_eq!(answer(win_popup_present(&mut st, 1, None, 0, 0)).1, Answer::Unit);
}

#[test]
fn a_texture_that_cannot_be_opened_is_not_shown() {
    let mut st = ready();
    win_surface_present(&mut st, 2, Some(900));
    assert_eq!(answer(go(&mut st, Reply::NoObject)).1, Answer::Flag(false));
}

#[test]
fn a_hidden_surface_is_not_painted() {
    let mut st = ready();
    show(&mut st, 600, 640, 480);
    let (effects, _) = answer(win_surface_set_visible(&mut st, 2, false));
    assert_eq!(
        effects,
        vec![
            Effect::SetContent { visual: 203, content: None },
            Effect::Commit { device: 107 },
        ]
    );
    let s = st.surfaces().get(2);
    assert_eq!((s.visible, s.swap_chain, s.sw, s.sh), (false, None, 0, 0));
    win_surface_present(&mut st, 2, Some(900));
    go(&mut st, Reply::Object(500));
    assert_eq!(answer(go(&mut st, size(640, 480))).1, Answer::Flag(false));
    // Shown again, it is empty until its next frame.
    let (effects, _) = answer(win_surface_set_visible(&mut st, 2, true));
    assert_eq!(effects, vec![Effect::Commit { device: 107 }]);
    assert_eq!(st.surfaces().get(2).swap_chain, None);
    // The visibility it has already changes nothing.
    let (effects, _) = answer(win_surface_set_visible(&mut st, 2, true));
    assert!(effects.is_empty());
    show(&mut st, 601, 640, 480);
}

#[test]
fn frames_of_the_main_surface_are_decided_on() {
    let mut st = ready();
    win_surface_present(&mut st, 1, Some(900));
    go(&mut st, Reply::Object(500));
    let (_, request) = ask(go(&mut st, size(640, 480)));
    assert_eq!(request, Request::JudgeMainFrame { gate: st.gate(), frame: (640, 480) });
    let reject = Reply::Decision(PresentDecision::Reject);
    let (effects, result) = answer(go(&mut st, reject));
    assert!(effects.is_empty());
    assert_eq!(result, Answer::Flag(false));
    win_surface_present(&mut st, 1, Some(900));
    go(&mut st, Reply::Object(500));
    go(&mut st, size(640, 480));
    let (_, request) = ask(go(&mut st, Reply::Decision(PresentDecision::Present)));
    assert!(matches!(request, Request::CreateSwapChain { .. }));
}

#[test]
fn a_main_frame_larger_than_the_window_is_not_shown() {
    for (w, h, shown) in
        [(802, 602, true), (803, 600, false), (800, 603, false), (10, 10, true)]
    {
        let mut st = ready();
        jfn_win_update_surface_size(&mut st, 400, 300, 800, 600, false);
        win_surface_present(&mut st, 1, Some(900));
        go(&mut st, Reply::Object(500));
        go(&mut st, size(w, h));
        let turn = go(&mut st, Reply::Decision(PresentDecision::Present));
        if shown {
            assert!(matches!(ask(turn).1, Request::CreateSwapChain { .. }));
        } else {
            assert_eq!(answer(turn).1, Answer::Flag(false));
        }
    }
}

#[test]
fn other_surfaces_and_unknown_windows_have_no_size_limit() {
    let mut st = ready();
    jfn_win_update_surface_size(&mut st, 400, 300, 800, 600, false);
    win_surface_present(&mut st, 2, Some(900));
    go(&mut st, Reply::Object(500));
    assert!(matches!(ask(go(&mut st, size(4000, 4000))).1, Request::CreateSwapChain { .. }));
    let mut st = ready();
    win_surface_present(&mut st, 1, Some(900));
    go(&mut st, Reply::Object(500));
    go(&mut st, size(4000, 4000));
    let turn = go(&mut st, Reply::Decision(PresentDecision::Present));
    assert!(matches!(ask(turn).1, Request::CreateSwapChain { .. }));
}

#[test]
fn a_texture_without_size_leaves_the_swap_chain_as_it_is() {
    let mut st = ready();
    win_surface_present(&mut st, 2, Some(900));
    go(&mut st, Reply::Object(500));
    assert_eq!(answer(go(&mut st, size(0, 480))).1, Answer::Flag(false));
    show(&mut st, 600, 640, 480);
    win_surface_present(&mut st, 2, Some(900));
    go(&mut st, Reply::Object(500));
    // A size beyond 31 bits counts as negative.
    let (effects, request) = ask(go(&mut st, size(u32::MAX, 480)));
    assert_eq!(
        effects,
        vec![Effect::NoteAccelPaint {
            slot: Slot::Main,
            shared_texture: 900,
            width: -1,
            height: 480,
        }]
    );
    assert_eq!(request, Request::GetBuffer { chain: 600, index: 0 });
    assert_eq!(st.surfaces().get(2).sw, 640);
}

#[test]
fn pixels_in_memory_become_a_texture() {
    let mut st = ready();
    let (effects, request) = ask(win_surface_present_software(&mut st, 2, 4096, 30, 20));
    assert!(effects.is_empty());
    assert_eq!(
        request,
        Request::CreateTexture {
            device: 102,
            texture_desc: TextureDesc {
                width: 30,
                height: 20,
                mip_levels: 1,
                array_size: 1,
                format: PixelFormat::B8G8R8A8Unorm,
                sample_count: 1,
                sample_quality: 0,
                usage: TextureUsage::Default,
                bind_flags: BindFlags::ShaderResource,
            },
            data: PixelData { address: 4096, row_pitch: 120 },
        }
    );
    go(&mut st, Reply::Object(500));
    let (effects, _) = ask(go(&mut st, Reply::Object(600)));
    // Only shared textures are counted.
    assert_eq!(effects, vec![Effect::SetContent { visual: 203, content: Some(600) }]);
    go(&mut st, Reply::Object(501));
    assert_eq!(answer(go(&mut st, Reply::Status(0))).1, Answer::Flag(true));
    assert_eq!((st.surfaces().get(2).sw, st.surfaces().get(2).sh), (30, 20));
}

#[test]
fn pixels_that_cannot_be_uploaded_are_not_shown() {
    let mut st = ready();
    win_surface_present_software(&mut st, 2, 4096, 30, 20);
    assert_eq!(answer(go(&mut st, Reply::NoObject)).1, Answer::Flag(false));
}

#[test]
fn pixels_for_the_main_surface_are_decided_on_but_not_limited() {
    let mut st = ready();
    jfn_win_update_surface_size(&mut st, 4, 3, 8, 6, false);
    let (_, request) = ask(win_surface_present_software(&mut st, 1, 4096, 30, 20));
    assert_eq!(request, Request::JudgeMainFrame { gate: st.gate(), frame: (30, 20) });
    let (_, request) = ask(go(&mut st, Reply::Decision(PresentDecision::Present)));
    assert!(matches!(request, Request::CreateTexture { .. }));
    go(&mut st, Reply::NoObject);
    win_surface_present_software(&mut st, 1, 4096, 30, 20);
    let reject = Reply::Decision(PresentDecision::Reject);
    assert_eq!(answer(go(&mut st, reject)).1, Answer::Flag(false));
}

#[test]
fn resizing_a_surface_brings_its_swap_chain_along() {
    let mut st = ready();
    // Nothing to resize yet.
    let (effects, _) = answer(win_surface_resize(&mut st, 2, 0, 0, 800, 600));
    assert!(effects.is_empty());
    show(&mut st, 600, 640, 480);
    let (_, request) = ask(win_surface_resize(&mut st, 2, 0, 0, 800, 600));
    assert!(matches!(request, Request::ResizeBuffers { chain: 600, width: 800, height: 600, .. }));
    let (effects, result) = answer(go(&mut st, Reply::Status(0)));
    assert_eq!(effects, vec![Effect::Commit { device: 107 }]);
    assert_eq!(result, Answer::Unit);
    assert_eq!((st.surfaces().get(2).sw, st.surfaces().get(2).sh), (800, 600));
    // The size it has already is only committed.
    let (effects, _) = answer(win_surface_resize(&mut st, 2, 0, 0, 800, 600));
    assert_eq!(effects, vec![Effect::Commit { device: 107 }]);
    for (s, pw, ph) in [(0, 8, 6), (2, 0, 6), (2, 8, -6)] {
        let (effects, _) = answer(win_surface_resize(&mut st, s, 0, 0, pw, ph));
        assert!(effects.is_empty());
    }
}

#[test]
fn resizing_on_a_lost_device_recovers() {
    let mut st = ready();
    show(&mut st, 600, 640, 480);
    win_surface_resize(&mut st, 2, 0, 0, 800, 600);
    go(&mut st, Reply::Status(-1));
    let (effects, request) = ask(go(&mut st, Reply::Status(LOST)));
    assert_eq!(effects[0], Effect::SetContent { visual: 203, content: None });
    assert_eq!(effects[1], Effect::Commit { device: 107 });
    assert_eq!(request, Request::Init(InitCall::CreateD3dDevice));
    let failed = Reply::Device { status: -1, device: None, context: None };
    assert_eq!(answer(go(&mut st, failed)).1, Answer::Unit);
}

#[test]
fn a_popup_from_showing_to_hiding() {
    let mut st = ready();
    // A hidden popup is opened and measured, but not shown.
    win_popup_present(&mut st, 1, Some(900), 0, 0);
    go(&mut st, Reply::Object(500));
    assert_eq!(answer(go(&mut st, size(64, 48))).1, Answer::Unit);
    let (effects, result) = answer(win_popup_show(&mut st, 1, 15, -7));
    assert_eq!(effects, vec![Effect::SetOffset { visual: 202, x: 15, y: -7 }]);
    assert_eq!(result, Answer::Unit);
    assert!(st.surfaces().get(1).popup_visible);
    // The popup of the main surface is not decided on.
    win_popup_present(&mut st, 1, Some(900), 0, 0);
    go(&mut st, Reply::Object(500));
    let (_, request) = ask(go(&mut st, size(64, 48)));
    assert!(matches!(request, Request::CreateSwapChain { .. }));
    let (effects, _) = ask(go(&mut st, Reply::Object(600)));
    assert_eq!(
        effects,
        vec![
            Effect::SetContent { visual: 202, content: Some(600) },
            Effect::NoteAccelPaint {
                slot: Slot::Popup,
                shared_texture: 900,
                width: 64,
                height: 48,
            },
        ]
    );
    go(&mut st, Reply::Object(501));
    assert_eq!(answer(go(&mut st, Reply::Status(0))).1, Answer::Unit);
    let s = st.surfaces().get(1);
    assert_eq!((s.popup_swap_chain, s.popup_sw, s.popup_sh), (Some(600), 64, 48));
    assert_eq!(s.swap_chain, None);
    let (effects, _) = answer(win_popup_hide(&mut st, 1));
    assert_eq!(
        effects,
        vec![
            Effect::SetContent { visual: 202, content: None },
            Effect::Commit { device: 107 },
        ]
    );
    let s = st.surfaces().get(1);
    assert_eq!((s.popup_swap_chain, s.popup_sw, s.popup_sh), (None, 0, 0));
    assert!(!s.popup_visible);
    assert!(!st.references(600));
}

#[test]
fn a_hidden_popup_is_not_uploaded() {
    let mut st = ready();
    let turn = win_popup_present_software(&mut st, 1, 4096, 30, 20, 0, 0);
    assert_eq!(answer(turn).1, Answer::Unit);
    win_popup_show(&mut st, 1, 0, 0);
    let (_, request) = ask(win_popup_present_software(&mut st, 1, 4096, 30, 20, 0, 0));
    assert!(matches!(request, Request::CreateTexture { .. }));
}

#[test]
fn popups_without_surface_or_visual() {
    let mut st = ready();
    assert!(answer(win_popup_show(&mut st, 0, 1, 2)).0.is_empty());
    assert!(answer(win_popup_hide(&mut st, 0)).0.is_empty());
    win_alloc_surface(&mut st);
    go(&mut st, Reply::Object(205));
    go(&mut st, Reply::NoObject);
    go(&mut st, Reply::Status(0));
    assert!(answer(win_popup_show(&mut st, 3, 1, 2)).0.is_empty());
    assert!(st.surfaces().get(3).popup_visible);
    assert!(answer(win_popup_hide(&mut st, 3)).0.is_empty());
    assert!(!st.surfaces().get(3).popup_visible);
}

#[test]
fn frames_for_a_hidden_surface_leave_it_empty() {
    let mut st = ready();
    show(&mut st, 600, 640, 480);
    win_surface_set_visible(&mut st, 2, false);
    let hidden = st.surfaces().get(2);
    for _ in 0..3 {
        win_surface_present(&mut st, 2, Some(900));
        go(&mut st, Reply::Object(500));
        assert_eq!(answer(go(&mut st, size(320, 200))).1, Answer::Flag(false));
        win_surface_present_software(&mut st, 2, 4096, 30, 20);
        assert_eq!(answer(go(&mut st, Reply::Object(501))).1, Answer::Flag(false));
        win_surface_present(&mut st, 2, Some(900));
        assert_eq!(answer(go(&mut st, Reply::NoObject)).1, Answer::Flag(false));
        assert_eq!(answer(win_surface_present(&mut st, 2, None)).1, Answer::Flag(false));
        assert_eq!(st.surfaces().get(2), hidden);
    }
    win_surface_set_visible(&mut st, 2, true);
    let s = st.surfaces().get(2);
    assert_eq!((s.swap_chain, s.sw, s.sh), (None, 0, 0));
}

#[test]
fn what_counts_as_a_frame_or_a_size() {
    assert!(has_shared_frame(1, Some(900)));
    assert!(!has_shared_frame(0, Some(900)));
    assert!(!has_shared_frame(1, Some(0)));
    assert!(!has_shared_frame(1, None));
    assert!(has_memory_frame(1, 4096, 1, 1));
    assert!(!has_memory_frame(0, 4096, 1, 1));
    assert!(!has_memory_frame(1, 0, 1, 1));
    assert!(!has_memory_frame(1, 4096, 0, 1));
    assert!(!has_memory_frame(1, 4096, 1, -1));
    assert!(has_size(1, 1, 1));
    assert!(!has_size(0, 1, 1));
    assert!(!has_size(1, 0, 1));
    assert!(!has_size(1, 1, -1));
}
