use win_compositor::devices::CompositorDevices;
use win_compositor::lifecycle::{
    jfn_win_cleanup_compositor, jfn_win_init_compositor, jfn_win_rebind_compositor_hwnd,
    win_alloc_surface, win_free_surface, win_probe_device_removed_diagnostic, win_restack,
};
use win_compositor::protocol::{
    Answer, DeviceStatus, Effect, InitCall, Next, Reply, Request, Turn,
};
use win_compositor::resume::resume;
use win_compositor::state::State;

const E_FAIL: i32 = -2147467259;

fn ask(turn: Turn) -> (Vec<Effect>, Request) {
    match turn.next {
        Next::Ask(request) => (turn.effects, request),
        Next::Return(answer) => panic!("unexpected answer {:?}", answer),
    }
}

fn answer(turn: Turn) -> (Vec<Effect>, Answer) {
    match turn.next {
        Next::Return(answer) => (turn.effects, answer),
        Next::Ask(request) => panic!("unexpected request {:?}", request),
    }
}

fn go(st: &mut State, reply: Reply) -> Turn {
    assert!(st.accepts(&reply));
    resume(st, reply)
}

/// The replies of a chain in which every call succeeds, with objects numbered
/// from `base` on.
fn init_replies(base: u64) -> Vec<Reply> {
    vec![
        Reply::Device { status: 0, device: Some(base), context: Some(base + 1) },
        Reply::Object(base + 2),
        Reply::Object(base + 3),
        Reply::Object(base + 4),
        Reply::Object(base + 5),
        Reply::Object(base + 6),
        Reply::Object(base + 7),
        Reply::Object(base + 8),
        Reply::Object(base + 9),
        Reply::Status(0),
        Reply::Status(0),
    ]
}

fn ready() -> State {
    let mut st = State::new();
    jfn_win_init_compositor(&mut st, 77);
    for reply in init_replies(100) {
        go(&mut st, reply);
    }
    assert!(st.is_idle());
    st
}

fn make_surface(st: &mut State, visual: u64, popup: u64) -> u64 {
    win_alloc_surface(st);
    go(st, Reply::Object(visual));
    go(st, Reply::Object(popup));
    match answer(go(st, Reply::Status(0))).1 {
        Answer::Surface(id) => id,
        other => panic!("unexpected answer {:?}", other),
    }
}

#[test]
fn a_new_state_is_idle_and_empty() {
    let st = State::new();
    assert!(st.is_idle());
    assert!(st.devices().is_none());
    assert_eq!(st.hwnd(), 0);
    assert!(st.surfaces().live().is_empty());
    assert!(st.surfaces().main().is_none());
}

#[test]
fn init_makes_the_calls_in_order() {
    let mut st = State::new();
    let replies = init_replies(100);
    let calls = vec![
        InitCall::CreateD3dDevice,
        InitCall::AsDevice1 { base: 100 },
        InitCall::AsDxgiDevice { d3d_device: 102 },
        InitCall::GetAdapter { dxgi_device: 103 },
        InitCall::GetFactory { adapter: 104 },
        InitCall::AsAdapter3 { adapter: 104 },
        InitCall::CreateDcompDevice { dxgi_device: 103 },
        InitCall::CreateTarget { dcomp_device: 107, hwnd: 77, topmost: false },
        InitCall::CreateRoot { dcomp_device: 107 },
        InitCall::SetRoot { target: 108, root: 109 },
        InitCall::Commit { dcomp_device: 107 },
    ];
    let mut turn = jfn_win_init_compositor(&mut st, 77);
    for i in 0..11 {
        let (effects, request) = ask(turn);
        assert!(effects.is_empty());
        assert_eq!(request, Request::Init(calls[i]));
        turn = go(&mut st, replies[i]);
    }
    let (effects, result) = answer(turn);
    assert!(effects.is_empty());
    assert_eq!(result, Answer::Flag(true));
    assert_eq!(
        st.devices(),
        Some(CompositorDevices {
            d3d_device: 102,
            d3d_context: 101,
            dxgi_factory: 105,
            adapter3: Some(106),
            hwnd: 77,
            dcomp_device: 107,
            dcomp_target: 108,
            dcomp_root: 109,
        })
    );
    assert_eq!(st.hwnd(), 77);
}

#[test]
fn init_does_without_the_video_memory_interface() {
    let mut st = State::new();
    jfn_win_init_compositor(&mut st, 77);
    let mut replies = init_replies(100);
    replies[5] = Reply::NoObject;
    for reply in replies {
        go(&mut st, reply);
    }
    assert_eq!(st.devices().unwrap().adapter3, None);
}

#[test]
fn init_fails_with_any_other_call() {
    for i in 0..11 {
        if i == 5 {
            continue;
        }
        let mut st = State::new();
        let replies = init_replies(100);
        jfn_win_init_compositor(&mut st, 77);
        for k in 0..i {
            go(&mut st, replies[k]);
        }
        let bad = match replies[i] {
            Reply::Device { .. } => {
                Reply::Device { status: E_FAIL, device: Some(1), context: Some(2) }
            }
            Reply::Status(_) => Reply::Status(E_FAIL),
            _ => Reply::NoObject,
        };
        let (effects, result) = answer(go(&mut st, bad));
        assert!(effects.is_empty());
        assert_eq!(result, Answer::Flag(false));
        assert!(st.devices().is_none());
        assert!(st.is_idle());
        assert_eq!(st.hwnd(), 77);
        for h in 100..110 {
            assert!(!st.references(h));
        }
    }
}

#[test]
fn init_fails_without_device_or_context() {
    for (device, context) in [(None, Some(2)), (Some(1), None)] {
        let mut st = State::new();
        jfn_win_init_compositor(&mut st, 77);
        let reply = Reply::Device { status: 0, device, context };
        assert_eq!(answer(go(&mut st, reply)).1, Answer::Flag(false));
    }
}

#[test]
fn init_takes_success_codes_other_than_zero() {
    let mut st = State::new();
    jfn_win_init_compositor(&mut st, 77);
    let mut replies = init_replies(100);
    replies[9] = Reply::Status(1);
    replies[10] = Reply::Status(i32::MAX);
    let mut last = Answer::Unit;
    for reply in replies {
        if let Next::Return(a) = go(&mut st, reply).next {
            last = a;
        }
    }
    assert_eq!(last, Answer::Flag(true));
}

#[test]
fn init_again_changes_nothing() {
    let mut st = ready();
    let before = st.devices();
    let (effects, result) = answer(jfn_win_init_compositor(&mut st, 88));
    assert!(effects.is_empty());
    assert_eq!(result, Answer::Flag(true));
    assert_eq!(st.devices(), before);
    assert_eq!(st.hwnd(), 77);
}

#[test]
fn a_reply_of_the_wrong_kind_is_not_accepted() {
    let mut st = State::new();
    assert!(!st.accepts(&Reply::Status(0)));
    jfn_win_init_compositor(&mut st, 77);
    assert!(!st.accepts(&Reply::Status(0)));
    assert!(!st.accepts(&Reply::Object(4)));
    assert!(st.accepts(&Reply::Device { status: -1, device: None, context: None }));
}

#[test]
fn probing_the_device() {
    let mut st = State::new();
    assert_eq!(
        answer(win_probe_device_removed_diagnostic(&mut st)).1,
        Answer::Device(DeviceStatus::NotInitialized)
    );
    let mut st = ready();
    let (_, request) = ask(win_probe_device_removed_diagnostic(&mut st));
    assert_eq!(request, Request::DeviceRemovedReason { device: 102 });
    assert_eq!(answer(go(&mut st, Reply::Status(0))).1, Answer::Device(DeviceStatus::Alive));
    win_probe_device_removed_diagnostic(&mut st);
    assert_eq!(
        answer(go(&mut st, Reply::Status(-2005270523))).1,
        Answer::Device(DeviceStatus::Removed)
    );
    assert!(st.devices().is_some());
}

#[test]
fn allocating_a_surface() {
    let mut st = ready();
    let (_, request) = ask(win_alloc_surface(&mut st));
    assert_eq!(request, Request::CreateVisual { device: 107 });
    let (effects, request) = ask(go(&mut st, Reply::Object(201)));
    assert!(effects.is_empty());
    assert_eq!(request, Request::CreateVisual { device: 107 });
    let (effects, request) = ask(go(&mut st, Reply::Object(202)));
    assert_eq!(
        effects,
        vec![Effect::AddVisual { parent: 201, child: 202, insert_above: true, reference: None }]
    );
    assert_eq!(
        request,
        Request::AddVisual { parent: 109, child: 201, insert_above: true, reference: None }
    );
    let (effects, result) = answer(go(&mut st, Reply::Status(0)));
    assert_eq!(effects, vec![Effect::Commit { device: 107 }]);
    assert_eq!(result, Answer::Surface(1));
    let s = st.surfaces().get(1);
    assert_eq!(s.visual, Some(201));
    assert_eq!(s.popup_visual, Some(202));
    assert!(s.visible && s.in_tree && !s.popup_visible);
    assert!(s.swap_chain.is_none());
    assert!(st.is_live(1));
    assert!(st.surfaces().main().is_none());
}

#[test]
fn allocating_without_devices_or_visual_gives_null() {
    let mut st = State::new();
    assert_eq!(answer(win_alloc_surface(&mut st)).1, Answer::Surface(0));
    let mut st = ready();
    win_alloc_surface(&mut st);
    assert_eq!(answer(go(&mut st, Reply::NoObject)).1, Answer::Surface(0));
    assert!(st.surfaces().live().is_empty());
}

#[test]
fn allocating_without_popup_or_place_in_the_tree() {
    let mut st = ready();
    win_alloc_surface(&mut st);
    go(&mut st, Reply::Object(201));
    let (effects, _) = ask(go(&mut st, Reply::NoObject));
    assert!(effects.is_empty());
    assert_eq!(answer(go(&mut st, Reply::Status(E_FAIL))).1, Answer::Surface(1));
    let s = st.surfaces().get(1);
    assert_eq!(s.visual, Some(201));
    assert_eq!(s.popup_visual, None);
    assert!(!s.in_tree);
}

#[test]
fn names_are_not_reused() {
    let mut st = ready();
    let a = make_surface(&mut st, 201, 202);
    let b = make_surface(&mut st, 203, 204);
    win_free_surface(&mut st, b);
    let c = make_surface(&mut st, 205, 206);
    assert_eq!((a, b, c), (1, 2, 3));
    assert_eq!(*st.surfaces().live(), vec![1, 3]);
}

#[test]
fn freeing_a_surface() {
    let mut st = ready();
    let a = make_surface(&mut st, 201, 202);
    let b = make_surface(&mut st, 203, 204);
    win_restack(&mut st, vec![a, b]);
    go(&mut st, Reply::Status(0));
    go(&mut st, Reply::Status(0));
    let (effects, result) = answer(win_free_surface(&mut st, a));
    assert_eq!(result, Answer::Unit);
    assert_eq!(
        effects,
        vec![
            Effect::RemoveVisual { parent: 201, child: 202 },
            Effect::SetContent { visual: 202, content: None },
            Effect::RemoveVisual { parent: 109, child: 201 },
            Effect::SetContent { visual: 201, content: None },
            Effect::Commit { device: 107 },
        ]
    );
    assert!(!st.is_live(a));
    assert!(!st.references(201) && !st.references(202));
    assert_eq!(*st.surfaces().stack(), vec![b]);
    assert!(st.surfaces().is_main(b));
    let (effects, _) = answer(win_free_surface(&mut st, 0));
    assert!(effects.is_empty());
}

#[test]
fn cleaning_up() {
    let mut st = ready();
    make_surface(&mut st, 201, 202);
    make_surface(&mut st, 203, 204);
    let (effects, result) = answer(jfn_win_cleanup_compositor(&mut st));
    assert_eq!(result, Answer::Unit);
    assert_eq!(effects.len(), 8);
    assert_eq!(effects[0], Effect::RemoveVisual { parent: 201, child: 202 });
    assert_eq!(effects[6], Effect::RemoveVisual { parent: 109, child: 203 });
    assert!(st.devices().is_none());
    assert!(st.surfaces().live().is_empty());
    for h in 0..300 {
        assert!(!st.references(h));
    }
    assert_eq!(st.hwnd(), 77);
}

#[test]
fn restacking_puts_surfaces_above_each_other() {
    let mut st = ready();
    let a = make_surface(&mut st, 201, 202);
    let b = make_surface(&mut st, 203, 204);
    let c = make_surface(&mut st, 205, 206);
    let (effects, request) = ask(win_restack(&mut st, vec![c, 0, a, b]));
    assert_eq!(
        effects,
        vec![
            Effect::RemoveVisual { parent: 109, child: 201 },
            Effect::RemoveVisual { parent: 109, child: 203 },
            Effect::RemoveVisual { parent: 109, child: 205 },
        ]
    );
    assert_eq!(
        request,
        Request::AddVisual { parent: 109, child: 205, insert_above: false, reference: None }
    );
    let (effects, request) = ask(go(&mut st, Reply::Status(0)));
    assert!(effects.is_empty());
    assert_eq!(
        request,
        Request::AddVisual { parent: 109, child: 201, insert_above: true, reference: Some(205) }
    );
    // A surface that cannot be hooked is left out, and the next one goes where
    // it would have gone.
    let (_, request) = ask(go(&mut st, Reply::Status(E_FAIL)));
    assert_eq!(
        request,
        Request::AddVisual { parent: 109, child: 203, insert_above: true, reference: Some(205) }
    );
    let (effects, result) = answer(go(&mut st, Reply::Status(0)));
    assert_eq!(effects, vec![Effect::Commit { device: 107 }]);
    assert_eq!(result, Answer::Unit);
    assert_eq!(*st.surfaces().stack(), vec![c, b]);
    assert_eq!(st.surfaces().main(), Some(c));
    assert!(st.surfaces().get(c).in_tree && st.surfaces().get(b).in_tree);
    assert!(!st.surfaces().get(a).in_tree);
    assert!(st.is_idle());
}

#[test]
fn restacking_nothing_empties_the_stack() {
    let mut st = ready();
    let a = make_surface(&mut st, 201, 202);
    win_restack(&mut st, vec![a]);
    go(&mut st, Reply::Status(0));
    let (effects, _) = answer(win_restack(&mut st, Vec::new()));
    assert_eq!(
        effects,
        vec![
            Effect::RemoveVisual { parent: 109, child: 201 },
            Effect::Commit { device: 107 },
        ]
    );
    assert!(st.surfaces().stack().is_empty());
    assert!(!st.surfaces().get(a).in_tree);
}

#[test]
fn restacking_without_devices_does_nothing() {
    let mut st = State::new();
    let (effects, result) = answer(win_restack(&mut st, vec![0, 0]));
    assert!(effects.is_empty());
    assert_eq!(result, Answer::Unit);
}

#[test]
fn rebinding_rebuilds_even_what_is_there() {
    let mut st = ready();
    let a = make_surface(&mut st, 201, 202);
    let (effects, request) = ask(jfn_win_rebind_compositor_hwnd(&mut st, 99));
    assert_eq!(effects.len(), 4);
    assert_eq!(request, Request::Init(InitCall::CreateD3dDevice));
    assert_eq!(st.hwnd(), 99);
    assert!(st.devices().is_none());
    for reply in init_replies(300) {
        go(&mut st, reply);
    }
    go(&mut st, Reply::Object(401));
    let (effects, result) = answer(go(&mut st, Reply::Object(402)));
    assert_eq!(
        effects,
        vec![
            Effect::AddVisual { parent: 401, child: 402, insert_above: true, reference: None },
            Effect::Commit { device: 307 },
        ]
    );
    assert_eq!(result, Answer::Unit);
    assert_eq!(st.devices().unwrap().hwnd, 99);
    assert_eq!(st.surfaces().get(a).visual, Some(401));
}
