use win_compositor::gate::{PresentDecision, TransitionGate};
use win_compositor::lifecycle::{jfn_win_init_compositor, win_alloc_surface, win_restack};
use win_compositor::paint::{win_surface_present, win_surface_present_software};
use win_compositor::protocol::{Answer, Effect, Next, Reply, Turn};
use win_compositor::resume::resume;
use win_compositor::state::State;
use win_compositor::transition::{
    gate_in_transition, jfn_win_begin_transition_locked, jfn_win_update_surface_size,
    jfn_win_wndproc_begin_transition_locked, jfn_win_wndproc_end_transition_locked,
    win_end_transition, win_set_expected_size,
};

fn answer(turn: Turn) -> (Vec<Effect>, Answer) {
    match turn.next {
        Next::Return(answer) => (turn.effects, answer),
        Next::Ask(request) => panic!("unexpected request {:?}", request),
    }
}

fn go(st: &mut State, reply: Reply) -> Turn {
    assert!(st.accepts(&reply));
    resume(st, reply)
}

/// Devices, and one surface, which is the main one.
fn ready() -> State {
    let mut st = State::new();
    jfn_win_init_compositor(&mut st, 77);
    go(&mut st, Reply::Device { status: 0, device: Some(100), context: Some(101) });
    for h in 102..110 {
        go(&mut st, Reply::Object(h));
    }
    go(&mut st, Reply::Status(0));
    go(&mut st, Reply::Status(0));
    win_alloc_surface(&mut st);
    go(&mut st, Reply::Object(201));
    go(&mut st, Reply::Object(202));
    go(&mut st, Reply::Status(0));
    win_restack(&mut st, vec![1]);
    go(&mut st, Reply::Status(0));
    st
}

#[test]
fn a_transition_empties_the_main_surface() {
    let mut st = ready();
    win_surface_present_software(&mut st, 1, 4096, 8, 6);
    go(&mut st, Reply::Decision(PresentDecision::Present));
    go(&mut st, Reply::Object(500));
    go(&mut st, Reply::Object(600));
    go(&mut st, Reply::Object(501));
    go(&mut st, Reply::Status(0));
    assert_eq!(st.surfaces().get(1).swap_chain, Some(600));
    jfn_win_update_surface_size(&mut st, 4, 3, 8, 6, false);
    let (effects, result) = answer(jfn_win_begin_transition_locked(&mut st));
    assert_eq!(
        effects,
        vec![
            Effect::SetContent { visual: 201, content: None },
            Effect::Commit { device: 107 },
        ]
    );
    assert_eq!(result, Answer::Unit);
    assert!(gate_in_transition(&st));
    assert_eq!(st.gate().captured, (8, 6));
    let s = st.surfaces().get(1);
    assert_eq!((s.swap_chain, s.sw, s.sh), (None, 0, 0));
}

#[test]
fn a_transition_begins_only_once() {
    let mut st = ready();
    jfn_win_update_surface_size(&mut st, 4, 3, 8, 6, false);
    jfn_win_begin_transition_locked(&mut st);
    let gate = st.gate();
    let (effects, _) = answer(jfn_win_wndproc_begin_transition_locked(&mut st));
    assert!(effects.is_empty());
    assert_eq!(st.gate(), gate);
}

#[test]
fn a_transition_without_surfaces_or_devices() {
    let mut st = State::new();
    let (effects, _) = answer(jfn_win_wndproc_begin_transition_locked(&mut st));
    assert!(effects.is_empty());
    assert!(gate_in_transition(&st));
}

#[test]
fn ending_a_transition() {
    let mut st = ready();
    win_set_expected_size(&mut st, 100, 50);
    assert_eq!(st.gate().expected, (100, 50));
    jfn_win_begin_transition_locked(&mut st);
    win_end_transition(&mut st);
    assert!(!gate_in_transition(&st));
    assert_eq!(st.gate(), TransitionGate::new());
    jfn_win_begin_transition_locked(&mut st);
    jfn_win_wndproc_end_transition_locked(&mut st);
    assert!(!gate_in_transition(&st));
}

#[test]
fn size_reports_outside_a_transition() {
    let mut st = ready();
    jfn_win_update_surface_size(&mut st, 4, 3, 8, 6, true);
    assert_eq!(st.window_size(), (8, 6));
    assert_eq!(st.pending_size(), (0, 0));
}

#[test]
fn size_reports_during_a_transition() {
    let mut st = ready();
    jfn_win_update_surface_size(&mut st, 4, 3, 8, 6, false);
    jfn_win_begin_transition_locked(&mut st);
    // The old size: the transition goes on.
    jfn_win_update_surface_size(&mut st, 5, 3, 8, 6, false);
    assert!(gate_in_transition(&st));
    assert_eq!(st.pending_size(), (5, 3));
    // A new size ends it.
    jfn_win_update_surface_size(&mut st, 7, 3, 14, 6, false);
    assert!(!gate_in_transition(&st));
    assert_eq!(st.pending_size(), (0, 0));
    assert_eq!(st.window_size(), (14, 6));
}

#[test]
fn a_forced_report_ends_a_transition_at_the_old_size() {
    let mut st = ready();
    jfn_win_update_surface_size(&mut st, 4, 3, 8, 6, false);
    jfn_win_begin_transition_locked(&mut st);
    jfn_win_update_surface_size(&mut st, 4, 3, 8, 6, true);
    assert!(!gate_in_transition(&st));
}

#[test]
fn a_shared_frame_can_end_a_transition() {
    let mut st = ready();
    jfn_win_update_surface_size(&mut st, 4, 3, 8, 6, false);
    jfn_win_begin_transition_locked(&mut st);
    jfn_win_update_surface_size(&mut st, 5, 3, 8, 6, false);
    win_surface_present(&mut st, 1, Some(900));
    go(&mut st, Reply::Object(500));
    go(&mut st, Reply::Size { width: 8, height: 6 });
    go(&mut st, Reply::Decision(PresentDecision::EndTransitionThenPresent));
    assert!(!gate_in_transition(&st));
    assert_eq!(st.pending_size(), (0, 0));
}

#[test]
fn pixels_can_end_a_transition_and_leave_the_noted_size() {
    let mut st = ready();
    jfn_win_update_surface_size(&mut st, 4, 3, 8, 6, false);
    jfn_win_begin_transition_locked(&mut st);
    jfn_win_update_surface_size(&mut st, 5, 3, 8, 6, false);
    win_surface_present_software(&mut st, 1, 4096, 8, 6);
    go(&mut st, Reply::Decision(PresentDecision::EndTransitionThenPresent));
    assert!(!gate_in_transition(&st));
    assert_eq!(st.pending_size(), (5, 3));
}

#[test]
fn an_oversized_frame_still_ends_a_transition() {
    let mut st = ready();
    jfn_win_update_surface_size(&mut st, 4, 3, 8, 6, false);
    jfn_win_begin_transition_locked(&mut st);
    win_surface_present(&mut st, 1, Some(900));
    go(&mut st, Reply::Object(500));
    go(&mut st, Reply::Size { width: 80, height: 6 });
    let turn = go(&mut st, Reply::Decision(PresentDecision::EndTransitionThenPresent));
    assert_eq!(answer(turn).1, Answer::Flag(false));
    assert!(!gate_in_transition(&st));
}
