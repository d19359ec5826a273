//! A host that drops every object that is no longer needed, replies at random,
//! and insists that it is only ever asked about objects it still has.

use std::collections::HashSet;

use win_compositor::gate::PresentDecision;
use win_compositor::lifecycle::{
    jfn_win_cleanup_compositor, jfn_win_init_compositor, jfn_win_rebind_compositor_hwnd,
    win_alloc_surface, win_free_surface, win_probe_device_removed_diagnostic, win_restack,
};
use win_compositor::paint::{
    win_popup_present, win_popup_present_software, win_surface_present,
    win_surface_present_software, win_surface_resize,
};
use win_compositor::popup::{win_popup_hide, win_popup_show};
use win_compositor::protocol::{Answer, Effect, InitCall, Next, Reply, Request, Turn};
use win_compositor::resume::resume;
use win_compositor::state::State;
use win_compositor::transition::{
    gate_in_transition, jfn_win_begin_transition_locked, jfn_win_update_surface_size,
    win_end_transition, win_surface_set_visible,
};

struct Host {
    seed: u64,
    next: u64,
    objects: HashSet<u64>,
    /// One call in so many fails.
    failures: u64,
}

impl Host {
    fn new(seed: u64, failures: u64) -> Host {
        Host { seed, next: 1, objects: HashSet::new(), failures }
    }

    fn random(&mut self, below: u64) -> u64 {
        self.seed = self.seed.wrapping_mul(6364136223846793005).wrapping_add(1442695040888963407);
        (self.seed >> 33) % below
    }

    fn fails(&mut self) -> bool {
        let n = self.failures;
        n > 0 && self.random(n) == 0
    }

    fn object(&mut self) -> u64 {
        self.next += 1;
        self.objects.insert(self.next);
        self.next
    }

    fn maybe_object(&mut self) -> Reply {
        if self.fails() {
            Reply::NoObject
        } else {
            Reply::Object(self.object())
        }
    }

    fn status(&mut self) -> Reply {
        Reply::Status(if self.fails() { -2147467259 } else { 0 })
    }

    fn has(&self, handles: &[u64]) {
        for h in handles {
            assert!(self.objects.contains(h), "object {} is gone", h);
        }
    }

    fn perform(&mut self, effect: &Effect) {
        match *effect {
            Effect::RemoveVisual { parent, child } => self.has(&[parent, child]),
            Effect::AddVisual { parent, child, .. } => self.has(&[parent, child]),
            Effect::SetContent { visual, content } => {
                self.has(&[visual]);
                if let Some(chain) = content {
                    self.has(&[chain]);
                }
            }
            Effect::Commit { device } => self.has(&[device]),
            Effect::SetOffset { visual, .. } => self.has(&[visual]),
            Effect::CopyResource { context, target, source } => {
                self.has(&[context, target, source])
            }
            Effect::AwaitCopy { device, context } => self.has(&[device, context]),
            Effect::NoteAccelPaint { shared_texture, .. } => assert!(shared_texture != 0),
        }
    }

    fn init(&mut self, call: &InitCall) -> Reply {
        match *call {
            InitCall::CreateD3dDevice => {
                let status = if self.fails() { -1 } else { 0 };
                let device = Some(self.object());
                let context = Some(self.object());
                Reply::Device { status, device, context }
            }
            InitCall::AsDevice1 { base } => {
                self.has(&[base]);
                self.maybe_object()
            }
            InitCall::AsDxgiDevice { d3d_device } => {
                self.has(&[d3d_device]);
                self.maybe_object()
            }
            InitCall::GetAdapter { dxgi_device } => {
                self.has(&[dxgi_device]);
                self.maybe_object()
            }
            InitCall::GetFactory { adapter } | InitCall::AsAdapter3 { adapter } => {
                self.has(&[adapter]);
                self.maybe_object()
            }
            InitCall::CreateDcompDevice { dxgi_device } => {
                self.has(&[dxgi_device]);
                self.maybe_object()
            }
            InitCall::CreateTarget { dcomp_device, .. } | InitCall::CreateRoot { dcomp_device } => {
                self.has(&[dcomp_device]);
                self.maybe_object()
            }
            InitCall::SetRoot { target, root } => {
                self.has(&[target, root]);
                self.status()
            }
            InitCall::Commit { dcomp_device } => {
                self.has(&[dcomp_device]);
                self.status()
            }
        }
    }

    fn ask(&mut self, request: &Request) -> Reply {
        match request {
            Request::Init(call) => self.init(call),
            Request::CreateVisual { device } => {
                self.has(&[*device]);
                self.maybe_object()
            }
            Request::AddVisual { parent, child, reference, .. } => {
                self.has(&[*parent, *child]);
                if let Some(h) = reference {
                    self.has(&[*h]);
                }
                self.status()
            }
            Request::OpenSharedTexture { device, .. } => {
                self.has(&[*device]);
                self.maybe_object()
            }
            Request::TextureSize { texture } => {
                self.has(&[*texture]);
                let width = self.random(5) as u32;
                let height = self.random(5) as u32;
                Reply::Size { width, height }
            }
            Request::JudgeMainFrame { .. } => Reply::Decision(match self.random(3) {
                0 => PresentDecision::Reject,
                1 => PresentDecision::EndTransitionThenPresent,
                _ => PresentDecision::Present,
            }),
            Request::CreateTexture { device, .. } => {
                self.has(&[*device]);
                self.maybe_object()
            }
            Request::ResizeBuffers { chain, width, height, .. } => {
                self.has(&[*chain]);
                assert!(*width > 0 && *height > 0);
                self.status()
            }
            Request::CreateSwapChain { factory, device, chain_desc } => {
                self.has(&[*factory, *device]);
                assert!(chain_desc.width > 0 && chain_desc.height > 0);
                self.maybe_object()
            }
            Request::DeviceRemovedReason { device } => {
                self.has(&[*device]);
                self.status()
            }
            Request::GetBuffer { chain, .. } => {
                self.has(&[*chain]);
                self.maybe_object()
            }
            Request::Present { chain, .. } => {
                self.has(&[*chain]);
                self.status()
            }
        }
    }

    /// Runs an operation to its end, which must come in time.
    fn run(&mut self, st: &mut State, turn: Turn) -> Answer {
        let live = st.surfaces().live().len();
        let limit = 64 + 16 * (live + st.surfaces().stack().len() + 1);
        let mut turn = turn;
        for _ in 0..limit {
            for effect in &turn.effects {
                self.perform(effect);
            }
            self.objects.retain(|h| st.references(*h));
            match turn.next {
                Next::Return(answer) => {
                    assert!(st.is_idle());
                    return answer;
                }
                Next::Ask(request) => {
                    assert_eq!(request, st.current_request());
                    let reply = self.ask(&request);
                    assert!(st.accepts(&reply));
                    turn = resume(st, reply);
                }
            }
        }
        panic!("the operation does not end");
    }
}

fn scenario(seed: u64, failures: u64, rounds: u32) -> State {
    let mut host = Host::new(seed, failures);
    let mut st = State::new();
    for _ in 0..rounds {
        let names = st.surfaces().live().clone();
        let flags: Vec<(bool, bool)> = names
            .iter()
            .map(|id| (st.surfaces().get(*id).visible, st.surfaces().get(*id).popup_visible))
            .collect();
        let s = match host.random(8) {
            0 => 0,
            n if names.is_empty() => {
                assert!(n > 0);
                0
            }
            n => names[n as usize % names.len()],
        };
        let choice = host.random(16);
        let turn = match choice {
            0 => jfn_win_init_compositor(&mut st, 77),
            1 => {
                let hwnd = 70 + host.random(3);
                jfn_win_rebind_compositor_hwnd(&mut st, hwnd)
            }
            2 | 3 => win_alloc_surface(&mut st),
            4 => win_free_surface(&mut st, s),
            5 => {
                let mut ordered = names.clone();
                ordered.push(0);
                let at = host.random(ordered.len() as u64) as usize;
                ordered.rotate_left(at);
                win_restack(&mut st, ordered)
            }
            6 => win_surface_present(&mut st, s, Some(900)),
            7 => win_surface_present_software(&mut st, s, 4096, 3, 2),
            8 => win_popup_present(&mut st, s, Some(901), 0, 0),
            9 => win_popup_present_software(&mut st, s, 4096, 2, 2, 0, 0),
            10 => {
                let pw = host.random(4) as i32;
                win_surface_resize(&mut st, s, 0, 0, pw, 3)
            }
            11 => {
                let visible = host.random(2) == 0;
                win_surface_set_visible(&mut st, s, visible)
            }
            12 => win_popup_show(&mut st, s, 1, 2),
            13 => win_popup_hide(&mut st, s),
            14 => {
                jfn_win_update_surface_size(&mut st, 1, 1, 3, 3, false);
                jfn_win_begin_transition_locked(&mut st)
            }
            _ => {
                win_end_transition(&mut st);
                assert!(!gate_in_transition(&st));
                win_probe_device_removed_diagnostic(&mut st)
            }
        };
        host.run(&mut st, turn);
        // Surfaces keep their identity and their flags unless the operation is
        // about them.
        for (i, id) in names.iter().enumerate() {
            if choice == 4 && *id == s {
                assert!(!st.is_live(*id));
                continue;
            }
            assert!(st.is_live(*id));
            let now = st.surfaces().get(*id);
            if !(choice == 11 && *id == s) {
                assert_eq!(now.visible, flags[i].0);
            }
            if !((choice == 12 || choice == 13) && *id == s) {
                assert_eq!(now.popup_visible, flags[i].1);
            }
        }
        // Only surfaces with a visual are stacked, and nothing hidden has a
        // picture.
        for id in st.surfaces().live() {
            let now = st.surfaces().get(*id);
            assert!(now.popup_visible || now.popup_swap_chain.is_none());
            assert!(now.visible || now.swap_chain.is_none());
            if !now.visible && now.visual.is_some() {
                assert_eq!((now.sw, now.sh), (0, 0));
            }
            if !now.popup_visible && now.popup_visual.is_some() {
                assert_eq!((now.popup_sw, now.popup_sh), (0, 0));
            }
        }
    }
    let turn = jfn_win_cleanup_compositor(&mut st);
    host.run(&mut st, turn);
    assert!(host.objects.is_empty());
    st
}

#[test]
fn objects_are_there_when_they_are_named() {
    for seed in 0..40 {
        let st = scenario(seed, 0, 120);
        assert!(st.devices().is_none());
    }
}

#[test]
fn objects_are_there_when_calls_fail() {
    for seed in 0..40 {
        scenario(seed, 4, 150);
        scenario(seed + 1000, 12, 150);
    }
}
