//! What is kept of one surface.

use vstd::prelude::*;
use crate::protocol::{Effect, Handle, Slot};

verus! {

/// A surface: its visual and swap chain, those of the popup nested in it, and
/// the sizes that the swap chains were last given.
#[derive(Clone, Copy, Debug, PartialEq, Eq)]
pub struct Surface {
    pub swap_chain: Option<Handle>,
    pub visual: Option<Handle>,
    pub sw: i32,
    pub sh: i32,
    pub visible: bool,
    pub in_tree: bool,
    pub popup_visual: Option<Handle>,
    pub popup_swap_chain: Option<Handle>,
    pub popup_sw: i32,
    pub popup_sh: i32,
    pub popup_visible: bool,
}

impl Surface {
    /// A surface that owns nothing yet; it is visible, its popup is not.
    pub open spec fn fresh() -> Surface {
        Surface {
            swap_chain: None,
            visual: None,
            sw: 0,
            sh: 0,
            visible: true,
            in_tree: false,
            popup_visual: None,
            popup_swap_chain: None,
            popup_sw: 0,
            popup_sh: 0,
            popup_visible: false,
        }
    }

    /// A swap chain comes with a positive size and a visual that shows it, and
    /// only where something is to be shown. A visual that is hidden has no size
    /// noted for it.
    pub open spec fn wf(self) -> bool {
        &&& self.swap_chain is Some ==> self.visible && self.visual is Some && self.sw > 0
            && self.sh > 0
        &&& self.popup_swap_chain is Some ==> self.popup_visible && self.popup_visual is Some
            && self.popup_sw > 0 && self.popup_sh > 0
        &&& !self.visible && self.visual is Some ==> self.sw == 0 && self.sh == 0
        &&& !self.popup_visible && self.popup_visual is Some ==> self.popup_sw == 0
            && self.popup_sh == 0
    }

    /// The visual of a slot.
    pub open spec fn visual_of(self, slot: Slot) -> Option<Handle> {
        match slot {
            Slot::Main => self.visual,
            Slot::Popup => self.popup_visual,
        }
    }

    /// The swap chain of a slot.
    pub open spec fn chain_of(self, slot: Slot) -> Option<Handle> {
        match slot {
            Slot::Main => self.swap_chain,
            Slot::Popup => self.popup_swap_chain,
        }
    }

    /// The size the swap chain of a slot was last given.
    pub open spec fn size_of(self, slot: Slot) -> (i32, i32) {
        match slot {
            Slot::Main => (self.sw, self.sh),
            Slot::Popup => (self.popup_sw, self.popup_sh),
        }
    }

    /// Whether a slot is shown at all.
    pub open spec fn shown(self, slot: Slot) -> bool {
        match slot {
            Slot::Main => self.visible,
            Slot::Popup => self.popup_visible,
        }
    }

    /// The surface with another swap chain in a slot.
    pub open spec fn with_chain(self, slot: Slot, chain: Option<Handle>) -> Surface {
        match slot {
            Slot::Main => Surface { swap_chain: chain, ..self },
            Slot::Popup => Surface { popup_swap_chain: chain, ..self },
        }
    }

    /// The surface with another size noted for a slot.
    pub open spec fn with_size(self, slot: Slot, width: i32, height: i32) -> Surface {
        match slot {
            Slot::Main => Surface { sw: width, sh: height, ..self },
            Slot::Popup => Surface { popup_sw: width, popup_sh: height, ..self },
        }
    }

    /// The surface once everything it owned is let go.
    pub open spec fn detached(self) -> Surface {
        Surface {
            popup_visual: None,
            popup_swap_chain: None,
            visual: None,
            swap_chain: None,
            ..self
        }
    }

    /// The surface with new visuals on a new device: no swap chain, no size,
    /// not in the tree.
    pub open spec fn rebuilt(self, visual: Handle, popup: Option<Handle>) -> Surface {
        Surface {
            visual: Some(visual),
            popup_visual: popup,
            swap_chain: None,
            sw: 0,
            sh: 0,
            popup_swap_chain: None,
            popup_sw: 0,
            popup_sh: 0,
            in_tree: false,
            ..self
        }
    }

    /// Whether the surface holds an object.
    pub open spec fn holds(self, h: Handle) -> bool {
        ||| self.swap_chain == Some(h)
        ||| self.visual == Some(h)
        ||| self.popup_visual == Some(h)
        ||| self.popup_swap_chain == Some(h)
    }

    /// The popup is unhooked from its surface and emptied.
    pub open spec fn popup_detach_effects(self) -> Seq<Effect> {
        match self.popup_visual {
            Some(pv) => (match self.visual {
                Some(v) => seq![Effect::RemoveVisual { parent: v, child: pv }],
                None => seq![],
            }) + seq![Effect::SetContent { visual: pv, content: None }],
            None => seq![],
        }
    }

    /// The visual is unhooked from the root, if there still is one, and
    /// emptied.
    pub open spec fn visual_detach_effects(self, root: Option<Handle>) -> Seq<Effect> {
        match self.visual {
            Some(v) => (if self.in_tree && root is Some {
                seq![Effect::RemoveVisual { parent: root->0, child: v }]
            } else {
                seq![]
            }) + seq![Effect::SetContent { visual: v, content: None }],
            None => seq![],
        }
    }

    /// What detaching a surface calls, popup first.
    pub open spec fn detach_effects(self, root: Option<Handle>) -> Seq<Effect> {
        self.popup_detach_effects() + self.visual_detach_effects(root)
    }

    pub fn new() -> (r: Surface)
        ensures
            r == Surface::fresh(),
            r.wf(),
    {
        Surface {
            swap_chain: None,
            visual: None,
            sw: 0,
            sh: 0,
            visible: true,
            in_tree: false,
            popup_visual: None,
            popup_swap_chain: None,
            popup_sw: 0,
            popup_sh: 0,
            popup_visible: false,
        }
    }

    pub fn get_visual(&self, slot: Slot) -> (r: Option<Handle>)
        ensures
            r == self.visual_of(slot),
    {
        match slot {
            Slot::Main => self.visual,
            Slot::Popup => self.popup_visual,
        }
    }

    pub fn get_chain(&self, slot: Slot) -> (r: Option<Handle>)
        ensures
            r == self.chain_of(slot),
    {
        match slot {
            Slot::Main => self.swap_chain,
            Slot::Popup => self.popup_swap_chain,
        }
    }

    pub fn get_size(&self, slot: Slot) -> (r: (i32, i32))
        ensures
            r == self.size_of(slot),
    {
        match slot {
            Slot::Main => (self.sw, self.sh),
            Slot::Popup => (self.popup_sw, self.popup_sh),
        }
    }

    pub fn is_shown(&self, slot: Slot) -> (r: bool)
        ensures
            r == self.shown(slot),
    {
        match slot {
            Slot::Main => self.visible,
            Slot::Popup => self.popup_visible,
        }
    }

    pub fn set_chain(&mut self, slot: Slot, chain: Option<Handle>)
        ensures
            *final(self) == old(self).with_chain(slot, chain),
    {
        match slot {
            Slot::Main => {
                self.swap_chain = chain;
            },
            Slot::Popup => {
                self.popup_swap_chain = chain;
            },
        }
    }

    pub fn set_size(&mut self, slot: Slot, width: i32, height: i32)
        ensures
            *final(self) == old(self).with_size(slot, width, height),
    {
        match slot {
            Slot::Main => {
                self.sw = width;
                self.sh = height;
            },
            Slot::Popup => {
                self.popup_sw = width;
                self.popup_sh = height;
            },
        }
    }

    pub fn references(&self, h: Handle) -> (r: bool)
        ensures
            r == self.holds(h),
    {
        is_handle(self.swap_chain, h) || is_handle(self.visual, h) || is_handle(
            self.popup_visual,
            h,
        ) || is_handle(self.popup_swap_chain, h)
    }
}

/// Whether an optional handle is `h`.
pub fn is_handle(held: Option<Handle>, h: Handle) -> (r: bool)
    ensures
        r == (held == Some(h)),
{
    match held {
        Some(x) => x == h,
        None => false,
    }
}

/// Lets go of everything that a surface owns: the popup leaves its surface,
/// the visual leaves `root` if the surface is in the tree, and both are
/// emptied. The calls to make are appended to `effects`.
pub fn detach_surface(s: &mut Surface, root: Option<Handle>, effects: &mut Vec<Effect>)
    ensures
        *final(s) == old(s).detached(),
        final(effects)@ == old(effects)@ + old(s).detach_effects(root),
{
    if let Some(pv) = s.popup_visual {
        if let Some(v) = s.visual {
            effects.push(Effect::RemoveVisual { parent: v, child: pv });
        }
        effects.push(Effect::SetContent { visual: pv, content: None });
    }
    s.popup_visual = None;
    s.popup_swap_chain = None;
    if let Some(v) = s.visual {
        if s.in_tree {
            if let Some(r) = root {
                effects.push(Effect::RemoveVisual { parent: r, child: v });
            }
        }
        effects.push(Effect::SetContent { visual: v, content: None });
    }
    s.visual = None;
    s.swap_chain = None;
    assert(effects@ =~= old(effects)@ + old(s).detach_effects(root));
}

} // verus!
