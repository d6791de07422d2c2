//! The state of the help popup.

use vstd::prelude::*;

verus! {

/// Whether the help popup is shown, and whether it has to be drawn again.
pub struct HelperPopup {
    visible: bool,
    repaint: bool,
}

impl HelperPopup {
    /// Whether the popup is shown.
    pub closed spec fn spec_visible(&self) -> bool {
        self.visible
    }

    /// Whether the popup has to be drawn again.
    pub closed spec fn spec_repaint(&self) -> bool {
        self.repaint
    }

    /// Whether the popup is shown.
    pub fn is_visible(&self) -> (visible: bool)
        ensures
            visible == self.spec_visible(),
    {
        self.visible
    }

    /// Shows or hides the popup. A change asks for a new drawing.
    pub fn set_visible(&mut self, enable: bool)
        ensures
            final(self).spec_visible() == enable,
            final(self).spec_repaint() == (old(self).spec_repaint() || old(self).spec_visible()
                != enable),
    {
        if self.visible != enable {
            self.repaint = true;
        }
        self.visible = enable;
    }

    /// Whether the popup has to be drawn again.
    pub fn needs_redraw(&mut self) -> (repaint: bool)
        ensures
            repaint == old(self).spec_repaint(),
            *final(self) == *old(self),
    {
        self.repaint
    }

    /// Records that the popup was drawn.
    pub fn drawn(&mut self)
        ensures
            final(self).spec_visible() == old(self).spec_visible(),
            !final(self).spec_repaint(),
    {
        self.repaint = false;
    }
}

impl Default for HelperPopup {
    /// A hidden popup that has not been drawn yet.
    fn default() -> (popup: Self)
        ensures
            !popup.spec_visible(),
            popup.spec_repaint(),
    {
        Self { visible: false, repaint: true }
    }
}

} // verus!
