//! The decisions of the window shell around the layout core: which tree to
//! lay out again, and what to do when the window reports something.

use crate::dom::NodeRef;
use crate::layout::build_layout_tree;
use crate::layout::model::generated_box;
use crate::layout::LayoutBox;
use vstd::prelude::*;

verus! {

/// The box tree of a document as it was generated, before any measuring.
///
/// Measuring writes geometry into a tree. The shell keeps this tree untouched
/// and measures copies of it, so that laying the document out again never
/// needs another walk over the styled document.
pub struct CleanLayoutTree {
    source: NodeRef,
    tree: LayoutBox,
}

impl CleanLayoutTree {
    #[verifier::type_invariant]
    spec fn is_clean(self) -> bool {
        generated_box(self.source) == Some(self.tree@)
    }

    /// The node that the kept tree was generated for.
    pub closed spec fn source(self) -> NodeRef {
        self.source
    }

    /// Generates the box tree of `styled_dom` and keeps it. There is nothing
    /// to keep exactly when `styled_dom` generates no box.
    pub fn new(styled_dom: NodeRef) -> (clean: Option<CleanLayoutTree>)
        requires
            styled_dom.styled(),
        ensures
            clean is Some <==> styled_dom.generates_box(),
            clean matches Some(kept) ==> kept.source() == styled_dom,
    {
        match build_layout_tree(styled_dom.clone()) {
            Some(tree) => Some(CleanLayoutTree { source: styled_dom, tree }),
            None => None,
        }
    }

    /// A copy of the kept tree to measure. Every copy is the tree that the
    /// source generates, whatever was done to earlier copies.
    pub fn fresh_copy(&self) -> (copy: LayoutBox)
        ensures
            generated_box(self.source()) == Some(copy@),
    {
        proof {
            use_type_invariant(self);
        }
        self.tree.clone()
    }
}

/// What the window reports to the shell.
#[derive(Clone, Copy, Debug, PartialEq, Eq, Structural)]
pub enum WindowSignal {
    /// The event loop is shutting down.
    LoopDestroyed,
    /// The window has a new size.
    Resized,
    /// The window has a new scale factor, and with it a new size.
    ScaleFactorChanged,
    /// The user asked to close the window.
    CloseRequested,
    /// Anything else.
    Other,
}

/// What the shell does about a signal.
#[derive(Clone, Copy, Debug, PartialEq, Eq, Structural)]
pub struct Reaction {
    /// Leave the event loop instead of waiting for the next signal.
    pub exit: bool,
    /// Take over the scale factor that came with the signal.
    pub adopt_scale_factor: bool,
    /// Fit the drawing surface to the size that came with the signal.
    pub resize: bool,
    /// Lay out a fresh copy of the clean tree and paint it.
    pub repaint: bool,
}

/// Decides what the shell does about `signal`: it leaves the loop when asked
/// to close; it resizes and repaints on a new size or scale factor, adopting
/// the scale factor if that is what changed; on anything else it just waits.
pub fn react(signal: WindowSignal) -> (reaction: Reaction)
    ensures
        reaction.exit <==> signal is CloseRequested,
        reaction.repaint <==> signal is Resized || signal is ScaleFactorChanged,
        reaction.resize == reaction.repaint,
        reaction.adopt_scale_factor <==> signal is ScaleFactorChanged,
{
    match signal {
        WindowSignal::Resized => Reaction {
            exit: false,
            adopt_scale_factor: false,
            resize: true,
            repaint: true,
        },
        WindowSignal::ScaleFactorChanged => Reaction {
            exit: false,
            adopt_scale_factor: true,
            resize: true,
            repaint: true,
        },
        WindowSignal::CloseRequested => Reaction {
            exit: true,
            adopt_scale_factor: false,
            resize: false,
            repaint: false,
        },
        WindowSignal::LoopDestroyed | WindowSignal::Other => Reaction {
            exit: false,
            adopt_scale_factor: false,
            resize: false,
            repaint: false,
        },
    }
}

} // verus!
