//! The diagnostic dump of a box tree: one line per box, a box before the
//! boxes below it, each line indented by the depth of its box.

use crate::layout::model::BoxTree;
use crate::layout::BoxType;
use crate::layout::Dimensions;
use crate::layout::LayoutBox;
use vstd::prelude::*;

verus! {

/// By how many spaces the line of a box is indented more than the line of
/// its parent.
pub const INDENT_STEP: usize = 2;

/// One line of a dump: what is to be written for one box.
#[derive(Debug)]
pub struct DumpLine {
    /// The number of spaces in front of the line.
    pub indent_spaces: usize,
    pub box_type: BoxType,
    pub dimensions: Dimensions,
}

/// The indentation one level below `indent_spaces`. It stops growing at the
/// largest `usize`.
pub open spec fn indent_below(indent_spaces: usize) -> usize {
    if indent_spaces <= usize::MAX - INDENT_STEP {
        (indent_spaces + INDENT_STEP) as usize
    } else {
        usize::MAX
    }
}

impl BoxTree {
    /// The line of this box alone.
    pub open spec fn dump_line(self, indent_spaces: usize) -> DumpLine {
        DumpLine { indent_spaces, box_type: self.box_type, dimensions: self.dimensions }
    }

    /// The dump of this tree: the line of this box at `indent_spaces`, then
    /// the dumps of its children in order, one level below.
    pub open spec fn dump(self, indent_spaces: usize) -> Seq<DumpLine>
        decreases self,
    {
        seq![self.dump_line(indent_spaces)] + dump_among(
            self.children,
            indent_below(indent_spaces),
        )
    }
}

/// The dumps of the trees of `boxes`, one after the other, all at
/// `indent_spaces`.
pub open spec fn dump_among(boxes: Seq<BoxTree>, indent_spaces: usize) -> Seq<DumpLine>
    decreases boxes,
{
    if boxes.len() == 0 {
        Seq::empty()
    } else {
        dump_among(boxes.drop_last(), indent_spaces) + boxes.last().dump(indent_spaces)
    }
}

impl LayoutBox {
    /// Dumps this tree for inspection: the lines to write, first to last,
    /// with this box at `indent_spaces`.
    pub fn dump_layout(&self, indent_spaces: usize) -> (lines: Vec<DumpLine>)
        ensures
            lines@ == self@.dump(indent_spaces),
        decreases *self,
    {
        let below = if indent_spaces <= usize::MAX - INDENT_STEP {
            indent_spaces + INDENT_STEP
        } else {
            usize::MAX
        };
        let mut lines: Vec<DumpLine> = Vec::new();
        lines.push(
            DumpLine {
                indent_spaces,
                box_type: self.box_type.clone(),
                dimensions: self.dimensions,
            },
        );
        proof {
            self.lemma_view();
            assert(self@.children.take(0) =~= Seq::empty());
        }
        let mut i: usize = 0;
        while i < self.children.len()
            invariant
                i <= self.children.len(),
                below == indent_below(indent_spaces),
                self@.children.len() == self.children@.len(),
                forall|j: int|
                    0 <= j < self.children@.len() ==> self@.children[j] == (
                    #[trigger] self.children@[j])@,
                lines@ == seq![self@.dump_line(indent_spaces)] + dump_among(
                    self@.children.take(i as int),
                    below,
                ),
            decreases self.children.len() - i,
        {
            let mut child_lines = self.children[i].dump_layout(below);
            proof {
                let done = self@.children.take(i as int);
                let next = self@.children.take(i + 1);
                assert(next.drop_last() =~= done);
                assert(next.last() == self.children@[i as int]@);
                assert(seq![self@.dump_line(indent_spaces)] + dump_among(next, below) =~= lines@
                    + child_lines@);
            }
            lines.append(&mut child_lines);
            i += 1;
        }
        proof {
            assert(self@.children.take(i as int) =~= self@.children);
        }
        lines
    }
}

} // verus!
