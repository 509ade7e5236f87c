//! The descriptor of one swap block.

use vstd::prelude::*;

verus! {

/// What a block descriptor stands for: the line of its opening marker, the
/// line of its closing marker once that has been seen, and the column that
/// anchors the comment prefix on the lines in between.
pub struct Block {
    pub start: nat,
    pub end: Option<nat>,
    pub indentation: nat,
}

/// One marked region of a file. `end` is `0` until the closing marker is seen.
#[derive(Clone, Copy, Debug, PartialEq, Eq, Structural)]
pub struct SwapBlock {
    pub start: usize,
    pub end: usize,
    pub indentation: usize,
}

impl View for SwapBlock {
    type V = Block;

    open spec fn view(&self) -> Block {
        Block {
            start: self.start as nat,
            end: if self.end == 0 {
                None
            } else {
                Some(self.end as nat)
            },
            indentation: self.indentation as nat,
        }
    }
}

impl DeepView for SwapBlock {
    type V = Block;

    open spec fn deep_view(&self) -> Block {
        self@
    }
}

impl Block {
    /// A closed block ends after it starts.
    pub open spec fn wf(self) -> bool {
        self.end matches Some(e) ==> e > self.start
    }

    /// The closing marker has been seen.
    pub open spec fn is_complete(self) -> bool {
        self.end is Some
    }

    /// Line `index` lies strictly between the two markers of a closed block.
    pub open spec fn has_inside(self, index: int) -> bool {
        self.end matches Some(e) && self.start < index < e
    }
}

impl SwapBlock {
    /// A block opened at line `start`, not yet closed.
    pub fn new(start: usize, indentation: usize) -> (block: Self)
        ensures
            block@ == (Block { start: start as nat, end: None, indentation: indentation as nat }),
            block@.wf(),
    {
        Self { start, end: 0, indentation }
    }

    /// Closes the block at line `end`.
    pub fn set_end(&mut self, end: usize)
        requires
            end > old(self).start,
        ensures
            final(self)@ == (Block { end: Some(end as nat), ..old(self)@ }),
            final(self)@.wf(),
    {
        self.end = end;
    }

    /// Whether the closing marker has been seen.
    pub fn is_complete(&self) -> (complete: bool)
        ensures
            complete == self@.is_complete(),
    {
        self.end != 0
    }
}

} // verus!
