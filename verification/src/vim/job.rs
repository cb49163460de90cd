//! What one run of the paste command pastes: the text of a register, cut into the pieces of
//! the cursors that filled it.

use vstd::prelude::*;

use crate::text::{byte_slice, ends_line, sliceable};
use crate::vim::model::{ClipboardSelection, Mode};

verus! {

/// The byte offset at which the `k`-th piece of a register starts.
pub open spec fn clip_start(clips: Seq<ClipboardSelection>, k: int) -> int
    decreases k,
{
    if k <= 0 {
        0
    } else {
        clip_start(clips, k - 1) + clips[k - 1].len + 1
    }
}

/// The byte offset at which the `k`-th piece of a register ends.
pub open spec fn clip_end(clips: Seq<ClipboardSelection>, k: int) -> int {
    clip_start(clips, k) + clips[k].len
}

/// The `k`-th piece of a register.
pub open spec fn clip_text(text: Seq<char>, clips: Seq<ClipboardSelection>, k: int) -> Seq<char> {
    byte_slice(text, clip_start(clips, k), clip_end(clips, k))
}

/// The first `n` pieces lie in the text and cut no character in two.
pub open spec fn clips_fit(text: Seq<char>, clips: Seq<ClipboardSelection>, n: int) -> bool {
    forall|k: int|
        0 <= k < n && k < clips.len() ==> #[trigger] sliceable(
            text,
            clip_start(clips, k),
            clip_end(clips, k),
        )
}

/// What is pasted, and how.
#[derive(Debug)]
pub struct PasteJob {
    /// The text of the register.
    pub text: String,
    /// The pieces of the text, where each cursor gets its own.
    pub clips: Option<Vec<ClipboardSelection>>,
    /// Whether the text goes before the cursor.
    pub before: bool,
    /// The mode that the command was given in.
    pub mode: Mode,
    /// How often the text is repeated.
    pub count: usize,
}

/// A `PasteJob` as a mathematical value.
#[verifier::ext_equal]
pub struct JobView {
    pub text: Seq<char>,
    pub clips: Option<Seq<ClipboardSelection>>,
    pub before: bool,
    pub mode: Mode,
    pub count: nat,
}

impl View for PasteJob {
    type V = JobView;

    open spec fn view(&self) -> JobView {
        JobView {
            text: self.text@,
            clips: match self.clips {
                Some(clips) => Some(clips@),
                None => None,
            },
            before: self.before,
            mode: self.mode,
            count: self.count as nat,
        }
    }
}

impl JobView {
    /// There is something to paste; each cursor gets its own piece only where there are at
    /// least two and whole lines are not what is selected; over whole lines, text always goes
    /// before.
    pub open spec fn wf(self) -> bool {
        &&& self.text.len() > 0
        &&& self.clips matches Some(clips) ==> clips.len() > 1 && self.mode != Mode::VisualLine
        &&& self.mode == Mode::VisualLine ==> self.before
    }

    /// The pieces that `n` targets take lie in the text and cut no character in two.
    pub open spec fn fits(self, n: int) -> bool {
        self.clips matches Some(clips) ==> clips_fit(self.text, clips, n)
    }

    /// What the register holds for the `ix`-th target: its piece, or nothing where there are
    /// fewer pieces; the whole text where there are no pieces.
    pub open spec fn source(self, ix: int) -> Seq<char> {
        match self.clips {
            Some(clips) => if ix < clips.len() {
                clip_text(self.text, clips, ix)
            } else {
                Seq::empty()
            },
            None => self.text,
        }
    }

    /// The indentation that the `ix`-th piece was copied from; that of the first piece where
    /// there are fewer pieces.
    pub open spec fn indent_column(self, ix: int) -> Option<u32> {
        match self.clips {
            Some(clips) => if ix < clips.len() {
                Some(clips[ix].first_line_indent)
            } else if clips.len() > 0 {
                Some(clips[0].first_line_indent)
            } else {
                None
            },
            None => None,
        }
    }

    /// `source`, with its line break where the target wants it. Whole lines that go after the
    /// cursor start with a line break, and end with one only if they replace something; text
    /// that replaces whole lines ends with one.
    pub open spec fn adapted(self, source: Seq<char>, target_empty: bool) -> Seq<char> {
        if ends_line(source) && !self.before {
            if target_empty {
                seq!['\n'] + source.drop_last()
            } else {
                seq!['\n'] + source
            }
        } else if !ends_line(source) && self.mode == Mode::VisualLine {
            source.push('\n')
        } else {
            source
        }
    }
}

} // verus!
