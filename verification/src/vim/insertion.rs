//! The insertions that a paste consists of, one for each target.

use vstd::prelude::*;
use vstd::string::*;

use crate::text::{contains_line_break, ends_line, ends_with_line_break, slice, sliceable};
use crate::vim::job::{clip_end, clip_start, JobView, PasteJob};
use crate::vim::model::{AnchorSide, ClipboardSelection, Mode, Place, Selection, Target};

verus! {

/// One insertion: its text, before it is repeated, and what is done with it.
#[derive(Debug)]
pub struct Insertion {
    pub text: String,
    pub place: Place,
    pub anchor: AnchorSide,
    /// Whether the register held whole lines.
    pub line_mode: bool,
    /// Whether the register held a line break.
    pub is_multiline: bool,
    /// Whether a cursor is left at the insertion.
    pub preserve: bool,
    /// The indentation that the text was copied from, if it is known.
    pub original_indent_column: Option<u32>,
}

/// An `Insertion` as a mathematical value.
#[verifier::ext_equal]
pub struct InsertionView {
    pub text: Seq<char>,
    pub place: Place,
    pub anchor: AnchorSide,
    pub line_mode: bool,
    pub is_multiline: bool,
    pub preserve: bool,
    pub original_indent_column: Option<u32>,
}

impl View for Insertion {
    type V = InsertionView;

    open spec fn view(&self) -> InsertionView {
        InsertionView {
            text: self.text@,
            place: self.place,
            anchor: self.anchor,
            line_mode: self.line_mode,
            is_multiline: self.is_multiline,
            preserve: self.preserve,
            original_indent_column: self.original_indent_column,
        }
    }
}

/// The mathematical values of a list of insertions.
pub open spec fn insertion_views(insertions: Seq<Insertion>) -> Seq<InsertionView> {
    insertions.map_values(|insertion: Insertion| insertion@)
}

impl JobView {
    /// Where text goes: over what is selected; else, whole lines at the beginning or the end
    /// of the cursor's line, and anything else in front of the cursor's character or behind it.
    pub open spec fn place(self, range: Selection, line_mode: bool) -> Place {
        if !range.empty() {
            Place::Over(range)
        } else if line_mode {
            if self.before {
                Place::LineBeginning(range.start)
            } else {
                Place::LineEnd(range.start)
            }
        } else if self.before {
            Place::At(range.start)
        } else {
            Place::RightOf(range.start)
        }
    }

    /// A cursor goes in front of what spans lines or replaces whole ones, and behind anything
    /// else.
    pub open spec fn anchor_side(self, is_multiline: bool) -> AnchorSide {
        if is_multiline || self.mode == Mode::VisualLine {
            AnchorSide::BeforeStart
        } else {
            AnchorSide::AfterEnd
        }
    }

    /// The insertion for the `ix`-th target.
    pub open spec fn insertion(self, target: Target, ix: int) -> InsertionView {
        let source = self.source(ix);
        InsertionView {
            text: self.adapted(source, target.range.empty()),
            place: self.place(target.range, ends_line(source)),
            anchor: self.anchor_side(source.contains('\n')),
            line_mode: ends_line(source),
            is_multiline: source.contains('\n'),
            preserve: target.preserve,
            original_indent_column: self.indent_column(ix),
        }
    }

    /// The insertions for `targets`, in order.
    pub open spec fn insertions(self, targets: Seq<Target>) -> Seq<InsertionView> {
        Seq::new(targets.len(), |ix: int| self.insertion(targets[ix], ix))
    }
}

impl PasteJob {
    /// `source`, with its line break where the target wants it.
    fn adapt(&self, source: String, line_mode: bool, target_empty: bool) -> (r: String)
        requires
            line_mode == ends_line(source@),
        ensures
            r@ == self@.adapted(source@, target_empty),
    {
        proof {
            reveal_strlit("\n");
            assert("\n"@ == seq!['\n']);
        }
        if line_mode && !self.before {
            let mut r = String::from_str("\n");
            if target_empty {
                let n: usize = source.as_str().unicode_len();
                r.append(source.as_str().substring_char(0, n - 1));
            } else {
                r.append(source.as_str());
            }
            r
        } else if !line_mode && self.mode == Mode::VisualLine {
            let mut r = source;
            r.append("\n");
            r
        } else {
            source
        }
    }

    /// Where the text goes.
    fn find_place(&self, range: Selection, line_mode: bool) -> (r: Place)
        ensures
            r == self@.place(range, line_mode),
    {
        if !range.is_empty() {
            Place::Over(range)
        } else if line_mode {
            if self.before {
                Place::LineBeginning(range.start)
            } else {
                Place::LineEnd(range.start)
            }
        } else if self.before {
            Place::At(range.start)
        } else {
            Place::RightOf(range.start)
        }
    }

    /// The insertion of `source` for one target.
    fn insert_source(&self, source: String, column: Option<u32>, target: Target) -> (r: Insertion)
        ensures
            r@.text == self@.adapted(source@, target.range.empty()),
            r@.place == self@.place(target.range, ends_line(source@)),
            r@.anchor == self@.anchor_side(source@.contains('\n')),
            r@.line_mode == ends_line(source@),
            r@.is_multiline == source@.contains('\n'),
            r@.preserve == target.preserve,
            r@.original_indent_column == column,
    {
        let line_mode = ends_with_line_break(source.as_str());
        let is_multiline = contains_line_break(source.as_str());
        Insertion {
            text: self.adapt(source, line_mode, target.range.is_empty()),
            place: self.find_place(target.range, line_mode),
            anchor: if is_multiline || self.mode == Mode::VisualLine {
                AnchorSide::BeforeStart
            } else {
                AnchorSide::AfterEnd
            },
            line_mode,
            is_multiline,
            preserve: target.preserve,
            original_indent_column: column,
        }
    }

    /// The insertions for `targets`, in order.
    pub fn plan_insertions(&self, targets: &Vec<Target>) -> (r: Vec<Insertion>)
        requires
            self@.fits(targets@.len() as int),
        ensures
            insertion_views(r@) == self@.insertions(targets@),
    {
        let mut r: Vec<Insertion> = Vec::new();
        let mut previous_end: usize = 0;
        let mut ix: usize = 0;
        while ix < targets.len()
            invariant
                self@.fits(targets@.len() as int),
                ix <= targets.len(),
                r@.len() == ix,
                forall|j: int| 0 <= j < ix ==> (#[trigger] r@[j])@ == self@.insertion(targets@[j], j),
                self.clips matches Some(clips) ==> (0 < ix <= clips@.len() ==> previous_end
                    == clip_end(clips@, ix - 1)),
            decreases targets.len() - ix,
        {
            let target = targets[ix];
            let insertion = match &self.clips {
                Some(clips) => {
                    if ix < clips.len() {
                        let clip: ClipboardSelection = clips[ix];
                        assert(sliceable(
                            self@.text,
                            clip_start(clips@, ix as int),
                            clip_end(clips@, ix as int),
                        ));
                        let bytes: usize = self.text.as_str().as_bytes().len();
                        assert(clip_end(clips@, ix as int) <= bytes);
                        let start: usize = if ix == 0 {
                            0
                        } else {
                            previous_end + 1
                        };
                        assert(start == clip_start(clips@, ix as int));
                        let end: usize = start + clip.len;
                        previous_end = end;
                        let source = slice(self.text.as_str(), start, end);
                        self.insert_source(source, Some(clip.first_line_indent), target)
                    } else {
                        let column: Option<u32> = if clips.len() > 0 {
                            Some(clips[0].first_line_indent)
                        } else {
                            None
                        };
                        self.insert_source(String::new(), column, target)
                    }
                },
                None => self.insert_source(self.text.clone(), None, target),
            };
            assert(insertion@ == self@.insertion(target, ix as int));
            r.push(insertion);
            ix += 1;
        }
        assert(insertion_views(r@) == self@.insertions(targets@));
        r
    }
}

} // verus!
