//! From insertions to buffer edits, and the anchors and cursors that go with them.

use vstd::prelude::*;

use crate::text::{byte_len, repeat, repeated};
use crate::vim::insertion::{insertion_views, Insertion, InsertionView};
use crate::vim::job::{JobView, PasteJob};
use crate::vim::model::{
    AnchorRequest, AnchorSide, CursorMotion, CursorPlan, Edit, Mode, PointRange,
};

verus! {

/// An `Edit` as a mathematical value.
#[verifier::ext_equal]
pub struct EditView {
    pub range: PointRange,
    pub text: Seq<char>,
}

impl View for Edit {
    type V = EditView;

    open spec fn view(&self) -> EditView {
        EditView { range: self.range, text: self.text@ }
    }
}

/// The mathematical values of a list of edits.
pub open spec fn edit_views(edits: Seq<Edit>) -> Seq<EditView> {
    edits.map_values(|edit: Edit| edit@)
}

/// The edits that put each insertion, repeated, into its range.
pub open spec fn edits_of(
    insertions: Seq<InsertionView>,
    ranges: Seq<PointRange>,
    count: nat,
) -> Seq<EditView> {
    Seq::new(
        insertions.len(),
        |i: int| EditView { range: ranges[i], text: repeated(insertions[i].text, count) },
    )
}

/// The indentations that the insertions were copied from, as far as they are known.
pub open spec fn indent_columns_of(insertions: Seq<InsertionView>) -> Seq<u32> {
    insertions.filter_map(|insertion: InsertionView| insertion.original_indent_column)
}

/// The anchor of an insertion that goes into `range`.
pub open spec fn anchor_of(side: AnchorSide, range: PointRange) -> AnchorRequest {
    match side {
        AnchorSide::BeforeStart => AnchorRequest::Before(range.start),
        AnchorSide::AfterEnd => AnchorRequest::After(range.end),
    }
}

/// The anchors of all insertions.
pub open spec fn anchors_of(insertions: Seq<InsertionView>, ranges: Seq<PointRange>) -> Seq<
    AnchorRequest,
> {
    Seq::new(insertions.len(), |i: int| anchor_of(insertions[i].anchor, ranges[i]))
}

/// No insertion grows past what fits in memory when it is repeated.
pub open spec fn repeatable(insertions: Seq<InsertionView>, count: nat) -> bool {
    forall|i: int|
        0 <= i < insertions.len() ==> byte_len((#[trigger] insertions[i]).text) * count
            <= isize::MAX
}

impl JobView {
    /// How a cursor moves from its anchor. Of whole lines, it goes to the first non-blank
    /// character of the first; of other text within a line, to the last character; of other
    /// text over several lines, to the first character.
    pub open spec fn motion(self, insertion: InsertionView) -> CursorMotion {
        if insertion.line_mode {
            if self.before {
                CursorMotion::LineIndent
            } else {
                CursorMotion::DownToLineIndent
            }
        } else if insertion.is_multiline {
            CursorMotion::Stay
        } else {
            CursorMotion::Left
        }
    }

    /// A cursor for each insertion that keeps one, in order.
    pub open spec fn kept_cursors(self, insertions: Seq<InsertionView>) -> Seq<CursorPlan>
        decreases insertions.len(),
    {
        if insertions.len() == 0 {
            Seq::empty()
        } else {
            let earlier = self.kept_cursors(insertions.drop_last());
            if insertions.last().preserve {
                earlier.push(
                    CursorPlan {
                        anchor: (insertions.len() - 1) as usize,
                        motion: self.motion(insertions.last()),
                    },
                )
            } else {
                earlier
            }
        }
    }

    /// The cursors that the command leaves: all that are kept, but of a block selection only
    /// the first.
    pub open spec fn cursors(self, insertions: Seq<InsertionView>) -> Seq<CursorPlan> {
        let kept = self.kept_cursors(insertions);
        if self.mode == Mode::VisualBlock && kept.len() > 1 {
            kept.take(1)
        } else {
            kept
        }
    }
}

/// The anchors of all insertions.
pub fn request_anchors(insertions: &Vec<Insertion>, ranges: &Vec<PointRange>) -> (r: Vec<
    AnchorRequest,
>)
    requires
        insertions@.len() == ranges@.len(),
    ensures
        r@ == anchors_of(insertion_views(insertions@), ranges@),
{
    let mut r: Vec<AnchorRequest> = Vec::new();
    for i in 0..insertions.len()
        invariant
            insertions@.len() == ranges@.len(),
            r@.len() == i,
            forall|j: int|
                0 <= j < i ==> r@[j] == anchors_of(insertion_views(insertions@), ranges@)[j],
    {
        let range = ranges[i];
        r.push(
            match insertions[i].anchor {
                AnchorSide::BeforeStart => AnchorRequest::Before(range.start),
                AnchorSide::AfterEnd => AnchorRequest::After(range.end),
            },
        );
    }
    assert(r@ == anchors_of(insertion_views(insertions@), ranges@));
    r
}

/// The edits that put each insertion, `count` times, into its range.
pub fn make_edits(insertions: &Vec<Insertion>, ranges: &Vec<PointRange>, count: usize) -> (r: Vec<
    Edit,
>)
    requires
        insertions@.len() == ranges@.len(),
        repeatable(insertion_views(insertions@), count as nat),
    ensures
        edit_views(r@) == edits_of(insertion_views(insertions@), ranges@, count as nat),
{
    let ghost views = insertion_views(insertions@);
    let mut r: Vec<Edit> = Vec::new();
    for i in 0..insertions.len()
        invariant
            views == insertion_views(insertions@),
            insertions@.len() == ranges@.len(),
            repeatable(views, count as nat),
            r@.len() == i,
            forall|j: int|
                0 <= j < i ==> (#[trigger] r@[j])@ == edits_of(views, ranges@, count as nat)[j],
    {
        assert(views[i as int].text == insertions@[i as int].text@);
        r.push(Edit { range: ranges[i], text: repeat(insertions[i].text.as_str(), count) });
    }
    assert(edit_views(r@) == edits_of(views, ranges@, count as nat));
    r
}

/// The indentations that the insertions were copied from, as far as they are known.
pub fn original_indent_columns(insertions: &Vec<Insertion>) -> (r: Vec<u32>)
    ensures
        r@ == indent_columns_of(insertion_views(insertions@)),
{
    let ghost views = insertion_views(insertions@);
    let ghost column = |insertion: InsertionView| insertion.original_indent_column;
    let mut r: Vec<u32> = Vec::new();
    for i in 0..insertions.len()
        invariant
            views == insertion_views(insertions@),
            column == (|insertion: InsertionView| insertion.original_indent_column),
            r@ == views.take(i as int).filter_map(column),
    {
        broadcast use Seq::lemma_filter_map_take_succ;

        assert(views[i as int].original_indent_column == insertions@[i as int].original_indent_column);
        if let Some(found) = insertions[i].original_indent_column {
            r.push(found);
        }
        assert(r@ == views.take(i + 1).filter_map(column));
    }
    assert(views.take(views.len() as int) == views);
    r
}

impl PasteJob {
    /// How a cursor moves from its anchor.
    fn cursor_motion(&self, insertion: &Insertion) -> (r: CursorMotion)
        ensures
            r == self@.motion(insertion@),
    {
        if insertion.line_mode {
            if self.before {
                CursorMotion::LineIndent
            } else {
                CursorMotion::DownToLineIndent
            }
        } else if !insertion.is_multiline {
            CursorMotion::Left
        } else {
            CursorMotion::Stay
        }
    }

    /// The cursors that the command leaves.
    pub fn place_cursors(&self, insertions: &Vec<Insertion>) -> (r: Vec<CursorPlan>)
        ensures
            r@ == self@.cursors(insertion_views(insertions@)),
    {
        let ghost views = insertion_views(insertions@);
        let mut r: Vec<CursorPlan> = Vec::new();
        let mut i: usize = 0;
        while i < insertions.len()
            invariant
                views == insertion_views(insertions@),
                i <= insertions.len(),
                r@ == self@.kept_cursors(views.take(i as int)),
                self.mode == Mode::VisualBlock ==> r@.len() == 0,
            decreases insertions.len() - i,
        {
            proof {
                let seen = views.take(i + 1);
                assert(seen.drop_last() == views.take(i as int));
                assert(seen.last() == insertions@[i as int]@);
            }
            if insertions[i].preserve {
                r.push(CursorPlan { anchor: i, motion: self.cursor_motion(&insertions[i]) });
                if self.mode == Mode::VisualBlock {
                    proof {
                        lemma_kept_cursors_extend(self@, views, i + 1);
                        assert(self@.kept_cursors(views).take(1) == r@);
                    }
                    return r;
                }
            }
            i += 1;
        }
        assert(views.take(views.len() as int) == views);
        r
    }
}

/// The cursors of leading insertions lead the cursors of all.
pub proof fn lemma_kept_cursors_extend(job: JobView, insertions: Seq<InsertionView>, n: int)
    requires
        0 <= n <= insertions.len(),
    ensures
        job.kept_cursors(insertions.take(n)).is_prefix_of(job.kept_cursors(insertions)),
    decreases insertions.len(),
{
    if n == insertions.len() {
        assert(insertions.take(n) == insertions);
    } else {
        let rest = insertions.drop_last();
        assert(rest.take(n) == insertions.take(n));
        lemma_kept_cursors_extend(job, rest, n);
    }
}

} // verus!
