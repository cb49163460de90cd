//! What holds of each part of a paste, in terms of the register, the selections and the editor's
//! answers.

use vstd::prelude::*;
use vstd::utf8::*;

use crate::miner::laws::lemma_filter_map_concat;
use crate::text::{byte_len, ends_line, law_repeated_copies, lemma_repeated_once, sliceable};
use crate::vim::edits::{anchors_of, edit_views, edits_of, indent_columns_of, repeatable};
use crate::vim::insertion::{insertion_views, Insertion, InsertionView};
use crate::vim::job::{clip_end, clip_start, clips_fit, JobView, PasteJob};
use crate::vim::laws::law_columns_all_or_none;
use crate::vim::model::{
    AnchorRequest, AnchorSide, ClipboardSelection, CursorMotion, CursorPlan, DisplayPoint, Edit,
    Mode, Paste, Place, PointRange, Register, Selection, Target,
};
use crate::vim::session::{places_of, PasteEvent, PasteStage};
use crate::vim::targets::{law_leftmost, targets_of};

verus! {

/// Text is selected in the three visual modes, and in no other.
pub proof fn law_visual_modes()
    ensures
        Mode::Visual.visual() && Mode::VisualLine.visual() && Mode::VisualBlock.visual(),
        !Mode::Normal.visual() && !Mode::Insert.visual() && !Mode::Replace.visual(),
{
}

/// A range is empty exactly if it does not end behind its start: on a later row, or in the same row
/// in a later column.
pub proof fn law_empty_ranges(range: Selection)
    ensures
        range.start == range.end ==> range.empty(),
        range.start.row < range.end.row ==> !range.empty(),
        range.start.row > range.end.row ==> range.empty(),
        range.start.row == range.end.row ==> (range.empty() <==> range.end.column
            <= range.start.column),
{
}

/// What the command takes over: the whole text of the register; the count that was typed, or one;
/// the mode; the side that was asked for, but in front of selected lines; and the pieces of the
/// register, all of them, where there are at least two and no lines are selected.
pub proof fn law_job(paste: Paste, mode: Mode, count: Option<usize>, register: Register)
    ensures
        ({
            let job = paste.job(mode, count, register);
            &&& job.text == register.text@
            &&& job.mode == mode
            &&& count is None ==> job.count == 1
            &&& count is Some ==> job.count == count->0
            &&& mode == Mode::VisualLine ==> job.before && job.clips is None
            &&& mode != Mode::VisualLine ==> job.before == paste.before
            &&& register.clipboard_selections is None ==> job.clips is None
            &&& register.clipboard_selections matches Some(clips) ==> {
                &&& clips@.len() < 2 ==> job.clips is None
                &&& clips@.len() >= 2 && mode != Mode::VisualLine ==> job.clips == Some(clips@)
            }
        }),
{
}

/// What is replaced is copied in every visual mode, unless the clipboard is to be preserved, and in
/// no other mode.
pub proof fn law_what_is_copied(paste: Paste, mode: Mode)
    ensures
        paste.preserve_clipboard ==> !paste.copies(mode),
        mode == Mode::Normal || mode == Mode::Insert || mode == Mode::Replace ==> !paste.copies(mode),
        !paste.preserve_clipboard && (mode == Mode::Visual || mode == Mode::VisualLine || mode
            == Mode::VisualBlock) ==> paste.copies(mode),
{
}

/// A job, an insertion and an edit mean what their fields hold.
pub proof fn law_views(job: PasteJob, insertions: Seq<Insertion>, edits: Seq<Edit>)
    ensures
        job@.text == job.text@ && job@.before == job.before && job@.mode == job.mode && job@.count
            == job.count,
        job.clips is None ==> job@.clips is None,
        job.clips is Some ==> job@.clips == Some(job.clips->0@),
        insertion_views(insertions).len() == insertions.len(),
        places_of(insertion_views(insertions)).len() == insertions.len(),
        forall|i: int|
            #![trigger insertions[i]]
            0 <= i < insertions.len() ==> {
                let view = insertion_views(insertions)[i];
                &&& view.text == insertions[i].text@
                &&& view.place == insertions[i].place
                &&& view.anchor == insertions[i].anchor
                &&& view.line_mode == insertions[i].line_mode
                &&& view.is_multiline == insertions[i].is_multiline
                &&& view.preserve == insertions[i].preserve
                &&& view.original_indent_column == insertions[i].original_indent_column
                &&& places_of(insertion_views(insertions))[i] == insertions[i].place
            },
        edit_views(edits).len() == edits.len(),
        forall|i: int|
            #![trigger edits[i]]
            0 <= i < edits.len() ==> edit_views(edits)[i].text == edits[i].text@ && edit_views(
                edits,
            )[i].range == edits[i].range,
{
}

/// `offsets` are where the pieces start: the first at the start of the text, each other one byte
/// behind the end of the one before it.
pub open spec fn are_offsets(offsets: Seq<int>, clips: Seq<ClipboardSelection>) -> bool {
    &&& offsets.len() == clips.len()
    &&& clips.len() > 0 ==> offsets[0] == 0
    &&& forall|k: int|
        1 <= k < clips.len() ==> #[trigger] offsets[k] == offsets[k - 1] + clips[k - 1].len + 1
}

/// The offsets are where the pieces are looked for.
proof fn lemma_offsets(offsets: Seq<int>, clips: Seq<ClipboardSelection>, k: int)
    requires
        are_offsets(offsets, clips),
        0 <= k < clips.len(),
    ensures
        clip_start(clips, k) == offsets[k],
        offsets[k] >= 0,
    decreases k,
{
    if k > 0 {
        lemma_offsets(offsets, clips, k - 1);
    }
}

/// `source` is what the register holds for the `ix`-th target. Without pieces, that is the whole
/// text, for every target. With pieces, it is the `ix`-th, which takes the bytes of the text from
/// its offset on; for a target beyond the last piece, it is nothing.
pub open spec fn holds_for(job: JobView, offsets: Seq<int>, ix: int, source: Seq<char>) -> bool {
    match job.clips {
        None => source == job.text,
        Some(clips) => if ix < clips.len() {
            encode_utf8(source) == encode_utf8(job.text).subrange(
                offsets[ix],
                offsets[ix] + clips[ix].len,
            )
        } else {
            source.len() == 0
        },
    }
}

/// Each target gets what the register holds for it: the insertions are as many as the targets, and
/// the `ix`-th is of that text.
pub proof fn law_insertions_are_of_the_register(
    job: JobView,
    targets: Seq<Target>,
    offsets: Seq<int>,
    ix: int,
    source: Seq<char>,
)
    requires
        0 <= ix < targets.len(),
        job.clips matches Some(clips) ==> are_offsets(offsets, clips),
        holds_for(job, offsets, ix, source),
    ensures
        job.source(ix) == source,
        job.insertions(targets).len() == targets.len(),
        ({
            let insertion = job.insertions(targets)[ix];
            &&& insertion.preserve == targets[ix].preserve
            &&& insertion.line_mode <==> source.len() > 0 && source[source.len() - 1] == '\n'
            &&& insertion.is_multiline <==> exists|i: int|
                0 <= i < source.len() && #[trigger] source[i] == '\n'
            &&& job.mode == Mode::VisualLine || source.contains('\n') ==> insertion.anchor
                == AnchorSide::BeforeStart
            &&& job.mode != Mode::VisualLine && !source.contains('\n') ==> insertion.anchor
                == AnchorSide::AfterEnd
        }),
{
    if let Some(clips) = job.clips {
        if ix < clips.len() {
            lemma_offsets(offsets, clips, ix);
            encode_utf8_decode_utf8(source);
        } else {
            assert(source =~= Seq::empty());
        }
    }
}

/// Where the register has no pieces, every target gets the whole text, whatever its number and
/// whatever the mode: two targets that are both empty, or both not, get the same.
pub proof fn law_every_cursor_gets_the_whole_text(job: JobView, targets: Seq<Target>, i: int, j: int)
    requires
        job.clips is None,
        0 <= i < targets.len(),
        0 <= j < targets.len(),
    ensures
        job.source(i) == job.text,
        targets[i].range.empty() == targets[j].range.empty() ==> job.insertions(targets)[i].text
            == job.insertions(targets)[j].text,
        !ends_line(job.text) && job.mode != Mode::VisualLine ==> job.insertions(targets)[i].text
            == job.text,
        ends_line(job.text) && job.before ==> job.insertions(targets)[i].text == job.text,
        ends_line(job.text) && !job.before && targets[i].range.empty() ==> job.insertions(
            targets,
        )[i].text.push('\n') == seq!['\n'] + job.text,
{
    law_text_at_a_cursor(job, targets, i);
    law_text_over_a_selection(job, targets, i);
    law_text_at_a_cursor(job, targets, j);
    law_text_over_a_selection(job, targets, j);
    if ends_line(job.text) && !job.before {
        if targets[i].range.empty() && targets[j].range.empty() {
            let a = job.insertions(targets)[i].text;
            let b = job.insertions(targets)[j].text;
            assert(a =~= a.push('\n').drop_last());
            assert(b =~= b.push('\n').drop_last());
        }
    }
}

/// The text that replaces a selection. Outside visual-line mode, text that does not end with a line
/// break replaces it as it is, also where it holds line breaks inside; lines get a line break in
/// front, unless they go before. In visual-line mode the text ends with exactly the line break that
/// it had, or with one more if it had none. So it always holds the register's text in one piece.
pub proof fn law_text_over_a_selection(job: JobView, targets: Seq<Target>, ix: int)
    requires
        0 <= ix < targets.len(),
    ensures
        !targets[ix].range.empty() ==> {
            let source = job.source(ix);
            let text = job.insertions(targets)[ix].text;
            &&& !ends_line(source) && job.mode != Mode::VisualLine ==> text == source
            &&& !ends_line(source) && job.mode == Mode::VisualLine ==> text == source + seq!['\n']
            &&& ends_line(source) && job.before ==> text == source
            &&& ends_line(source) && !job.before ==> text == seq!['\n'] + source
            &&& job.insertions(targets)[ix].place == Place::Over(targets[ix].range)
            &&& exists|front: Seq<char>, back: Seq<char>|
                text == #[trigger] (front + source + back) && front.len() + back.len() <= 1
        },
{
    if !targets[ix].range.empty() {
        let source = job.source(ix);
        let text = job.insertions(targets)[ix].text;
        let none = Seq::<char>::empty();
        let one = seq!['\n'];
        assert(source.push('\n') =~= source + one);
        if text == source {
            assert(text =~= none + source + none);
        } else if text == one + source {
            assert(text =~= one + source + none);
        } else {
            assert(text =~= none + source + one);
        }
    }
}

/// The text that goes in at a cursor, and where. Text that does not end with a line break goes in
/// as it is, with a line break more in visual-line mode, in front of the cursor's character or
/// behind it. Lines go in as they are at the beginning of the cursor's line, or at its end, with
/// their last line break in front instead.
pub proof fn law_text_at_a_cursor(job: JobView, targets: Seq<Target>, ix: int)
    requires
        0 <= ix < targets.len(),
    ensures
        targets[ix].range.empty() ==> {
            let source = job.source(ix);
            let insertion = job.insertions(targets)[ix];
            let start = targets[ix].range.start;
            &&& !ends_line(source) && job.mode != Mode::VisualLine ==> insertion.text == source
            &&& !ends_line(source) && job.mode == Mode::VisualLine ==> insertion.text == source
                + seq!['\n']
            &&& ends_line(source) && job.before ==> insertion.text == source
            &&& ends_line(source) && !job.before ==> insertion.text.push('\n') == seq!['\n'] + source
            &&& !ends_line(source) && job.before ==> insertion.place == Place::At(start)
            &&& !ends_line(source) && !job.before ==> insertion.place == Place::RightOf(start)
            &&& ends_line(source) && job.before ==> insertion.place == Place::LineBeginning(start)
            &&& ends_line(source) && !job.before ==> insertion.place == Place::LineEnd(start)
        },
{
    let source = job.source(ix);
    assert(source.push('\n') =~= source + seq!['\n']);
    if ends_line(source) {
        assert((seq!['\n'] + source.drop_last()).push('\n') =~= seq!['\n'] + source);
    }
}

/// The indentations: that of each piece for its own target, that of the first piece for targets
/// beyond the last, and none where there are no pieces.
pub proof fn law_indentations(job: JobView, targets: Seq<Target>, ix: int)
    requires
        job.wf(),
        0 <= ix < targets.len(),
    ensures
        job.clips is None ==> {
            &&& job.insertions(targets)[ix].original_indent_column is None
            &&& indent_columns_of(job.insertions(targets)).len() == 0
        },
        job.clips matches Some(clips) ==> {
            &&& indent_columns_of(job.insertions(targets)).len() == targets.len()
            &&& job.insertions(targets)[ix].original_indent_column == Some(
                indent_columns_of(job.insertions(targets))[ix],
            )
            &&& ix < clips.len() ==> indent_columns_of(job.insertions(targets))[ix]
                == clips[ix].first_line_indent
            &&& ix >= clips.len() ==> indent_columns_of(job.insertions(targets))[ix]
                == clips[0].first_line_indent
        },
{
    law_columns_all_or_none(job, targets);
}

/// The known indentations of insertions are collected one after the other.
pub proof fn law_known_indentations(
    a: Seq<InsertionView>,
    b: Seq<InsertionView>,
    one: InsertionView,
)
    ensures
        indent_columns_of(a + b) == indent_columns_of(a) + indent_columns_of(b),
        one.original_indent_column is None ==> indent_columns_of(seq![one]) == Seq::<u32>::empty(),
        one.original_indent_column is Some ==> indent_columns_of(seq![one])
            == seq![one.original_indent_column->0],
{
    let column = |insertion: InsertionView| insertion.original_indent_column;
    lemma_filter_map_concat(a, b, column);
    Seq::lemma_filter_map_singleton(one, column);
}

/// The pieces fit exactly if each that is asked for lies in the text, by its offset and its length
/// in bytes, and cuts no character in two.
pub proof fn law_pieces_fit(job: JobView, offsets: Seq<int>, n: int)
    requires
        job.clips matches Some(clips) ==> are_offsets(offsets, clips),
    ensures
        job.clips is None ==> job.fits(n),
        job.clips matches Some(clips) ==> {
            let bytes = encode_utf8(job.text);
            job.fits(n) <==> forall|k: int|
                #![trigger offsets[k]]
                0 <= k < n && k < clips.len() ==> {
                    &&& offsets[k] + clips[k].len <= bytes.len()
                    &&& is_char_boundary(bytes, offsets[k])
                    &&& is_char_boundary(bytes, offsets[k] + clips[k].len)
                }
        },
{
    if let Some(clips) = job.clips {
        let bytes = encode_utf8(job.text);
        assert forall|k: int| 0 <= k < clips.len() implies clip_start(clips, k)
            == #[trigger] offsets[k] && offsets[k] >= 0 by {
            lemma_offsets(offsets, clips, k);
        }
        if job.fits(n) {
            assert forall|k: int| #![trigger offsets[k]] 0 <= k < n && k < clips.len() implies {
                &&& offsets[k] + clips[k].len <= bytes.len()
                &&& is_char_boundary(bytes, offsets[k])
                &&& is_char_boundary(bytes, offsets[k] + clips[k].len)
            } by {
                assert(sliceable(
                    job.text,
                    clip_start(clips, k),
                    clip_end(clips, k),
                ));
            }
        }
        if forall|k: int|
            #![trigger offsets[k]]
            0 <= k < n && k < clips.len() ==> {
                &&& offsets[k] + clips[k].len <= bytes.len()
                &&& is_char_boundary(bytes, offsets[k])
                &&& is_char_boundary(bytes, offsets[k] + clips[k].len)
            } {
            assert forall|k: int|
                0 <= k < n && k < clips.len() implies #[trigger] sliceable(
                job.text,
                clip_start(clips, k),
                clip_end(clips, k),
            ) by {
                assert(offsets[k] == clip_start(clips, k));
            }
            assert(clips_fit(job.text, clips, n));
        }
    }
}

/// The targets are the selections, each with its cursor, and behind them the added positions,
/// without.
pub proof fn law_targets(selections: Seq<Selection>, added: Seq<DisplayPoint>)
    ensures
        targets_of(selections, added).len() == selections.len() + added.len(),
        forall|i: int|
            0 <= i < selections.len() ==> targets_of(selections, added)[i].range
                == #[trigger] selections[i] && targets_of(selections, added)[i].preserve,
        forall|j: int|
            #![trigger added[j]]
            0 <= j < added.len() ==> {
                let target = targets_of(selections, added)[selections.len() + j];
                target.range.start == added[j] && target.range.end == added[j] && !target.preserve
            },
{
}

/// As many positions are added as there are pieces beyond the selections. They can be added where
/// there is a selection and the row below the last of them can be numbered. They go down from the
/// last selection, row by row, in the smallest column in which a selection starts or ends.
pub proof fn law_added_positions(job: JobView, selections: Seq<Selection>)
    ensures
        job.clips is None ==> job.missing(selections) == 0 && job.can_extend(selections),
        job.clips matches Some(clips) ==> {
            &&& clips.len() <= selections.len() ==> job.missing(selections) == 0
            &&& clips.len() > selections.len() ==> selections.len() + job.missing(selections)
                == clips.len()
            &&& job.can_extend(selections) <==> selections.len() > 0 && selections[selections.len()
                - 1].end.row + job.missing(selections) < u32::MAX
        },
        job.extension(selections).len() == job.missing(selections),
        job.can_extend(selections) ==> forall|i: int|
            #![trigger job.extension(selections)[i]]
            0 <= i < job.missing(selections) ==> {
                let point = job.extension(selections)[i];
                &&& point.row == selections[selections.len() - 1].end.row + 1 + i
                &&& forall|j: int|
                    #![trigger selections[j]]
                    0 <= j < selections.len() ==> point.column <= selections[j].start.column
                        && point.column <= selections[j].end.column
                &&& exists|j: int|
                    #![trigger selections[j]]
                    0 <= j < selections.len() && (point.column == selections[j].start.column
                        || point.column == selections[j].end.column)
            },
{
    if selections.len() > 0 {
        law_leftmost(selections);
    }
}

/// There is an edit for each insertion, in its range; its text is that of the insertion, as many
/// times as the count says, one copy behind the other.
pub proof fn law_edits(
    insertions: Seq<InsertionView>,
    ranges: Seq<PointRange>,
    count: nat,
    i: int,
    copy: int,
    at: int,
)
    requires
        0 <= i < insertions.len(),
    ensures
        edits_of(insertions, ranges, count).len() == insertions.len(),
        ({
            let edit = edits_of(insertions, ranges, count)[i];
            let text = insertions[i].text;
            &&& edit.range == ranges[i]
            &&& edit.text.len() == text.len() * count
            &&& 0 <= copy < count && 0 <= at < text.len() ==> edit.text[copy * text.len() + at]
                == text[at]
            &&& count == 1 ==> edit.text == text
        }),
{
    law_repeated_copies(insertions[i].text, count, copy, at);
    lemma_repeated_once(insertions[i].text);
}

/// The insertions can be repeated exactly if no text gets longer than memory can hold.
pub proof fn law_repeatable(insertions: Seq<InsertionView>, count: nat)
    ensures
        repeatable(insertions, count) <==> forall|i: int|
            0 <= i < insertions.len() ==> encode_utf8((#[trigger] insertions[i]).text).len() * count
                <= isize::MAX,
{
    if repeatable(insertions, count) {
        assert forall|i: int| 0 <= i < insertions.len() implies encode_utf8(
            (#[trigger] insertions[i]).text,
        ).len() * count <= isize::MAX by {
            assert(byte_len(insertions[i].text) * count <= isize::MAX);
        }
    }
}

/// There is an anchor for each insertion: before the start of its range, or after the end, as the
/// insertion says.
pub proof fn law_anchors(insertions: Seq<InsertionView>, ranges: Seq<PointRange>, i: int)
    requires
        0 <= i < insertions.len(),
    ensures
        anchors_of(insertions, ranges).len() == insertions.len(),
        insertions[i].anchor == AnchorSide::BeforeStart ==> anchors_of(insertions, ranges)[i]
            == AnchorRequest::Before(ranges[i].start),
        insertions[i].anchor == AnchorSide::AfterEnd ==> anchors_of(insertions, ranges)[i]
            == AnchorRequest::After(ranges[i].end),
{
}

/// How a cursor moves: of lines that went below, down to the first; of lines that went above, to
/// the start of the first; of other text, not at all if it spans lines, and to the left if not.
pub proof fn law_motions(job: JobView, insertion: InsertionView)
    ensures
        insertion.line_mode && !job.before ==> job.motion(insertion)
            == CursorMotion::DownToLineIndent,
        insertion.line_mode && job.before ==> job.motion(insertion) == CursorMotion::LineIndent,
        !insertion.line_mode && insertion.is_multiline ==> job.motion(insertion)
            == CursorMotion::Stay,
        !insertion.line_mode && !insertion.is_multiline ==> job.motion(insertion)
            == CursorMotion::Left,
{
}

/// The cursors stand at anchors of insertions that keep one, in order, each once and with the
/// motion of its insertion.
pub open spec fn in_order(
    job: JobView,
    insertions: Seq<InsertionView>,
    cursors: Seq<CursorPlan>,
) -> bool {
    &&& forall|i: int|
        #![trigger cursors[i]]
        0 <= i < cursors.len() ==> {
            &&& cursors[i].anchor < insertions.len()
            &&& insertions[cursors[i].anchor as int].preserve
            &&& cursors[i].motion == job.motion(insertions[cursors[i].anchor as int])
        }
    &&& forall|i: int, j: int|
        0 <= i < j < cursors.len() ==> (#[trigger] cursors[i]).anchor < (#[trigger] cursors[j]).anchor
}

/// The insertion with the number `k` has a cursor.
pub open spec fn has_cursor(cursors: Seq<CursorPlan>, k: int) -> bool {
    exists|i: int| 0 <= i < cursors.len() && (#[trigger] cursors[i]).anchor == k
}

/// The cursors that are kept are those of the insertions that keep one, all of them.
proof fn lemma_kept_cursors(job: JobView, insertions: Seq<InsertionView>)
    requires
        insertions.len() <= usize::MAX,
    ensures
        in_order(job, insertions, job.kept_cursors(insertions)),
        forall|k: int|
            0 <= k < insertions.len() && (#[trigger] insertions[k]).preserve ==> has_cursor(
                job.kept_cursors(insertions),
                k,
            ),
    decreases insertions.len(),
{
    if insertions.len() > 0 {
        let rest = insertions.drop_last();
        let n = rest.len() as int;
        let earlier = job.kept_cursors(rest);
        let kept = job.kept_cursors(insertions);
        lemma_kept_cursors(job, rest);
        assert forall|i: int|
            #![trigger kept[i]]
            0 <= i < kept.len() implies {
                &&& kept[i].anchor < insertions.len()
                &&& insertions[kept[i].anchor as int].preserve
                &&& kept[i].motion == job.motion(insertions[kept[i].anchor as int])
            } by {
            if i < earlier.len() {
                assert(kept[i] == earlier[i]);
                assert(rest[earlier[i].anchor as int] == insertions[earlier[i].anchor as int]);
            }
        }
        assert forall|i: int, j: int| 0 <= i < j < kept.len() implies (#[trigger] kept[i]).anchor < (
        #[trigger] kept[j]).anchor by {
            assert(kept[i] == earlier[i]);
            if j < earlier.len() {
                assert(kept[j] == earlier[j]);
            }
        }
        assert forall|k: int|
            0 <= k < insertions.len() && (#[trigger] insertions[k]).preserve implies has_cursor(
            kept,
            k,
        ) by {
            if k < n {
                assert(rest[k] == insertions[k]);
                assert(has_cursor(earlier, k));
                let i = choose|i: int|
                    0 <= i < earlier.len() && (#[trigger] earlier[i]).anchor == k;
                assert(kept[i] == earlier[i]);
            } else {
                assert(kept[kept.len() - 1].anchor == k);
            }
        }
    }
}

/// The cursors that a paste leaves stand, in order, at insertions that keep one. Outside
/// visual-block mode every such insertion has its cursor. In visual-block mode only the first has,
/// if there is one.
pub proof fn law_cursors(job: JobView, insertions: Seq<InsertionView>)
    requires
        insertions.len() <= usize::MAX,
    ensures
        in_order(job, insertions, job.cursors(insertions)),
        job.mode != Mode::VisualBlock ==> forall|k: int|
            0 <= k < insertions.len() && (#[trigger] insertions[k]).preserve ==> has_cursor(
                job.cursors(insertions),
                k,
            ),
        job.mode == Mode::VisualBlock ==> {
            &&& job.cursors(insertions).len() <= 1
            &&& forall|k: int|
                0 <= k < insertions.len() && (#[trigger] insertions[k]).preserve ==> job.cursors(
                    insertions,
                ).len() == 1 && job.cursors(insertions)[0].anchor <= k
        },
{
    lemma_kept_cursors(job, insertions);
    let kept = job.kept_cursors(insertions);
    let cursors = job.cursors(insertions);
    assert(forall|i: int| 0 <= i < cursors.len() ==> cursors[i] == kept[i]);
    if job.mode == Mode::VisualBlock {
        assert forall|k: int|
            0 <= k < insertions.len() && (#[trigger] insertions[k]).preserve implies cursors.len()
            == 1 && cursors[0].anchor <= k by {
            assert(has_cursor(kept, k));
            let i = choose|i: int| 0 <= i < kept.len() && (#[trigger] kept[i]).anchor == k;
            assert(kept[0].anchor <= kept[i].anchor);
        }
    }
}

/// What lets a run go on, stage by stage: the answer to what it asked for, and nothing else. The
/// selections must leave room for the positions to be added; of positions and ranges there must be
/// as many as were asked for; the pieces must fit, and so must the repeated texts.
pub proof fn law_accepted_events(stage: PasteStage, event: PasteEvent)
    ensures
        stage is Copying ==> (stage.accepts(event) <==> event is Copied),
        stage matches PasteStage::Reading(job) ==> {
            &&& stage.accepts(event) ==> event is Selections
            &&& event matches PasteEvent::Selections(selections) ==> (stage.accepts(event)
                <==> job@.can_extend(selections@))
        },
        stage matches PasteStage::Clipping { job, selections } ==> {
            &&& stage.accepts(event) ==> event is Clipped
            &&& event matches PasteEvent::Clipped(added) ==> (stage.accepts(event) <==> added@.len()
                == job@.missing(selections@) && job@.fits((selections@.len() + added@.len()) as int))
        },
        stage matches PasteStage::Locating { job, insertions } ==> {
            &&& stage.accepts(event) ==> event is Located
            &&& event matches PasteEvent::Located(ranges) ==> (stage.accepts(event)
                <==> ranges@.len() == insertions@.len())
        },
        stage matches PasteStage::Anchoring { job, insertions, ranges } ==> {
            &&& stage.accepts(event) ==> event is Anchored
            &&& event is Anchored ==> (stage.accepts(event) <==> ranges@.len() == insertions@.len()
                && repeatable(insertion_views(insertions@), job.count as nat))
        },
        stage is Applying ==> (stage.accepts(event) <==> event is Applied),
        stage is Placing ==> (stage.accepts(event) <==> event is Placed),
        stage is Finished ==> !stage.accepts(event),
{
}

} // verus!
