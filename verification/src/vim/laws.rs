//! What holds of a paste as a whole.

use vstd::prelude::*;
use vstd::utf8::*;

use crate::text::{
    byte_len, ends_line, law_slice_gives_piece, lemma_encode_concat, lemma_repeated_lines,
    repeated, sliceable,
};
use crate::vim::edits::{anchors_of, edit_views, edits_of, indent_columns_of};
use crate::vim::insertion::InsertionView;
use crate::vim::job::{clip_end, clip_start, clip_text, JobView};
use crate::vim::model::{
    AnchorSide, ClipboardSelection, CursorMotion, CursorPlan, DisplayPoint, Mode, Paste,
    Place, Register, Selection, Target,
};
use crate::vim::session::{places_of, PasteEffect, PasteEvent, PasteStage};
use crate::vim::targets::{law_leftmost, targets_of};

verus! {

/// Whole lines, pasted at a cursor. After it: at the end of its line, which, with the line
/// break that follows it there, makes them the next lines, each copy on lines of its own; the
/// cursor then goes down to the first of them. Before it: at the beginning of its line, as
/// they are; the cursor goes to the first of them.
pub proof fn law_whole_lines(job: JobView, target: Target, ix: int)
    requires
        target.range.empty(),
        ends_line(job.source(ix)),
    ensures
        ({
            let insertion = job.insertion(target, ix);
            let source = job.source(ix);
            &&& insertion.line_mode && insertion.is_multiline
            &&& insertion.anchor == AnchorSide::BeforeStart
            &&& job.before ==> {
                &&& insertion.place == Place::LineBeginning(target.range.start)
                &&& insertion.text == source
                &&& job.motion(insertion) == CursorMotion::LineIndent
            }
            &&& !job.before ==> {
                &&& insertion.place == Place::LineEnd(target.range.start)
                &&& repeated(insertion.text, job.count) + seq!['\n'] == seq!['\n'] + repeated(
                    source,
                    job.count,
                )
                &&& job.motion(insertion) == CursorMotion::DownToLineIndent
            }
        }),
{
    let source = job.source(ix);
    assert(source[source.len() - 1] == '\n');
    assert(source.contains('\n'));
    if !job.before {
        lemma_repeated_lines(source.drop_last(), job.count);
        assert(source.drop_last().push('\n') =~= source);
    }
}

/// Other text, pasted at a cursor: unchanged, in front of the cursor's character or behind it.
/// If it spans lines, the cursor goes to its first character, and else to its last.
pub proof fn law_other_text(job: JobView, target: Target, ix: int)
    requires
        target.range.empty(),
        !ends_line(job.source(ix)),
        job.mode != Mode::VisualLine,
    ensures
        ({
            let insertion = job.insertion(target, ix);
            &&& insertion.text == job.source(ix)
            &&& insertion.place == if job.before {
                Place::At(target.range.start)
            } else {
                Place::RightOf(target.range.start)
            }
            &&& insertion.is_multiline ==> {
                &&& insertion.anchor == AnchorSide::BeforeStart
                &&& job.motion(insertion) == CursorMotion::Stay
            }
            &&& !insertion.is_multiline ==> {
                &&& insertion.anchor == AnchorSide::AfterEnd
                &&& job.motion(insertion) == CursorMotion::Left
            }
        }),
{
}

/// What is selected is what is replaced.
pub proof fn law_selection_is_replaced(job: JobView, target: Target, ix: int)
    requires
        !target.range.empty(),
    ensures
        job.insertion(target, ix).place == Place::Over(target.range),
{
}

/// What replaces whole lines is whole lines, and the cursor is anchored in front of it.
pub proof fn law_lines_replace_lines(job: JobView, target: Target, ix: int)
    requires
        job.wf(),
        job.mode == Mode::VisualLine,
    ensures
        ends_line(job.insertion(target, ix).text),
        job.insertion(target, ix).anchor == AnchorSide::BeforeStart,
{
}

/// A text that ends with a line break holds one.
pub proof fn law_line_mode_is_multiline(job: JobView, target: Target, ix: int)
    ensures
        job.insertion(target, ix).line_mode ==> job.insertion(target, ix).is_multiline,
{
    let source = job.source(ix);
    if ends_line(source) {
        assert(source[source.len() - 1] == '\n');
    }
}

/// Each selection is pasted to, and each piece is pasted: there are as many insertions as there
/// are selections or pieces, whichever are more.
pub proof fn law_every_piece_is_pasted(
    job: JobView,
    selections: Seq<Selection>,
    added: Seq<DisplayPoint>,
)
    requires
        added.len() == job.missing(selections),
    ensures
        job.insertions(targets_of(selections, added)).len() == match job.clips {
            Some(clips) => if clips.len() > selections.len() {
                clips.len()
            } else {
                selections.len()
            },
            None => selections.len(),
        },
        forall|i: int|
            0 <= i < selections.len() ==> (#[trigger] targets_of(selections, added)[i]) == (Target {
                range: selections[i],
                preserve: true,
            }),
{
}

/// Pieces beyond the number of selections go to the rows below the last selection, one row each,
/// in a column that no selection starts or ends to the left of.
pub proof fn law_pieces_go_down(job: JobView, selections: Seq<Selection>)
    requires
        job.clips is Some,
        job.can_extend(selections),
    ensures
        forall|i: int|
            0 <= i < job.missing(selections) ==> {
                &&& (#[trigger] job.extension(selections)[i]).row == selections.last().end.row + 1
                    + i
                &&& forall|j: int|
                    0 <= j < selections.len() ==> job.extension(selections)[i].column <= (
                    #[trigger] selections[j]).left()
            },
{
    law_leftmost(selections);
}

/// Each selection keeps its cursor, at the anchor of its own insertion, and the positions added
/// to the selections get none.
pub proof fn law_selections_keep_cursors(
    job: JobView,
    selections: Seq<Selection>,
    added: Seq<DisplayPoint>,
)
    requires
        selections.len() <= usize::MAX,
    ensures
        ({
            let insertions = job.insertions(targets_of(selections, added));
            let kept = job.kept_cursors(insertions);
            &&& kept.len() == selections.len()
            &&& forall|i: int|
                0 <= i < kept.len() ==> #[trigger] kept[i] == (CursorPlan {
                    anchor: i as usize,
                    motion: job.motion(insertions[i]),
                })
        }),
{
    let insertions = job.insertions(targets_of(selections, added));
    lemma_kept_cursors_of(job, insertions, selections.len() as int, insertions.len() as int);
    assert(insertions.take(insertions.len() as int) == insertions);
}

/// The cursors of the first `n` insertions, where the first `m` keep theirs and no other does.
proof fn lemma_kept_cursors_of(job: JobView, insertions: Seq<InsertionView>, m: int, n: int)
    requires
        0 <= m <= insertions.len(),
        0 <= n <= insertions.len(),
        m <= usize::MAX,
        forall|i: int| 0 <= i < insertions.len() ==> (#[trigger] insertions[i]).preserve == (i < m),
    ensures
        ({
            let kept = job.kept_cursors(insertions.take(n));
            &&& kept.len() == if n < m {
                n
            } else {
                m
            }
            &&& forall|i: int|
                0 <= i < kept.len() ==> #[trigger] kept[i] == (CursorPlan {
                    anchor: i as usize,
                    motion: job.motion(insertions[i]),
                })
        }),
    decreases n,
{
    if n > 0 {
        lemma_kept_cursors_of(job, insertions, m, n - 1);
        let seen = insertions.take(n);
        assert(seen.drop_last() == insertions.take(n - 1));
        assert(seen.last() == insertions[n - 1]);
    }
}

/// A paste over a block leaves one cursor, that of the first selection.
pub proof fn law_block_leaves_one_cursor(
    job: JobView,
    selections: Seq<Selection>,
    added: Seq<DisplayPoint>,
)
    requires
        0 < selections.len() <= usize::MAX,
        job.mode == Mode::VisualBlock,
    ensures
        ({
            let insertions = job.insertions(targets_of(selections, added));
            job.cursors(insertions) == seq![
                CursorPlan { anchor: 0, motion: job.motion(insertions[0]) },
            ]
        }),
{
    let insertions = job.insertions(targets_of(selections, added));
    law_selections_keep_cursors(job, selections, added);
    let kept = job.kept_cursors(insertions);
    assert(kept[0] == (CursorPlan { anchor: 0, motion: job.motion(insertions[0]) }));
    assert(job.cursors(insertions) =~= seq![kept[0]]);
}

/// Either the indentation is known of every insertion, or of none.
pub proof fn law_columns_all_or_none(job: JobView, targets: Seq<Target>)
    requires
        job.wf(),
    ensures
        job.clips is None ==> indent_columns_of(job.insertions(targets)).len() == 0,
        job.clips is Some ==> indent_columns_of(job.insertions(targets)) == Seq::new(
            targets.len(),
            |i: int| job.indent_column(i)->0,
        ),
{
    let insertions = job.insertions(targets);
    lemma_columns_of(job, targets, targets.len() as int);
    assert(insertions.take(targets.len() as int) == insertions);
}

/// The indentations of the first `n` insertions.
proof fn lemma_columns_of(job: JobView, targets: Seq<Target>, n: int)
    requires
        job.wf(),
        0 <= n <= targets.len(),
    ensures
        ({
            let columns = indent_columns_of(job.insertions(targets).take(n));
            &&& job.clips is None ==> columns.len() == 0
            &&& job.clips is Some ==> columns == Seq::new(
                n as nat,
                |i: int| job.indent_column(i)->0,
            )
        }),
    decreases n,
{
    let insertions = job.insertions(targets);
    if n > 0 {
        lemma_columns_of(job, targets, n - 1);
        let seen = insertions.take(n);
        assert(seen.drop_last() == insertions.take(n - 1));
        assert(seen.last() == job.insertion(targets[n - 1], n - 1));
        assert(job.clips is Some ==> indent_columns_of(seen) =~= Seq::new(
            n as nat,
            |i: int| job.indent_column(i)->0,
        ));
    }
}

/// The pieces of several cursors as the text of one register, with a line break between each
/// two.
pub open spec fn joined(pieces: Seq<Seq<char>>) -> Seq<char>
    decreases pieces.len(),
{
    if pieces.len() == 0 {
        Seq::empty()
    } else if pieces.len() == 1 {
        pieces[0]
    } else {
        joined(pieces.drop_last()) + seq!['\n'] + pieces.last()
    }
}

/// The clipboard selections measure the pieces.
pub open spec fn measures(clips: Seq<ClipboardSelection>, pieces: Seq<Seq<char>>) -> bool {
    &&& clips.len() == pieces.len()
    &&& forall|k: int| 0 <= k < pieces.len() ==> (#[trigger] clips[k]).len == byte_len(pieces[k])
}

/// A line break takes one byte.
proof fn lemma_break_is_one_byte()
    ensures
        byte_len(seq!['\n']) == 1,
{
    is_ascii_chars_encode_utf8(seq!['\n']);
}

/// The text up to the start of the `k`-th piece, and the text up to its end.
proof fn lemma_joined_offsets(clips: Seq<ClipboardSelection>, pieces: Seq<Seq<char>>, k: int)
    requires
        measures(clips, pieces),
        0 <= k < pieces.len(),
    ensures
        byte_len(joined(pieces.take(k + 1))) == clip_end(clips, k),
        exists|front: Seq<char>| #[trigger]
            byte_len(front) == clip_start(clips, k) && joined(pieces.take(k + 1)) == front
                + pieces[k],
    decreases k,
{
    let upto = pieces.take(k + 1);
    assert(upto.last() == pieces[k]);
    if k == 0 {
        let front = Seq::<char>::empty();
        assert(joined(upto) == pieces[0]);
        assert(joined(upto) =~= front + pieces[0]);
        assert(byte_len(front) == 0);
    } else {
        lemma_joined_offsets(clips, pieces, k - 1);
        assert(upto.drop_last() == pieces.take(k));
        let front = joined(pieces.take(k)) + seq!['\n'];
        lemma_break_is_one_byte();
        lemma_encode_concat(joined(pieces.take(k)), seq!['\n']);
        assert(byte_len(front) == clip_start(clips, k));
        assert(joined(upto) == front + pieces[k]);
        lemma_encode_concat(front, pieces[k]);
    }
}

/// The text of leading pieces leads the text of all.
proof fn lemma_joined_prefix(pieces: Seq<Seq<char>>, n: int)
    requires
        0 < n <= pieces.len(),
    ensures
        exists|back: Seq<char>| joined(pieces) == #[trigger] (joined(pieces.take(n)) + back),
    decreases pieces.len(),
{
    if n == pieces.len() {
        assert(pieces.take(n) == pieces);
        assert(joined(pieces) =~= joined(pieces.take(n)) + Seq::<char>::empty());
    } else {
        let rest = pieces.drop_last();
        assert(rest.take(n) == pieces.take(n));
        lemma_joined_prefix(rest, n);
        let back = choose|back: Seq<char>|
            joined(rest) == #[trigger] (joined(rest.take(n)) + back);
        assert(joined(pieces) =~= joined(pieces.take(n)) + (back + seq!['\n'] + pieces.last()));
    }
}

/// What several cursors put into a register, a paste gives back piece by piece.
pub proof fn law_pieces_are_given_back(
    job: JobView,
    clips: Seq<ClipboardSelection>,
    pieces: Seq<Seq<char>>,
)
    requires
        measures(clips, pieces),
        job.clips == Some(clips),
        job.text == joined(pieces),
    ensures
        forall|n: int| #[trigger] job.fits(n),
        forall|k: int| 0 <= k < pieces.len() ==> #[trigger] job.source(k) == pieces[k],
{
    assert forall|k: int| 0 <= k < pieces.len() implies #[trigger] sliceable(
        job.text,
        clip_start(clips, k),
        clip_end(clips, k),
    ) && clip_text(job.text, clips, k) == pieces[k] by {
        lemma_joined_offsets(clips, pieces, k);
        let front = choose|front: Seq<char>| #[trigger]
            byte_len(front) == clip_start(clips, k) && joined(pieces.take(k + 1)) == front
                + pieces[k];
        lemma_joined_prefix(pieces, k + 1);
        let back = choose|back: Seq<char>|
            joined(pieces) == #[trigger] (joined(pieces.take(k + 1)) + back);
        assert(job.text == front + pieces[k] + back);
        law_slice_gives_piece(front, pieces[k], back);
    }
    assert forall|k: int| 0 <= k < pieces.len() implies #[trigger] job.source(k) == pieces[k] by {
        assert(sliceable(job.text, clip_start(clips, k), clip_end(clips, k)));
    }
}

/// A run goes on only forwards, and ends where the mode is switched, which is to normal mode.
pub proof fn law_run_ends_in_normal_mode(
    stage: PasteStage,
    event: PasteEvent,
    next: PasteStage,
    effect: PasteEffect,
)
    requires
        stage.steps_to(event, next, effect),
    ensures
        next.events_left() + 1 == stage.events_left(),
        next is Finished <==> effect == PasteEffect::SwitchMode(Mode::Normal),
        effect is SwitchMode ==> effect == PasteEffect::SwitchMode(Mode::Normal),
        stage.wf() ==> next.wf(),
{
}

/// That the replaced text goes into the register does not change what is pasted.
pub proof fn law_copying_keeps_the_job(
    stage: PasteStage,
    event: PasteEvent,
    next: PasteStage,
    effect: PasteEffect,
)
    requires
        stage is Copying,
        stage.steps_to(event, next, effect),
    ensures
        next == PasteStage::Reading(stage->Copying_0),
{
}

/// `events` take a run through `stages`, where it asks for `effects` in turn.
pub open spec fn is_run(
    stages: Seq<PasteStage>,
    events: Seq<PasteEvent>,
    effects: Seq<PasteEffect>,
) -> bool {
    &&& stages.len() == events.len() + 1
    &&& effects.len() == events.len()
    &&& forall|i: int|
        0 <= i < events.len() ==> (#[trigger] stages[i]).accepts(events[i]) && stages[i].steps_to(
            events[i],
            stages[i + 1],
            effects[i],
        )
}

/// Each event brings a run one step nearer to its end; a run that has ended took as many events
/// as its first stage waits for.
pub proof fn law_run_length(
    stages: Seq<PasteStage>,
    events: Seq<PasteEvent>,
    effects: Seq<PasteEffect>,
)
    requires
        is_run(stages, events, effects),
    ensures
        events.len() + stages.last().events_left() == stages[0].events_left(),
        stages.last() is Finished <==> events.len() == stages[0].events_left(),
    decreases events.len(),
{
    if events.len() > 0 {
        let n = events.len() - 1;
        assert(stages[n].accepts(events[n]));
        let earlier = stages.drop_last();
        assert forall|i: int| 0 <= i < n implies (#[trigger] earlier[i]).accepts(
            events.drop_last()[i],
        ) && earlier[i].steps_to(
            events.drop_last()[i],
            earlier[i + 1],
            effects.drop_last()[i],
        ) by {
            assert(stages[i].accepts(events[i]));
        }
        law_run_length(earlier, events.drop_last(), effects.drop_last());
    }
}

/// A whole run with text to paste, whether or not it starts by copying what it replaces: the
/// buffer is changed once, by the repeated insertions for the selections and the positions added
/// to them, at the ranges that the editor found; then the cursors of those insertions are placed,
/// and the mode is switched to normal mode.
pub proof fn law_whole_run(
    paste: Paste,
    mode: Mode,
    count: Option<usize>,
    register: Register,
    opening: PasteEffect,
    stages: Seq<PasteStage>,
    events: Seq<PasteEvent>,
    effects: Seq<PasteEffect>,
)
    requires
        is_run(stages, events, effects),
        paste.opens(mode, count, register, stages[0], opening),
        stages.last() is Finished,
    ensures
        ({
            let job = paste.job(mode, count, register);
            let k: int = if paste.copies(mode) {
                1
            } else {
                0
            };
            &&& events.len() == k + 6
            &&& paste.copies(mode) ==> {
                &&& opening == (PasteEffect::CopySelections { linewise: mode == Mode::VisualLine })
                &&& events[0] is Copied
                &&& effects[0] is ReadSelections
            }
            &&& !paste.copies(mode) ==> opening is ReadSelections
            &&& events[k] matches PasteEvent::Selections(selections)
            &&& effects[k] matches PasteEffect::ClipPoints(points)
            &&& points@ == job.extension(selections@)
            &&& events[k + 1] matches PasteEvent::Clipped(added)
            &&& effects[k + 1] matches PasteEffect::Locate(places)
            &&& events[k + 2] matches PasteEvent::Located(ranges)
            &&& effects[k + 2] matches PasteEffect::CreateAnchors(anchors)
            &&& events[k + 3] is Anchored
            &&& effects[k + 3] matches PasteEffect::Apply { edits, original_indent_columns }
            &&& events[k + 4] is Applied
            &&& effects[k + 4] matches PasteEffect::PlaceCursors(cursors)
            &&& events[k + 5] is Placed
            &&& effects[k + 5] == PasteEffect::SwitchMode(Mode::Normal)
            &&& ({
                let insertions = job.insertions(targets_of(selections@, added@));
                &&& places@ == places_of(insertions)
                &&& anchors@ == anchors_of(insertions, ranges@)
                &&& edit_views(edits@) == edits_of(insertions, ranges@, job.count)
                &&& original_indent_columns@ == indent_columns_of(insertions)
                &&& cursors@ == job.cursors(insertions)
            })
        }),
{
    law_run_length(stages, events, effects);
    let k: int = if paste.copies(mode) {
        1
    } else {
        0
    };
    assert(stages[0].accepts(events[0]));
    assert(stages[k].accepts(events[k]));
    assert(stages[k + 1].accepts(events[k + 1]));
    assert(stages[k + 2].accepts(events[k + 2]));
    assert(stages[k + 3].accepts(events[k + 3]));
    assert(stages[k + 4].accepts(events[k + 4]));
    assert(stages[k + 5].accepts(events[k + 5]));
}

} // verus!
