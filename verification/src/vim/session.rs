//! One run of the paste command, as a conversation with the editor: the command names an
//! effect, the editor brings it about and answers with an event, and so on until the mode is
//! switched.

use vstd::prelude::*;

use crate::text::{byte_len, sliceable};
use crate::vim::edits::{
    anchors_of, edit_views, edits_of, indent_columns_of, make_edits, original_indent_columns,
    repeatable, request_anchors,
};
use crate::vim::insertion::{insertion_views, Insertion, InsertionView};
use crate::vim::job::{clip_end, clip_start, clips_fit, JobView, PasteJob};
use crate::vim::model::{
    AnchorRequest, ClipboardSelection, CursorPlan, DisplayPoint, Edit, Mode, Paste, Place,
    PointRange, Register, Selection,
};
use crate::vim::targets::{process_selections, targets_of};

verus! {

/// What the editor is to do next.
#[derive(Debug)]
pub enum PasteEffect {
    /// Put the selections into the register, as whole lines or not.
    CopySelections { linewise: bool },
    /// Report the current selections.
    ReadSelections,
    /// Move each position to the nearest text, to the left of it if there is none there.
    ClipPoints(Vec<DisplayPoint>),
    /// Find the buffer range of each place.
    Locate(Vec<Place>),
    /// Create the anchors, in order.
    CreateAnchors(Vec<AnchorRequest>),
    /// Change the buffer, indenting each text as a block: the `i`-th column is the indentation
    /// that the `i`-th text was copied from.
    Apply { edits: Vec<Edit>, original_indent_columns: Vec<u32> },
    /// Replace the cursors; each starts at the anchor that it names.
    PlaceCursors(Vec<CursorPlan>),
    /// Leave the command in this mode.
    SwitchMode(Mode),
}

/// What the editor answers.
#[derive(Debug)]
pub enum PasteEvent {
    /// The selections are in the register.
    Copied,
    /// The current selections.
    Selections(Vec<Selection>),
    /// The positions, moved to where there is text.
    Clipped(Vec<DisplayPoint>),
    /// The buffer ranges of the places.
    Located(Vec<PointRange>),
    /// The anchors exist.
    Anchored,
    /// The buffer is changed.
    Applied,
    /// The cursors are replaced.
    Placed,
}

/// How far a run of the command is: the effect it waits for, and what it has learnt.
#[derive(Debug)]
pub enum PasteStage {
    Copying(PasteJob),
    Reading(PasteJob),
    Clipping { job: PasteJob, selections: Vec<Selection> },
    Locating { job: PasteJob, insertions: Vec<Insertion> },
    Anchoring { job: PasteJob, insertions: Vec<Insertion>, ranges: Vec<PointRange> },
    Applying { job: PasteJob, insertions: Vec<Insertion> },
    Placing,
    Finished,
}

/// The places of a list of insertions.
pub open spec fn places_of(insertions: Seq<InsertionView>) -> Seq<Place> {
    insertions.map_values(|insertion: InsertionView| insertion.place)
}

impl Register {
    /// The pieces that the cursors get in `mode`: none where the register was filled by fewer
    /// than two cursors, and none over whole lines.
    pub open spec fn clips_in(self, mode: Mode) -> Option<Seq<ClipboardSelection>> {
        match self.clipboard_selections {
            Some(clips) => if clips@.len() > 1 && mode != Mode::VisualLine {
                Some(clips@)
            } else {
                None
            },
            None => None,
        }
    }
}

impl Paste {
    /// What the command pastes from `register`.
    pub open spec fn job(self, mode: Mode, count: Option<usize>, register: Register) -> JobView {
        JobView {
            text: register.text@,
            clips: register.clips_in(mode),
            before: self.before || mode == Mode::VisualLine,
            mode,
            count: match count {
                Some(n) => n as nat,
                None => 1,
            },
        }
    }

    /// Whether what the command replaces goes into the register.
    pub open spec fn copies(self, mode: Mode) -> bool {
        !self.preserve_clipboard && mode.visual()
    }

    /// Where a run starts that has text to paste, and what it asks for first: that what it
    /// replaces is copied, if it is to be, and else the selections.
    pub open spec fn opens(
        self,
        mode: Mode,
        count: Option<usize>,
        register: Register,
        stage: PasteStage,
        effect: PasteEffect,
    ) -> bool {
        if self.copies(mode) {
            &&& stage matches PasteStage::Copying(job)
            &&& job@ == self.job(mode, count, register)
            &&& effect == (PasteEffect::CopySelections { linewise: mode == Mode::VisualLine })
        } else {
            &&& stage matches PasteStage::Reading(job)
            &&& job@ == self.job(mode, count, register)
            &&& effect is ReadSelections
        }
    }

    /// Starts the command. `count` is the count that was typed before it, `register` the
    /// register that it pastes from. With nothing in the register, all that is left to do is
    /// to switch the mode.
    pub fn begin(&self, mode: Mode, count: Option<usize>, register: Option<Register>) -> (r: (
        PasteStage,
        PasteEffect,
    ))
        ensures
            register is None || register->0.text@.len() == 0 ==> {
                &&& r.0 is Finished
                &&& r.1 == PasteEffect::SwitchMode(Mode::Normal)
            },
            register is Some && register->0.text@.len() > 0 ==> self.opens(
                mode,
                count,
                register->0,
                r.0,
                r.1,
            ),
            r.0.wf(),
    {
        match register {
            Some(register) => {
                if register.text.as_str().is_empty() {
                    return (PasteStage::Finished, PasteEffect::SwitchMode(Mode::Normal));
                }
                let clips = match register.clipboard_selections {
                    Some(clips) => if clips.len() > 1 && mode != Mode::VisualLine {
                        Some(clips)
                    } else {
                        None
                    },
                    None => None,
                };
                let job = PasteJob {
                    text: register.text,
                    clips,
                    before: self.before || mode == Mode::VisualLine,
                    mode,
                    count: match count {
                        Some(n) => n,
                        None => 1,
                    },
                };
                assert(job@ == self.job(mode, count, register));
                if !self.preserve_clipboard && mode.is_visual() {
                    (
                        PasteStage::Copying(job),
                        PasteEffect::CopySelections { linewise: mode == Mode::VisualLine },
                    )
                } else {
                    (PasteStage::Reading(job), PasteEffect::ReadSelections)
                }
            },
            None => (PasteStage::Finished, PasteEffect::SwitchMode(Mode::Normal)),
        }
    }
}

impl PasteStage {
    /// What is pasted meets the conditions on it.
    pub open spec fn wf(self) -> bool {
        match self {
            PasteStage::Copying(job) => job@.wf(),
            PasteStage::Reading(job) => job@.wf(),
            PasteStage::Clipping { job, .. } => job@.wf(),
            PasteStage::Locating { job, .. } => job@.wf(),
            PasteStage::Anchoring { job, .. } => job@.wf(),
            PasteStage::Applying { job, .. } => job@.wf(),
            PasteStage::Placing => true,
            PasteStage::Finished => true,
        }
    }

    /// How many events the run still waits for.
    pub open spec fn events_left(self) -> nat {
        match self {
            PasteStage::Copying(_) => 7,
            PasteStage::Reading(_) => 6,
            PasteStage::Clipping { .. } => 5,
            PasteStage::Locating { .. } => 4,
            PasteStage::Anchoring { .. } => 3,
            PasteStage::Applying { .. } => 2,
            PasteStage::Placing => 1,
            PasteStage::Finished => 0,
        }
    }

    /// The event answers the effect that the run waits for, and lets it go on.
    pub open spec fn accepts(self, event: PasteEvent) -> bool {
        match (self, event) {
            (PasteStage::Copying(_), PasteEvent::Copied) => true,
            (PasteStage::Reading(job), PasteEvent::Selections(selections)) => job@.can_extend(
                selections@,
            ),
            (PasteStage::Clipping { job, selections }, PasteEvent::Clipped(added)) => {
                &&& added@.len() == job@.missing(selections@)
                &&& job@.fits((selections@.len() + added@.len()) as int)
            },
            (PasteStage::Locating { insertions, .. }, PasteEvent::Located(ranges)) => ranges@.len()
                == insertions@.len(),
            (PasteStage::Anchoring { job, insertions, ranges }, PasteEvent::Anchored) => {
                &&& ranges@.len() == insertions@.len()
                &&& repeatable(insertion_views(insertions@), job@.count)
            },
            (PasteStage::Applying { .. }, PasteEvent::Applied) => true,
            (PasteStage::Placing, PasteEvent::Placed) => true,
            _ => false,
        }
    }

    /// Where the event takes the run, and what the run asks for next.
    pub open spec fn steps_to(
        self,
        event: PasteEvent,
        next: PasteStage,
        effect: PasteEffect,
    ) -> bool {
        match (self, event) {
            (PasteStage::Copying(job), PasteEvent::Copied) => {
                &&& next == PasteStage::Reading(job)
                &&& effect is ReadSelections
            },
            (PasteStage::Reading(job), PasteEvent::Selections(selections)) => {
                &&& next == (PasteStage::Clipping { job, selections })
                &&& effect matches PasteEffect::ClipPoints(points)
                &&& points@ == job@.extension(selections@)
            },
            (PasteStage::Clipping { job, selections }, PasteEvent::Clipped(added)) => {
                let planned = job@.insertions(targets_of(selections@, added@));
                &&& next matches PasteStage::Locating { job: kept, insertions }
                &&& kept == job
                &&& insertion_views(insertions@) == planned
                &&& effect matches PasteEffect::Locate(places)
                &&& places@ == places_of(planned)
            },
            (PasteStage::Locating { job, insertions }, PasteEvent::Located(ranges)) => {
                &&& next == (PasteStage::Anchoring { job, insertions, ranges })
                &&& effect matches PasteEffect::CreateAnchors(anchors)
                &&& anchors@ == anchors_of(insertion_views(insertions@), ranges@)
            },
            (PasteStage::Anchoring { job, insertions, ranges }, PasteEvent::Anchored) => {
                let planned = insertion_views(insertions@);
                &&& next == (PasteStage::Applying { job, insertions })
                &&& effect matches PasteEffect::Apply { edits, original_indent_columns: columns }
                &&& edit_views(edits@) == edits_of(planned, ranges@, job@.count)
                &&& columns@ == indent_columns_of(planned)
            },
            (PasteStage::Applying { job, insertions }, PasteEvent::Applied) => {
                &&& next is Placing
                &&& effect matches PasteEffect::PlaceCursors(cursors)
                &&& cursors@ == job@.cursors(insertion_views(insertions@))
            },
            (PasteStage::Placing, PasteEvent::Placed) => {
                &&& next is Finished
                &&& effect == PasteEffect::SwitchMode(Mode::Normal)
            },
            _ => false,
        }
    }

    /// Takes the run on by one event.
    pub fn step(self, event: PasteEvent) -> (r: (PasteStage, PasteEffect))
        requires
            self.accepts(event),
        ensures
            self.steps_to(event, r.0, r.1),
            self.wf() ==> r.0.wf(),
            r.0.events_left() + 1 == self.events_left(),
            r.0 is Finished <==> r.1 is SwitchMode,
    {
        match (self, event) {
            (PasteStage::Copying(job), PasteEvent::Copied) => (
                PasteStage::Reading(job),
                PasteEffect::ReadSelections,
            ),
            (PasteStage::Reading(job), PasteEvent::Selections(selections)) => {
                let points = job.extend_selections(&selections);
                (PasteStage::Clipping { job, selections }, PasteEffect::ClipPoints(points))
            },
            (PasteStage::Clipping { job, selections }, PasteEvent::Clipped(added)) => {
                let targets = process_selections(&selections, &added);
                let insertions = job.plan_insertions(&targets);
                let places = list_places(&insertions);
                (PasteStage::Locating { job, insertions }, PasteEffect::Locate(places))
            },
            (PasteStage::Locating { job, insertions }, PasteEvent::Located(ranges)) => {
                let anchors = request_anchors(&insertions, &ranges);
                (
                    PasteStage::Anchoring { job, insertions, ranges },
                    PasteEffect::CreateAnchors(anchors),
                )
            },
            (PasteStage::Anchoring { job, insertions, ranges }, PasteEvent::Anchored) => {
                let edits = make_edits(&insertions, &ranges, job.count);
                let columns = original_indent_columns(&insertions);
                (
                    PasteStage::Applying { job, insertions },
                    PasteEffect::Apply { edits, original_indent_columns: columns },
                )
            },
            (PasteStage::Applying { job, insertions }, PasteEvent::Applied) => {
                let cursors = job.place_cursors(&insertions);
                (PasteStage::Placing, PasteEffect::PlaceCursors(cursors))
            },
            _ => (PasteStage::Finished, PasteEffect::SwitchMode(Mode::Normal)),
        }
    }

    /// Whether `step` can take the event.
    pub fn can_accept(&self, event: &PasteEvent) -> (r: bool)
        ensures
            r == self.accepts(*event),
    {
        match (self, event) {
            (PasteStage::Copying(_), PasteEvent::Copied) => true,
            (PasteStage::Reading(job), PasteEvent::Selections(selections)) => job.has_room_below(
                selections,
            ),
            (PasteStage::Clipping { job, selections }, PasteEvent::Clipped(added)) => {
                let missing: usize = match &job.clips {
                    Some(clips) => if clips.len() > selections.len() {
                        clips.len() - selections.len()
                    } else {
                        0
                    },
                    None => 0,
                };
                added.len() == missing && job.pieces_fit(selections.len(), missing)
            },
            (PasteStage::Locating { insertions, .. }, PasteEvent::Located(ranges)) => ranges.len()
                == insertions.len(),
            (PasteStage::Anchoring { job, insertions, ranges }, PasteEvent::Anchored) => {
                ranges.len() == insertions.len() && can_repeat(insertions, job.count)
            },
            (PasteStage::Applying { .. }, PasteEvent::Applied) => true,
            (PasteStage::Placing, PasteEvent::Placed) => true,
            _ => false,
        }
    }
}

/// The places of a list of insertions.
fn list_places(insertions: &Vec<Insertion>) -> (r: Vec<Place>)
    ensures
        r@ == places_of(insertion_views(insertions@)),
{
    let mut r: Vec<Place> = Vec::new();
    for i in 0..insertions.len()
        invariant
            r@.len() == i,
            forall|j: int| 0 <= j < i ==> r@[j] == places_of(insertion_views(insertions@))[j],
    {
        r.push(insertions[i].place);
    }
    assert(r@ == places_of(insertion_views(insertions@)));
    r
}

/// Whether each insertion can be repeated `count` times.
fn can_repeat(insertions: &Vec<Insertion>, count: usize) -> (r: bool)
    ensures
        r == repeatable(insertion_views(insertions@), count as nat),
{
    let ghost views = insertion_views(insertions@);
    let limit: usize = isize::MAX as usize;
    for i in 0..insertions.len()
        invariant
            views == insertion_views(insertions@),
            limit == isize::MAX,
            forall|j: int|
                0 <= j < i ==> byte_len((#[trigger] views[j]).text) * count <= isize::MAX,
    {
        let len: usize = insertions[i].text.as_str().as_bytes().len();
        assert(views[i as int].text == insertions@[i as int].text@);
        match len.checked_mul(count) {
            Some(total) => {
                if total > limit {
                    return false;
                }
            },
            None => {
                return false;
            },
        }
    }
    true
}

impl PasteJob {
    /// Whether there is a selection to go down from, and enough rows below it.
    fn has_room_below(&self, selections: &Vec<Selection>) -> (r: bool)
        ensures
            r == self@.can_extend(selections@),
    {
        match &self.clips {
            Some(clips) => {
                if selections.len() == 0 {
                    return false;
                }
                let last: u32 = selections[selections.len() - 1].end.row;
                if last == u32::MAX {
                    return false;
                }
                let room: usize = (u32::MAX - last - 1) as usize;
                clips.len() <= selections.len() || clips.len() - selections.len() <= room
            },
            None => true,
        }
    }

    /// Whether the pieces that `n + m` targets take lie in the text and cut no character in
    /// two.
    fn pieces_fit(&self, n: usize, m: usize) -> (r: bool)
        ensures
            r == self@.fits(n + m),
    {
        let clips = match &self.clips {
            Some(clips) => clips,
            None => {
                return true;
            },
        };
        let text = self.text.as_str();
        let len: usize = text.as_bytes().len();
        let mut previous_end: usize = 0;
        let mut k: usize = 0;
        while k < clips.len() && (k < n || k - n < m)
            invariant
                self.clips == Some(*clips),
                text@ == self@.text,
                len == byte_len(text@),
                k <= clips.len(),
                k <= n + m,
                clips_fit(text@, clips@, k as int),
                k > 0 ==> previous_end == clip_end(clips@, k - 1) && previous_end <= len,
            decreases clips.len() - k,
        {
            if k > 0 && previous_end == len {
                assert(!sliceable(text@, clip_start(clips@, k as int), clip_end(clips@, k as int)));
                return false;
            }
            let start: usize = if k == 0 {
                0
            } else {
                previous_end + 1
            };
            assert(start == clip_start(clips@, k as int));
            if clips[k].len > len - start {
                assert(!sliceable(text@, clip_start(clips@, k as int), clip_end(clips@, k as int)));
                return false;
            }
            let end: usize = start + clips[k].len;
            assert(end == clip_end(clips@, k as int));
            if !text.is_char_boundary(start) || !text.is_char_boundary(end) {
                assert(!sliceable(text@, clip_start(clips@, k as int), clip_end(clips@, k as int)));
                return false;
            }
            assert(sliceable(text@, start as int, end as int));
            previous_end = end;
            k += 1;
        }
        true
    }
}

} // verus!
