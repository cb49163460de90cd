//! The ranges that a paste goes to: the current selections and, where the register holds more
//! pieces than there are selections, a position on each of the rows below them.

use vstd::prelude::*;

use crate::vim::job::{JobView, PasteJob};
use crate::vim::model::{DisplayPoint, Selection, Target};

verus! {

/// The smallest column that an end of one of `selections` is in.
pub open spec fn leftmost(selections: Seq<Selection>) -> u32
    decreases selections.len(),
{
    if selections.len() <= 1 {
        selections[0].left()
    } else {
        let left = leftmost(selections.drop_last());
        if left <= selections.last().left() {
            left
        } else {
            selections.last().left()
        }
    }
}

/// What the current selections and the positions added to them are as targets.
pub open spec fn targets_of(selections: Seq<Selection>, added: Seq<DisplayPoint>) -> Seq<Target> {
    selections.map_values(|range: Selection| Target { range, preserve: true }) + added.map_values(
        |point: DisplayPoint|
            Target { range: Selection { start: point, end: point }, preserve: false },
    )
}

impl JobView {
    /// How many pieces there are beyond the number of selections.
    pub open spec fn missing(self, selections: Seq<Selection>) -> nat {
        match self.clips {
            Some(clips) => if clips.len() > selections.len() {
                (clips.len() - selections.len()) as nat
            } else {
                0
            },
            None => 0,
        }
    }

    /// There is a selection to go down from, and enough rows can be numbered below it.
    pub open spec fn can_extend(self, selections: Seq<Selection>) -> bool {
        self.clips is Some ==> {
            &&& selections.len() > 0
            &&& selections.last().end.row + 1 + self.missing(selections) <= u32::MAX
        }
    }

    /// A position for each piece beyond the number of selections: on the rows below the last
    /// selection, in the leftmost column that is selected.
    pub open spec fn extension(self, selections: Seq<Selection>) -> Seq<DisplayPoint> {
        Seq::new(
            self.missing(selections),
            |i: int|
                DisplayPoint {
                    row: (selections.last().end.row + 1 + i) as u32,
                    column: leftmost(selections),
                },
        )
    }
}

/// No end of a selection is to the left of the leftmost column, and one is in it.
pub proof fn law_leftmost(selections: Seq<Selection>)
    requires
        selections.len() > 0,
    ensures
        forall|i: int| 0 <= i < selections.len() ==> leftmost(selections) <= (#[trigger] selections[i]).left(),
        exists|i: int| 0 <= i < selections.len() && leftmost(selections) == (#[trigger] selections[i]).left(),
    decreases selections.len(),
{
    if selections.len() == 1 {
        assert(leftmost(selections) == selections[0].left());
    } else {
        let rest = selections.drop_last();
        law_leftmost(rest);
        let k = choose|k: int| 0 <= k < rest.len() && leftmost(rest) == (#[trigger] rest[k]).left();
        assert(selections[k] == rest[k]);
        assert(selections.last() == selections[selections.len() - 1]);
        assert forall|i: int| 0 <= i < selections.len() implies leftmost(selections) <= (
        #[trigger] selections[i]).left() by {
            if i < rest.len() {
                assert(rest[i] == selections[i]);
            }
        }
    }
}

/// The smallest column that an end of one of `selections` is in.
fn leftmost_column(selections: &Vec<Selection>) -> (left: u32)
    requires
        selections@.len() > 0,
    ensures
        left == leftmost(selections@),
{
    let mut left: u32 = u32::MAX;
    let mut i: usize = 0;
    while i < selections.len()
        invariant
            selections@.len() > 0,
            i <= selections.len(),
            i > 0 ==> left == leftmost(selections@.take(i as int)),
            i == 0 ==> left == u32::MAX,
        decreases selections.len() - i,
    {
        let range = selections[i];
        let own: u32 = if range.start.column <= range.end.column {
            range.start.column
        } else {
            range.end.column
        };
        if own < left {
            left = own;
        }
        i += 1;
        proof {
            let seen = selections@.take(i as int);
            assert(seen.drop_last() == selections@.take(i - 1));
            assert(seen.last() == range);
        }
    }
    assert(selections@.take(selections@.len() as int) == selections@);
    left
}

/// The current selections, and the positions added to them, as targets.
pub fn process_selections(selections: &Vec<Selection>, added: &Vec<DisplayPoint>) -> (r: Vec<Target>)
    ensures
        r@ == targets_of(selections@, added@),
{
    let mut r: Vec<Target> = Vec::new();
    for i in 0..selections.len()
        invariant
            r@.len() == i,
            forall|j: int| 0 <= j < i ==> r@[j] == targets_of(selections@, added@)[j],
    {
        r.push(Target { range: selections[i], preserve: true });
    }
    for i in 0..added.len()
        invariant
            r@.len() == selections@.len() + i,
            forall|j: int| 0 <= j < r@.len() ==> r@[j] == targets_of(selections@, added@)[j],
    {
        let point = added[i];
        r.push(Target { range: Selection { start: point, end: point }, preserve: false });
    }
    assert(r@ == targets_of(selections@, added@));
    r
}

impl PasteJob {
    /// A position for each piece beyond the number of selections. The editor has yet to move
    /// each to where there is text.
    pub fn extend_selections(&self, selections: &Vec<Selection>) -> (r: Vec<DisplayPoint>)
        requires
            self@.can_extend(selections@),
        ensures
            r@ == self@.extension(selections@),
    {
        let mut r: Vec<DisplayPoint> = Vec::new();
        if let Some(clips) = &self.clips {
            let left: u32 = leftmost_column(selections);
            let mut row: u32 = selections[selections.len() - 1].end.row + 1;
            let mut i: usize = selections.len();
            while i < clips.len()
                invariant
                    self.clips == Some(*clips),
                    self@.can_extend(selections@),
                    left == leftmost(selections@),
                    selections@.len() <= i,
                    i <= clips@.len() || i == selections@.len(),
                    row == selections@.last().end.row + 1 + (i - selections@.len()),
                    r@.len() == i - selections@.len(),
                    forall|j: int| 0 <= j < r@.len() ==> r@[j] == self@.extension(selections@)[j],
                decreases clips.len() - i,
            {
                r.push(DisplayPoint { row, column: left });
                i += 1;
                row += 1;
            }
        }
        assert(r@ == self@.extension(selections@));
        r
    }
}

} // verus!
