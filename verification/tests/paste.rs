use vim_miner::vim::model::{
    AnchorRequest, ClipboardSelection, CursorMotion, DisplayPoint, Mode, Paste, Place, Point,
    PointRange, Register, Selection,
};
use vim_miner::vim::session::{PasteEffect, PasteEvent, PasteStage};

const P: Paste = Paste { before: false, preserve_clipboard: false };
const SHIFT_P: Paste = Paste { before: true, preserve_clipboard: false };
const VISUAL_SHIFT_P: Paste = Paste { before: false, preserve_clipboard: true };

/// What a run left behind.
struct Outcome {
    /// The buffer, with a mark in front of each cursor.
    buffer: String,
    /// Whether selections were copied, and as whole lines or not.
    copied: Option<bool>,
    /// The indentations that were handed over with the edits.
    columns: Vec<u32>,
    mode: Mode,
}

/// A plain buffer, of which each line takes one display row.
struct Buffer {
    lines: Vec<String>,
}

impl Buffer {
    fn new(text: &str) -> Buffer {
        Buffer { lines: text.split('\n').map(|line| line.to_string()).collect() }
    }

    fn len(&self, row: u32) -> u32 {
        self.lines[row as usize].len() as u32
    }

    fn clip(&self, point: DisplayPoint) -> DisplayPoint {
        let last = self.lines.len() as u32 - 1;
        if point.row > last {
            return DisplayPoint { row: last, column: self.len(last) };
        }
        DisplayPoint { row: point.row, column: point.column.min(self.len(point.row)) }
    }

    fn offset(&self, point: Point) -> usize {
        let mut offset = 0;
        for row in 0..point.row {
            offset += self.len(row) as usize + 1;
        }
        offset + point.column as usize
    }

    fn point_at(&self, offset: usize) -> Point {
        let mut rest = offset;
        for (row, line) in self.lines.iter().enumerate() {
            if rest <= line.len() {
                return Point { row: row as u32, column: rest as u32 };
            }
            rest -= line.len() + 1;
        }
        panic!("offset {} is past the end", offset)
    }

    fn locate(&self, place: Place) -> PointRange {
        let (start, end) = match place {
            Place::Over(range) => (range.start, range.end),
            Place::LineBeginning(at) => {
                let point = DisplayPoint { row: at.row, column: 0 };
                (point, point)
            }
            Place::LineEnd(at) => {
                let point = DisplayPoint { row: at.row, column: self.len(at.row) };
                (point, point)
            }
            Place::At(at) => (at, at),
            Place::RightOf(at) => {
                let point = self.clip(DisplayPoint { row: at.row, column: at.column + 1 });
                (point, point)
            }
        };
        PointRange {
            start: Point { row: start.row, column: start.column },
            end: Point { row: end.row, column: end.column },
        }
    }

    fn left_of(&self, point: Point) -> Point {
        let line = &self.lines[point.row as usize];
        let mut column = point.column.saturating_sub(1);
        while !line.is_char_boundary(column as usize) {
            column -= 1;
        }
        Point { row: point.row, column }
    }

    fn indent(&self, row: u32) -> u32 {
        let line = &self.lines[row as usize];
        (line.len() - line.trim_start().len()) as u32
    }

    fn text(&self) -> String {
        self.lines.join("\n")
    }
}

/// Runs the command on a buffer.
fn run(
    text: &str,
    selections: Vec<Selection>,
    mode: Mode,
    count: Option<usize>,
    register: Option<Register>,
    paste: Paste,
) -> Outcome {
    let mut buffer = Buffer::new(text);
    let mut copied = None;
    let mut columns = Vec::new();
    let mut anchors: Vec<(usize, bool)> = Vec::new();
    let mut cursors: Vec<Point> = Vec::new();
    let mut selections = Some(selections);

    let (mut stage, mut effect) = paste.begin(mode, count, register);
    loop {
        let event = match effect {
            PasteEffect::CopySelections { linewise } => {
                copied = Some(linewise);
                PasteEvent::Copied
            }
            PasteEffect::ReadSelections => PasteEvent::Selections(selections.take().unwrap()),
            PasteEffect::ClipPoints(points) => {
                PasteEvent::Clipped(points.into_iter().map(|point| buffer.clip(point)).collect())
            }
            PasteEffect::Locate(places) => {
                PasteEvent::Located(places.into_iter().map(|place| buffer.locate(place)).collect())
            }
            PasteEffect::CreateAnchors(requests) => {
                for request in requests {
                    anchors.push(match request {
                        AnchorRequest::Before(point) => (buffer.offset(point), false),
                        AnchorRequest::After(point) => (buffer.offset(point), true),
                    });
                }
                PasteEvent::Anchored
            }
            PasteEffect::Apply { edits, original_indent_columns } => {
                columns = original_indent_columns;
                let mut whole = buffer.text();
                for edit in edits.iter().rev() {
                    let start = buffer.offset(edit.range.start);
                    let end = buffer.offset(edit.range.end);
                    whole.replace_range(start..end, &edit.text);
                    for (offset, after) in anchors.iter_mut() {
                        if *offset > end || (*offset == end && *after) {
                            *offset = *offset + edit.text.len() - (end - start);
                        } else if *offset > start {
                            *offset = start;
                        }
                    }
                }
                buffer = Buffer::new(&whole);
                PasteEvent::Applied
            }
            PasteEffect::PlaceCursors(plans) => {
                for plan in plans {
                    let at = buffer.point_at(anchors[plan.anchor].0);
                    cursors.push(match plan.motion {
                        CursorMotion::Stay => at,
                        CursorMotion::Left => buffer.left_of(at),
                        CursorMotion::LineIndent => {
                            Point { row: at.row, column: buffer.indent(at.row) }
                        }
                        CursorMotion::DownToLineIndent => {
                            Point { row: at.row + 1, column: buffer.indent(at.row + 1) }
                        }
                    });
                }
                PasteEvent::Placed
            }
            PasteEffect::SwitchMode(mode) => {
                assert!(matches!(stage, PasteStage::Finished));
                let mut marked = buffer.lines.clone();
                for cursor in cursors.iter().rev() {
                    let line = &mut marked[cursor.row as usize];
                    let column = (cursor.column as usize).min(line.len().saturating_sub(1));
                    line.insert(column, 'ˇ');
                }
                return Outcome { buffer: marked.join("\n"), copied, columns, mode };
            }
        };
        assert!(stage.can_accept(&event));
        let (next, wanted) = stage.step(event);
        stage = next;
        effect = wanted;
    }
}

fn at(row: u32, column: u32) -> Selection {
    over(row, column, row, column)
}

fn over(row: u32, column: u32, end_row: u32, end_column: u32) -> Selection {
    Selection {
        start: DisplayPoint { row, column },
        end: DisplayPoint { row: end_row, column: end_column },
    }
}

fn holding(text: &str) -> Option<Register> {
    Some(Register { text: text.to_string(), clipboard_selections: None })
}

fn holding_pieces(text: &str, pieces: Vec<(usize, u32)>) -> Option<Register> {
    let clips = pieces
        .into_iter()
        .map(|(len, first_line_indent)| ClipboardSelection { len, first_line_indent })
        .collect();
    Some(Register { text: text.to_string(), clipboard_selections: Some(clips) })
}

#[test]
fn text_goes_behind_the_cursor() {
    let text = "The quick brown\nfox jumps over\nthe lazy dog";
    let done = run(text, vec![at(1, 13)], Mode::Normal, None, holding("jumps o"), P);
    assert_eq!(done.buffer, "The quick brown\nfox jumps overjumps ˇo\nthe lazy dog");
    assert_eq!(done.mode, Mode::Normal);
    assert_eq!(done.copied, None);
    assert!(done.columns.is_empty());
}

#[test]
fn text_goes_in_front_of_the_cursor() {
    let text = "The quick brown\nfox jumps over\nthe lazy dog";
    let done = run(text, vec![at(1, 13)], Mode::Normal, None, holding("jumps o"), SHIFT_P);
    assert_eq!(done.buffer, "The quick brown\nfox jumps ovejumps ˇor\nthe lazy dog");
}

#[test]
fn lines_go_below_and_above() {
    let text = "The quick brown\nthe lazy dog";
    let lines = "fox jumps over\n";
    let done = run(text, vec![at(1, 6)], Mode::Normal, None, holding(lines), P);
    assert_eq!(done.buffer, "The quick brown\nthe lazy dog\nˇfox jumps over");

    let text = "The quick brown\nthe lazy dog\nfox jumps over";
    let done = run(text, vec![at(1, 0)], Mode::Normal, None, holding(lines), SHIFT_P);
    assert_eq!(done.buffer, "The quick brown\nˇfox jumps over\nthe lazy dog\nfox jumps over");
}

#[test]
fn the_cursor_goes_to_the_start_of_text_over_several_lines() {
    let text = "The quick brown\nfox jumps over\nthe lazy dog";
    let several = "over\nthe lazy do";
    let done = run(text, vec![at(1, 10)], Mode::Normal, None, holding(several), P);
    assert_eq!(
        done.buffer,
        "The quick brown\nfox jumps oˇover\nthe lazy dover\nthe lazy dog"
    );
    let done = run(text, vec![at(1, 10)], Mode::Normal, None, holding(several), SHIFT_P);
    assert_eq!(
        done.buffer,
        "The quick brown\nfox jumps ˇover\nthe lazy doover\nthe lazy dog"
    );
}

#[test]
fn the_first_non_blank_character_gets_the_cursor() {
    let text = "class A {\n    a(){}\n}\n";
    let done = run(text, vec![at(1, 7)], Mode::Normal, None, holding("    a(){}\n"), P);
    assert_eq!(done.buffer, "class A {\n    a(){}\n    ˇa(){}\n}\n");
}

#[test]
fn an_empty_register_changes_nothing_but_the_mode() {
    let text = "The quick brown";
    for register in vec![None, holding("")] {
        let done = run(text, vec![over(0, 0, 0, 3)], Mode::Visual, None, register, P);
        assert_eq!(done.buffer, text);
        assert_eq!(done.copied, None);
        assert_eq!(done.mode, Mode::Normal);
    }
}

#[test]
fn a_selection_is_replaced_and_copied() {
    let text = "The quick brown\nfox jumps over\nthe lazy dog";
    let done = run(text, vec![over(1, 10, 1, 14)], Mode::Visual, None, holding("jumps"), P);
    assert_eq!(done.buffer, "The quick brown\nfox jumps jumpˇs\nthe lazy dog");
    assert_eq!(done.copied, Some(false));
}

#[test]
fn lines_break_the_line_that_they_are_pasted_into() {
    let text = "The quick brown\nthe lazy dog";
    let lines = "fox jumps over\n";
    let done = run(text, vec![over(1, 4, 1, 8)], Mode::Visual, None, holding(lines), P);
    assert_eq!(done.buffer, "The quick brown\nthe \nˇfox jumps over\n dog");
    assert_eq!(done.copied, Some(false));
}

#[test]
fn selected_lines_are_replaced_by_lines() {
    let text = "The quick brown\nfox jumps jumps\nthe lazy dog";
    let row = vec![over(0, 0, 1, 0)];
    let done = run(text, row, Mode::VisualLine, None, holding("over"), VISUAL_SHIFT_P);
    assert_eq!(done.buffer, "ˇover\nfox jumps jumps\nthe lazy dog");
    assert_eq!(done.copied, None);

    let text = "The quick brown\nthe lazy dog";
    let row = vec![over(0, 0, 1, 0)];
    let done = run(text, row, Mode::VisualLine, None, holding("fox jumps over\n"), P);
    assert_eq!(done.buffer, "ˇfox jumps over\nthe lazy dog");
    assert_eq!(done.copied, Some(true));
}

#[test]
fn a_block_selection_leaves_one_cursor() {
    let text = "over\nfox jumps jumps\nthe lazy dog";
    let block = vec![over(0, 0, 0, 1), over(1, 0, 1, 1), over(2, 0, 2, 1)];
    let done = run(text, block, Mode::VisualBlock, None, holding("over"), P);
    assert_eq!(done.buffer, "oveˇrver\noverox jumps jumps\noverhe lazy dog");
    assert_eq!(done.copied, Some(false));
}

#[test]
fn a_copied_block_goes_to_the_rows_below() {
    let text = "The quick brown\nfox jumps over\nthe lazy dog";
    let pieces = vec![(1, 0), (1, 0), (1, 0)];
    let register = holding_pieces("q\nj\nl", pieces.clone());
    let done = run(text, vec![at(0, 4)], Mode::Normal, None, register, P);
    assert_eq!(done.buffer, "The qˇquick brown\nfox jjumps over\nthe llazy dog");

    let text = "The qquick brown\nfox jjumps over\nthe llazy dog";
    let register = holding_pieces("q\nj\nl", pieces);
    let done = run(text, vec![over(0, 4, 0, 10)], Mode::Visual, None, register, VISUAL_SHIFT_P);
    assert_eq!(done.buffer, "The ˇq brown\nfox jjjumps over\nthe lllazy dog");
}

#[test]
fn rows_beyond_the_pieces_are_emptied() {
    let text = "The quick brown\nfox jumps over\nthe lazy dog";
    let block = vec![over(0, 5, 0, 6), over(1, 5, 1, 6), over(2, 5, 2, 6)];
    let register = holding_pieces("q\nj", vec![(1, 4), (1, 8)]);
    let done = run(text, block, Mode::VisualBlock, None, register, VISUAL_SHIFT_P);
    assert_eq!(done.buffer, "The qˇqick brown\nfox jjmps over\nthe lzy dog");
    assert_eq!(done.columns, vec![4, 8, 4]);
}

#[test]
fn selected_lines_take_the_pieces_as_one_text() {
    let text = "The qqick brown\nfox jjmps over\nthe lzy dog";
    let register = holding_pieces("q\nj", vec![(1, 0), (1, 0)]);
    let done = run(text, vec![over(0, 0, 1, 0)], Mode::VisualLine, None, register, P);
    assert_eq!(done.buffer, "ˇq\nj\nfox jjmps over\nthe lzy dog");
    assert!(done.columns.is_empty());
}

#[test]
fn one_piece_is_no_reason_to_cut() {
    let register = holding_pieces("one", vec![(2, 7)]);
    let done = run("", vec![at(0, 0)], Mode::Normal, None, register, SHIFT_P);
    assert_eq!(done.buffer, "onˇe");
    assert!(done.columns.is_empty());
}

#[test]
fn each_cursor_gets_its_piece() {
    let text = "fish \nfish \nfish \nfish \n";
    let cursors = vec![at(0, 0), at(1, 0), at(2, 0), at(3, 0)];
    let pieces = vec![(3, 0), (3, 1), (3, 2), (4, 3)];
    let register = holding_pieces("one\ntwo\nred\nblue", pieces);
    let done = run(text, cursors, Mode::Normal, None, register, SHIFT_P);
    assert_eq!(done.buffer, "onˇefish \ntwˇofish \nreˇdfish \nbluˇefish \n");
    assert_eq!(done.columns, vec![0, 1, 2, 3]);
}

#[test]
fn pieces_are_measured_in_bytes() {
    let register = holding_pieces("ä\n€", vec![(2, 0), (3, 0)]);
    let done = run("a\nb", vec![at(0, 0), at(1, 0)], Mode::Normal, None, register, SHIFT_P);
    assert_eq!(done.buffer, "ˇäa\nˇ€b");
}

#[test]
fn a_count_repeats_the_text() {
    let text = "one\ntwo\nthree\n";
    let done = run(text, vec![at(0, 2)], Mode::Normal, Some(3), holding("one\n"), P);
    assert_eq!(done.buffer, "one\nˇone\none\none\ntwo\nthree\n");
    let done = run(text, vec![at(1, 2)], Mode::Normal, Some(3), holding("two"), P);
    assert_eq!(done.buffer, "one\ntwotwotwotwˇo\nthree\n");
}

#[test]
fn nothing_is_copied_outside_visual_modes() {
    for mode in vec![Mode::Normal, Mode::Insert, Mode::Replace] {
        assert!(!mode.is_visual());
        let (stage, effect) = P.begin(mode, None, holding("x"));
        assert!(matches!(stage, PasteStage::Reading(_)));
        assert!(matches!(effect, PasteEffect::ReadSelections));
    }
    for mode in vec![Mode::Visual, Mode::VisualLine, Mode::VisualBlock] {
        assert!(mode.is_visual());
        let (stage, _) = P.begin(mode, None, holding("x"));
        assert!(matches!(stage, PasteStage::Copying(_)));
    }
}

#[test]
fn events_out_of_order_are_not_accepted() {
    let (stage, _) = P.begin(Mode::Normal, None, holding("x"));
    assert!(!stage.can_accept(&PasteEvent::Copied));
    assert!(!stage.can_accept(&PasteEvent::Anchored));
    assert!(!stage.can_accept(&PasteEvent::Placed));
    assert!(stage.can_accept(&PasteEvent::Selections(vec![])));
    let (stage, _) = stage.step(PasteEvent::Selections(vec![at(0, 0)]));
    assert!(!stage.can_accept(&PasteEvent::Clipped(vec![DisplayPoint { row: 0, column: 0 }])));
    assert!(stage.can_accept(&PasteEvent::Clipped(vec![])));
}

#[test]
fn pieces_need_a_selection_to_start_from() {
    let register = holding_pieces("a\nb\nc", vec![(1, 0), (1, 0), (1, 0)]);
    let (stage, _) = P.begin(Mode::Normal, None, register);
    assert!(!stage.can_accept(&PasteEvent::Selections(vec![])));
    assert!(stage.can_accept(&PasteEvent::Selections(vec![at(u32::MAX - 3, 0)])));
    assert!(!stage.can_accept(&PasteEvent::Selections(vec![at(u32::MAX - 2, 0)])));
}

#[test]
fn missing_rows_start_below_the_last_selection() {
    let pieces = vec![(1, 0), (1, 0), (1, 0), (1, 0)];
    let register = holding_pieces("a\nb\nc\nd", pieces);
    let (stage, _) = P.begin(Mode::Normal, None, register);
    let selections = vec![over(2, 9, 2, 12), over(3, 8, 5, 6)];
    let (_, effect) = stage.step(PasteEvent::Selections(selections));
    match effect {
        PasteEffect::ClipPoints(points) => assert_eq!(
            points,
            vec![DisplayPoint { row: 6, column: 6 }, DisplayPoint { row: 7, column: 6 }]
        ),
        _ => panic!("no positions to clip"),
    }
}

#[test]
fn pieces_must_lie_in_the_text() {
    let fits = |text: &str, lens: Vec<(usize, u32)>| {
        let (stage, _) = P.begin(Mode::Normal, None, holding_pieces(text, lens));
        let (stage, _) = stage.step(PasteEvent::Selections(vec![at(0, 0), at(1, 0)]));
        stage.can_accept(&PasteEvent::Clipped(vec![]))
    };
    assert!(fits("a\nb", vec![(1, 0), (1, 0)]));
    assert!(fits("a\n", vec![(1, 0), (0, 0)]));
    assert!(!fits("a\nb", vec![(1, 0), (2, 0)]));
    assert!(!fits("a", vec![(1, 0), (0, 0)]));
    assert!(!fits("a\nb", vec![(usize::MAX, 0), (1, 0)]));
    assert!(!fits("ä\nb", vec![(1, 0), (1, 0)]));
}

#[test]
fn a_count_must_leave_the_text_within_memory() {
    let (stage, _) = P.begin(Mode::Normal, Some(usize::MAX), holding("ab"));
    let (stage, _) = stage.step(PasteEvent::Selections(vec![at(0, 0)]));
    let (stage, _) = stage.step(PasteEvent::Clipped(vec![]));
    let point = Point { row: 0, column: 0 };
    let (stage, _) = stage.step(PasteEvent::Located(vec![PointRange { start: point, end: point }]));
    assert!(!stage.can_accept(&PasteEvent::Anchored));
}
