//! The answer of the endpoint: events that arrive in chunks of bytes, each on a line that is
//! marked as data.

use vstd::prelude::*;
use vstd::string::*;
use vstd::utf8::*;

use crate::text::to_chars;

verus! {

/// What an event says of a token.
#[derive(Debug)]
pub struct Token {
    pub text: String,
    /// Whether the token only structures the answer, and is no part of its text.
    pub special: bool,
}

/// What an event holds.
#[derive(Debug)]
pub struct StreamOutput {
    pub token: Token,
}

/// The number of characters in front of the first line break, or of all where there is none.
pub open spec fn line_end(t: Seq<char>) -> nat
    decreases t.len(),
{
    if t.len() == 0 || t[0] == '\n' {
        0
    } else {
        1 + line_end(t.drop_first())
    }
}

/// `line` without the carriage return that ends it, if one does.
pub open spec fn without_return(line: Seq<char>) -> Seq<char> {
    if line.len() > 0 && line.last() == '\r' {
        line.drop_last()
    } else {
        line
    }
}

/// The lines of a text. A line ends with a line break, which may follow a carriage return;
/// neither is part of it. The last line needs no line break.
pub open spec fn lines(t: Seq<char>) -> Seq<Seq<char>>
    decreases t.len(),
{
    if t.len() == 0 {
        Seq::empty()
    } else if line_end(t) < t.len() {
        seq![without_return(t.take(line_end(t) as int))] + lines(t.skip(line_end(t) as int + 1))
    } else {
        seq![t]
    }
}

/// Whether `s` starts with the mark of a data line.
pub open spec fn marked(s: Seq<char>) -> bool {
    "data:"@.is_prefix_of(s)
}

/// `s` without the marks of a data line that it starts with, however many there are.
pub open spec fn unmarked(s: Seq<char>) -> Seq<char>
    decreases s.len(),
{
    if s.len() >= 5 && marked(s) {
        unmarked(s.skip(5))
    } else {
        s
    }
}

/// The payload of a line, if it is a data line.
pub open spec fn payload(line: Seq<char>) -> Option<Seq<char>> {
    if marked(line) {
        Some(unmarked(line))
    } else {
        None
    }
}

/// The payloads of the data lines of a text, in order.
pub open spec fn payloads(t: Seq<char>) -> Seq<Seq<char>> {
    lines(t).filter_map(|line: Seq<char>| payload(line))
}

/// The texts of a list of strings.
pub open spec fn texts(strings: Seq<String>) -> Seq<Seq<char>> {
    strings.map_values(|s: String| s@)
}

/// The text that an event adds to the answer: nothing where the event could not be read, and
/// nothing for a special token.
pub open spec fn forwarded(output: Option<StreamOutput>) -> Option<Seq<char>> {
    match output {
        Some(output) => if output.token.special {
            None
        } else {
            Some(output.token.text@)
        },
        None => None,
    }
}

/// The length of a leading piece without line breaks that a line break follows.
pub proof fn lemma_line_end_at(t: Seq<char>, k: int)
    requires
        0 <= k <= t.len(),
        forall|j: int| 0 <= j < k ==> t[j] != '\n',
        k < t.len() ==> t[k] == '\n',
    ensures
        line_end(t) == k,
    decreases t.len(),
{
    if k > 0 {
        let rest = t.drop_first();
        assert forall|j: int| 0 <= j < k - 1 implies rest[j] != '\n' by {
            assert(rest[j] == t[j + 1]);
        }
        lemma_line_end_at(rest, k - 1);
    }
}

/// `String::from_utf8`: the text that the bytes encode, if they are valid UTF-8.
#[verifier::external_body]
fn decode(bytes: Vec<u8>) -> (r: Option<String>)
    ensures
        r is Some <==> valid_utf8(bytes@),
        r matches Some(text) ==> text@ == decode_utf8(bytes@),
{
    String::from_utf8(bytes).ok()
}

/// The lines of a text.
pub fn split_lines(text: &str) -> (r: Vec<String>)
    ensures
        texts(r@) == lines(text@),
{
    let chars = to_chars(text);
    let mut r: Vec<String> = Vec::new();
    let mut start: usize = 0;
    let mut i: usize = 0;
    assert(text@.skip(0) == text@);
    while i < chars.len()
        invariant
            chars@ == text@,
            start <= i <= chars.len(),
            forall|j: int| start <= j < i ==> text@[j] != '\n',
            texts(r@) + lines(text@.skip(start as int)) == lines(text@),
        decreases chars.len() - i,
    {
        if chars[i] == '\n' {
            let ghost rest = text@.skip(start as int);
            let ghost before = r@;
            proof {
                lemma_line_end_at(rest, i - start);
                assert(rest.take(i - start) == text@.subrange(start as int, i as int));
                assert(rest.skip(i - start + 1) == text@.skip(i + 1));
            }
            let end: usize = if start < i && chars[i - 1] == '\r' {
                i - 1
            } else {
                i
            };
            let line = text.substring_char(start, end).to_owned();
            assert(line@ == without_return(rest.take(i - start)));
            r.push(line);
            assert(texts(r@) == texts(before).push(line@));
            start = i + 1;
            assert(texts(r@) + lines(text@.skip(start as int)) == texts(before) + lines(rest));
        }
        i += 1;
    }
    let ghost rest = text@.skip(start as int);
    if start < chars.len() {
        let ghost before = r@;
        proof {
            lemma_line_end_at(rest, i - start);
        }
        let line = text.substring_char(start, chars.len()).to_owned();
        assert(line@ == rest);
        r.push(line);
        assert(texts(r@) == texts(before) + lines(rest));
    } else {
        assert(lines(rest) == Seq::<Seq<char>>::empty());
        assert(texts(r@) + lines(rest) == texts(r@));
    }
    r
}

/// Whether the mark of a data line stands at position `k`.
fn marked_at(chars: &Vec<char>, k: usize) -> (r: bool)
    requires
        k <= chars@.len(),
    ensures
        r == marked(chars@.skip(k as int)),
{
    proof {
        reveal_strlit("data:");
    }
    let ghost rest = chars@.skip(k as int);
    if chars.len() - k < 5 {
        return false;
    }
    let r = chars[k] == 'd' && chars[k + 1] == 'a' && chars[k + 2] == 't' && chars[k + 3] == 'a'
        && chars[k + 4] == ':';
    proof {
        let head = rest.take(5);
        let mark = seq!['d', 'a', 't', 'a', ':'];
        assert("data:"@ == mark);
        assert(marked(rest) <==> head == mark);
        assert(head[0] == chars@[k as int] && head[1] == chars@[k + 1] && head[2] == chars@[k + 2]
            && head[3] == chars@[k + 3] && head[4] == chars@[k + 4]);
        assert(mark[0] == 'd' && mark[1] == 'a' && mark[2] == 't' && mark[3] == 'a' && mark[4]
            == ':');
        if r {
            assert(head =~= mark);
        }
    }
    r
}

/// The payload of a line, if it is a data line.
pub fn line_payload(line: &str) -> (r: Option<String>)
    ensures
        r is Some <==> payload(line@) is Some,
        r matches Some(found) ==> Some(found@) == payload(line@),
{
    let chars = to_chars(line);
    assert(line@.skip(0) == line@);
    if !marked_at(&chars, 0) {
        return None;
    }
    let mut k: usize = 0;
    while marked_at(&chars, k)
        invariant
            chars@ == line@,
            k <= chars.len(),
            unmarked(line@.skip(k as int)) == unmarked(line@),
        decreases chars.len() - k,
    {
        proof {
            reveal_strlit("data:");
            assert(line@.skip(k as int).len() >= 5);
            assert(line@.skip(k as int).skip(5) == line@.skip(k + 5));
        }
        k += 5;
    }
    let found = line.substring_char(k, chars.len()).to_owned();
    assert(found@ == line@.skip(k as int));
    Some(found)
}

/// The payloads that a chunk brings, in order. A chunk that could not be received (`None`), or
/// that is not valid UTF-8 by itself, brings none.
pub fn chunk_payloads(chunk: Option<Vec<u8>>) -> (r: Vec<String>)
    ensures
        chunk is Some && valid_utf8(chunk->0@) ==> texts(r@) == payloads(decode_utf8(chunk->0@)),
        chunk is None || !valid_utf8(chunk->0@) ==> r@.len() == 0,
{
    let mut r: Vec<String> = Vec::new();
    let bytes = match chunk {
        Some(bytes) => bytes,
        None => {
            return r;
        },
    };
    let text = match decode(bytes) {
        Some(text) => text,
        None => {
            return r;
        },
    };
    let all = split_lines(text.as_str());
    let ghost found = lines(text@);
    let ghost pick = |line: Seq<char>| payload(line);
    for i in 0..all.len()
        invariant
            texts(all@) == found,
            pick == (|line: Seq<char>| payload(line)),
            texts(r@) == found.take(i as int).filter_map(pick),
    {
        broadcast use Seq::lemma_filter_map_take_succ;

        let ghost before = r@;
        assert(found[i as int] == all@[i as int]@);
        if let Some(line) = line_payload(all[i].as_str()) {
            r.push(line);
            assert(texts(r@) == texts(before).push(line@));
        }
        assert(texts(r@) == found.take(i + 1).filter_map(pick));
    }
    assert(found.take(found.len() as int) == found);
    r
}

/// The texts that events add to the answer, in order; `None` stands for an event that could
/// not be read.
pub fn forwarded_texts(outputs: Vec<Option<StreamOutput>>) -> (r: Vec<String>)
    ensures
        texts(r@) == outputs@.filter_map(|output: Option<StreamOutput>| forwarded(output)),
{
    let ghost pick = |output: Option<StreamOutput>| forwarded(output);
    let mut r: Vec<String> = Vec::new();
    for i in 0..outputs.len()
        invariant
            pick == (|output: Option<StreamOutput>| forwarded(output)),
            texts(r@) == outputs@.take(i as int).filter_map(pick),
    {
        broadcast use Seq::lemma_filter_map_take_succ;

        let ghost before = r@;
        if let Some(output) = &outputs[i] {
            if !output.token.special {
                r.push(output.token.text.clone());
                assert(texts(r@) == texts(before).push(output.token.text@));
            }
        }
        assert(texts(r@) == outputs@.take(i + 1).filter_map(pick));
    }
    assert(outputs@.take(outputs@.len() as int) == outputs@);
    r
}

} // verus!
