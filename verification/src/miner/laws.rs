//! What holds of prompts and of streamed answers as a whole.

use vstd::prelude::*;
use vstd::utf8::*;

use crate::miner::huggingface::{prompt, request_members, turn, turns, Message};
use crate::miner::json::Member;
use crate::miner::stream::{
    forwarded, lemma_line_end_at, line_end, lines, marked, payload, payloads, texts, unmarked,
    without_return, StreamOutput,
};
use crate::text::{
    ends_line, lemma_encode_concat, lemma_repeated_front, lemma_repeated_once, repeated,
};

verus! {

/// Two conversations, one after the other, are written one after the other.
pub proof fn law_turns_concat(a: Seq<Message>, b: Seq<Message>)
    requires
        a.len() > 0,
        b.len() > 0,
    ensures
        turns(a + b) == turns(a) + "\n"@ + turns(b),
    decreases b.len(),
{
    let whole = a + b;
    assert(whole.last() == b.last());
    if b.len() == 1 {
        assert(whole.drop_last() == a);
    } else {
        assert(whole.drop_last() == a + b.drop_last());
        law_turns_concat(a, b.drop_last());
        assert(turns(whole) == turns(a) + "\n"@ + turns(b.drop_last()) + "\n"@ + turn(b.last()));
    }
}

/// Every prompt closes the conversation and opens the assistant's message.
pub proof fn law_prompt_opens_answer(messages: Seq<Message>)
    ensures
        "<|im_end|><|im_start|>assistant\n"@.is_suffix_of(prompt(messages)),
{
    reveal_strlit("<|im_end|>");
    reveal_strlit("<|im_start|>assistant\n");
    reveal_strlit("<|im_end|><|im_start|>assistant\n");
    let opening = "<|im_end|><|im_start|>assistant\n"@;
    assert("<|im_end|>"@ + "<|im_start|>assistant\n"@ =~= opening);
    let whole = prompt(messages);
    assert(whole == turns(messages) + opening);
    assert(whole.subrange(whole.len() - opening.len(), whole.len() as int) =~= opening);
}

/// Picking from a concatenation is picking from its parts.
pub proof fn lemma_filter_map_concat<A, B>(a: Seq<A>, b: Seq<A>, f: spec_fn(A) -> Option<B>)
    ensures
        (a + b).filter_map(f) == a.filter_map(f) + b.filter_map(f),
    decreases b.len(),
{
    if b.len() == 0 {
        assert(a + b == a);
        assert(b.filter_map(f) == Seq::<B>::empty());
    } else {
        assert((a + b).drop_last() == a + b.drop_last());
        assert((a + b).last() == b.last());
        lemma_filter_map_concat(a, b.drop_last(), f);
        assert((a + b).filter_map(f) =~= a.filter_map(f) + b.filter_map(f));
    }
}

/// The text in front of the first line break has none, and is all there is if no line break
/// follows it.
pub proof fn lemma_line_end(t: Seq<char>)
    ensures
        line_end(t) <= t.len(),
        forall|j: int| 0 <= j < line_end(t) ==> t[j] != '\n',
        line_end(t) < t.len() ==> t[line_end(t) as int] == '\n',
    decreases t.len(),
{
    if t.len() > 0 && t[0] != '\n' {
        let rest = t.drop_first();
        lemma_line_end(rest);
        assert forall|j: int| 0 <= j < line_end(t) implies t[j] != '\n' by {
            if j > 0 {
                assert(t[j] == rest[j - 1]);
            }
        }
        if line_end(t) < t.len() {
            assert(t[line_end(t) as int] == rest[line_end(rest) as int]);
        }
    }
}

/// Where a text ends its last line, the lines of what follows are lines of their own.
pub proof fn lemma_lines_concat(a: Seq<char>, b: Seq<char>)
    requires
        a.len() == 0 || ends_line(a),
    ensures
        lines(a + b) == lines(a) + lines(b),
    decreases a.len(),
{
    let whole = a + b;
    if a.len() == 0 {
        assert(whole == b);
        assert(lines(a) + lines(b) == lines(b));
    } else {
        lemma_line_end(a);
        let k = line_end(a) as int;
        if k == a.len() {
            assert(a[a.len() - 1] != '\n');
        }
        assert forall|j: int| 0 <= j < k implies whole[j] != '\n' by {
            assert(whole[j] == a[j]);
        }
        assert(whole[k] == a[k]);
        lemma_line_end_at(whole, k);
        let rest = a.skip(k + 1);
        assert(whole.take(k) == a.take(k));
        assert(whole.skip(k + 1) == rest + b);
        if rest.len() > 0 {
            assert(rest.last() == a.last());
        }
        lemma_lines_concat(rest, b);
        assert(lines(whole) == seq![without_return(a.take(k))] + (lines(rest) + lines(b)));
        assert(lines(whole) =~= lines(a) + lines(b));
    }
}

/// Where a text ends its last line, the payloads of what follows come after its own.
pub proof fn law_payloads_concat(a: Seq<char>, b: Seq<char>)
    requires
        a.len() == 0 || ends_line(a),
    ensures
        payloads(a + b) == payloads(a) + payloads(b),
{
    lemma_lines_concat(a, b);
    lemma_filter_map_concat(lines(a), lines(b), |line: Seq<char>| payload(line));
}

/// Bytes that are cut behind a line break bring, as two chunks, the payloads that they bring
/// as one.
pub proof fn law_chunks_cut_at_line_breaks(first: Seq<u8>, second: Seq<u8>)
    requires
        valid_utf8(first),
        valid_utf8(second),
        first.len() == 0 || ends_line(decode_utf8(first)),
    ensures
        valid_utf8(first + second),
        payloads(decode_utf8(first + second)) == payloads(decode_utf8(first)) + payloads(
            decode_utf8(second),
        ),
{
    let a = decode_utf8(first);
    let b = decode_utf8(second);
    valid_utf8_concat(first, second);
    decode_utf8_encode_utf8(first);
    decode_utf8_encode_utf8(second);
    lemma_encode_concat(a, b);
    encode_utf8_decode_utf8(a + b);
    assert(decode_utf8(first + second) == a + b);
    law_payloads_concat(a, b);
}

/// A payload never starts with the mark of a data line; its line is the payload behind one or
/// more marks.
pub proof fn law_payload_is_unmarked(line: Seq<char>)
    requires
        marked(line),
    ensures
        payload(line) == Some(unmarked(line)),
        !marked(unmarked(line)),
        exists|n: nat| n >= 1 && line == #[trigger] repeated("data:"@, n) + unmarked(line),
    decreases line.len(),
{
    reveal_strlit("data:");
    let mark = "data:"@;
    let rest = line.skip(5);
    assert(line == mark + rest);
    if marked(rest) {
        law_payload_is_unmarked(rest);
        let n = choose|n: nat| n >= 1 && rest == #[trigger] repeated(mark, n) + unmarked(rest);
        lemma_repeated_front(mark, n);
        assert(line =~= repeated(mark, (n + 1) as nat) + unmarked(line));
    } else {
        assert(unmarked(line) == rest);
        lemma_repeated_once(mark);
        assert(line =~= repeated(mark, 1) + unmarked(line));
    }
}

/// The text of an event with `payload`, as an endpoint sends it.
pub open spec fn event(payload: Seq<char>) -> Seq<char> {
    "data:"@ + payload + "\n\n"@
}

/// The text of a list of events.
pub open spec fn events(payloads: Seq<Seq<char>>) -> Seq<char>
    decreases payloads.len(),
{
    if payloads.len() == 0 {
        Seq::empty()
    } else {
        events(payloads.drop_last()) + event(payloads.last())
    }
}

/// The payload stands on one line, and is not taken for a mark or the end of a line.
pub open spec fn sendable(payload: Seq<char>) -> bool {
    &&& !payload.contains('\n')
    &&& !(payload.len() > 0 && payload.last() == '\r')
    &&& !marked(payload)
}

/// Of an event, its payload is read back.
pub proof fn lemma_event_is_read(sent: Seq<char>)
    requires
        sendable(sent),
    ensures
        payloads(event(sent)) == seq![sent],
{
    reveal_strlit("data:");
    reveal_strlit("\n\n");
    let line = "data:"@ + sent;
    let n = line.len() as int;
    let t = event(sent);
    let blank = seq!['\n'];
    assert(t =~= line + seq!['\n', '\n']);
    assert forall|j: int| 0 <= j < n implies t[j] != '\n' by {
        if j >= 5 {
            assert(t[j] == sent[j - 5]);
        }
    }
    lemma_line_end_at(t, n);
    assert(t.take(n) =~= line);
    assert(t.skip(n + 1) =~= blank);
    if sent.len() > 0 {
        assert(line.last() == sent.last());
    } else {
        assert(line.last() == ':');
    }
    let empty = Seq::<char>::empty();
    lemma_line_end_at(blank, 0);
    assert(blank.take(0) =~= empty);
    assert(blank.skip(1) =~= empty);
    assert(lines(empty) =~= Seq::<Seq<char>>::empty());
    assert(lines(blank) =~= seq![empty]);
    assert(lines(t) =~= seq![line, empty]);
    assert("data:"@.is_prefix_of(line));
    assert(line.skip(5) =~= sent);
    assert(unmarked(sent) == sent);
    assert(unmarked(line) == sent);
    assert(!marked(empty));
    let pick = |l: Seq<char>| payload(l);
    let both = seq![line, empty];
    assert(both =~= seq![line] + seq![empty]);
    lemma_filter_map_concat(seq![line], seq![empty], pick);
    Seq::lemma_filter_map_singleton(line, pick);
    Seq::lemma_filter_map_singleton(empty, pick);
    assert(lines(t).filter_map(pick) =~= seq![sent]);
}

/// What is sent as events is read back: the payloads, in order, and nothing else.
pub proof fn law_events_are_read_back(sent: Seq<Seq<char>>)
    requires
        forall|i: int| 0 <= i < sent.len() ==> sendable(#[trigger] sent[i]),
    ensures
        payloads(events(sent)) == sent,
        valid_utf8(encode_utf8(events(sent))),
        payloads(decode_utf8(encode_utf8(events(sent)))) == sent,
    decreases sent.len(),
{
    encode_utf8_valid_utf8(events(sent));
    encode_utf8_decode_utf8(events(sent));
    if sent.len() == 0 {
        assert(lines(events(sent)) =~= Seq::<Seq<char>>::empty());
        assert(payloads(events(sent)) =~= sent);
    } else {
        let earlier = sent.drop_last();
        assert forall|i: int| 0 <= i < earlier.len() implies sendable(#[trigger] earlier[i]) by {
            assert(earlier[i] == sent[i]);
        }
        law_events_are_read_back(earlier);
        lemma_events_end_line(earlier);
        assert(sendable(sent[sent.len() - 1]));
        lemma_event_is_read(sent.last());
        law_payloads_concat(events(earlier), event(sent.last()));
        assert(payloads(events(sent)) =~= sent);
    }
}

/// The text of events ends its last line.
pub proof fn lemma_events_end_line(sent: Seq<Seq<char>>)
    ensures
        events(sent).len() == 0 || ends_line(events(sent)),
{
    reveal_strlit("\n\n");
    if sent.len() > 0 {
        assert(events(sent).last() == "\n\n"@[1]);
    }
}

/// The texts that a chunk adds to the answer, where `parse` reads the payloads: those of its
/// payloads that can be read and hold no special token. A chunk that could not be received, or
/// that is not valid UTF-8 by itself, adds none.
pub open spec fn chunk_texts(
    chunk: Option<Seq<u8>>,
    parse: spec_fn(Seq<char>) -> Option<StreamOutput>,
) -> Seq<Seq<char>> {
    match chunk {
        Some(bytes) => if valid_utf8(bytes) {
            payloads(decode_utf8(bytes)).map_values(parse).filter_map(
                |output: Option<StreamOutput>| forwarded(output),
            )
        } else {
            Seq::empty()
        },
        None => Seq::empty(),
    }
}

/// The texts of an answer that arrives as `chunks`: those of each chunk, in order.
pub open spec fn stream_texts(
    chunks: Seq<Option<Seq<u8>>>,
    parse: spec_fn(Seq<char>) -> Option<StreamOutput>,
) -> Seq<Seq<char>>
    decreases chunks.len(),
{
    if chunks.len() == 0 {
        Seq::empty()
    } else {
        stream_texts(chunks.drop_last(), parse) + chunk_texts(chunks.last(), parse)
    }
}

/// The text that a line adds to the answer: none unless it is a data line whose payload can be
/// read and holds no special token.
pub open spec fn line_text(
    line: Seq<char>,
    parse: spec_fn(Seq<char>) -> Option<StreamOutput>,
) -> Option<Seq<char>> {
    if marked(line) {
        forwarded(parse(unmarked(line)))
    } else {
        None
    }
}

/// Without chunks there are no texts, and the chunks of one answer add theirs one after the
/// other: no chunk changes what another adds.
pub proof fn law_stream_concat(
    xs: Seq<Option<Seq<u8>>>,
    ys: Seq<Option<Seq<u8>>>,
    parse: spec_fn(Seq<char>) -> Option<StreamOutput>,
)
    ensures
        stream_texts(Seq::empty(), parse) == Seq::<Seq<char>>::empty(),
        stream_texts(xs + ys, parse) == stream_texts(xs, parse) + stream_texts(ys, parse),
    decreases ys.len(),
{
    if ys.len() == 0 {
        assert(xs + ys == xs);
        assert(stream_texts(xs, parse) + stream_texts(ys, parse) =~= stream_texts(xs, parse));
    } else {
        assert((xs + ys).drop_last() == xs + ys.drop_last());
        assert((xs + ys).last() == ys.last());
        law_stream_concat(xs, ys.drop_last(), parse);
        assert(stream_texts(xs + ys, parse) =~= stream_texts(xs, parse) + stream_texts(ys, parse));
    }
}

/// Picking twice is picking once, by both.
proof fn lemma_filter_map_twice<A, B, C, D>(
    s: Seq<A>,
    f: spec_fn(A) -> Option<B>,
    g: spec_fn(B) -> C,
    h: spec_fn(C) -> Option<D>,
    all: spec_fn(A) -> Option<D>,
)
    requires
        forall|a: A|
            #[trigger] all(a) == match f(a) {
                Some(b) => h(g(b)),
                None => None,
            },
    ensures
        s.filter_map(f).map_values(g).filter_map(h) == s.filter_map(all),
    decreases s.len(),
{
    if s.len() == 0 {
        assert(s.filter_map(f).map_values(g) =~= Seq::<C>::empty());
    } else {
        let rest = s.drop_last();
        lemma_filter_map_twice(rest, f, g, h, all);
        assert(all(s.last()) == match f(s.last()) {
            Some(b) => h(g(b)),
            None => None,
        });
        if let Some(b) = f(s.last()) {
            let mapped = s.filter_map(f).map_values(g);
            assert(mapped.drop_last() =~= rest.filter_map(f).map_values(g));
            assert(mapped.last() == g(b));
        }
    }
}

/// A chunk that can be decoded adds, of each of its lines, what the line adds.
pub proof fn law_chunk_texts_by_line(
    bytes: Seq<u8>,
    parse: spec_fn(Seq<char>) -> Option<StreamOutput>,
)
    requires
        valid_utf8(bytes),
    ensures
        chunk_texts(Some(bytes), parse) == lines(decode_utf8(bytes)).filter_map(
            |line: Seq<char>| line_text(line, parse),
        ),
{
    lemma_filter_map_twice(
        lines(decode_utf8(bytes)),
        |line: Seq<char>| payload(line),
        parse,
        |output: Option<StreamOutput>| forwarded(output),
        |line: Seq<char>| line_text(line, parse),
    );
}

/// Reading the payloads that `chunk_payloads` finds in a chunk, and handing what was read to
/// `forwarded_texts`, gives the texts that the chunk adds: `found` are the payloads, `outputs`
/// what was read of each.
pub proof fn law_chunk_texts_are_forwarded(
    chunk: Option<Seq<u8>>,
    found: Seq<Seq<char>>,
    outputs: Seq<Option<StreamOutput>>,
    parse: spec_fn(Seq<char>) -> Option<StreamOutput>,
)
    requires
        chunk is Some && valid_utf8(chunk->0) ==> found == payloads(decode_utf8(chunk->0)),
        chunk is None || !valid_utf8(chunk->0) ==> found.len() == 0,
        outputs.len() == found.len(),
        forall|i: int|
            0 <= i < found.len() ==> forwarded(#[trigger] outputs[i]) == forwarded(parse(found[i])),
    ensures
        outputs.filter_map(|output: Option<StreamOutput>| forwarded(output)) == chunk_texts(
            chunk,
            parse,
        ),
{
    let pick = |output: Option<StreamOutput>| forwarded(output);
    let parsed = found.map_values(parse);
    assert forall|i: int| 0 <= i < outputs.len() implies pick(#[trigger] outputs[i]) == pick(
        parsed[i],
    ) by {}
    lemma_filter_map_same(outputs, parsed, pick);
    if chunk is None || !valid_utf8(chunk->0) {
        assert(parsed.filter_map(pick) =~= Seq::<Seq<char>>::empty());
    }
}

/// Where the same is picked of each two items, the same is picked of all.
proof fn lemma_filter_map_same<A, B>(s: Seq<A>, t: Seq<A>, f: spec_fn(A) -> Option<B>)
    requires
        s.len() == t.len(),
        forall|i: int| 0 <= i < s.len() ==> f(#[trigger] s[i]) == f(t[i]),
    ensures
        s.filter_map(f) == t.filter_map(f),
    decreases s.len(),
{
    if s.len() > 0 {
        assert forall|i: int| 0 <= i < s.len() - 1 implies f(#[trigger] s.drop_last()[i]) == f(
            t.drop_last()[i],
        ) by {
            assert(s.drop_last()[i] == s[i]);
        }
        lemma_filter_map_same(s.drop_last(), t.drop_last(), f);
        assert(f(s[s.len() - 1]) == f(t[t.len() - 1]));
    }
}

/// Without messages, a prompt only opens the assistant's message.
pub proof fn law_empty_prompt()
    ensures
        prompt(Seq::empty()) == "<|im_end|><|im_start|>assistant\n"@,
{
    reveal_strlit("<|im_end|>");
    reveal_strlit("<|im_start|>assistant\n");
    reveal_strlit("<|im_end|><|im_start|>assistant\n");
    assert(prompt(Seq::empty()) =~= "<|im_end|><|im_start|>assistant\n"@);
}

/// A message is written in full: its own role and its whole content, between the marks of a
/// message, in front of the opening of the assistant's.
pub proof fn law_message_is_written_in_full(message: Message)
    ensures
        prompt(seq![message]) == "<|im_start|>"@ + message.role@ + "\n"@ + message.content@
            + "<|im_end|>"@ + "<|im_end|><|im_start|>assistant\n"@,
{
    law_empty_prompt();
    reveal_strlit("<|im_end|>");
    reveal_strlit("<|im_start|>assistant\n");
    reveal_strlit("<|im_end|><|im_start|>assistant\n");
    assert(prompt(seq![message]) =~= "<|im_start|>"@ + message.role@ + "\n"@ + message.content@
        + "<|im_end|>"@ + "<|im_end|><|im_start|>assistant\n"@);
}

/// The prompt of two conversations, one after the other, is that of the first up to where it
/// opens the assistant's message, a line break, and that of the second.
pub proof fn law_prompt_concat(a: Seq<Message>, b: Seq<Message>)
    requires
        a.len() > 0,
        b.len() > 0,
    ensures
        exists|written: Seq<char>|
            prompt(a) == #[trigger] (written + "<|im_end|><|im_start|>assistant\n"@) && prompt(a + b)
                == written + "\n"@ + prompt(b),
{
    law_turns_concat(a, b);
    law_empty_prompt();
    let opening = "<|im_end|><|im_start|>assistant\n"@;
    assert(opening == "<|im_end|>"@ + "<|im_start|>assistant\n"@) by {
        reveal_strlit("<|im_end|>");
        reveal_strlit("<|im_start|>assistant\n");
        reveal_strlit("<|im_end|><|im_start|>assistant\n");
        assert(opening =~= "<|im_end|>"@ + "<|im_start|>assistant\n"@);
    }
    let written = turns(a);
    assert(prompt(a) =~= written + opening);
    assert(prompt(a + b) =~= written + "\n"@ + prompt(b));
}

/// The body of a request holds the prompt, asks for a stream and bounds the answer, and holds
/// nothing else.
pub proof fn law_request_members(inputs: Seq<char>, name: Seq<char>)
    ensures
        request_members(inputs).dom().contains(name) <==> name == "inputs"@ || name == "stream"@
            || name == "max_tokens"@,
        request_members(inputs)["inputs"@] == Member::Text(inputs),
        request_members(inputs)["stream"@] == Member::Flag(true),
        request_members(inputs)["max_tokens"@] == Member::Number(2048),
{
    reveal_strlit("inputs");
    reveal_strlit("stream");
    reveal_strlit("max_tokens");
    assert("inputs"@.len() != "max_tokens"@.len());
    assert("stream"@.len() != "max_tokens"@.len());
    assert("inputs"@[0] != "stream"@[0]);
}

/// The texts of a list of strings are those of its strings, one for one.
pub proof fn law_texts(strings: Seq<String>)
    ensures
        texts(strings).len() == strings.len(),
        forall|i: int| 0 <= i < strings.len() ==> texts(strings)[i] == (#[trigger] strings[i])@,
{
}

/// A text without a line break is one line, to the last character; the empty text has none. With
/// a line break behind it, or a carriage return and a line break, it is still that line.
pub proof fn law_one_line(line: Seq<char>)
    requires
        !line.contains('\n'),
    ensures
        lines(Seq::empty()) == Seq::<Seq<char>>::empty(),
        line.len() > 0 ==> lines(line) == seq![line],
        !(line.len() > 0 && line.last() == '\r') ==> lines(line + seq!['\n']) == seq![line],
        lines(line + seq!['\r', '\n']) == seq![line],
{
    let n = line.len() as int;
    let empty = Seq::<char>::empty();
    assert forall|j: int| 0 <= j < n implies line[j] != '\n' by {
        assert(line.contains(line[j]));
    }
    lemma_line_end_at(line, n);
    assert(lines(empty) =~= Seq::<Seq<char>>::empty());

    let t = line + seq!['\n'];
    lemma_line_end_at(t, n);
    assert(t.take(n) =~= line);
    assert(t.skip(n + 1) =~= empty);
    assert(lines(t) =~= seq![without_return(line)]);

    let u = line + seq!['\r', '\n'];
    lemma_line_end_at(u, n + 1);
    assert(u.take(n + 1) =~= line.push('\r'));
    assert(line.push('\r').drop_last() =~= line);
    assert(u.skip(n + 2) =~= empty);
    assert(lines(u) =~= seq![line]);
}

/// A line is a data line exactly if it starts with the mark. Behind one mark stands the payload,
/// whatever it is, unless another mark stands there, which is taken off like the first.
pub proof fn law_payload_behind_the_mark(s: Seq<char>, line: Seq<char>)
    ensures
        payload(line) is Some <==> "data:"@.is_prefix_of(line),
        !"data:"@.is_prefix_of(s) ==> payload("data:"@ + s) == Some(s),
        "data:"@.is_prefix_of(s) ==> payload("data:"@ + s) == payload(s),
{
    reveal_strlit("data:");
    let whole = "data:"@ + s;
    assert(whole.subrange(0, 5) =~= "data:"@);
    assert(whole.skip(5) =~= s);
    assert(unmarked(whole) == unmarked(s));
}

/// What a text of one line brings, however the line ends. A line without the mark brings nothing;
/// a data line brings what stands behind its mark, in full, or, if another mark stands there, what
/// the line brings without the first.
pub proof fn law_payloads_of_one_line(line: Seq<char>, ending: Seq<char>)
    requires
        !line.contains('\n'),
        ending == Seq::<char>::empty() || ending == seq!['\r', '\n'] || (ending == seq!['\n'] && !(
        line.len() > 0 && line.last() == '\r')),
    ensures
        !"data:"@.is_prefix_of(line) ==> payloads(line + ending) == Seq::<Seq<char>>::empty(),
        "data:"@.is_prefix_of(line) && !"data:"@.is_prefix_of(line.skip(5)) ==> payloads(line + ending)
            == seq![line.skip(5)],
        "data:"@.is_prefix_of(line) && "data:"@.is_prefix_of(line.skip(5)) ==> payloads(line + ending)
            == payloads(line.skip(5) + ending),
{
    reveal_strlit("data:");
    lemma_payloads_of_one_line(line, ending);
    if "data:"@.is_prefix_of(line) {
        let rest = line.skip(5);
        assert(line =~= "data:"@ + rest);
        law_payload_behind_the_mark(rest, line);
        if "data:"@.is_prefix_of(rest) {
            assert forall|j: int| 0 <= j < rest.len() implies rest[j] != '\n' by {
                assert(line.contains(line[j + 5]));
            }
            assert(rest.len() > 0 && rest.last() == line.last());
            lemma_payloads_of_one_line(rest, ending);
        }
    }
}

/// A text of one line brings the payload of the line, if there is one.
proof fn lemma_payloads_of_one_line(line: Seq<char>, ending: Seq<char>)
    requires
        !line.contains('\n'),
        ending == Seq::<char>::empty() || ending == seq!['\r', '\n'] || (ending == seq!['\n'] && !(
        line.len() > 0 && line.last() == '\r')),
    ensures
        payloads(line + ending) == match payload(line) {
            Some(found) => seq![found],
            None => Seq::empty(),
        },
{
    reveal_strlit("data:");
    let pick = |l: Seq<char>| payload(l);
    law_one_line(line);
    Seq::lemma_filter_map_singleton(line, pick);
    if ending == Seq::<char>::empty() {
        assert(line + ending =~= line);
        if line.len() == 0 {
            assert(lines(line) =~= Seq::<Seq<char>>::empty());
            assert(payloads(line) =~= Seq::<Seq<char>>::empty());
        }
    }
}

/// One event adds its token's text, whatever the text is, unless it could not be read or its token
/// is special; then it adds nothing.
pub proof fn law_forwarded_one(output: StreamOutput)
    ensures
        !output.token.special ==> seq![Some(output)].filter_map(
            |output: Option<StreamOutput>| forwarded(output),
        ) == seq![output.token.text@],
        output.token.special ==> seq![Some(output)].filter_map(
            |output: Option<StreamOutput>| forwarded(output),
        ) == Seq::<Seq<char>>::empty(),
        seq![None::<StreamOutput>].filter_map(|output: Option<StreamOutput>| forwarded(output))
            == Seq::<Seq<char>>::empty(),
{
    let pick = |output: Option<StreamOutput>| forwarded(output);
    Seq::lemma_filter_map_singleton(Some(output), pick);
    Seq::lemma_filter_map_singleton(None::<StreamOutput>, pick);
}

/// Events add their texts one after the other.
pub proof fn law_forwarded_concat(a: Seq<Option<StreamOutput>>, b: Seq<Option<StreamOutput>>)
    ensures
        (a + b).filter_map(|output: Option<StreamOutput>| forwarded(output)) == a.filter_map(
            |output: Option<StreamOutput>| forwarded(output),
        ) + b.filter_map(|output: Option<StreamOutput>| forwarded(output)),
{
    lemma_filter_map_concat(a, b, |output: Option<StreamOutput>| forwarded(output));
}

/// Where every event can be read and none holds a special token, there are as many texts as
/// events, and the `i`-th is that of the `i`-th token.
pub proof fn law_every_token_is_forwarded(outputs: Seq<Option<StreamOutput>>)
    requires
        forall|i: int|
            0 <= i < outputs.len() ==> (#[trigger] outputs[i]) is Some
                && !outputs[i]->0.token.special,
    ensures
        outputs.filter_map(|output: Option<StreamOutput>| forwarded(output)) == Seq::new(
            outputs.len(),
            |i: int| outputs[i]->0.token.text@,
        ),
    decreases outputs.len(),
{
    let pick = |output: Option<StreamOutput>| forwarded(output);
    if outputs.len() > 0 {
        let rest = outputs.drop_last();
        assert forall|i: int| 0 <= i < rest.len() implies (#[trigger] rest[i]) is Some
            && !rest[i]->0.token.special by {
            assert(rest[i] == outputs[i]);
        }
        law_every_token_is_forwarded(rest);
        assert(outputs.last() == outputs[outputs.len() - 1]);
    }
    assert(outputs.filter_map(pick) =~= Seq::new(
        outputs.len(),
        |i: int| outputs[i]->0.token.text@,
    ));
}

} // verus!
