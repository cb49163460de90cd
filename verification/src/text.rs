//! Operations on text that both halves of the library share.

use vstd::prelude::*;
use vstd::string::*;
use vstd::utf8::*;

verus! {

/// `s`, written `n` times in a row.
pub open spec fn repeated(s: Seq<char>, n: nat) -> Seq<char>
    decreases n,
{
    if n == 0 {
        Seq::empty()
    } else {
        repeated(s, (n - 1) as nat) + s
    }
}

/// The number of bytes that `s` takes in UTF-8.
pub open spec fn byte_len(s: Seq<char>) -> nat {
    encode_utf8(s).len()
}

/// The characters of `s` between the byte offsets `start` and `end`.
pub open spec fn byte_slice(s: Seq<char>, start: int, end: int) -> Seq<char> {
    decode_utf8(encode_utf8(s).subrange(start, end))
}

/// Both offsets lie in `s`, in order, and neither falls inside a character.
pub open spec fn sliceable(s: Seq<char>, start: int, end: int) -> bool {
    &&& 0 <= start <= end <= byte_len(s)
    &&& is_char_boundary(encode_utf8(s), start)
    &&& is_char_boundary(encode_utf8(s), end)
}

/// Whether `s` ends with a line break.
pub open spec fn ends_line(s: Seq<char>) -> bool {
    s.len() > 0 && s.last() == '\n'
}

/// The characters of `s`, in order.
pub(crate) fn to_chars(s: &str) -> (chars: Vec<char>)
    ensures
        chars@ == s@,
{
    let mut chars: Vec<char> = Vec::new();
    for c in it: s.chars()
        invariant
            it.seq() == s@,
            chars@ == s@.take(it.index()),
    {
        chars.push(c);
    }
    assert(s@.take(s@.len() as int) == s@);
    chars
}

/// Whether a line break ends `s`.
pub(crate) fn ends_with_line_break(s: &str) -> (r: bool)
    ensures
        r == ends_line(s@),
{
    let n: usize = s.unicode_len();
    n > 0 && s.get_char(n - 1) == '\n'
}

/// Whether `s` holds a line break.
pub(crate) fn contains_line_break(s: &str) -> (r: bool)
    ensures
        r == s@.contains('\n'),
{
    let chars = to_chars(s);
    let mut i: usize = 0;
    while i < chars.len()
        invariant
            chars@ == s@,
            i <= chars.len(),
            forall|j: int| 0 <= j < i ==> s@[j] != '\n',
        decreases chars.len() - i,
    {
        if chars[i] == '\n' {
            assert(s@[i as int] == '\n');
            return true;
        }
        i += 1;
    }
    false
}

/// `s`, written `n` times in a row.
pub(crate) fn repeat(s: &str, n: usize) -> (r: String)
    requires
        byte_len(s@) * n <= isize::MAX,
    ensures
        r@ == repeated(s@, n as nat),
{
    let mut r = String::new();
    for i in 0..n
        invariant
            r@ == repeated(s@, i as nat),
    {
        r.append(s);
    }
    r
}

/// The piece of `s` between two byte offsets.
pub(crate) fn slice(s: &str, start: usize, end: usize) -> (r: String)
    requires
        sliceable(s@, start as int, end as int),
    ensures
        r@ == byte_slice(s@, start as int, end as int),
{
    let (head, _tail) = s.split_at(end);
    proof {
        encode_utf8_valid_utf8(s@);
        lemma_boundary_in_prefix(encode_utf8(s@), start as int, end as int);
    }
    let (_before, piece) = head.split_at(start);
    proof {
        let bytes = encode_utf8(s@);
        assert(encode_utf8(piece@) == bytes.subrange(start as int, end as int));
        encode_utf8_decode_utf8(piece@);
    }
    piece.to_owned()
}

/// A character boundary of a text is one of each of its prefixes that hold it.
pub proof fn lemma_boundary_in_prefix(bytes: Seq<u8>, start: int, end: int)
    requires
        valid_utf8(bytes),
        0 <= start <= end <= bytes.len(),
        is_char_boundary(bytes, start),
        is_char_boundary(bytes, end),
    ensures
        valid_utf8(bytes.subrange(0, end)),
        is_char_boundary(bytes.subrange(0, end), start),
{
    let prefix = bytes.subrange(0, end);
    valid_utf8_split(bytes, end);
    if start == end {
        is_char_boundary_start_end_of_seq(prefix);
    } else {
        is_char_boundary_iff_not_is_continuation_byte(bytes, start);
        is_char_boundary_iff_not_is_continuation_byte(prefix, start);
    }
}

/// Encoding a concatenation is concatenating the encodings.
pub proof fn lemma_encode_concat(a: Seq<char>, b: Seq<char>)
    ensures
        encode_utf8(a + b) == encode_utf8(a) + encode_utf8(b),
    decreases a.len(),
{
    if a.len() == 0 {
        assert(a + b == b);
    } else {
        lemma_encode_concat(a.drop_first(), b);
        assert((a + b).drop_first() == a.drop_first() + b);
        assert((a + b)[0] == a[0]);
    }
}

/// The end of a leading piece of a text is a character boundary of the text.
pub proof fn lemma_boundary_after(a: Seq<char>, b: Seq<char>)
    ensures
        is_char_boundary(encode_utf8(a + b), byte_len(a) as int),
    decreases a.len(),
{
    let whole = encode_utf8(a + b);
    encode_utf8_valid_utf8(a + b);
    if a.len() > 0 {
        let rest = a.drop_first() + b;
        assert((a + b).drop_first() == rest);
        assert((a + b)[0] == a[0]);
        encode_utf8_first_scalar(a + b);
        encode_utf8_first_scalar(a);
        lemma_encode_concat(a, b);
        lemma_boundary_after(a.drop_first(), b);
        assert(pop_first_scalar(whole) == encode_utf8(rest));
    }
}

/// Cutting a text where one of its pieces starts and ends, in bytes, gives that piece back.
pub proof fn law_slice_gives_piece(a: Seq<char>, b: Seq<char>, c: Seq<char>)
    ensures
        sliceable(a + b + c, byte_len(a) as int, (byte_len(a) + byte_len(b)) as int),
        byte_slice(a + b + c, byte_len(a) as int, (byte_len(a) + byte_len(b)) as int) == b,
{
    let whole = a + b + c;
    lemma_encode_concat(a, b);
    lemma_encode_concat(a + b, c);
    lemma_boundary_after(a + b, c);
    lemma_boundary_after(a, b + c);
    assert(a + (b + c) == whole);
    let start = byte_len(a) as int;
    let end = (byte_len(a) + byte_len(b)) as int;
    assert(encode_utf8(whole).subrange(start, end) == encode_utf8(b));
    encode_utf8_decode_utf8(b);
}

/// In a text of ASCII characters alone, byte offsets count characters.
pub proof fn law_slice_of_ascii(s: Seq<char>, start: int, end: int)
    requires
        is_ascii_chars(s),
        0 <= start <= end <= s.len(),
    ensures
        byte_len(s) == s.len(),
        sliceable(s, start, end),
        byte_slice(s, start, end) == s.subrange(start, end),
{
    let a = s.subrange(0, start);
    let b = s.subrange(start, end);
    let c = s.subrange(end, s.len() as int);
    assert(a + b + c == s);
    is_ascii_chars_encode_utf8(s);
    is_ascii_chars_encode_utf8(a);
    is_ascii_chars_encode_utf8(b);
    law_slice_gives_piece(a, b, c);
}

/// One copy more may as well stand in front.
pub proof fn lemma_repeated_front(s: Seq<char>, n: nat)
    ensures
        repeated(s, n + 1) == s + repeated(s, n),
    decreases n,
{
    if n == 0 {
        lemma_repeated_once(s);
        assert(s + repeated(s, 0) == s);
    } else {
        lemma_repeated_front(s, (n - 1) as nat);
        assert(repeated(s, n + 1) =~= s + repeated(s, n));
    }
}

/// Written once, a text is itself.
pub proof fn lemma_repeated_once(s: Seq<char>)
    ensures
        repeated(s, 1) == s,
{
    reveal_with_fuel(repeated, 2);
    assert(repeated(s, 1) =~= s);
}

/// Repeating a text `m + n` times is repeating it `m` times, then `n` times.
pub proof fn law_repeated_adds(s: Seq<char>, m: nat, n: nat)
    ensures
        repeated(s, m + n) == repeated(s, m) + repeated(s, n),
    decreases n,
{
    if n == 0 {
        assert(repeated(s, m) + repeated(s, 0) =~= repeated(s, m));
    } else {
        law_repeated_adds(s, m, (n - 1) as nat);
        assert(repeated(s, m + n) =~= repeated(s, m) + repeated(s, n));
    }
}

/// A line break in front of each copy, or behind each: one of them makes the other.
pub proof fn lemma_repeated_lines(body: Seq<char>, n: nat)
    ensures
        repeated(seq!['\n'] + body, n) + seq!['\n'] == seq!['\n'] + repeated(body.push('\n'), n),
    decreases n,
{
    let br = seq!['\n'];
    if n == 0 {
        assert(repeated(br + body, 0) + br =~= br);
        assert(br + repeated(body.push('\n'), 0) =~= br);
    } else {
        lemma_repeated_lines(body, (n - 1) as nat);
        let front = repeated(br + body, (n - 1) as nat);
        let back = repeated(body.push('\n'), (n - 1) as nat);
        assert(repeated(br + body, n) + br =~= (front + br) + body.push('\n'));
        assert(br + repeated(body.push('\n'), n) =~= (br + back) + body.push('\n'));
    }
}

/// A repeated text is as many times as long, and its `i`-th copy holds the characters of the text
/// in their places.
pub proof fn law_repeated_copies(s: Seq<char>, n: nat, i: int, j: int)
    ensures
        repeated(s, n).len() == s.len() * n,
        0 <= i < n && 0 <= j < s.len() ==> 0 <= i * s.len() + j < s.len() * n && repeated(s, n)[i
            * s.len() + j] == s[j],
    decreases n,
{
    let l = s.len() as int;
    if n == 0 {
        assert(l * 0 == 0) by (nonlinear_arith);
    } else {
        let m = (n - 1) as nat;
        law_repeated_copies(s, m, i, j);
        assert(l * n == l * m + l) by (nonlinear_arith)
            requires
                n == m + 1,
        ;
        if 0 <= i < n && 0 <= j < l {
            if i < m {
                assert(l * n >= l * m) by (nonlinear_arith)
                    requires
                        n == m + 1,
                        l >= 0,
                ;
            } else {
                assert(i * l == l * m) by (nonlinear_arith)
                    requires
                        i == m,
                ;
            }
        }
    }
}

/// A text ends a line exactly if its last character is a line break; the empty text does not.
pub proof fn law_ends_line(s: Seq<char>, c: char)
    ensures
        !ends_line(Seq::empty()),
        ends_line(s.push(c)) <==> c == '\n',
{
}

/// The bytes of a text are those of its parts together, and an ASCII character takes one.
pub proof fn law_byte_len(a: Seq<char>, b: Seq<char>, c: char)
    ensures
        byte_len(a + b) == byte_len(a) + byte_len(b),
        '\0' <= c <= '\u{7f}' ==> byte_len(seq![c]) == 1,
{
    lemma_encode_concat(a, b);
    if '\0' <= c <= '\u{7f}' {
        is_ascii_chars_encode_utf8(seq![c]);
    }
}

/// What can be cut out of a text is one of its pieces: the text is the piece, with what takes
/// `start` bytes in front of it and the rest behind it.
pub proof fn law_sliceable_is_a_piece(s: Seq<char>, start: int, end: int)
    requires
        sliceable(s, start, end),
    ensures
        exists|a: Seq<char>, c: Seq<char>|
            s == #[trigger] (a + byte_slice(s, start, end) + c) && encode_utf8(a).len() == start
                && encode_utf8(byte_slice(s, start, end)).len() == end - start,
{
    let bytes = encode_utf8(s);
    encode_utf8_valid_utf8(s);
    encode_utf8_decode_utf8(s);
    lemma_boundary_in_prefix(bytes, start, end);
    let head = bytes.subrange(0, end);
    valid_utf8_split(bytes, end);
    decode_utf8_split(bytes, end);
    valid_utf8_split(head, start);
    decode_utf8_split(head, start);
    let first = head.subrange(0, start);
    let middle = head.subrange(start, end);
    let last = bytes.subrange(end, bytes.len() as int);
    assert(middle =~= bytes.subrange(start, end));
    let a = decode_utf8(first);
    let c = decode_utf8(last);
    decode_utf8_encode_utf8(first);
    decode_utf8_encode_utf8(middle);
    assert(s =~= a + byte_slice(s, start, end) + c);
}

} // verus!
