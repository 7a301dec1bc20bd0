//! The last line of a file, from its last bytes.

use vstd::prelude::*;
use vstd::slice::slice_subrange;

use crate::codec::{self, text_from_utf8};
use crate::text;

verus! {

/// The byte of a line feed.
pub const LF: u8 = 10;

/// The byte of a carriage return.
pub const CR: u8 = 13;

/// How many bytes stand up to the last line feed, itself included; none where there is no line feed.
pub open spec fn last_feed(bytes: Seq<u8>) -> int
    decreases bytes.len(),
{
    if bytes.len() == 0 {
        0
    } else if bytes.last() == LF {
        bytes.len() as int
    } else {
        last_feed(bytes.drop_last())
    }
}

/// The bytes of a line without the carriage return that its line feed followed.
pub open spec fn bytes_without_cr(line: Seq<u8>) -> Seq<u8> {
    if line.len() > 0 && line.last() == CR {
        line.drop_last()
    } else {
        line
    }
}

/// The bytes of the last line that is not empty, where there is one. `ended` says whether a line feed
/// follows the bytes.
pub open spec fn last_line_bytes(bytes: Seq<u8>, ended: bool) -> Option<Seq<u8>>
    decreases bytes.len(),
{
    proof {
        lemma_last_feed(bytes);
    }
    let n = last_feed(bytes);
    let line = if ended {
        bytes_without_cr(bytes.skip(n))
    } else {
        bytes.skip(n)
    };
    if line.len() > 0 {
        Some(line)
    } else if n == 0 {
        None
    } else {
        last_line_bytes(bytes.take(n - 1), true)
    }
}

/// The text of the last line that is not empty, where there is one. A line is decoded by itself.
pub open spec fn last_line(bytes: Seq<u8>) -> Option<Seq<char>> {
    match last_line_bytes(bytes, false) {
        Some(line) => Some(codec::utf8_lossy(line)),
        None => None,
    }
}

/// The last line that is not empty of the text that bytes encode.
pub open spec fn encoded_last_line(bytes: Seq<u8>) -> Option<Seq<char>> {
    text::last_nonempty(text::lines_of(vstd::utf8::decode_utf8(bytes)))
}

// ---------------------------------- line feeds ----------------------------------

/// What `last_feed` finds.
pub proof fn lemma_last_feed(bytes: Seq<u8>)
    ensures
        0 <= last_feed(bytes) <= bytes.len(),
        last_feed(bytes) > 0 ==> bytes[last_feed(bytes) - 1] == LF,
        forall|j: int| last_feed(bytes) <= j < bytes.len() ==> #[trigger] bytes[j] != LF,
    decreases bytes.len(),
{
    if bytes.len() > 0 && bytes.last() != LF {
        let t = bytes.drop_last();
        lemma_last_feed(t);
        assert forall|j: int| last_feed(bytes) <= j < bytes.len() implies #[trigger] bytes[j]
            != LF by {
            if j < t.len() {
                assert(t[j] == bytes[j]);
            }
        }
    }
}

proof fn lemma_last_feed_is(bytes: Seq<u8>, n: int)
    requires
        0 <= n <= bytes.len(),
        n > 0 ==> bytes[n - 1] == LF,
        forall|j: int| n <= j < bytes.len() ==> #[trigger] bytes[j] != LF,
    ensures
        last_feed(bytes) == n,
{
    lemma_last_feed(bytes);
    let m = last_feed(bytes);
    if m < n {
        assert(bytes[n - 1] != LF);
    } else if n < m {
        assert(bytes[m - 1] != LF);
    }
}

/// Without a line feed there is no last one.
pub proof fn lemma_no_feed_is_zero(bytes: Seq<u8>)
    requires
        forall|j: int| 0 <= j < bytes.len() ==> #[trigger] bytes[j] != LF,
    ensures
        last_feed(bytes) == 0,
{
    lemma_last_feed_is(bytes, 0);
}

/// What stands behind a line feed decides on the last line, where it has a line that is not empty.
pub proof fn lemma_behind_feed(bytes: Seq<u8>, i: int, ended: bool)
    requires
        0 <= i < bytes.len(),
        bytes[i] == LF,
        last_line_bytes(bytes.skip(i + 1), ended) is Some,
    ensures
        last_line_bytes(bytes, ended) == last_line_bytes(bytes.skip(i + 1), ended),
    decreases bytes.len(),
{
    let y = bytes.skip(i + 1);
    lemma_last_feed(bytes);
    lemma_last_feed(y);
    let m = last_feed(y);
    assert forall|j: int| i + 1 + m <= j < bytes.len() implies #[trigger] bytes[j] != LF by {
        assert(y[j - i - 1] == bytes[j]);
    }
    if m > 0 {
        assert(y[m - 1] == bytes[i + m]);
    }
    lemma_last_feed_is(bytes, i + 1 + m);
    assert(bytes.skip(i + 1 + m) =~= y.skip(m));
    if m > 0 {
        let shorter = bytes.take(i + m);
        assert(shorter.skip(i + 1) =~= y.take(m - 1));
        if last_line_bytes(y.take(m - 1), true) is Some {
            lemma_behind_feed(shorter, i, true);
        }
    }
}

// ---------------------------------- encoded texts ----------------------------------

proof fn lemma_ascii_first(bytes: Seq<u8>, c: char)
    requires
        vstd::utf8::valid_utf8(bytes),
        bytes.len() > 0,
        vstd::utf8::decode_first_scalar(bytes) as char == c,
        (c as u32) < 0x80,
    ensures
        vstd::utf8::length_of_first_scalar(bytes) == 1,
        bytes[0] == c as u8,
{
    vstd::utf8::decode_utf8_first_scalar(bytes);
    let u = c as u32;
    let first = vstd::utf8::take_first_scalar(bytes);
    assert(first == seq![vstd::utf8::leading_byte_width_1(u)]);
    assert(first.len() == vstd::utf8::length_of_first_scalar(bytes));
    assert(first[0] == bytes[0]);
    assert((u & 0x7f) == u) by (bit_vector)
        requires
            u < 0x80,
    ;
}

proof fn lemma_decoded_feed(bytes: Seq<u8>, k: int)
    requires
        vstd::utf8::valid_utf8(bytes),
        0 <= k < vstd::utf8::decode_utf8(bytes).len(),
        vstd::utf8::decode_utf8(bytes)[k] == '\n',
    ensures
        exists|j: int| 0 <= j < bytes.len() && #[trigger] bytes[j] == LF,
    decreases bytes.len(),
{
    let rest = vstd::utf8::pop_first_scalar(bytes);
    if k == 0 {
        lemma_ascii_first(bytes, '\n');
        assert(bytes[0] == LF);
    } else {
        lemma_decoded_feed(rest, k - 1);
        let j = choose|j: int| 0 <= j < rest.len() && #[trigger] rest[j] == LF;
        assert(rest[j] == bytes[j + vstd::utf8::length_of_first_scalar(bytes)]);
    }
}

proof fn lemma_decoded_last(bytes: Seq<u8>)
    requires
        vstd::utf8::valid_utf8(bytes),
        bytes.len() > 0,
    ensures
        vstd::utf8::decode_utf8(bytes).len() > 0,
        vstd::utf8::decode_utf8(bytes).last() == '\r' ==> bytes.last() == CR,
    decreases bytes.len(),
{
    let rest = vstd::utf8::pop_first_scalar(bytes);
    let first = vstd::utf8::decode_first_scalar(bytes) as char;
    let decoded = vstd::utf8::decode_utf8(bytes);
    assert(decoded == seq![first] + vstd::utf8::decode_utf8(rest));
    if rest.len() == 0 {
        assert(vstd::utf8::decode_utf8(rest).len() == 0);
        assert(decoded.last() == first);
        if first == '\r' {
            lemma_ascii_first(bytes, '\r');
        }
    } else {
        lemma_decoded_last(rest);
        assert(decoded.last() == vstd::utf8::decode_utf8(rest).last());
        assert(rest.last() == bytes.last());
    }
}

/// An ASCII byte in bytes that encode a text stands for itself: what is before it and what is behind
/// it encode the rest of the text.
proof fn lemma_ascii_splits(bytes: Seq<u8>, i: int)
    requires
        vstd::utf8::valid_utf8(bytes),
        0 <= i < bytes.len(),
        bytes[i] < 0x80,
    ensures
        vstd::utf8::valid_utf8(bytes.take(i)),
        vstd::utf8::valid_utf8(bytes.skip(i + 1)),
        vstd::utf8::decode_utf8(bytes) == vstd::utf8::decode_utf8(bytes.take(i)) + seq![
            bytes[i] as char,
        ] + vstd::utf8::decode_utf8(bytes.skip(i + 1)),
{
    let n = bytes.len() as int;
    vstd::utf8::is_char_boundary_iff_not_is_continuation_byte(bytes, i);
    vstd::utf8::valid_utf8_split(bytes, i);
    vstd::utf8::decode_utf8_split(bytes, i);
    let t = bytes.subrange(i, n);
    assert(bytes.subrange(0, i) =~= bytes.take(i));
    let b = bytes[i];
    assert((b & 0x7f) == b) by (bit_vector)
        requires
            b < 0x80,
    ;
    assert(t[0] == b);
    assert(vstd::utf8::pop_first_scalar(t) =~= bytes.skip(i + 1));
    assert(vstd::utf8::decode_utf8(t) == seq![b as char] + vstd::utf8::decode_utf8(
        bytes.skip(i + 1),
    ));
}

proof fn lemma_single_piece(s: Seq<char>)
    requires
        forall|k: int| 0 <= k < s.len() ==> #[trigger] s[k] != '\n',
    ensures
        text::split_on(s, '\n') == seq![s],
    decreases s.len(),
{
    if s.len() > 0 {
        let t = s.drop_last();
        assert forall|k: int| 0 <= k < t.len() implies #[trigger] t[k] != '\n' by {
            assert(t[k] == s[k]);
        }
        lemma_single_piece(t);
        assert(s[s.len() - 1] != '\n');
        assert(t.push(s.last()) =~= s);
        assert(text::split_on(s, '\n') =~= seq![s]);
    } else {
        assert(s =~= Seq::empty());
    }
}

/// The lines of a text that a line feed follows.
spec fn ended_lines(s: Seq<char>) -> Seq<Seq<char>> {
    let p = text::split_on(s, '\n');
    Seq::new(p.len(), |i: int| text::without_cr(p[i]))
}

proof fn lemma_without_cr(line: Seq<u8>)
    requires
        vstd::utf8::valid_utf8(line),
    ensures
        vstd::utf8::valid_utf8(bytes_without_cr(line)),
        vstd::utf8::decode_utf8(bytes_without_cr(line)) == text::without_cr(
            vstd::utf8::decode_utf8(line),
        ),
{
    let s = vstd::utf8::decode_utf8(line);
    if line.len() > 0 {
        lemma_decoded_last(line);
        if line.last() == CR {
            lemma_ascii_splits(line, line.len() - 1);
            assert(line.take(line.len() - 1) =~= line.drop_last());
            assert(line.skip(line.len() as int) =~= Seq::empty());
            assert(s =~= vstd::utf8::decode_utf8(line.drop_last()) + seq!['\r']);
            assert(s.drop_last() =~= vstd::utf8::decode_utf8(line.drop_last()));
        }
    }
}

proof fn lemma_last_of_push(lines: Seq<Seq<char>>, line: Seq<char>)
    ensures
        text::last_nonempty(lines.push(line)) == (if line.len() > 0 {
            Some(line)
        } else {
            text::last_nonempty(lines)
        }),
{
    assert(lines.push(line).drop_last() =~= lines);
}

/// In bytes that encode a text the last line that is not empty is that of the text.
proof fn lemma_encoded(bytes: Seq<u8>, ended: bool)
    requires
        vstd::utf8::valid_utf8(bytes),
    ensures
        last_line_bytes(bytes, ended) matches Some(line) ==> vstd::utf8::valid_utf8(line),
        ({
            let s = vstd::utf8::decode_utf8(bytes);
            let lines = if ended {
                ended_lines(s)
            } else {
                text::lines_of(s)
            };
            text::last_nonempty(lines) == (match last_line_bytes(bytes, ended) {
                Some(line) => Some(vstd::utf8::decode_utf8(line)),
                None => None,
            })
        }),
    decreases bytes.len(),
{
    lemma_last_feed(bytes);
    let n = last_feed(bytes);
    let s = vstd::utf8::decode_utf8(bytes);
    let lines = if ended {
        ended_lines(s)
    } else {
        text::lines_of(s)
    };
    let piece = bytes.skip(n);
    if n > 0 {
        let before = bytes.take(n - 1);
        lemma_ascii_splits(bytes, n - 1);
        lemma_encoded(before, true);
        let x = vstd::utf8::decode_utf8(before);
        let y = vstd::utf8::decode_utf8(piece);
        lemma_no_feed(piece);
        lemma_single_piece(y);
        text::lemma_split_concat(x, '\n', y);
        assert(s == x + seq!['\n'] + y);
        let p = text::split_on(s, '\n');
        assert(p == text::split_on(x, '\n').push(y));
        lemma_without_cr(piece);
        if ended {
            assert(lines =~= ended_lines(x).push(text::without_cr(y)));
        } else if y.len() > 0 {
            assert(lines =~= ended_lines(x).push(y));
        } else {
            assert(lines =~= ended_lines(x));
        }
        lemma_last_of_push(ended_lines(x), text::without_cr(y));
        lemma_last_of_push(ended_lines(x), y);
    } else {
        assert(piece =~= bytes);
        lemma_no_feed(bytes);
        lemma_single_piece(s);
        lemma_without_cr(bytes);
        let none = Seq::<Seq<char>>::empty();
        if ended {
            assert(lines =~= none.push(text::without_cr(s)));
        } else if s.len() > 0 {
            assert(lines =~= none.push(s));
        } else {
            assert(lines =~= none);
        }
        assert(text::last_nonempty(none) is None);
        lemma_last_of_push(none, text::without_cr(s));
        lemma_last_of_push(none, s);
    }
    lemma_lengths(piece);
    lemma_lengths(bytes_without_cr(piece));
}

proof fn lemma_lengths(bytes: Seq<u8>)
    requires
        vstd::utf8::valid_utf8(bytes),
    ensures
        vstd::utf8::decode_utf8(bytes).len() == 0 <==> bytes.len() == 0,
{
}

proof fn lemma_no_feed(bytes: Seq<u8>)
    requires
        vstd::utf8::valid_utf8(bytes),
        forall|j: int| 0 <= j < bytes.len() ==> #[trigger] bytes[j] != LF,
    ensures
        forall|k: int|
            0 <= k < vstd::utf8::decode_utf8(bytes).len() ==> #[trigger] vstd::utf8::decode_utf8(
                bytes,
            )[k] != '\n',
{
    let s = vstd::utf8::decode_utf8(bytes);
    assert forall|k: int| 0 <= k < s.len() implies #[trigger] s[k] != '\n' by {
        if s[k] == '\n' {
            lemma_decoded_feed(bytes, k);
        }
    }
}

// ---------------------------------- reading ----------------------------------

fn find_last_feed(bytes: &[u8], end: usize) -> (r: usize)
    requires
        end <= bytes.len(),
    ensures
        r == last_feed(bytes@.take(end as int)),
        r <= end,
{
    let ghost part = bytes@.take(end as int);
    let mut n: usize = end;
    while n > 0 && bytes[n - 1] != LF
        invariant
            n <= end <= bytes.len(),
            part == bytes@.take(end as int),
            forall|j: int| n <= j < end ==> #[trigger] part[j] != LF,
        decreases n,
    {
        proof {
            assert(part[n - 1] == bytes@[n - 1]);
        }
        n -= 1;
    }
    proof {
        if n > 0 {
            assert(part[n - 1] == bytes@[n - 1]);
        }
        lemma_last_feed_is(part, n as int);
    }
    n
}

fn find_last_line(bytes: &[u8]) -> (r: Option<(usize, usize)>)
    ensures
        last_line_bytes(bytes@, false) == (match r {
            Some((start, end)) => Some(bytes@.subrange(start as int, end as int)),
            None => None,
        }),
        r matches Some((start, end)) ==> start <= end <= bytes.len(),
{
    let ghost all = bytes@;
    let mut end: usize = bytes.len();
    let mut ended: bool = false;
    proof {
        assert(all.take(end as int) =~= all);
    }
    loop
        invariant
            end <= bytes.len(),
            all == bytes@,
            last_line_bytes(all, false) == last_line_bytes(all.take(end as int), ended),
        ensures
            last_line_bytes(all, false) is None,
        decreases end,
    {
        let n: usize = find_last_feed(bytes, end);
        let ghost part = all.take(end as int);
        let last: usize = if ended && n < end && bytes[end - 1] == CR {
            end - 1
        } else {
            end
        };
        proof {
            let piece = part.skip(n as int);
            assert(piece =~= all.subrange(n as int, end as int));
            if n < end {
                assert(piece.last() == all[end - 1]);
                assert(piece.drop_last() =~= all.subrange(n as int, end - 1));
            }
        }
        if n < last {
            return Some((n, last));
        }
        if n == 0 {
            break;
        }
        proof {
            assert(part.take(n - 1) =~= all.take(n - 1));
        }
        end = n - 1;
        ended = true;
    }
    None
}

/// The last line that is not empty, where there is one, from the last bytes of a file. A line is
/// decoded by itself: what stands before the line feed in front of it does not matter.
pub fn read_last_line(bytes: &[u8]) -> (r: Option<String>)
    ensures
        text::optional_text(r) == last_line(bytes@),
        last_line_bytes(bytes@, false) matches Some(line) ==> vstd::utf8::valid_utf8(line)
            ==> text::optional_text(r) == Some(vstd::utf8::decode_utf8(line)),
        vstd::utf8::valid_utf8(bytes@) ==> text::optional_text(r) == encoded_last_line(bytes@),
        forall|i: int|
            0 <= i < bytes@.len() && #[trigger] bytes@[i] == LF && vstd::utf8::valid_utf8(
                bytes@.skip(i + 1),
            ) && encoded_last_line(bytes@.skip(i + 1)) is Some ==> text::optional_text(r)
                == encoded_last_line(bytes@.skip(i + 1)),
{
    let ghost all = bytes@;
    proof {
        if vstd::utf8::valid_utf8(all) {
            lemma_encoded(all, false);
        }
        assert forall|i: int|
            0 <= i < all.len() && #[trigger] all[i] == LF && vstd::utf8::valid_utf8(
                all.skip(i + 1),
            ) && encoded_last_line(all.skip(i + 1)) is Some implies ({
            &&& last_line_bytes(all, false) matches Some(line)
            &&& vstd::utf8::valid_utf8(line)
            &&& encoded_last_line(all.skip(i + 1)) == Some(vstd::utf8::decode_utf8(line))
        }) by {
            lemma_encoded(all.skip(i + 1), false);
            lemma_behind_feed(all, i, false);
        }
    }
    match find_last_line(bytes) {
        Some((start, end)) => Some(text_from_utf8(slice_subrange(bytes, start, end))),
        None => None,
    }
}

// ---------------------------------- laws ----------------------------------

/// The last line of a file is found in its last bytes: where the bytes of a file encode a text, and
/// a line feed after which the text has a line that is not empty stands among the last bytes or just
/// in front of them, the last line that is not empty is the same in the last bytes as in the whole
/// file, also where the last bytes begin inside a character.
pub proof fn law_tail_has_the_last_line(file: Seq<u8>, start: int, i: int)
    requires
        vstd::utf8::valid_utf8(file),
        0 <= start <= i + 1 <= file.len(),
        0 <= i,
        file[i] == LF,
        encoded_last_line(file.skip(i + 1)) is Some,
    ensures
        last_line_bytes(file.skip(start), false) == last_line_bytes(file, false),
        last_line_bytes(file, false) matches Some(line) && vstd::utf8::valid_utf8(line)
            && encoded_last_line(file) == Some(vstd::utf8::decode_utf8(line)),
{
    let tail = file.skip(start);
    lemma_ascii_splits(file, i);
    lemma_encoded(file.skip(i + 1), false);
    lemma_encoded(file, false);
    lemma_behind_feed(file, i, false);
    if start <= i {
        assert(tail[i - start] == LF);
        assert(tail.skip(i - start + 1) =~= file.skip(i + 1));
        lemma_behind_feed(tail, i - start, false);
    }
}

/// A file that is read as a whole has the last line of its text.
pub proof fn law_whole_file_has_the_last_line(file: Seq<u8>)
    requires
        vstd::utf8::valid_utf8(file),
    ensures
        encoded_last_line(file) == (match last_line_bytes(file, false) {
            Some(line) => Some(vstd::utf8::decode_utf8(line)),
            None => None,
        }),
        last_line_bytes(file, false) matches Some(line) ==> vstd::utf8::valid_utf8(line),
{
    lemma_encoded(file, false);
}

} // verus!
