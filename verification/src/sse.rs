//! Decoding of a streamed chat completion in the Server-Sent-Events format.
//!
//! Text is accumulated until a blank line (`"\n\n"`) closes an event. Each
//! closed event is split into lines; a line that starts with `"data: "`
//! carries a payload, unless the payload, trimmed, is `"[DONE]"`. When the
//! stream ends, the lines of the text still held are decoded the same way.
use vstd::prelude::*;
use vstd::utf8::{
    decode_utf8, is_char_boundary, is_continuation_byte, is_leading_byte_width_1,
    is_leading_byte_width_2, is_leading_byte_width_3, is_leading_byte_width_4, length_of_first_scalar,
    pop_first_scalar, valid_first_scalar, valid_utf8,
};
use crate::text::{is_whitespace_char, range_equals, range_starts_with, trim, trim_end, trim_start};

verus! {

/// `s` has a blank line (two consecutive newlines) starting at `i`.
pub open spec fn is_boundary_at(s: Seq<char>, i: int) -> bool {
    0 <= i && i + 1 < s.len() && s[i] == '\n' && s[i + 1] == '\n'
}

/// The first blank-line position of `s` at or after `i`.
pub open spec fn boundary_from(s: Seq<char>, i: int) -> Option<int>
    decreases s.len() - i,
{
    if i < 0 || i + 1 >= s.len() {
        None
    } else if s[i] == '\n' && s[i + 1] == '\n' {
        Some(i)
    } else {
        boundary_from(s, i + 1)
    }
}

/// The first newline of `s` at or after `i`.
pub open spec fn newline_from(s: Seq<char>, i: int) -> Option<int>
    decreases s.len() - i,
{
    if i < 0 || i >= s.len() {
        None
    } else if s[i] == '\n' {
        Some(i)
    } else {
        newline_from(s, i + 1)
    }
}

/// A line without the carriage return that preceded its newline.
pub open spec fn strip_cr(line: Seq<char>) -> Seq<char> {
    if line.len() > 0 && line.last() == '\r' {
        line.drop_last()
    } else {
        line
    }
}

/// The lines of `s` as `str::lines` yields them: split at each newline, a
/// carriage return before the newline removed, no line after a final newline.
pub open spec fn lines(s: Seq<char>) -> Seq<Seq<char>>
    decreases s.len(),
{
    if s.len() == 0 {
        Seq::empty()
    } else {
        match newline_from(s, 0) {
            Some(j) => if 0 <= j < s.len() {
                seq![strip_cr(s.take(j))] + lines(s.skip(j + 1))
            } else {
                seq![s]
            },
            None => seq![s],
        }
    }
}

/// The field prefix `"data: "`.
pub open spec fn data_prefix() -> Seq<char> {
    seq!['d', 'a', 't', 'a', ':', ' ']
}

/// The end-of-stream marker `"[DONE]"`.
pub open spec fn done_marker() -> Seq<char> {
    seq!['[', 'D', 'O', 'N', 'E', ']']
}

/// The payload that one line carries, if any.
pub open spec fn line_payload(line: Seq<char>) -> Option<Seq<char>> {
    if line.len() >= 6 && line.take(6) == data_prefix() {
        let data = line.skip(6);
        if trim(data) == done_marker() {
            None
        } else {
            Some(data)
        }
    } else {
        None
    }
}

/// The payloads of a sequence of lines, in order.
pub open spec fn payloads_of_lines(ls: Seq<Seq<char>>) -> Seq<Seq<char>>
    decreases ls.len(),
{
    if ls.len() == 0 {
        Seq::empty()
    } else {
        let first = match line_payload(ls[0]) {
            Some(d) => seq![d],
            None => Seq::empty(),
        };
        first + payloads_of_lines(ls.drop_first())
    }
}

/// The payloads of one event's text.
pub open spec fn block_payloads(block: Seq<char>) -> Seq<Seq<char>> {
    payloads_of_lines(lines(block))
}

/// Decodes every closed event of `s`: the payloads, in order, and the text
/// that stays held because no blank line closes it yet.
pub open spec fn drain(s: Seq<char>) -> (Seq<Seq<char>>, Seq<char>)
    decreases s.len(),
{
    match boundary_from(s, 0) {
        Some(p) => if 0 <= p && p + 2 <= s.len() {
            let r = drain(s.skip(p + 2));
            (block_payloads(s.take(p)) + r.0, r.1)
        } else {
            (Seq::empty(), s)
        },
        None => (Seq::empty(), s),
    }
}

/// The character sequences of a sequence of character vectors.
pub open spec fn char_views(v: Seq<Vec<char>>) -> Seq<Seq<char>> {
    Seq::new(v.len(), |i: int| v[i]@)
}

/// The character sequences of a sequence of strings.
pub open spec fn string_views(v: Seq<String>) -> Seq<Seq<char>> {
    Seq::new(v.len(), |i: int| v[i]@)
}

proof fn lemma_char_views_push(v: Seq<Vec<char>>, x: Vec<char>)
    ensures
        char_views(v.push(x)) == char_views(v).push(x@),
{
    assert(char_views(v.push(x)) =~= char_views(v).push(x@));
}

proof fn lemma_payloads_cons(x: Seq<char>, rest: Seq<Seq<char>>)
    ensures
        payloads_of_lines(seq![x] + rest) == (match line_payload(x) {
            Some(d) => seq![d],
            None => Seq::<Seq<char>>::empty(),
        }) + payloads_of_lines(rest),
{
    assert((seq![x] + rest).drop_first() =~= rest);
    assert((seq![x] + rest)[0] == x);
}

/// A copy of `v[lo..hi]`.
fn copy_range(v: &Vec<char>, lo: usize, hi: usize) -> (r: Vec<char>)
    requires
        lo <= hi <= v@.len(),
    ensures
        r@ == v@.subrange(lo as int, hi as int),
{
    let mut r: Vec<char> = Vec::new();
    let mut k: usize = lo;
    while k < hi
        invariant
            lo <= k <= hi <= v@.len(),
            r@ == v@.subrange(lo as int, k as int),
        decreases hi - k,
    {
        r.push(v[k]);
        k = k + 1;
        assert(r@ =~= v@.subrange(lo as int, k as int));
    }
    r
}

fn data_prefix_chars() -> (r: Vec<char>)
    ensures
        r@ == data_prefix(),
{
    let mut r: Vec<char> = Vec::new();
    r.push('d');
    r.push('a');
    r.push('t');
    r.push('a');
    r.push(':');
    r.push(' ');
    assert(r@ =~= data_prefix());
    r
}

fn done_marker_chars() -> (r: Vec<char>)
    ensures
        r@ == done_marker(),
{
    let mut r: Vec<char> = Vec::new();
    r.push('[');
    r.push('D');
    r.push('O');
    r.push('N');
    r.push('E');
    r.push(']');
    assert(r@ =~= done_marker());
    r
}

/// The bounds of `v[lo..hi]` once surrounding whitespace is trimmed.
fn trim_bounds(v: &Vec<char>, lo: usize, hi: usize) -> (r: (usize, usize))
    requires
        lo <= hi <= v@.len(),
    ensures
        lo <= r.0 <= r.1 <= hi,
        v@.subrange(r.0 as int, r.1 as int) == trim(v@.subrange(lo as int, hi as int)),
{
    let mut a: usize = lo;
    while a < hi && is_whitespace_char(v[a])
        invariant
            lo <= a <= hi <= v@.len(),
            trim_start(v@.subrange(a as int, hi as int)) == trim_start(
                v@.subrange(lo as int, hi as int),
            ),
        decreases hi - a,
    {
        assert(v@.subrange(a as int, hi as int).drop_first() =~= v@.subrange(a + 1, hi as int));
        a = a + 1;
    }
    let mut b: usize = hi;
    while b > a && is_whitespace_char(v[b - 1])
        invariant
            a <= b <= hi <= v@.len(),
            trim_end(v@.subrange(a as int, b as int)) == trim_end(v@.subrange(a as int, hi as int)),
        decreases b,
    {
        assert(v@.subrange(a as int, b as int).drop_last() =~= v@.subrange(a as int, b - 1));
        b = b - 1;
    }
    (a, b)
}

/// The payload that the line `v[lo..hi]` carries, if any.
fn line_payload_in(v: &Vec<char>, lo: usize, hi: usize) -> (r: Option<Vec<char>>)
    requires
        lo <= hi <= v@.len(),
    ensures
        match r {
            Some(d) => line_payload(v@.subrange(lo as int, hi as int)) == Some(d@),
            None => line_payload(v@.subrange(lo as int, hi as int)) is None,
        },
{
    let prefix = data_prefix_chars();
    if !range_starts_with(v, lo, hi, &prefix) {
        return None;
    }
    let dlo: usize = lo + 6;
    assert(v@.subrange(lo as int, hi as int).skip(6) =~= v@.subrange(dlo as int, hi as int));
    let (a, b) = trim_bounds(v, dlo, hi);
    let done = done_marker_chars();
    if range_equals(v, a, b, &done) {
        None
    } else {
        Some(copy_range(v, dlo, hi))
    }
}

/// Appends to `out` the payloads of the lines of `v[lo..hi]`.
fn push_block_payloads(v: &Vec<char>, lo: usize, hi: usize, out: &mut Vec<Vec<char>>)
    requires
        lo <= hi <= v@.len(),
    ensures
        char_views(final(out)@) == char_views(old(out)@) + block_payloads(
            v@.subrange(lo as int, hi as int),
        ),
{
    let ghost whole = block_payloads(v@.subrange(lo as int, hi as int));
    let mut start: usize = lo;
    while start < hi
        invariant
            lo <= start <= hi <= v@.len(),
            char_views(old(out)@) + whole == char_views(out@) + payloads_of_lines(
                lines(v@.subrange(start as int, hi as int)),
            ),
        decreases hi - start,
    {
        let ghost s = v@.subrange(start as int, hi as int);
        let mut j: usize = start;
        while j < hi && v[j] != '\n'
            invariant
                start <= j <= hi <= v@.len(),
                s == v@.subrange(start as int, hi as int),
                newline_from(s, 0) == newline_from(s, j - start),
            decreases hi - j,
        {
            j = j + 1;
        }
        let ghost before = out@;
        if j < hi {
            let line_end: usize = if j > start && v[j - 1] == '\r' {
                j - 1
            } else {
                j
            };
            assert(newline_from(s, 0) == Some((j - start) as int));
            assert(s.take(j - start) =~= v@.subrange(start as int, j as int));
            assert(strip_cr(s.take(j - start)) =~= v@.subrange(start as int, line_end as int));
            assert(s.skip(j - start + 1) =~= v@.subrange(j + 1, hi as int));
            let ghost line = v@.subrange(start as int, line_end as int);
            let ghost rest = lines(v@.subrange(j + 1, hi as int));
            assert(lines(s) == seq![line] + rest);
            proof {
                lemma_payloads_cons(line, rest);
            }
            match line_payload_in(v, start, line_end) {
                Some(d) => {
                    out.push(d);
                    proof {
                        lemma_char_views_push(before, d);
                    }
                },
                None => {},
            }
            start = j + 1;
        } else {
            assert(newline_from(s, 0) is None);
            assert(lines(s) == seq![s]);
            let ghost empty: Seq<char> = Seq::empty();
            assert(v@.subrange(hi as int, hi as int) =~= empty);
            assert(lines(v@.subrange(hi as int, hi as int)) == Seq::<Seq<char>>::empty());
            proof {
                lemma_payloads_cons(s, Seq::empty());
            }
            match line_payload_in(v, start, hi) {
                Some(d) => {
                    out.push(d);
                    proof {
                        lemma_char_views_push(before, d);
                    }
                },
                None => {},
            }
            start = hi;
        }
    }
    let ghost empty: Seq<char> = Seq::empty();
    assert(v@.subrange(start as int, hi as int) =~= empty);
}


/// Appends to `out` the payloads of every closed event of `v`, and returns
/// where the held text begins.
fn drain_into(v: &Vec<char>, out: &mut Vec<Vec<char>>) -> (rest: usize)
    ensures
        rest <= v@.len(),
        char_views(final(out)@) == char_views(old(out)@) + drain(v@).0,
        v@.subrange(rest as int, v@.len() as int) == drain(v@).1,
{
    let len: usize = v.len();
    let mut start: usize = 0;
    let mut i: usize = 0;
    assert(v@.subrange(0, len as int) =~= v@);
    assert(char_views(old(out)@) + drain(v@).0 == char_views(out@) + drain(v@).0);
    while i < len && i + 1 < len
        invariant
            start <= i <= len,
            len == v@.len(),
            char_views(old(out)@) + drain(v@).0 == char_views(out@) + drain(
                v@.subrange(start as int, len as int),
            ).0,
            drain(v@).1 == drain(v@.subrange(start as int, len as int)).1,
            boundary_from(v@.subrange(start as int, len as int), 0) == boundary_from(
                v@.subrange(start as int, len as int),
                i - start,
            ),
        decreases len - i,
    {
        let ghost s = v@.subrange(start as int, len as int);
        if v[i] == '\n' && v[i + 1] == '\n' {
            assert(boundary_from(s, i - start) == Some((i - start) as int));
            assert(s.take(i - start) =~= v@.subrange(start as int, i as int));
            assert(s.skip(i - start + 2) =~= v@.subrange(i + 2, len as int));
            push_block_payloads(v, start, i, out);
            assert(char_views(old(out)@) + drain(v@).0 =~= char_views(out@) + drain(
                v@.subrange(i + 2, len as int),
            ).0);
            start = i + 2;
            i = i + 2;
        } else {
            i = i + 1;
        }
    }
    let ghost s = v@.subrange(start as int, len as int);
    assert(boundary_from(s, i - start) is None);
    assert(drain(s).0 =~= Seq::<Seq<char>>::empty());
    assert(char_views(old(out)@) + drain(v@).0 =~= char_views(out@));
    start
}

/// Facts about where `boundary_from` points.
pub proof fn lemma_boundary_from(s: Seq<char>, i: int)
    ensures
        boundary_from(s, i) matches Some(p) ==> {
            &&& i <= p
            &&& is_boundary_at(s, p)
            &&& forall|k: int| i <= k < p ==> !is_boundary_at(s, k)
        },
        boundary_from(s, i) is None && 0 <= i ==> forall|k: int| i <= k ==> !is_boundary_at(s, k),
    decreases s.len() - i,
{
    if i < 0 || i + 1 >= s.len() {
    } else if s[i] == '\n' && s[i + 1] == '\n' {
    } else {
        lemma_boundary_from(s, i + 1);
    }
}

/// A blank line found in `s` is found at the same place in `s + t`.
proof fn lemma_boundary_prefix(s: Seq<char>, t: Seq<char>, i: int)
    ensures
        boundary_from(s, i) is Some ==> boundary_from(s + t, i) == boundary_from(s, i),
    decreases s.len() - i,
{
    if i < 0 || i + 1 >= s.len() {
    } else {
        assert((s + t)[i] == s[i]);
        assert((s + t)[i + 1] == s[i + 1]);
        if !(s[i] == '\n' && s[i + 1] == '\n') {
            lemma_boundary_prefix(s, t, i + 1);
        }
    }
}

/// Decoding `s + t` decodes `s` first, then the held text followed by `t`.
pub proof fn lemma_drain_append(s: Seq<char>, t: Seq<char>)
    ensures
        drain(s + t).0 == drain(s).0 + drain(drain(s).1 + t).0,
        drain(s + t).1 == drain(drain(s).1 + t).1,
    decreases s.len(),
{
    lemma_boundary_from(s, 0);
    match boundary_from(s, 0) {
        Some(p) => {
            lemma_boundary_prefix(s, t, 0);
            let s2 = s.skip(p + 2);
            assert((s + t).take(p) =~= s.take(p));
            assert((s + t).skip(p + 2) =~= s2 + t);
            lemma_drain_append(s2, t);
            assert(drain(s + t).0 =~= drain(s).0 + drain(drain(s).1 + t).0);
        },
        None => {
            assert(drain(s).0 + drain(drain(s).1 + t).0 =~= drain(s + t).0);
        },
    }
}

/// Law: the text a decoder holds back never contains a blank line, so every
/// complete event has been handed on.
pub proof fn law_held_text_has_no_blank_line(s: Seq<char>)
    ensures
        boundary_from(drain(s).1, 0) is None,
    decreases s.len(),
{
    lemma_boundary_from(s, 0);
    match boundary_from(s, 0) {
        Some(p) => {
            law_held_text_has_no_blank_line(s.skip(p + 2));
        },
        None => {},
    }
}

/// Law: where a stream is cut into chunks does not matter. Feeding `a` and
/// then `b` to a decoder that holds `held` yields the same payloads, in the
/// same order, and leaves the same text held, as feeding `a + b` at once.
pub proof fn law_chunk_boundaries_do_not_matter(held: Seq<char>, a: Seq<char>, b: Seq<char>)
    ensures
        drain(held + (a + b)).0 == drain(held + a).0 + drain(drain(held + a).1 + b).0,
        drain(held + (a + b)).1 == drain(drain(held + a).1 + b).1,
{
    assert(held + (a + b) =~= (held + a) + b);
    lemma_drain_append(held + a, b);
}

proof fn lemma_payloads_not_done(ls: Seq<Seq<char>>)
    ensures
        forall|i: int|
            0 <= i < payloads_of_lines(ls).len() ==> trim(#[trigger] payloads_of_lines(ls)[i])
                != done_marker(),
    decreases ls.len(),
{
    if ls.len() > 0 {
        lemma_payloads_not_done(ls.drop_first());
        let first = match line_payload(ls[0]) {
            Some(d) => seq![d],
            None => Seq::<Seq<char>>::empty(),
        };
        let rest = payloads_of_lines(ls.drop_first());
        assert(payloads_of_lines(ls) == first + rest);
        assert forall|i: int| 0 <= i < payloads_of_lines(ls).len() implies trim(
            #[trigger] payloads_of_lines(ls)[i],
        ) != done_marker() by {
            if i < first.len() {
                assert(payloads_of_lines(ls)[i] == first[i]);
            } else {
                assert(payloads_of_lines(ls)[i] == rest[i - first.len()]);
            }
        }
    }
}

/// Law: the end-of-stream marker is never handed on as a payload, neither
/// from a closed event nor from the text held at the end.
pub proof fn law_done_marker_never_forwarded(s: Seq<char>)
    ensures
        forall|i: int| 0 <= i < drain(s).0.len() ==> trim(#[trigger] drain(s).0[i]) != done_marker(),
        forall|i: int|
            0 <= i < block_payloads(drain(s).1).len() ==> trim(
                #[trigger] block_payloads(drain(s).1)[i],
            ) != done_marker(),
    decreases s.len(),
{
    lemma_boundary_from(s, 0);
    match boundary_from(s, 0) {
        Some(p) => {
            law_done_marker_never_forwarded(s.skip(p + 2));
            lemma_payloads_not_done(lines(s.take(p)));
            let x = block_payloads(s.take(p));
            let y = drain(s.skip(p + 2)).0;
            assert forall|i: int| 0 <= i < drain(s).0.len() implies trim(#[trigger] drain(s).0[i])
                != done_marker() by {
                if i < x.len() {
                    assert(drain(s).0[i] == x[i]);
                } else {
                    assert(drain(s).0[i] == y[i - x.len()]);
                }
            }
        },
        None => {
            lemma_payloads_not_done(lines(s));
        },
    }
}

/// The strings of a sequence of character vectors.
fn to_strings(v: &Vec<Vec<char>>) -> (r: Vec<String>)
    ensures
        string_views(r@) == char_views(v@),
{
    let mut r: Vec<String> = Vec::new();
    let mut k: usize = 0;
    while k < v.len()
        invariant
            k <= v@.len(),
            r@.len() == k,
            forall|j: int| 0 <= j < k ==> #[trigger] r@[j]@ == v@[j]@,
        decreases v@.len() - k,
    {
        r.push(crate::text::string_from_chars(v[k].as_slice()));
        k = k + 1;
    }
    assert(string_views(r@) =~= char_views(v@));
    r
}

/// The result of `String::from_utf8_lossy` on the given bytes, as
/// characters: the bytes decoded as UTF-8, each invalid sequence replaced by
/// U+FFFD.
pub uninterp spec fn utf8_lossy(bytes: Seq<u8>) -> Seq<char>;

/// Wraps `String::from_utf8_lossy`. Its result is named `utf8_lossy`; for
/// valid UTF-8 input it is the decoded text, as the documentation states.
/// What replacement characters stand for invalid sequences is left to the
/// name.
#[verifier::external_body]
fn decode_utf8_lossy(bytes: &[u8]) -> (s: String)
    ensures
        s@ == utf8_lossy(bytes@),
        valid_utf8(bytes@) ==> s@ == decode_utf8(bytes@),
{
    String::from_utf8_lossy(bytes).into_owned()
}

/// The text of received bytes: their UTF-8 decoding when they are valid,
/// else their lossy decoding.
pub open spec fn decode_bytes(b: Seq<u8>) -> Seq<char> {
    if valid_utf8(b) {
        decode_utf8(b)
    } else {
        utf8_lossy(b)
    }
}

/// The number of bytes a character's UTF-8 encoding takes, read from its
/// leading byte; zero for a byte that cannot lead one.
pub open spec fn lead_width(b: u8) -> int {
    if is_leading_byte_width_1(b) {
        1
    } else if is_leading_byte_width_2(b) {
        2
    } else if is_leading_byte_width_3(b) {
        3
    } else if is_leading_byte_width_4(b) {
        4
    } else {
        0
    }
}

/// How many bytes at the end of `p` begin a character whose encoding has
/// not fully arrived.
pub open spec fn utf8_incomplete_tail(p: Seq<u8>) -> int {
    let n = p.len() as int;
    if n >= 1 && lead_width(p[n - 1]) > 1 {
        1
    } else if n >= 2 && is_continuation_byte(p[n - 1]) && lead_width(p[n - 2]) > 2 {
        2
    } else if n >= 3 && is_continuation_byte(p[n - 1]) && is_continuation_byte(p[n - 2])
        && lead_width(p[n - 3]) > 3 {
        3
    } else {
        0
    }
}

/// State of the byte-level decoder: the text held until a blank line closes
/// it, and the bytes of a character not yet complete.
pub type DecoderView = (Seq<char>, Seq<u8>);

/// One received chunk: the bytes up to the last complete character are
/// decoded and added to the text; an incomplete character waits for the next
/// chunk. The next state and the payloads of the events closed.
pub open spec fn chunk_step(s: DecoderView, chunk: Seq<u8>) -> (DecoderView, Seq<Seq<char>>) {
    let p = s.1 + chunk;
    let cut = p.len() - utf8_incomplete_tail(p);
    let r = drain(s.0 + decode_bytes(p.take(cut)));
    ((r.1, p.skip(cut)), r.0)
}

/// The payloads decoded when the stream ends: waiting bytes are decoded as
/// they are, then the held lines.
pub open spec fn end_payloads(s: DecoderView) -> Seq<Seq<char>> {
    let r = drain(s.0 + decode_bytes(s.1));
    r.0 + block_payloads(r.1)
}

/// The bytes of a sequence of chunks, in order.
pub open spec fn concat_chunks(chunks: Seq<Seq<u8>>) -> Seq<u8>
    decreases chunks.len(),
{
    if chunks.len() == 0 {
        Seq::empty()
    } else {
        chunks[0] + concat_chunks(chunks.drop_first())
    }
}

/// Feeds chunks in order: the final state and the payloads closed on the way.
pub open spec fn feed(s: DecoderView, chunks: Seq<Seq<u8>>) -> (DecoderView, Seq<Seq<char>>)
    decreases chunks.len(),
{
    if chunks.len() == 0 {
        (s, Seq::empty())
    } else {
        let r = chunk_step(s, chunks[0]);
        let rest = feed(r.0, chunks.drop_first());
        (rest.0, r.1 + rest.1)
    }
}

/// Every payload of a stream received as the given chunks, up to its end.
pub open spec fn stream_payloads(chunks: Seq<Seq<u8>>) -> Seq<Seq<char>> {
    let r = feed((Seq::empty(), Seq::empty()), chunks);
    r.1 + end_payloads(r.0)
}

/// Every payload of a whole stream of text, up to its end.
pub open spec fn text_payloads(t: Seq<char>) -> Seq<Seq<char>> {
    drain(t).0 + block_payloads(drain(t).1)
}

proof fn lemma_first_scalar_shape(v: Seq<u8>)
    requires
        valid_utf8(v),
        v.len() > 0,
    ensures
        valid_first_scalar(v),
        valid_utf8(pop_first_scalar(v)),
        1 <= length_of_first_scalar(v) <= 4,
        length_of_first_scalar(v) <= v.len(),
        lead_width(v[0]) == length_of_first_scalar(v),
        !is_continuation_byte(v[0]),
        forall|i: int| 1 <= i < length_of_first_scalar(v) ==> is_continuation_byte(#[trigger] v[i]),
        pop_first_scalar(v) == v.skip(length_of_first_scalar(v)),
{
    assert(pop_first_scalar(v) =~= v.skip(length_of_first_scalar(v)));
}

/// Where a prefix of valid UTF-8 is cut, less its incomplete tail, is a
/// character boundary; the tail is empty exactly at a boundary.
proof fn lemma_tail_cut(v: Seq<u8>, m: int)
    requires
        valid_utf8(v),
        0 <= m <= v.len(),
    ensures
        0 <= utf8_incomplete_tail(v.take(m)) <= m,
        is_char_boundary(v, m - utf8_incomplete_tail(v.take(m))),
        utf8_incomplete_tail(v.take(m)) == 0 <==> is_char_boundary(v, m),
    decreases v.len(),
{
    let p = v.take(m);
    if m == 0 {
        return;
    }
    lemma_first_scalar_shape(v);
    let l = length_of_first_scalar(v);
    let rest = pop_first_scalar(v);
    if m <= l {
        assert(is_char_boundary(v, 0));
        if m < l {
            assert(!is_char_boundary(v, m)) by {
                reveal_with_fuel(is_char_boundary, 2);
            }
            if m == 1 {
                assert(p[0] == v[0]);
            } else if m == 2 {
                assert(p[1] == v[1]);
                assert(p[0] == v[0]);
            } else {
                assert(p[2] == v[2]);
                assert(p[1] == v[1]);
                assert(p[0] == v[0]);
            }
        } else {
            assert(is_char_boundary(rest, 0));
            assert(is_char_boundary(v, m));
            assert(p[m - 1] == v[m - 1]);
            if m >= 2 {
                assert(p[m - 2] == v[m - 2]);
            }
            if m >= 3 {
                assert(p[m - 3] == v[m - 3]);
            }
        }
    } else {
        let m2 = m - l;
        lemma_tail_cut(rest, m2);
        let q = rest.take(m2);
        lemma_first_scalar_shape(rest);
        assert(q[m2 - 1] == p[m - 1]);
        assert(rest[0] == v[l]);
        if m2 >= 2 {
            assert(q[m2 - 2] == p[m - 2]);
        } else {
            assert(p[m - 1] == rest[0]);
        }
        if m2 >= 3 {
            assert(q[m2 - 3] == p[m - 3]);
        } else if m2 == 2 {
            assert(p[m - 2] == rest[0]);
        }
        assert(utf8_incomplete_tail(p) == utf8_incomplete_tail(q));
        let t = utf8_incomplete_tail(q);
        if m - t == l {
            assert(is_char_boundary(rest, 0));
        }
    }
}

/// Feeding chunks whose bytes, after what waits, are valid UTF-8 decodes
/// them as the whole text at once.
proof fn lemma_feed_valid(h: Seq<char>, p: Seq<u8>, chunks: Seq<Seq<u8>>)
    requires
        valid_utf8(p + concat_chunks(chunks)),
        boundary_from(h, 0) is None,
        p.len() > 0 ==> chunks.len() > 0,
    ensures
        feed((h, p), chunks).0 == (drain(h + decode_utf8(p + concat_chunks(chunks))).1, Seq::<
            u8,
        >::empty()),
        feed((h, p), chunks).1 == drain(h + decode_utf8(p + concat_chunks(chunks))).0,
    decreases chunks.len(),
{
    let v = p + concat_chunks(chunks);
    if chunks.len() == 0 {
        assert(p =~= Seq::<u8>::empty());
        assert(v =~= Seq::<u8>::empty());
        assert(h + decode_utf8(v) =~= h);
        lemma_boundary_from(h, 0);
        assert(drain(h) == (Seq::<Seq<char>>::empty(), h));
    } else {
        let c = chunks[0];
        let rest = chunks.drop_first();
        let pc = p + c;
        assert(v =~= pc + concat_chunks(rest));
        assert(v.take(pc.len() as int) =~= pc);
        lemma_tail_cut(v, pc.len() as int);
        let cut = pc.len() - utf8_incomplete_tail(pc);
        vstd::utf8::valid_utf8_split(v, cut);
        vstd::utf8::decode_utf8_split(v, cut);
        assert(v.subrange(0, cut) =~= pc.take(cut));
        let tailp = pc.skip(cut);
        assert(v.subrange(cut, v.len() as int) =~= tailp + concat_chunks(rest));
        let s1 = h + decode_utf8(pc.take(cut));
        let r = drain(s1);
        law_held_text_has_no_blank_line(s1);
        if rest.len() == 0 {
            assert(concat_chunks(rest) =~= Seq::<u8>::empty());
            assert(v =~= pc);
            vstd::utf8::is_char_boundary_start_end_of_seq(v);
            assert(tailp =~= Seq::<u8>::empty());
        }
        lemma_feed_valid(r.1, tailp, rest);
        let t = decode_utf8(tailp + concat_chunks(rest));
        lemma_drain_append(s1, t);
        assert(h + decode_utf8(v) =~= s1 + t);
    }
}

/// Law: for a stream whose bytes are valid UTF-8, what the decoder hands on
/// depends only on the bytes, not on where they were cut into chunks, even
/// inside a character: it is what the whole decoded text gives.
pub proof fn law_byte_chunk_boundaries_do_not_matter(chunks: Seq<Seq<u8>>)
    requires
        valid_utf8(concat_chunks(chunks)),
    ensures
        stream_payloads(chunks) == text_payloads(decode_utf8(concat_chunks(chunks))),
{
    let e: Seq<char> = Seq::empty();
    let eb: Seq<u8> = Seq::empty();
    assert(eb + concat_chunks(chunks) =~= concat_chunks(chunks));
    lemma_boundary_from(e, 0);
    lemma_feed_valid(e, eb, chunks);
    let t = decode_utf8(concat_chunks(chunks));
    assert(e + t =~= t);
    let held = drain(t).1;
    law_held_text_has_no_blank_line(t);
    assert(valid_utf8(eb));
    assert(decode_bytes(eb) =~= e);
    assert(held + e =~= held);
    lemma_boundary_from(held, 0);
    assert(drain(held) == (Seq::<Seq<char>>::empty(), held));
    assert(stream_payloads(chunks) =~= text_payloads(t));
}

proof fn lemma_newline_prefix(b: Seq<char>, w: Seq<char>, i: int)
    requires
        0 <= i <= b.len(),
    ensures
        newline_from(b + w, i) == match newline_from(b, i) {
            Some(j) => Some(j),
            None => newline_from(b + w, b.len() as int),
        },
    decreases b.len() - i,
{
    if i < b.len() {
        assert((b + w)[i] == b[i]);
        if b[i] != '\n' {
            lemma_newline_prefix(b, w, i + 1);
        }
    }
}

/// The lines of `b`, a newline, then `z` carry the payloads of the lines of
/// `b` followed by those of `z`, unless `b` ends with a carriage return.
proof fn lemma_lines_join(b: Seq<char>, z: Seq<char>)
    requires
        b.len() == 0 || b.last() != '\r',
    ensures
        payloads_of_lines(lines(b + seq!['\n'] + z)) == payloads_of_lines(lines(b))
            + payloads_of_lines(lines(z)),
    decreases b.len(),
{
    let s = b + seq!['\n'] + z;
    lemma_newline_prefix(b, seq!['\n'] + z, 0);
    assert(s =~= b + (seq!['\n'] + z));
    match newline_from(b, 0) {
        Some(j) => {
            lemma_newline_from(b, 0);
            let b2 = b.skip(j + 1);
            assert(s.take(j) =~= b.take(j));
            assert(s.skip(j + 1) =~= b2 + seq!['\n'] + z);
            if b2.len() > 0 {
                assert(b2.last() == b.last());
            }
            lemma_lines_join(b2, z);
            lemma_payloads_cons(strip_cr(b.take(j)), lines(s.skip(j + 1)));
            lemma_payloads_cons(strip_cr(b.take(j)), lines(b2));
            assert(payloads_of_lines(lines(s)) =~= payloads_of_lines(lines(b))
                + payloads_of_lines(lines(z)));
        },
        None => {
            assert(s[b.len() as int] == '\n');
            assert(newline_from(s, b.len() as int) == Some(b.len() as int));
            assert(s.take(b.len() as int) =~= b);
            assert(s.skip(b.len() as int + 1) =~= z);
            lemma_payloads_cons(strip_cr(b), lines(z));
            if b.len() == 0 {
                assert(line_payload(strip_cr(b)) is None);
                assert(payloads_of_lines(lines(s)) =~= payloads_of_lines(lines(z)));
                assert(payloads_of_lines(lines(b)) =~= Seq::<Seq<char>>::empty());
            } else {
                assert(strip_cr(b) == b);
                assert(lines(b) == seq![b]);
                lemma_payloads_cons(b, Seq::empty());
                assert(lines(Seq::<char>::empty()) =~= Seq::<Seq<char>>::empty());
            }
            assert(payloads_of_lines(lines(s)) =~= payloads_of_lines(lines(b))
                + payloads_of_lines(lines(z)));
        },
    }
}

/// Facts about where `newline_from` points.
proof fn lemma_newline_from(s: Seq<char>, i: int)
    ensures
        newline_from(s, i) matches Some(j) ==> i <= j < s.len() && s[j] == '\n' && forall|k: int|
            i <= k < j ==> s[k] != '\n',
        newline_from(s, i) is None && 0 <= i ==> forall|k: int| i <= k < s.len() ==> s[k] != '\n',
    decreases s.len() - i,
{
    if 0 <= i < s.len() && s[i] != '\n' {
        lemma_newline_from(s, i + 1);
    }
}

/// No blank line of `t` follows a carriage return.
pub open spec fn no_cr_before_blank_line(t: Seq<char>) -> bool {
    forall|i: int| 0 < i && #[trigger] is_boundary_at(t, i) ==> t[i - 1] != '\r'
}

/// Law: a whole stream's payloads are those of its lines, in order: events
/// split at blank lines lose and add nothing. It fails where a blank line
/// follows a carriage return (`"data: x\r\n\n"`), since an event's last line
/// then keeps its carriage return.
pub proof fn law_payloads_are_those_of_the_lines(t: Seq<char>)
    requires
        no_cr_before_blank_line(t),
    ensures
        text_payloads(t) == payloads_of_lines(lines(t)),
    decreases t.len(),
{
    lemma_boundary_from(t, 0);
    match boundary_from(t, 0) {
        Some(p) => {
            let b = t.take(p);
            let r = t.skip(p + 2);
            if p > 0 {
                assert(is_boundary_at(t, p));
                assert(b.last() == t[p - 1]);
            }
            assert(t =~= b + seq!['\n'] + (seq!['\n'] + r));
            lemma_lines_join(b, seq!['\n'] + r);
            let e: Seq<char> = Seq::empty();
            assert(e + seq!['\n'] + r =~= seq!['\n'] + r);
            lemma_lines_join(e, r);
            assert(lines(e) =~= Seq::<Seq<char>>::empty());
            assert(payloads_of_lines(lines(e)) =~= Seq::<Seq<char>>::empty());
            assert forall|i: int| 0 < i && #[trigger] is_boundary_at(r, i) implies r[i - 1] != '\r' by {
                assert(is_boundary_at(t, i + p + 2));
                assert(r[i - 1] == t[i + p + 1]);
            }
            law_payloads_are_those_of_the_lines(r);
            assert(text_payloads(t) =~= block_payloads(b) + text_payloads(r));
            assert(payloads_of_lines(lines(t)) =~= payloads_of_lines(lines(b)) + payloads_of_lines(
                lines(r),
            ));
        },
        None => {
            assert(text_payloads(t) =~= block_payloads(t));
        },
    }
}

/// A copy of `v[lo..hi]`.
fn copy_bytes(v: &Vec<u8>, lo: usize, hi: usize) -> (r: Vec<u8>)
    requires
        lo <= hi <= v@.len(),
    ensures
        r@ == v@.subrange(lo as int, hi as int),
{
    let mut r: Vec<u8> = Vec::new();
    let mut k: usize = lo;
    while k < hi
        invariant
            lo <= k <= hi <= v@.len(),
            r@ == v@.subrange(lo as int, k as int),
        decreases hi - k,
    {
        r.push(v[k]);
        k = k + 1;
        assert(r@ =~= v@.subrange(lo as int, k as int));
    }
    r
}

fn lead_width_of(b: u8) -> (w: usize)
    ensures
        w == lead_width(b),
{
    if b <= 0x7f {
        1
    } else if 0xc0 <= b && b <= 0xdf {
        2
    } else if 0xe0 <= b && b <= 0xef {
        3
    } else if 0xf0 <= b && b <= 0xf7 {
        4
    } else {
        0
    }
}

fn is_continuation(b: u8) -> (c: bool)
    ensures
        c == is_continuation_byte(b),
{
    0x80 <= b && b <= 0xbf
}

/// How many bytes at the end of `p` begin an incomplete character.
fn incomplete_tail(p: &Vec<u8>) -> (t: usize)
    ensures
        t == utf8_incomplete_tail(p@),
{
    let n: usize = p.len();
    if n >= 1 && lead_width_of(p[n - 1]) > 1 {
        1
    } else if n >= 2 && is_continuation(p[n - 1]) && lead_width_of(p[n - 2]) > 2 {
        2
    } else if n >= 3 && is_continuation(p[n - 1]) && is_continuation(p[n - 2]) && lead_width_of(
        p[n - 3],
    ) > 3 {
        3
    } else {
        0
    }
}

/// An incremental decoder of a Server-Sent-Events stream of completion
/// chunks. Its view is the text held until a blank line closes it and the
/// received bytes of a character not yet complete.
pub struct SseDecoder {
    held: Vec<char>,
    pending: Vec<u8>,
}

impl View for SseDecoder {
    type V = DecoderView;

    closed spec fn view(&self) -> DecoderView {
        (self.held@, self.pending@)
    }
}

impl SseDecoder {
    /// A decoder that holds nothing.
    pub fn new() -> (d: SseDecoder)
        ensures
            d@ == (Seq::<char>::empty(), Seq::<u8>::empty()),
            boundary_from(d@.0, 0) is None,
    {
        SseDecoder { held: Vec::new(), pending: Vec::new() }
    }

    fn push_chars(&mut self, more: Vec<char>) -> (out: Vec<String>)
        ensures
            string_views(out@) == drain(old(self)@.0 + more@).0,
            final(self)@ == (drain(old(self)@.0 + more@).1, old(self)@.1),
            boundary_from(final(self)@.0, 0) is None,
    {
        let mut more = more;
        let mut all = copy_range(&self.held, 0, self.held.len());
        let ghost more0 = more@;
        all.append(&mut more);
        assert(all@ =~= old(self)@.0 + more0);
        let mut found: Vec<Vec<char>> = Vec::new();
        let rest = drain_into(&all, &mut found);
        assert(char_views(found@) =~= drain(all@).0);
        self.held = copy_range(&all, rest, all.len());
        proof {
            law_held_text_has_no_blank_line(all@);
        }
        to_strings(&found)
    }

    /// Adds decoded text to the stream and returns the payloads of the
    /// events it closes, in order. Waiting bytes stay as they are.
    pub fn push_text(&mut self, text: &str) -> (out: Vec<String>)
        ensures
            string_views(out@) == drain(old(self)@.0 + text@).0,
            final(self)@ == (drain(old(self)@.0 + text@).1, old(self)@.1),
            boundary_from(final(self)@.0, 0) is None,
    {
        self.push_chars(crate::text::to_chars(text))
    }

    /// Adds a received chunk of bytes and returns the payloads of the events
    /// it closes. The bytes up to the last complete character are decoded;
    /// a character cut at the end of the chunk waits for the next one.
    pub fn push_chunk(&mut self, chunk: &[u8]) -> (out: Vec<String>)
        ensures
            final(self)@ == chunk_step(old(self)@, chunk@).0,
            string_views(out@) == chunk_step(old(self)@, chunk@).1,
            boundary_from(final(self)@.0, 0) is None,
    {
        let mut p = copy_bytes(&self.pending, 0, self.pending.len());
        let mut c: Vec<u8> = Vec::new();
        let mut k: usize = 0;
        while k < chunk.len()
            invariant
                k <= chunk@.len(),
                c@ == chunk@.take(k as int),
            decreases chunk@.len() - k,
        {
            c.push(chunk[k]);
            k = k + 1;
            assert(c@ =~= chunk@.take(k as int));
        }
        assert(chunk@.take(k as int) =~= chunk@);
        p.append(&mut c);
        let ghost pv = p@;
        assert(pv =~= old(self)@.1 + chunk@);
        let t = incomplete_tail(&p);
        let cut: usize = p.len() - t;
        let head = copy_bytes(&p, 0, cut);
        let tail = copy_bytes(&p, cut, p.len());
        assert(head@ =~= pv.take(cut as int));
        assert(tail@ =~= pv.skip(cut as int));
        let text = decode_utf8_lossy(head.as_slice());
        assert(text@ == decode_bytes(head@));
        let out = self.push_chars(crate::text::to_chars(text.as_str()));
        self.pending = tail;
        out
    }

    /// The payloads decoded when the stream ends: waiting bytes are decoded
    /// as they are, then the lines still held.
    pub fn finish(&self) -> (out: Vec<String>)
        ensures
            string_views(out@) == end_payloads(self@),
    {
        let text = decode_utf8_lossy(self.pending.as_slice());
        assert(text@ == decode_bytes(self@.1));
        let mut all = copy_range(&self.held, 0, self.held.len());
        let mut more = crate::text::to_chars(text.as_str());
        all.append(&mut more);
        assert(all@ =~= self@.0 + decode_bytes(self@.1));
        let mut found: Vec<Vec<char>> = Vec::new();
        let rest = drain_into(&all, &mut found);
        push_block_payloads(&all, rest, all.len(), &mut found);
        assert(char_views(found@) =~= end_payloads(self@));
        to_strings(&found)
    }
}

} // verus!
