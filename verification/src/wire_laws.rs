//! What holds of the wire format: where frames end, that reading undoes
//! writing, and that a frame cut short is never mistaken for anything else.

use crate::frame::Error as FrameError;
use crate::Error;
use crate::decimal::{decimal_digits, is_decimal, lemma_digits_value};
use crate::wire::{
    crlf, crlf_at, decimal_at, decode, decode_items, encode, encode_prefix, frame_end,
    frames_end, holds_at, line_at, line_end, next_frame, no_crlf, null_line, wire_safe,
    FrameView, ARRAY, BULK, CR, INTEGER, LF, MINUS, SIMPLE,
};
use vstd::utf8::{encode_utf8, encode_utf8_decode_utf8, encode_utf8_valid_utf8};
use vstd::prelude::*;

verus! {

/// `line_end` finds the first terminator, and nothing else.
pub proof fn lemma_line_end(b: Seq<u8>, from: int)
    requires
        0 <= from,
    ensures
        match line_end(b, from) {
            Some(end) => from <= end && crlf_at(b, end) && forall|j: int|
                from <= j < end ==> !crlf_at(b, j),
            None => forall|j: int| from <= j ==> !crlf_at(b, j),
        },
    decreases b.len() - from,
{
    if from + 1 < b.len() && !(b[from] == CR && b[from + 1] == LF) {
        lemma_line_end(b, from + 1);
    }
}

/// A frame is never empty and never reaches past the bytes.
pub proof fn lemma_frame_end_bounds(b: Seq<u8>, pos: int)
    ensures
        frame_end(b, pos) matches Ok(end) ==> 0 <= pos < end <= b.len(),
    decreases b.len() - pos, 0nat,
{
    if 0 <= pos < b.len() {
        lemma_line_end(b, pos + 1);
        if b[pos] == ARRAY {
            if let Ok((count, next)) = decimal_at(b, pos + 1) {
                lemma_frames_end_bounds(b, next, count as nat);
            }
        }
    }
}

/// A run of frames ends at or after its start, within the bytes.
pub proof fn lemma_frames_end_bounds(b: Seq<u8>, pos: int, count: nat)
    requires
        0 <= pos <= b.len(),
    ensures
        frames_end(b, pos, count) matches Ok(end) ==> pos <= end <= b.len() && (count > 0 ==> pos
            < end),
    decreases b.len() - pos, count + 1,
{
    if count > 0 {
        lemma_frame_end_bounds(b, pos);
        if let Ok(next) = frame_end(b, pos) {
            lemma_frames_end_bounds(b, next, (count - 1) as nat);
        }
    }
}

/// A decoded frame is never empty and never reaches past the bytes.
pub proof fn lemma_decode_bounds(b: Seq<u8>, pos: int)
    ensures
        decode(b, pos) matches Ok((_, end)) ==> 0 <= pos < end <= b.len(),
    decreases b.len() - pos, 0nat,
{
    if 0 <= pos < b.len() {
        lemma_line_end(b, pos + 1);
        if b[pos] == ARRAY {
            if let Ok((count, next)) = decimal_at(b, pos + 1) {
                lemma_decode_items_bounds(b, next, count as nat, Seq::empty());
            }
        }
    }
}

/// A run of decoded frames ends at or after its start, within the bytes.
pub proof fn lemma_decode_items_bounds(b: Seq<u8>, pos: int, count: nat, done: Seq<FrameView>)
    requires
        0 <= pos <= b.len(),
    ensures
        decode_items(b, pos, count, done) matches Ok((items, end)) ==> pos <= end <= b.len()
            && items.len() == done.len() + count,
    decreases b.len() - pos, count + 1,
{
    if count > 0 {
        lemma_decode_bounds(b, pos);
        if let Ok((item, next)) = decode(b, pos) {
            lemma_decode_items_bounds(b, next, (count - 1) as nat, done.push(item));
        }
    }
}

/// A line that lies within the first `k` bytes is read the same from those
/// bytes alone.
pub proof fn lemma_line_kept(b: Seq<u8>, from: int, k: int)
    requires
        0 <= from,
        k <= b.len(),
        line_end(b, from) matches Some(e) && e + 2 <= k,
    ensures
        line_at(b.take(k), from) == line_at(b, from),
{
    let t = b.take(k);
    let e = line_end(b, from)->0;
    lemma_line_end(b, from);
    lemma_line_end(t, from);
    assert(crlf_at(t, e));
    if let Some(e2) = line_end(t, from) {
        assert(crlf_at(b, e2));
    }
    assert(t.subrange(from, e) =~= b.subrange(from, e));
}

/// A line whose terminator does not lie within the first `k` bytes is not
/// closed in those bytes.
pub proof fn lemma_line_cut(b: Seq<u8>, from: int, k: int)
    requires
        0 <= from,
        0 <= k <= b.len(),
        line_end(b, from) matches Some(e) && k < e + 2,
    ensures
        line_end(b.take(k), from) is None,
{
    let t = b.take(k);
    lemma_line_end(b, from);
    lemma_line_end(t, from);
    if let Some(e2) = line_end(t, from) {
        assert(crlf_at(b, e2));
    }
}

/// Bytes behind a frame do not change where it ends.
pub proof fn lemma_frame_end_kept(b: Seq<u8>, pos: int, k: int)
    requires
        k <= b.len(),
        frame_end(b, pos) matches Ok(end) && end <= k,
    ensures
        frame_end(b.take(k), pos) == frame_end(b, pos),
    decreases b.len() - pos, 0nat,
{
    lemma_frame_end_bounds(b, pos);
    lemma_line_end(b, pos + 1);
    if b[pos] == SIMPLE || b[pos] == MINUS || b[pos] == INTEGER || b[pos] == BULK {
        lemma_line_kept(b, pos + 1, k);
    } else if b[pos] == ARRAY {
        let (count, next) = decimal_at(b, pos + 1)->Ok_0;
        lemma_frames_end_bounds(b, next, count as nat);
        lemma_line_kept(b, pos + 1, k);
        lemma_frames_end_kept(b, next, count as nat, k);
    }
}

/// Bytes behind a run of frames do not change where it ends.
pub proof fn lemma_frames_end_kept(b: Seq<u8>, pos: int, count: nat, k: int)
    requires
        0 <= pos,
        k <= b.len(),
        frames_end(b, pos, count) matches Ok(end) && end <= k,
    ensures
        frames_end(b.take(k), pos, count) == frames_end(b, pos, count),
    decreases b.len() - pos, count + 1,
{
    if count > 0 {
        lemma_frame_end_bounds(b, pos);
        let next = frame_end(b, pos)->Ok_0;
        lemma_frames_end_bounds(b, next, (count - 1) as nat);
        lemma_frame_end_kept(b, pos, k);
        lemma_frames_end_kept(b, next, (count - 1) as nat, k);
    }
}

/// A frame of which only a proper prefix has arrived is incomplete: it is
/// never taken for a shorter frame, nor for a malformed one.
pub proof fn lemma_frame_end_cut(b: Seq<u8>, pos: int, k: int)
    requires
        0 <= k,
        frame_end(b, pos) matches Ok(end) && k < end,
    ensures
        frame_end(b.take(k), pos) == Err::<int, FrameError>(FrameError::Incomplete),
    decreases b.len() - pos, 0nat,
{
    lemma_frame_end_bounds(b, pos);
    lemma_line_end(b, pos + 1);
    if k > pos {
        if b[pos] == SIMPLE || b[pos] == MINUS || b[pos] == INTEGER {
            lemma_line_cut(b, pos + 1, k);
        } else if b[pos] == BULK {
            if k > pos + 1 {
                if b[pos + 1] == MINUS {
                    lemma_line_cut(b, pos + 1, k);
                } else {
                    let (_, next) = decimal_at(b, pos + 1)->Ok_0;
                    if k < next {
                        lemma_line_cut(b, pos + 1, k);
                    } else {
                        lemma_line_kept(b, pos + 1, k);
                    }
                }
            }
        } else if b[pos] == ARRAY {
            let (count, next) = decimal_at(b, pos + 1)->Ok_0;
            if k < next {
                lemma_line_cut(b, pos + 1, k);
            } else {
                lemma_line_kept(b, pos + 1, k);
                lemma_frames_end_bounds(b, next, count as nat);
                lemma_frames_end_cut(b, next, count as nat, k);
            }
        }
    }
}

/// A run of frames of which only a proper prefix has arrived is incomplete.
pub proof fn lemma_frames_end_cut(b: Seq<u8>, pos: int, count: nat, k: int)
    requires
        0 <= pos <= k <= b.len(),
        frames_end(b, pos, count) matches Ok(end) && k < end,
    ensures
        frames_end(b.take(k), pos, count) == Err::<int, FrameError>(FrameError::Incomplete),
    decreases b.len() - pos, count + 1,
{
    if count > 0 {
        lemma_frame_end_bounds(b, pos);
        let next = frame_end(b, pos)->Ok_0;
        if k < next {
            lemma_frame_end_cut(b, pos, k);
        } else {
            lemma_frame_end_kept(b, pos, k);
            lemma_frames_end_cut(b, next, (count - 1) as nat, k);
        }
    }
}

/// Where two runs of bytes stand one after the other, each stands in its
/// place.
pub proof fn lemma_holds_split(b: Seq<u8>, pos: int, x: Seq<u8>, y: Seq<u8>)
    requires
        holds_at(b, pos, x + y),
    ensures
        holds_at(b, pos, x),
        holds_at(b, pos + x.len(), y),
{
    let whole = b.subrange(pos, pos + (x + y).len());
    assert(b.subrange(pos, pos + x.len()) =~= whole.subrange(0, x.len() as int));
    assert(whole.subrange(0, x.len() as int) =~= x);
    assert(b.subrange(pos + x.len(), pos + x.len() + y.len()) =~= whole.subrange(
        x.len() as int,
        (x + y).len() as int,
    ));
    assert(whole.subrange(x.len() as int, (x + y).len() as int) =~= y);
}

/// A line without a terminator inside, followed by a terminator, is read
/// as that line.
pub proof fn lemma_line_found(b: Seq<u8>, pos: int, line: Seq<u8>)
    requires
        holds_at(b, pos, line + crlf()),
        no_crlf(line),
    ensures
        line_at(b, pos) == Ok::<(Seq<u8>, int), FrameError>((line, pos + line.len() + 2)),
{
    lemma_holds_split(b, pos, line, crlf());
    let e = pos + line.len();
    assert(crlf_at(b, e));
    lemma_line_end(b, pos);
    if let Some(e2) = line_end(b, pos) {
        if e2 + 1 < e {
            assert(crlf_at(line, e2 - pos));
        }
    }
}

/// A number written in decimal, followed by a terminator, is read as that
/// number.
pub proof fn lemma_decimal_found(b: Seq<u8>, pos: int, n: nat)
    requires
        n <= u64::MAX,
        holds_at(b, pos, decimal_digits(n) + crlf()),
    ensures
        decimal_at(b, pos) == Ok::<(u64, int), FrameError>(
            (n as u64, pos + decimal_digits(n).len() + 2),
        ),
        is_decimal(decimal_digits(n)),
{
    lemma_digits_value(n);
    lemma_line_found(b, pos, decimal_digits(n));
}

/// Within a run of encoded frames stand each shorter run and the frame
/// that follows it.
pub proof fn lemma_prefix_holds(items: Seq<FrameView>, m: nat, b: Seq<u8>, start: int)
    requires
        m <= items.len(),
        holds_at(b, start, encode_prefix(items, items.len())),
    ensures
        holds_at(b, start, encode_prefix(items, m)),
        m < items.len() ==> holds_at(
            b,
            start + encode_prefix(items, m).len(),
            encode(items[m as int]),
        ),
        m < items.len() ==> encode_prefix(items, m + 1) == encode_prefix(items, m) + encode(
            items[m as int],
        ),
    decreases items.len() - m,
{
    if m < items.len() {
        lemma_prefix_holds(items, m + 1, b, start);
        lemma_holds_split(b, start, encode_prefix(items, m), encode(items[m as int]));
    }
}

/// Reading undoes writing, wherever the written frame stands.
pub proof fn lemma_roundtrip_at(f: FrameView, b: Seq<u8>, pos: int)
    requires
        wire_safe(f),
        holds_at(b, pos, encode(f)),
    ensures
        decode(b, pos) == Ok::<(FrameView, int), FrameError>((f, pos + encode(f).len())),
        frame_end(b, pos) == Ok::<int, FrameError>(pos + encode(f).len()),
    decreases f, 0nat,
{
    match f {
        FrameView::Simple(s) => {
            let u = encode_utf8(s);
            assert(encode(f) =~= seq![SIMPLE] + (u + crlf()));
            lemma_holds_split(b, pos, seq![SIMPLE], u + crlf());
            assert(b[pos] == b.subrange(pos, pos + 1)[0]);
            lemma_line_found(b, pos + 1, u);
            encode_utf8_valid_utf8(s);
            encode_utf8_decode_utf8(s);
        },
        FrameView::Error(s) => {
            let u = encode_utf8(s);
            assert(encode(f) =~= seq![MINUS] + (u + crlf()));
            lemma_holds_split(b, pos, seq![MINUS], u + crlf());
            assert(b[pos] == b.subrange(pos, pos + 1)[0]);
            lemma_line_found(b, pos + 1, u);
            encode_utf8_valid_utf8(s);
            encode_utf8_decode_utf8(s);
        },
        FrameView::Integer(n) => {
            let d = decimal_digits(n as nat);
            assert(encode(f) =~= seq![INTEGER] + (d + crlf()));
            lemma_holds_split(b, pos, seq![INTEGER], d + crlf());
            assert(b[pos] == b.subrange(pos, pos + 1)[0]);
            lemma_decimal_found(b, pos + 1, n as nat);
        },
        FrameView::Bulk(data) => {
            let d = decimal_digits(data.len());
            assert(encode(f) =~= seq![BULK] + ((d + crlf()) + (data + crlf())));
            lemma_holds_split(b, pos, seq![BULK], (d + crlf()) + (data + crlf()));
            assert(b[pos] == b.subrange(pos, pos + 1)[0]);
            lemma_holds_split(b, pos + 1, d + crlf(), data + crlf());
            lemma_decimal_found(b, pos + 1, data.len());
            lemma_holds_split(b, pos + 1, d, crlf());
            lemma_holds_split(b, pos + 1 + d.len() + 2, data, crlf());
        },
        FrameView::Null => {
            assert(encode(f) =~= seq![BULK] + (null_line() + crlf()));
            lemma_holds_split(b, pos, seq![BULK], null_line() + crlf());
            lemma_holds_split(b, pos + 1, null_line(), crlf());
            lemma_line_found(b, pos + 1, null_line());
        },
        FrameView::Array(items) => {
            let d = decimal_digits(items.len());
            let body = encode_prefix(items, items.len());
            assert(encode(f) =~= seq![ARRAY] + ((d + crlf()) + body));
            lemma_holds_split(b, pos, seq![ARRAY], (d + crlf()) + body);
            assert(b[pos] == b.subrange(pos, pos + 1)[0]);
            lemma_holds_split(b, pos + 1, d + crlf(), body);
            lemma_decimal_found(b, pos + 1, items.len());
            let next = pos + 1 + d.len() + 2;
            lemma_roundtrip_items(items, 0, b, next);
            assert(items.take(0) =~= Seq::<FrameView>::empty());
        },
    }
}

/// Reading undoes writing for a run of frames, from the `n`-th on.
pub proof fn lemma_roundtrip_items(items: Seq<FrameView>, n: nat, b: Seq<u8>, start: int)
    requires
        n <= items.len(),
        forall|i: int| 0 <= i < items.len() ==> wire_safe(#[trigger] items[i]),
        holds_at(b, start, encode_prefix(items, items.len())),
    ensures
        decode_items(
            b,
            start + encode_prefix(items, n).len(),
            (items.len() - n) as nat,
            items.take(n as int),
        ) == Ok::<(Seq<FrameView>, int), FrameError>(
            (items, start + encode_prefix(items, items.len()).len()),
        ),
        frames_end(b, start + encode_prefix(items, n).len(), (items.len() - n) as nat) == Ok::<
            int,
            FrameError,
        >(start + encode_prefix(items, items.len()).len()),
    decreases items, items.len() - n,
{
    if n < items.len() {
        let at = start + encode_prefix(items, n).len();
        lemma_prefix_holds(items, n, b, start);
        lemma_roundtrip_at(items[n as int], b, at);
        lemma_decode_bounds(b, at);
        lemma_roundtrip_items(items, n + 1, b, start);
        assert(items.take(n as int).push(items[n as int]) =~= items.take((n + 1) as int));
    } else {
        assert(items.take(n as int) =~= items);
    }
}

/// Reading undoes writing: a frame that was written is read back as itself,
/// and the reader stops right behind it.
pub proof fn lemma_decode_encode(f: FrameView)
    requires
        wire_safe(f),
    ensures
        decode(encode(f), 0) == Ok::<(FrameView, int), FrameError>((f, encode(f).len() as int)),
        frame_end(encode(f), 0) == Ok::<int, FrameError>(encode(f).len() as int),
{
    let e = encode(f);
    assert(e.subrange(0, e.len() as int) =~= e);
    lemma_roundtrip_at(f, e, 0);
}

/// A written frame that arrives in two pieces, cut at any index, is
/// incomplete after the first piece and is read back as itself once the
/// second has arrived.
pub proof fn lemma_split_read(f: FrameView, k: int)
    requires
        wire_safe(f),
        0 <= k < encode(f).len(),
    ensures
        frame_end(encode(f).take(k), 0) == Err::<int, FrameError>(FrameError::Incomplete),
        encode(f).take(k) + encode(f).skip(k) == encode(f),
        decode(encode(f).take(k) + encode(f).skip(k), 0) == Ok::<(FrameView, int), FrameError>(
            (f, encode(f).len() as int),
        ),
        next_frame(encode(f).take(k)) == Ok::<Option<(FrameView, int)>, Error>(None),
        next_frame(encode(f).take(k) + encode(f).skip(k)) == Ok::<Option<(FrameView, int)>, Error>(
            Some((f, encode(f).len() as int)),
        ),
{
    lemma_decode_encode(f);
    lemma_frame_end_cut(encode(f), 0, k);
    assert(encode(f).take(k) + encode(f).skip(k) =~= encode(f));
}

/// Where the framing is sound, reading the frame stops where the framing
/// says, unless a line in it is not UTF-8.
pub proof fn lemma_decode_follows(b: Seq<u8>, pos: int)
    requires
        frame_end(b, pos) is Ok,
    ensures
        match decode(b, pos) {
            Ok((_, end)) => frame_end(b, pos) == Ok::<int, FrameError>(end),
            Err(e) => e == FrameError::Other(Error::InvalidText),
        },
    decreases b.len() - pos, 0nat,
{
    lemma_frame_end_bounds(b, pos);
    lemma_line_end(b, pos + 1);
    if b[pos] == ARRAY {
        let (count, next) = decimal_at(b, pos + 1)->Ok_0;
        lemma_decode_items_follows(b, next, count as nat, Seq::empty());
    }
}

/// The same for a run of frames.
pub proof fn lemma_decode_items_follows(b: Seq<u8>, pos: int, count: nat, done: Seq<FrameView>)
    requires
        0 <= pos <= b.len(),
        frames_end(b, pos, count) is Ok,
    ensures
        match decode_items(b, pos, count, done) {
            Ok((_, end)) => frames_end(b, pos, count) == Ok::<int, FrameError>(end),
            Err(e) => e == FrameError::Other(Error::InvalidText),
        },
    decreases b.len() - pos, count + 1,
{
    if count > 0 {
        lemma_frame_end_bounds(b, pos);
        lemma_decode_follows(b, pos);
        if let Ok((item, next)) = decode(b, pos) {
            lemma_decode_items_follows(b, next, (count - 1) as nat, done.push(item));
        }
    }
}

/// Whether an error is one that the framing can raise.
pub open spec fn is_framing_error(e: FrameError) -> bool {
    match e {
        FrameError::Incomplete => true,
        FrameError::Other(Error::InvalidFrameFormat) => true,
        FrameError::Other(Error::InvalidFrameType(_)) => true,
        _ => false,
    }
}

/// The framing fails in three ways only: the bytes stop early, a line is
/// not what it has to be, or a frame starts with an unknown byte.
pub proof fn lemma_frame_end_errors(b: Seq<u8>, pos: int)
    ensures
        frame_end(b, pos) matches Err(e) ==> is_framing_error(e),
    decreases b.len() - pos, 0nat,
{
    if 0 <= pos < b.len() && b[pos] == ARRAY {
        if let Ok((count, next)) = decimal_at(b, pos + 1) {
            if pos < next <= b.len() {
                lemma_frames_end_errors(b, next, count as nat);
            }
        }
    }
}

/// The same for a run of frames.
pub proof fn lemma_frames_end_errors(b: Seq<u8>, pos: int, count: nat)
    ensures
        frames_end(b, pos, count) matches Err(e) ==> is_framing_error(e),
    decreases b.len() - pos, count + 1,
{
    if count > 0 {
        lemma_frame_end_errors(b, pos);
        if let Ok(next) = frame_end(b, pos) {
            if pos < next <= b.len() {
                lemma_frames_end_errors(b, next, (count - 1) as nat);
            }
        }
    }
}

/// What a connection reads from its buffer takes at least one byte and no
/// more than the buffer holds, it is the frame that stands there, and it
/// fails only on bytes that are no frame.
pub proof fn lemma_next_frame(b: Seq<u8>)
    ensures
        match next_frame(b) {
            Ok(Some((frame, end))) => 0 < end <= b.len() && decode(b, 0) == Ok::<
                (FrameView, int),
                FrameError,
            >((frame, end)),
            Ok(None) => frame_end(b, 0) == Err::<int, FrameError>(FrameError::Incomplete),
            Err(e) => e == Error::InvalidFrameFormat || e == Error::InvalidText
                || e matches Error::InvalidFrameType(_),
        },
{
    lemma_frame_end_bounds(b, 0);
    lemma_frame_end_errors(b, 0);
    if frame_end(b, 0) is Ok {
        lemma_decode_follows(b, 0);
    }
}

} // verus!
