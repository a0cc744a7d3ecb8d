//! From bytes, which may stop short of a whole frame, to a frame and the
//! number of bytes that it took.
use vstd::prelude::*;
use vstd::slice::{slice_subrange, slice_to_vec};
use vstd::utf8::{decode_utf8, valid_utf8};
use crate::resp::container::{collect_entries, collect_items};
use crate::resp::double::parse_double;
use crate::resp::encode::{absent_text, boolean_text};
use crate::resp::error::{
    invalid, invalid_length, invalid_type, reported_length, RespError, RespErrorView, MSG_BOOLEAN,
    MSG_DEPTH, MSG_EXPECT_NULL, MSG_INTEGER, MSG_LENGTH, MSG_NEGATIVE_LENGTH, MSG_TEXT,
    MSG_UNKNOWN_TYPE,
};
use crate::resp::frame::{
    frames_view, Double, FrameView, NullArray, NullBulkString, RespFrame, RespMap, RespNull,
    RespSet, SimpleError, SimpleString, TAG_ARRAY, TAG_BOOLEAN, TAG_BULK_STRING, TAG_DOUBLE,
    TAG_ERROR, TAG_INTEGER, TAG_MAP, TAG_NULL, TAG_SET, TAG_SIMPLE_STRING,
};
use crate::resp::wire::{
    crlf_at, decimal_in, find_crlf, first_crlf, lemma_first_crlf_from, parse_decimal,
    parse_integer, parse_integer_text, CR, DIGIT_ONE, LETTER_F, LETTER_T, LF, MINUS,
};
use crate::text::string_from_utf8;

verus! {

/// Whether a frame whose payload is one line begins with `tag`.
pub open spec fn is_line_tag(tag: u8) -> bool {
    tag == TAG_SIMPLE_STRING || tag == TAG_ERROR || tag == TAG_INTEGER || tag == TAG_BOOLEAN || tag
        == TAG_DOUBLE
}

/// Whether a frame that opens with a length or a count begins with `tag`.
pub open spec fn is_header_tag(tag: u8) -> bool {
    tag == TAG_BULK_STRING || tag == TAG_ARRAY || tag == TAG_MAP || tag == TAG_SET
}

/// What the bytes after the tag `_` decide, as far as they go.
pub open spec fn decode_null(buf: Seq<u8>) -> Result<(FrameView, int), RespErrorView> {
    if buf.len() >= 2 && buf[1] != CR {
        Err(RespErrorView::InvalidFrameType(MSG_EXPECT_NULL@))
    } else if buf.len() >= 3 && buf[2] != LF {
        Err(RespErrorView::InvalidFrameType(MSG_EXPECT_NULL@))
    } else if buf.len() < 3 {
        Err(RespErrorView::NotComplete)
    } else {
        Ok((FrameView::Null, 3))
    }
}

/// The frame that one line under `tag` holds.
pub open spec fn decode_line(tag: u8, payload: Seq<u8>) -> Result<FrameView, RespErrorView> {
    if tag == TAG_SIMPLE_STRING {
        if valid_utf8(payload) {
            Ok(FrameView::SimpleString(decode_utf8(payload)))
        } else {
            Err(RespErrorView::InvalidFrame(MSG_TEXT@))
        }
    } else if tag == TAG_ERROR {
        if valid_utf8(payload) {
            Ok(FrameView::Error(decode_utf8(payload)))
        } else {
            Err(RespErrorView::InvalidFrame(MSG_TEXT@))
        }
    } else if tag == TAG_INTEGER {
        match parse_integer(payload) {
            Some(v) => Ok(FrameView::Integer(v)),
            None => Err(RespErrorView::InvalidFrame(MSG_INTEGER@)),
        }
    } else if tag == TAG_BOOLEAN {
        if payload == boolean_text(true) {
            Ok(FrameView::Boolean(true))
        } else if payload == boolean_text(false) {
            Ok(FrameView::Boolean(false))
        } else {
            Err(RespErrorView::InvalidFrame(MSG_BOOLEAN@))
        }
    } else {
        Ok(FrameView::Double(parse_double(payload)))
    }
}

/// What a header declares: nothing, where it reads `-1` and the tag has an
/// absent form, or a length or count that this machine can hold.
pub open spec fn parse_header(payload: Seq<u8>, nullable: bool) -> Result<
    Option<nat>,
    RespErrorView,
> {
    if nullable && payload == absent_text() {
        Ok(None)
    } else if payload.len() > 0 && payload[0] == MINUS {
        Err(RespErrorView::InvalidFrameType(MSG_NEGATIVE_LENGTH@))
    } else {
        match decimal_in(payload, usize::MAX as nat) {
            Some(n) => Ok(Some(n)),
            None => Err(RespErrorView::InvalidFrame(MSG_LENGTH@)),
        }
    }
}

/// The bulk string of declared length `n` that `body`, the bytes behind the
/// header, begins with, and the number of bytes of `body` that it takes.
pub open spec fn decode_bulk(body: Seq<u8>, n: nat) -> Result<(FrameView, int), RespErrorView> {
    if body.len() < n + 2 {
        Err(RespErrorView::NotComplete)
    } else if body[n as int] != CR || body[n as int + 1] != LF {
        Err(RespErrorView::InvalidFrameLength(reported_length(n)))
    } else {
        Ok((FrameView::BulkString(body.take(n as int)), n as int + 2))
    }
}

/// What stands behind a header that declares `n`, and the number of bytes
/// of `body`, the bytes behind the header, that it takes: under `$` the bulk
/// string of `n` bytes, under the other tags the container of `n` frames or
/// entries, whose own containers may nest `depth - 1` deep.
pub open spec fn decode_declared(tag: u8, n: nat, body: Seq<u8>, depth: nat) -> Result<
    (FrameView, int),
    RespErrorView,
>
    decreases depth, 0nat,
{
    if tag == TAG_BULK_STRING {
        decode_bulk(body, n)
    } else if depth == 0 {
        Err(RespErrorView::InvalidFrame(MSG_DEPTH@))
    } else if tag == TAG_MAP {
        match decode_entries(body, n, (depth - 1) as nat) {
            Ok((entries, used)) => Ok((FrameView::RespMap(collect_entries(entries)), used)),
            Err(e) => Err(e),
        }
    } else {
        match decode_all(body, n, (depth - 1) as nat) {
            Ok((items, used)) => Ok(
                (
                    if tag == TAG_ARRAY {
                        FrameView::Array(items)
                    } else {
                        FrameView::RespSet(collect_items(items))
                    },
                    used,
                ),
            ),
            Err(e) => Err(e),
        }
    }
}

/// What the line that ends at `end` opens: `payload` is the line without
/// its tag, `body` the bytes behind the line.
pub open spec fn decode_headed(
    tag: u8,
    payload: Seq<u8>,
    body: Seq<u8>,
    end: int,
    depth: nat,
) -> Result<
    (FrameView, int),
    RespErrorView,
>
    decreases depth, 1nat,
{
    if is_line_tag(tag) {
        match decode_line(tag, payload) {
            Ok(frame) => Ok((frame, end + 2)),
            Err(e) => Err(e),
        }
    } else {
        match parse_header(payload, tag == TAG_BULK_STRING || tag == TAG_ARRAY) {
            Err(e) => Err(e),
            Ok(None) => if tag == TAG_BULK_STRING {
                Ok((FrameView::NullBulkString, end + 2))
            } else {
                Ok((FrameView::NullArray, end + 2))
            },
            Ok(Some(n)) => match decode_declared(tag, n, body, depth) {
                Ok((frame, used)) => Ok((frame, end + 2 + used)),
                Err(e) => Err(e),
            },
        }
    }
}

/// The frame that `buf` begins with and the number of bytes that it takes, or
/// why there is none. Containers may nest `depth` deep.
pub open spec fn decode_view(buf: Seq<u8>, depth: nat) -> Result<(FrameView, int), RespErrorView>
    decreases depth, 2nat,
{
    if buf.len() == 0 {
        Err(RespErrorView::NotComplete)
    } else if buf[0] == TAG_NULL {
        decode_null(buf)
    } else if !is_line_tag(buf[0]) && !is_header_tag(buf[0]) {
        Err(RespErrorView::InvalidFrameType(MSG_UNKNOWN_TYPE@))
    } else {
        match first_crlf(buf) {
            None => Err(RespErrorView::NotComplete),
            Some(end) => decode_headed(buf[0], buf.subrange(1, end), buf.skip(end + 2), end, depth),
        }
    }
}

/// The `count` frames that `buf` begins with, and the number of bytes that
/// they take together; the first failure among them otherwise.
pub open spec fn decode_all(buf: Seq<u8>, count: nat, depth: nat) -> Result<
    (Seq<FrameView>, int),
    RespErrorView,
>
    decreases depth, count + 3,
{
    if count == 0 {
        Ok((Seq::empty(), 0))
    } else {
        match decode_view(buf, depth) {
            Err(e) => Err(e),
            Ok((first, used)) => match decode_all(buf.skip(used), (count - 1) as nat, depth) {
                Err(e) => Err(e),
                Ok((rest, more)) => Ok((seq![first] + rest, used + more)),
            },
        }
    }
}

/// The `count` entries, each a key and then a value, that `buf` begins with,
/// and the number of bytes that they take together; the first failure among
/// them otherwise.
pub open spec fn decode_entries(buf: Seq<u8>, count: nat, depth: nat) -> Result<
    (Seq<(FrameView, FrameView)>, int),
    RespErrorView,
>
    decreases depth, count + 3,
{
    if count == 0 {
        Ok((Seq::empty(), 0))
    } else {
        match decode_view(buf, depth) {
            Err(e) => Err(e),
            Ok((key, used)) => match decode_view(buf.skip(used), depth) {
                Err(e) => Err(e),
                Ok((value, more)) => match decode_entries(
                    buf.skip(used + more),
                    (count - 1) as nat,
                    depth,
                ) {
                    Err(e) => Err(e),
                    Ok((rest, further)) => Ok((seq![(key, value)] + rest, used + more + further)),
                },
            },
        }
    }
}

/// Decodes the typed null at the head of `buf`.
fn decode_null_frame(buf: &[u8]) -> (r: Result<(RespFrame, usize), RespError>)
    requires
        buf@.len() > 0,
    ensures
        match r {
            Ok((frame, used)) => decode_null(buf@) == Ok::<(FrameView, int), RespErrorView>(
                (frame@, used as int),
            ) && used <= buf@.len(),
            Err(e) => decode_null(buf@) == Err::<(FrameView, int), RespErrorView>(e@),
        },
{
    let len: usize = buf.len();
    if len >= 2 && buf[1] != CR {
        return Err(invalid_type(MSG_EXPECT_NULL));
    }
    if len >= 3 && buf[2] != LF {
        return Err(invalid_type(MSG_EXPECT_NULL));
    }
    if len < 3 {
        return Err(RespError::NotComplete);
    }
    Ok((RespFrame::Null(RespNull), 3))
}

/// Decodes the payload of one line under `tag`.
fn decode_line_frame(tag: u8, payload: &[u8]) -> (r: Result<RespFrame, RespError>)
    requires
        is_line_tag(tag),
    ensures
        match r {
            Ok(frame) => decode_line(tag, payload@) == Ok::<FrameView, RespErrorView>(frame@),
            Err(e) => decode_line(tag, payload@) == Err::<FrameView, RespErrorView>(e@),
        },
{
    if tag == TAG_SIMPLE_STRING || tag == TAG_ERROR {
        match string_from_utf8(slice_to_vec(payload)) {
            Some(text) => {
                proof {
                    vstd::utf8::encode_utf8_decode_utf8(text@);
                }
                if tag == TAG_SIMPLE_STRING {
                    Ok(RespFrame::SimpleString(SimpleString(text)))
                } else {
                    Ok(RespFrame::Error(SimpleError(text)))
                }
            },
            None => Err(invalid(MSG_TEXT)),
        }
    } else if tag == TAG_INTEGER {
        match parse_integer_text(payload) {
            Some(v) => Ok(RespFrame::Integer(v)),
            None => Err(invalid(MSG_INTEGER)),
        }
    } else if tag == TAG_BOOLEAN {
        if payload.len() == 1 && payload[0] == LETTER_T {
            assert(payload@ =~= boolean_text(true));
            Ok(RespFrame::Boolean(true))
        } else if payload.len() == 1 && payload[0] == LETTER_F {
            assert(payload@ =~= boolean_text(false));
            Ok(RespFrame::Boolean(false))
        } else {
            assert(payload@ != boolean_text(true)) by {
                if payload@ == boolean_text(true) {
                    assert(boolean_text(true).len() == 1 && boolean_text(true)[0] == LETTER_T);
                }
            }
            assert(payload@ != boolean_text(false)) by {
                if payload@ == boolean_text(false) {
                    assert(boolean_text(false).len() == 1 && boolean_text(false)[0] == LETTER_F);
                }
            }
            Err(invalid(MSG_BOOLEAN))
        }
    } else {
        Ok(RespFrame::Double(Double::parse_text(payload)))
    }
}

/// Reads the payload of a header line.
fn parse_header_text(payload: &[u8], nullable: bool) -> (r: Result<Option<usize>, RespError>)
    ensures
        match r {
            Ok(Some(n)) => parse_header(payload@, nullable) == Ok::<Option<nat>, RespErrorView>(
                Some(n as nat),
            ),
            Ok(None) => parse_header(payload@, nullable) == Ok::<Option<nat>, RespErrorView>(None),
            Err(e) => parse_header(payload@, nullable) == Err::<Option<nat>, RespErrorView>(e@),
        },
{
    let len: usize = payload.len();
    if nullable && len == 2 && payload[0] == MINUS && payload[1] == DIGIT_ONE {
        assert(payload@ =~= absent_text());
        return Ok(None);
    }
    assert(nullable ==> payload@ != absent_text()) by {
        if payload@ == absent_text() {
            assert(absent_text().len() == 2 && absent_text()[0] == MINUS
                && absent_text()[1] == DIGIT_ONE);
        }
    }
    if len > 0 && payload[0] == MINUS {
        return Err(invalid_type(MSG_NEGATIVE_LENGTH));
    }
    match parse_decimal(payload, usize::MAX as u64) {
        Some(n) => Ok(Some(n as usize)),
        None => Err(invalid(MSG_LENGTH)),
    }
}

/// Decodes the bulk string of declared length `n` at the head of `body`.
fn decode_bulk_frame(body: &[u8], n: usize) -> (r: Result<(RespFrame, usize), RespError>)
    ensures
        match r {
            Ok((frame, used)) => decode_bulk(body@, n as nat) == Ok::<
                (FrameView, int),
                RespErrorView,
            >((frame@, used as int)) && used <= body@.len(),
            Err(e) => decode_bulk(body@, n as nat) == Err::<(FrameView, int), RespErrorView>(e@),
        },
{
    let len: usize = body.len();
    if len < 2 || len - 2 < n {
        return Err(RespError::NotComplete);
    }
    if body[n] != CR || body[n + 1] != LF {
        return Err(invalid_length(n));
    }
    let data: Vec<u8> = slice_to_vec(slice_subrange(body, 0, n));
    assert(data@ =~= body@.take(n as int));
    Ok((RespFrame::BulkString(data), n + 2))
}

/// Decodes the frame at the head of `buf`, whose containers may nest `depth`
/// deep, and says how many bytes it took. `NotComplete` asks for more bytes;
/// the other errors are final.
pub fn decode_frame(buf: &[u8], depth: usize) -> (r: Result<(RespFrame, usize), RespError>)
    ensures
        match r {
            Ok((frame, used)) => decode_view(buf@, depth as nat) == Ok::<
                (FrameView, int),
                RespErrorView,
            >((frame@, used as int)) && used <= buf@.len(),
            Err(e) => decode_view(buf@, depth as nat) == Err::<(FrameView, int), RespErrorView>(
                e@,
            ),
        },
    decreases depth, 1int,
{
    let len: usize = buf.len();
    if len == 0 {
        return Err(RespError::NotComplete);
    }
    let tag: u8 = buf[0];
    if tag == TAG_NULL {
        return decode_null_frame(buf);
    }
    let line_tag: bool = tag == TAG_SIMPLE_STRING || tag == TAG_ERROR || tag == TAG_INTEGER || tag
        == TAG_BOOLEAN || tag == TAG_DOUBLE;
    let header_tag: bool = tag == TAG_BULK_STRING || tag == TAG_ARRAY || tag == TAG_MAP || tag
        == TAG_SET;
    if !line_tag && !header_tag {
        return Err(invalid_type(MSG_UNKNOWN_TYPE));
    }
    let end: usize = match find_crlf(buf) {
        None => {
            return Err(RespError::NotComplete);
        },
        Some(end) => end,
    };
    proof {
        lemma_first_crlf_from(buf@, 0);
        assert(crlf_at(buf@, end as int));
    }
    let payload: &[u8] = slice_subrange(buf, 1, end);
    let used: usize = end + 2;
    if line_tag {
        return match decode_line_frame(tag, payload) {
            Ok(frame) => Ok((frame, used)),
            Err(e) => Err(e),
        };
    }
    let declared: Option<usize> = match parse_header_text(
        payload,
        tag == TAG_BULK_STRING || tag == TAG_ARRAY,
    ) {
        Err(e) => {
            return Err(e);
        },
        Ok(declared) => declared,
    };
    let n: usize = match declared {
        None => {
            if tag == TAG_BULK_STRING {
                return Ok((RespFrame::NullBulkString(NullBulkString), used));
            } else {
                return Ok((RespFrame::NullArray(NullArray), used));
            }
        },
        Some(n) => n,
    };
    let body: &[u8] = slice_subrange(buf, used, len);
    assert(body@ =~= buf@.skip(used as int));
    if tag == TAG_BULK_STRING {
        return match decode_bulk_frame(body, n) {
            Ok((frame, more)) => Ok((frame, used + more)),
            Err(e) => Err(e),
        };
    }
    if depth == 0 {
        return Err(invalid(MSG_DEPTH));
    }
    if tag == TAG_MAP {
        match decode_entry_frames(body, n, depth - 1) {
            Ok((entries, more)) => Ok((RespFrame::RespMap(entries), used + more)),
            Err(e) => Err(e),
        }
    } else if tag == TAG_ARRAY {
        match decode_frames(body, n, depth - 1) {
            Ok((items, more)) => Ok((RespFrame::Array(items), used + more)),
            Err(e) => Err(e),
        }
    } else {
        match decode_member_frames(body, n, depth - 1) {
            Ok((members, more)) => Ok((RespFrame::RespSet(members), used + more)),
            Err(e) => Err(e),
        }
    }
}

/// What is known of `count` frames once the first `done`, which took `used`
/// bytes, are decoded and `rest` is the outcome for the others.
pub open spec fn after_frames(
    done: Seq<FrameView>,
    used: int,
    rest: Result<(Seq<FrameView>, int), RespErrorView>,
) -> Result<(Seq<FrameView>, int), RespErrorView> {
    match rest {
        Ok((others, more)) => Ok((done + others, used + more)),
        Err(e) => Err(e),
    }
}

/// Decodes the `count` frames at the head of `buf`, one after the other.
pub fn decode_frames(buf: &[u8], count: usize, depth: usize) -> (r: Result<
    (Vec<RespFrame>, usize),
    RespError,
>)
    ensures
        match r {
            Ok((items, used)) => decode_all(buf@, count as nat, depth as nat) == Ok::<
                (Seq<FrameView>, int),
                RespErrorView,
            >((frames_view(items@), used as int)) && used <= buf@.len(),
            Err(e) => decode_all(buf@, count as nat, depth as nat) == Err::<
                (Seq<FrameView>, int),
                RespErrorView,
            >(e@),
        },
    decreases depth, 2int,
{
    let len: usize = buf.len();
    let mut items: Vec<RespFrame> = Vec::new();
    let mut offset: usize = 0;
    let mut i: usize = 0;
    proof {
        assert(buf@.skip(0) =~= buf@);
        let whole = decode_all(buf@, count as nat, depth as nat);
        assert(after_frames(frames_view(items@), 0, whole) == whole) by {
            match whole {
                Ok((others, more)) => {
                    assert(frames_view(items@) + others =~= others);
                },
                Err(e) => {},
            }
        }
    }
    while i < count
        invariant
            len == buf@.len(),
            i <= count,
            offset <= len,
            decode_all(buf@, count as nat, depth as nat) == after_frames(
                frames_view(items@),
                offset as int,
                decode_all(buf@.skip(offset as int), (count - i) as nat, depth as nat),
            ),
        decreases count - i,
    {
        let rest: &[u8] = slice_subrange(buf, offset, len);
        assert(rest@ =~= buf@.skip(offset as int));
        match decode_frame(rest, depth) {
            Err(e) => {
                return Err(e);
            },
            Ok((frame, used)) => {
                proof {
                    let before = frames_view(items@);
                    let tail = decode_all(
                        rest@.skip(used as int),
                        (count - i - 1) as nat,
                        depth as nat,
                    );
                    assert(rest@.skip(used as int) =~= buf@.skip(offset + used));
                    assert(items@.push(frame).drop_last() =~= items@);
                    assert(frames_view(items@.push(frame)) == before.push(frame@));
                    match tail {
                        Ok((others, more)) => {
                            assert(before.push(frame@) + others =~= before + (seq![frame@]
                                + others));
                        },
                        Err(e) => {},
                    }
                }
                items.push(frame);
                offset = offset + used;
                i = i + 1;
            },
        }
    }
    proof {
        assert(frames_view(items@) + Seq::<FrameView>::empty() =~= frames_view(items@));
    }
    Ok((items, offset))
}

/// Decodes the `count` frames at the head of `buf` into a set: a frame that
/// is a member already is passed over.
pub fn decode_member_frames(buf: &[u8], count: usize, depth: usize) -> (r: Result<
    (RespSet, usize),
    RespError,
>)
    ensures
        match decode_all(buf@, count as nat, depth as nat) {
            Ok((raw, taken)) => match r {
                Ok((members, used)) => members@ == collect_items(raw) && used == taken && used
                    <= buf@.len(),
                Err(e) => false,
            },
            Err(failure) => match r {
                Ok(decoded) => false,
                Err(e) => e@ == failure,
            },
        },
    decreases depth, 2int,
{
    let len: usize = buf.len();
    let mut members: RespSet = RespSet::new();
    let ghost mut raw: Seq<FrameView> = Seq::empty();
    let mut offset: usize = 0;
    let mut i: usize = 0;
    proof {
        assert(buf@.skip(0) =~= buf@);
        let whole = decode_all(buf@, count as nat, depth as nat);
        assert(after_frames(raw, 0, whole) == whole) by {
            match whole {
                Ok((others, more)) => {
                    assert(raw + others =~= others);
                },
                Err(e) => {},
            }
        }
    }
    while i < count
        invariant
            len == buf@.len(),
            i <= count,
            offset <= len,
            members@ == collect_items(raw),
            decode_all(buf@, count as nat, depth as nat) == after_frames(
                raw,
                offset as int,
                decode_all(buf@.skip(offset as int), (count - i) as nat, depth as nat),
            ),
        decreases count - i,
    {
        let rest: &[u8] = slice_subrange(buf, offset, len);
        assert(rest@ =~= buf@.skip(offset as int));
        match decode_frame(rest, depth) {
            Err(e) => {
                return Err(e);
            },
            Ok((frame, used)) => {
                proof {
                    let tail = decode_all(
                        rest@.skip(used as int),
                        (count - i - 1) as nat,
                        depth as nat,
                    );
                    assert(rest@.skip(used as int) =~= buf@.skip(offset + used));
                    assert(raw.push(frame@).drop_last() =~= raw);
                    match tail {
                        Ok((others, more)) => {
                            assert(raw.push(frame@) + others =~= raw + (seq![frame@] + others));
                        },
                        Err(e) => {},
                    }
                    raw = raw.push(frame@);
                }
                members.insert(frame);
                offset = offset + used;
                i = i + 1;
            },
        }
    }
    proof {
        assert(raw + Seq::<FrameView>::empty() =~= raw);
    }
    Ok((members, offset))
}

/// What is known of `count` entries once the first `done`, which took `used`
/// bytes, are decoded and `rest` is the outcome for the others.
pub open spec fn after_entries(
    done: Seq<(FrameView, FrameView)>,
    used: int,
    rest: Result<(Seq<(FrameView, FrameView)>, int), RespErrorView>,
) -> Result<(Seq<(FrameView, FrameView)>, int), RespErrorView> {
    match rest {
        Ok((others, more)) => Ok((done + others, used + more)),
        Err(e) => Err(e),
    }
}

/// Decodes the `count` entries at the head of `buf`, each a key and then a
/// value, into a map: a key that comes again gets the later value.
pub fn decode_entry_frames(buf: &[u8], count: usize, depth: usize) -> (r: Result<
    (RespMap, usize),
    RespError,
>)
    ensures
        match decode_entries(buf@, count as nat, depth as nat) {
            Ok((raw, taken)) => match r {
                Ok((entries, used)) => entries@ == collect_entries(raw) && used == taken && used
                    <= buf@.len(),
                Err(e) => false,
            },
            Err(failure) => match r {
                Ok(decoded) => false,
                Err(e) => e@ == failure,
            },
        },
    decreases depth, 2int,
{
    let len: usize = buf.len();
    let mut entries: RespMap = RespMap::new();
    let ghost mut raw: Seq<(FrameView, FrameView)> = Seq::empty();
    let mut offset: usize = 0;
    let mut i: usize = 0;
    proof {
        assert(buf@.skip(0) =~= buf@);
        let whole = decode_entries(buf@, count as nat, depth as nat);
        assert(after_entries(raw, 0, whole) == whole) by {
            match whole {
                Ok((others, more)) => {
                    assert(raw + others =~= others);
                },
                Err(e) => {},
            }
        }
    }
    while i < count
        invariant
            len == buf@.len(),
            i <= count,
            offset <= len,
            entries@ == collect_entries(raw),
            decode_entries(buf@, count as nat, depth as nat) == after_entries(
                raw,
                offset as int,
                decode_entries(buf@.skip(offset as int), (count - i) as nat, depth as nat),
            ),
        decreases count - i,
    {
        let rest: &[u8] = slice_subrange(buf, offset, len);
        assert(rest@ =~= buf@.skip(offset as int));
        let (key, used): (RespFrame, usize) = match decode_frame(rest, depth) {
            Err(e) => {
                return Err(e);
            },
            Ok(decoded) => decoded,
        };
        let behind: &[u8] = slice_subrange(buf, offset + used, len);
        assert(behind@ =~= rest@.skip(used as int));
        let (value, more): (RespFrame, usize) = match decode_frame(behind, depth) {
            Err(e) => {
                return Err(e);
            },
            Ok(decoded) => decoded,
        };
        proof {
            let entry = (key@, value@);
            let tail = decode_entries(
                rest@.skip(used + more),
                (count - i - 1) as nat,
                depth as nat,
            );
            assert(rest@.skip(used + more) =~= buf@.skip(offset + used + more));
            assert(raw.push(entry).drop_last() =~= raw);
            match tail {
                Ok((others, further)) => {
                    assert(raw.push(entry) + others =~= raw + (seq![entry] + others));
                },
                Err(e) => {},
            }
            raw = raw.push(entry);
        }
        entries.insert(key, value);
        offset = offset + used + more;
        i = i + 1;
    }
    proof {
        assert(raw + Seq::<(FrameView, FrameView)>::empty() =~= raw);
    }
    Ok((entries, offset))
}

} // verus!
