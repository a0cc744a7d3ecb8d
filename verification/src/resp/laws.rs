//! What holds of encoding and decoding together.
use vstd::prelude::*;
use vstd::utf8::{encode_utf8, valid_utf8};
use crate::resp::container::{
    collect_entries, collect_items, distinct_items, distinct_keys, lemma_collect_entries,
    lemma_collect_entries_from, lemma_collect_items, lemma_collect_items_from,
};
use crate::resp::decode::{
    decode_all, decode_declared, decode_entries, decode_headed, decode_line, decode_view,
    is_header_tag, is_line_tag, parse_header,
};
use crate::resp::double::{
    double_text, lemma_double_round_trip, lemma_double_text_plain, lemma_parse_double_canonical,
};
use crate::resp::encode::{absent_text, boolean_text, encode_all, encode_entries, encode_view};
use crate::resp::error::{reported_length, RespErrorView};
use crate::resp::frame::{
    FrameView, TAG_ARRAY, TAG_BOOLEAN, TAG_BULK_STRING, TAG_DOUBLE, TAG_ERROR, TAG_INTEGER,
    TAG_MAP, TAG_NULL, TAG_SET, TAG_SIMPLE_STRING,
};
use crate::resp::wire::{
    crlf_at, dec_digits, first_crlf, integer_text, is_digit, lemma_dec_digits,
    lemma_first_crlf_from, lemma_integer_round_trip, line, CR, LF, MINUS,
};

verus! {

/// Whether a CRLF pair occurs in `s`.
pub open spec fn has_crlf(s: Seq<u8>) -> bool {
    exists|i: int| crlf_at(s, i)
}

/// Whether `f` can come out of a decode: its lines of text hold no CRLF
/// pair, its doubles are canonical, no key of a map and no member of a set
/// occurs twice, and its lengths and counts are ones that this machine can hold.
pub open spec fn well_formed(f: FrameView) -> bool
    decreases f,
{
    match f {
        FrameView::SimpleString(text) => !has_crlf(encode_utf8(text)),
        FrameView::Error(text) => !has_crlf(encode_utf8(text)),
        FrameView::BulkString(data) => data.len() <= usize::MAX,
        FrameView::Array(items) => items.len() <= usize::MAX && forall|i: int|
            0 <= i < items.len() ==> well_formed(#[trigger] items[i]),
        FrameView::Double(d) => d.is_canonical(),
        FrameView::RespMap(entries) => entries.len() <= usize::MAX && distinct_keys(entries)
            && forall|i: int|
            0 <= i < entries.len() ==> well_formed((#[trigger] entries[i]).0) && well_formed(
                entries[i].1,
            ),
        FrameView::RespSet(items) => items.len() <= usize::MAX && distinct_items(items)
            && forall|i: int| 0 <= i < items.len() ==> well_formed(#[trigger] items[i]),
        _ => true,
    }
}

/// Whether the containers of `f` nest no more than `depth` deep.
pub open spec fn nests_within(f: FrameView, depth: nat) -> bool
    decreases f,
{
    match f {
        FrameView::Array(items) => depth > 0 && forall|i: int|
            0 <= i < items.len() ==> nests_within(#[trigger] items[i], (depth - 1) as nat),
        FrameView::RespMap(entries) => depth > 0 && forall|i: int|
            0 <= i < entries.len() ==> nests_within(
                (#[trigger] entries[i]).0,
                (depth - 1) as nat,
            ) && nests_within(entries[i].1, (depth - 1) as nat),
        FrameView::RespSet(items) => depth > 0 && forall|i: int|
            0 <= i < items.len() ==> nests_within(#[trigger] items[i], (depth - 1) as nat),
        _ => true,
    }
}

/// What is in a container that nests no deeper than `depth` nests no deeper
/// than one less.
pub proof fn lemma_nests_within_item(f: FrameView, depth: nat, k: int)
    requires
        nests_within(f, depth),
        f is Array || f is RespSet || f is RespMap,
    ensures
        depth > 0,
        f is Array && 0 <= k < f->Array_0.len() ==> nests_within(
            f->Array_0[k],
            (depth - 1) as nat,
        ),
        f is RespSet && 0 <= k < f->RespSet_0.len() ==> nests_within(
            f->RespSet_0[k],
            (depth - 1) as nat,
        ),
        f is RespMap && 0 <= k < f->RespMap_0.len() ==> nests_within(
            f->RespMap_0[k].0,
            (depth - 1) as nat,
        ) && nests_within(f->RespMap_0[k].1, (depth - 1) as nat),
{
}

/// Bytes without a carriage return hold no CRLF pair.
proof fn lemma_plain_has_no_crlf(s: Seq<u8>)
    requires
        forall|i: int| 0 <= i < s.len() ==> s[i] != CR,
    ensures
        !has_crlf(s),
{
}

/// The first CRLF pair of a line is its delimiter, whatever follows the line.
proof fn lemma_line_end(tag: u8, payload: Seq<u8>, rest: Seq<u8>)
    requires
        tag != CR,
        !has_crlf(payload),
    ensures
        first_crlf(line(tag, payload) + rest) == Some(1 + payload.len() as int),
        (line(tag, payload) + rest).subrange(1, 1 + payload.len() as int) == payload,
        (line(tag, payload) + rest).skip(3 + payload.len() as int) == rest,
        (line(tag, payload) + rest)[0] == tag,
{
    let buf = line(tag, payload) + rest;
    let end = 1 + payload.len() as int;
    lemma_first_crlf_from(buf, 0);
    assert(crlf_at(buf, end));
    assert forall|j: int| 0 <= j < end implies !crlf_at(buf, j) by {
        if 1 <= j && j + 1 < end {
            assert(buf[j] == payload[j - 1]);
            assert(buf[j + 1] == payload[j]);
            assert(!crlf_at(payload, j - 1));
        }
    }
    assert(buf.subrange(1, end) =~= payload);
    assert(buf.skip(end + 2) =~= rest);
}

/// A line cut short holds no CRLF pair.
proof fn lemma_line_cut(tag: u8, payload: Seq<u8>, k: int)
    requires
        tag != CR,
        !has_crlf(payload),
        0 <= k < payload.len() + 3,
    ensures
        first_crlf(line(tag, payload).take(k)) is None,
{
    let whole = line(tag, payload);
    let buf = whole.take(k);
    lemma_first_crlf_from(buf, 0);
    assert forall|j: int| 0 <= j implies !crlf_at(buf, j) by {
        if j + 1 < k {
            assert(buf[j] == whole[j]);
            assert(buf[j + 1] == whole[j + 1]);
            if 1 <= j && j + 1 < 1 + payload.len() {
                assert(whole[j] == payload[j - 1]);
                assert(whole[j + 1] == payload[j]);
                assert(!crlf_at(payload, j - 1));
            }
        }
    }
}

/// The digits of a count hold no CRLF pair and read back as the count.
proof fn lemma_count_header(n: nat, nullable: bool)
    requires
        n <= usize::MAX,
    ensures
        !has_crlf(dec_digits(n)),
        parse_header(dec_digits(n), nullable) == Ok::<Option<nat>, RespErrorView>(Some(n)),
{
    let digits = dec_digits(n);
    lemma_dec_digits(n);
    assert forall|i: int| 0 <= i < digits.len() implies digits[i] != CR by {
        assert(is_digit(digits[i]));
    }
    lemma_plain_has_no_crlf(digits);
    assert(is_digit(digits[0]));
    assert(absent_text()[0] == MINUS);
}

/// The header `-1` holds no CRLF pair and declares nothing.
proof fn lemma_absent_header()
    ensures
        !has_crlf(absent_text()),
        parse_header(absent_text(), true) == Ok::<Option<nat>, RespErrorView>(None),
{
    lemma_plain_has_no_crlf(absent_text());
}

/// The payload of a well-formed frame of one line holds no CRLF pair and
/// decodes to the frame.
proof fn lemma_line_payload(f: FrameView) -> (r: (u8, Seq<u8>))
    requires
        well_formed(f),
        f is SimpleString || f is Error || f is Integer || f is Boolean || f is Double,
    ensures
        is_line_tag(r.0),
        !has_crlf(r.1),
        encode_view(f) == line(r.0, r.1),
        decode_line(r.0, r.1) == Ok::<FrameView, RespErrorView>(f),
{
    match f {
        FrameView::SimpleString(text) => {
            vstd::utf8::encode_utf8_valid_utf8(text);
            vstd::utf8::encode_utf8_decode_utf8(text);
            (TAG_SIMPLE_STRING, encode_utf8(text))
        },
        FrameView::Error(text) => {
            vstd::utf8::encode_utf8_valid_utf8(text);
            vstd::utf8::encode_utf8_decode_utf8(text);
            (TAG_ERROR, encode_utf8(text))
        },
        FrameView::Integer(v) => {
            lemma_integer_round_trip(v);
            lemma_plain_has_no_crlf(integer_text(v));
            (TAG_INTEGER, integer_text(v))
        },
        FrameView::Boolean(b) => {
            lemma_plain_has_no_crlf(boolean_text(b));
            assert(boolean_text(true)[0] != boolean_text(false)[0]);
            (TAG_BOOLEAN, boolean_text(b))
        },
        FrameView::Double(d) => {
            lemma_double_round_trip(d);
            lemma_double_text_plain(d);
            lemma_plain_has_no_crlf(double_text(d));
            (TAG_DOUBLE, double_text(d))
        },
        _ => (0u8, Seq::empty()),
    }
}

/// A header line that declares `n` is read as that, and what follows it as
/// what it declares.
proof fn lemma_header_then(tag: u8, n: nat, body: Seq<u8>, depth: nat)
    requires
        is_header_tag(tag),
        n <= usize::MAX,
    ensures
        decode_view(line(tag, dec_digits(n)) + body, depth) == match decode_declared(
            tag,
            n,
            body,
            depth,
        ) {
            Ok((frame, used)) => Ok::<(FrameView, int), RespErrorView>(
                (frame, dec_digits(n).len() + 3 + used),
            ),
            Err(e) => Err(e),
        },
{
    let buf = line(tag, dec_digits(n)) + body;
    let end = 1 + dec_digits(n).len() as int;
    lemma_count_header(n, tag == TAG_BULK_STRING || tag == TAG_ARRAY);
    lemma_line_end(tag, dec_digits(n), body);
    assert(decode_view(buf, depth) == decode_headed(tag, dec_digits(n), body, end, depth));
}

/// Decoding what a frame encodes to gives the frame back, and takes exactly
/// the bytes of the encoding: for every well-formed `f` whose containers
/// nest no deeper than `depth`, whatever bytes `rest` follow it in the buffer.
pub proof fn lemma_round_trip(f: FrameView, rest: Seq<u8>, depth: nat)
    requires
        well_formed(f),
        nests_within(f, depth),
    ensures
        decode_view(encode_view(f) + rest, depth) == Ok::<(FrameView, int), RespErrorView>(
            (f, encode_view(f).len() as int),
        ),
    decreases f,
{
    let buf = encode_view(f) + rest;
    match f {
        FrameView::NullBulkString => {
            lemma_absent_header();
            lemma_line_end(TAG_BULK_STRING, absent_text(), rest);
        },
        FrameView::NullArray => {
            lemma_absent_header();
            lemma_line_end(TAG_ARRAY, absent_text(), rest);
        },
        FrameView::Null => {
            assert(buf[0] == TAG_NULL && buf[1] == CR && buf[2] == LF);
        },
        FrameView::BulkString(data) => {
            let n = data.len();
            let body = data + seq![CR, LF] + rest;
            assert(buf =~= line(TAG_BULK_STRING, dec_digits(n)) + body);
            lemma_header_then(TAG_BULK_STRING, n, body, depth);
            assert(body.take(n as int) =~= data);
        },
        FrameView::Array(items) => {
            let n = items.len();
            let body = encode_all(items) + rest;
            assert(buf =~= line(TAG_ARRAY, dec_digits(n)) + body);
            lemma_header_then(TAG_ARRAY, n, body, depth);
            lemma_round_trip_all(items, rest, (depth - 1) as nat);
        },
        FrameView::RespSet(items) => {
            let n = items.len();
            let body = encode_all(items) + rest;
            assert(buf =~= line(TAG_SET, dec_digits(n)) + body);
            lemma_header_then(TAG_SET, n, body, depth);
            lemma_round_trip_all(items, rest, (depth - 1) as nat);
            lemma_collect_items(items);
        },
        FrameView::RespMap(entries) => {
            let n = entries.len();
            let body = encode_entries(entries) + rest;
            assert(buf =~= line(TAG_MAP, dec_digits(n)) + body);
            lemma_header_then(TAG_MAP, n, body, depth);
            lemma_round_trip_entries(entries, rest, (depth - 1) as nat);
            lemma_collect_entries(entries);
        },
        _ => {
            let (tag, payload) = lemma_line_payload(f);
            lemma_line_end(tag, payload, rest);
        },
    }
}

/// Decoding exactly what a frame encodes to gives the frame back and takes
/// all of the bytes: for every well-formed `f` whose containers nest no
/// deeper than `depth`.
pub proof fn lemma_round_trip_exact(f: FrameView, depth: nat)
    requires
        well_formed(f),
        nests_within(f, depth),
    ensures
        decode_view(encode_view(f), depth) == Ok::<(FrameView, int), RespErrorView>(
            (f, encode_view(f).len() as int),
        ),
{
    lemma_round_trip(f, Seq::empty(), depth);
    assert(encode_view(f) + Seq::<u8>::empty() =~= encode_view(f));
}

/// Decoding what frames encode to, one after the other, gives the frames back.
pub proof fn lemma_round_trip_all(items: Seq<FrameView>, rest: Seq<u8>, depth: nat)
    requires
        forall|i: int| 0 <= i < items.len() ==> well_formed(#[trigger] items[i]),
        forall|i: int| 0 <= i < items.len() ==> nests_within(#[trigger] items[i], depth),
    ensures
        decode_all(encode_all(items) + rest, items.len(), depth) == Ok::<
            (Seq<FrameView>, int),
            RespErrorView,
        >((items, encode_all(items).len() as int)),
    decreases items,
{
    if items.len() == 0 {
        assert(items =~= Seq::<FrameView>::empty());
    } else {
        let first = encode_view(items[0]);
        let others = items.skip(1);
        let behind = encode_all(others) + rest;
        let buf = encode_all(items) + rest;
        assert(buf =~= first + behind);
        lemma_round_trip(items[0], behind, depth);
        assert(buf.skip(first.len() as int) =~= behind);
        assert forall|i: int| 0 <= i < others.len() implies well_formed(#[trigger] others[i]) by {
            assert(others[i] == items[i + 1]);
        }
        assert forall|i: int| 0 <= i < others.len() implies nests_within(
            #[trigger] others[i],
            depth,
        ) by {
            assert(others[i] == items[i + 1]);
        }
        lemma_round_trip_all(others, rest, depth);
        assert(seq![items[0]] + others =~= items);
    }
}

/// Decoding what the entries of a map encode to gives the entries back.
pub proof fn lemma_round_trip_entries(
    entries: Seq<(FrameView, FrameView)>,
    rest: Seq<u8>,
    depth: nat,
)
    requires
        forall|i: int|
            0 <= i < entries.len() ==> well_formed((#[trigger] entries[i]).0) && well_formed(
                entries[i].1,
            ),
        forall|i: int|
            0 <= i < entries.len() ==> nests_within((#[trigger] entries[i]).0, depth)
                && nests_within(entries[i].1, depth),
    ensures
        decode_entries(encode_entries(entries) + rest, entries.len(), depth) == Ok::<
            (Seq<(FrameView, FrameView)>, int),
            RespErrorView,
        >((entries, encode_entries(entries).len() as int)),
    decreases entries,
{
    if entries.len() == 0 {
        assert(entries =~= Seq::<(FrameView, FrameView)>::empty());
    } else {
        let key = encode_view(entries[0].0);
        let value = encode_view(entries[0].1);
        let others = entries.skip(1);
        let behind = encode_entries(others) + rest;
        let buf = encode_entries(entries) + rest;
        assert(buf =~= key + (value + behind));
        lemma_round_trip(entries[0].0, value + behind, depth);
        assert(buf.skip(key.len() as int) =~= value + behind);
        lemma_round_trip(entries[0].1, behind, depth);
        assert(buf.skip((key.len() + value.len()) as int) =~= behind);
        assert forall|i: int| 0 <= i < others.len() implies well_formed(
            (#[trigger] others[i]).0,
        ) && well_formed(others[i].1) by {
            assert(others[i] == entries[i + 1]);
        }
        assert forall|i: int| 0 <= i < others.len() implies nests_within(
            (#[trigger] others[i]).0,
            depth,
        ) && nests_within(others[i].1, depth) by {
            assert(others[i] == entries[i + 1]);
        }
        lemma_round_trip_entries(others, rest, depth);
        assert(seq![entries[0]] + others =~= entries);
    }
}

/// A header line cut short, or a line of one of the other frames, asks for more bytes.
proof fn lemma_line_cut_incomplete(tag: u8, payload: Seq<u8>, k: int, depth: nat)
    requires
        is_line_tag(tag) || is_header_tag(tag),
        !has_crlf(payload),
        0 <= k < payload.len() + 3,
    ensures
        decode_view(line(tag, payload).take(k), depth) == Err::<(FrameView, int), RespErrorView>(
            RespErrorView::NotComplete,
        ),
{
    lemma_line_cut(tag, payload, k);
    if k > 0 {
        assert(line(tag, payload).take(k)[0] == tag);
    }
}

/// Every proper beginning of what a frame encodes to asks for more bytes: for
/// every well-formed `f` whose containers nest no deeper than `depth`, and
/// every `k` below the length of the encoding.
pub proof fn lemma_prefix_incomplete(f: FrameView, k: int, depth: nat)
    requires
        well_formed(f),
        nests_within(f, depth),
        0 <= k < encode_view(f).len(),
    ensures
        decode_view(encode_view(f).take(k), depth) == Err::<(FrameView, int), RespErrorView>(
            RespErrorView::NotComplete,
        ),
    decreases f,
{
    let whole = encode_view(f);
    let buf = whole.take(k);
    match f {
        FrameView::NullBulkString => {
            lemma_absent_header();
            lemma_line_cut_incomplete(TAG_BULK_STRING, absent_text(), k, depth);
        },
        FrameView::NullArray => {
            lemma_absent_header();
            lemma_line_cut_incomplete(TAG_ARRAY, absent_text(), k, depth);
        },
        FrameView::Null => {
            if k >= 1 {
                assert(buf[0] == TAG_NULL);
            }
            if k >= 2 {
                assert(buf[1] == CR);
            }
        },
        FrameView::BulkString(data) => {
            let n = data.len();
            let header = line(TAG_BULK_STRING, dec_digits(n));
            lemma_count_header(n, true);
            if k < header.len() {
                assert(buf =~= header.take(k));
                lemma_line_cut_incomplete(TAG_BULK_STRING, dec_digits(n), k, depth);
            } else {
                let body = (data + seq![CR, LF]).take(k - header.len());
                assert(buf =~= header + body);
                lemma_header_then(TAG_BULK_STRING, n, body, depth);
            }
        },
        FrameView::Array(items) => {
            let n = items.len();
            let header = line(TAG_ARRAY, dec_digits(n));
            lemma_count_header(n, true);
            if k < header.len() {
                assert(buf =~= header.take(k));
                lemma_line_cut_incomplete(TAG_ARRAY, dec_digits(n), k, depth);
            } else {
                let body = encode_all(items).take(k - header.len());
                assert(buf =~= header + body);
                lemma_header_then(TAG_ARRAY, n, body, depth);
                lemma_prefix_incomplete_all(items, k - header.len(), (depth - 1) as nat);
            }
        },
        FrameView::RespSet(items) => {
            let n = items.len();
            let header = line(TAG_SET, dec_digits(n));
            lemma_count_header(n, false);
            if k < header.len() {
                assert(buf =~= header.take(k));
                lemma_line_cut_incomplete(TAG_SET, dec_digits(n), k, depth);
            } else {
                let body = encode_all(items).take(k - header.len());
                assert(buf =~= header + body);
                lemma_header_then(TAG_SET, n, body, depth);
                lemma_prefix_incomplete_all(items, k - header.len(), (depth - 1) as nat);
            }
        },
        FrameView::RespMap(entries) => {
            let n = entries.len();
            let header = line(TAG_MAP, dec_digits(n));
            lemma_count_header(n, false);
            if k < header.len() {
                assert(buf =~= header.take(k));
                lemma_line_cut_incomplete(TAG_MAP, dec_digits(n), k, depth);
            } else {
                let body = encode_entries(entries).take(k - header.len());
                assert(buf =~= header + body);
                lemma_header_then(TAG_MAP, n, body, depth);
                lemma_prefix_incomplete_entries(entries, k - header.len(), (depth - 1) as nat);
            }
        },
        _ => {
            let (tag, payload) = lemma_line_payload(f);
            lemma_line_cut_incomplete(tag, payload, k, depth);
        },
    }
}

/// Every proper beginning of what frames encode to, one after the other, asks
/// for more bytes.
pub proof fn lemma_prefix_incomplete_all(items: Seq<FrameView>, k: int, depth: nat)
    requires
        forall|i: int| 0 <= i < items.len() ==> well_formed(#[trigger] items[i]),
        forall|i: int| 0 <= i < items.len() ==> nests_within(#[trigger] items[i], depth),
        0 <= k < encode_all(items).len(),
    ensures
        decode_all(encode_all(items).take(k), items.len(), depth) == Err::<
            (Seq<FrameView>, int),
            RespErrorView,
        >(RespErrorView::NotComplete),
    decreases items,
{
    if items.len() == 0 {
    } else {
        let first = encode_view(items[0]);
        let others = items.skip(1);
        let buf = encode_all(items).take(k);
        if k < first.len() {
            assert(buf =~= first.take(k));
            lemma_prefix_incomplete(items[0], k, depth);
        } else {
            let behind = encode_all(others).take(k - first.len());
            assert(buf =~= first + behind);
            lemma_round_trip(items[0], behind, depth);
            assert(buf.skip(first.len() as int) =~= behind);
            assert forall|i: int| 0 <= i < others.len() implies well_formed(
                #[trigger] others[i],
            ) by {
                assert(others[i] == items[i + 1]);
            }
            assert forall|i: int| 0 <= i < others.len() implies nests_within(
                #[trigger] others[i],
                depth,
            ) by {
                assert(others[i] == items[i + 1]);
            }
            lemma_prefix_incomplete_all(others, k - first.len(), depth);
        }
    }
}

/// Every proper beginning of what the entries of a map encode to asks for more bytes.
pub proof fn lemma_prefix_incomplete_entries(
    entries: Seq<(FrameView, FrameView)>,
    k: int,
    depth: nat,
)
    requires
        forall|i: int|
            0 <= i < entries.len() ==> well_formed((#[trigger] entries[i]).0) && well_formed(
                entries[i].1,
            ),
        forall|i: int|
            0 <= i < entries.len() ==> nests_within((#[trigger] entries[i]).0, depth)
                && nests_within(entries[i].1, depth),
        0 <= k < encode_entries(entries).len(),
    ensures
        decode_entries(encode_entries(entries).take(k), entries.len(), depth) == Err::<
            (Seq<(FrameView, FrameView)>, int),
            RespErrorView,
        >(RespErrorView::NotComplete),
    decreases entries,
{
    if entries.len() == 0 {
    } else {
        let key = encode_view(entries[0].0);
        let value = encode_view(entries[0].1);
        let others = entries.skip(1);
        let buf = encode_entries(entries).take(k);
        if k < key.len() {
            assert(buf =~= key.take(k));
            lemma_prefix_incomplete(entries[0].0, k, depth);
        } else if k < key.len() + value.len() {
            let behind = value.take(k - key.len());
            assert(buf =~= key + behind);
            lemma_round_trip(entries[0].0, behind, depth);
            assert(buf.skip(key.len() as int) =~= behind);
            lemma_prefix_incomplete(entries[0].1, k - key.len(), depth);
        } else {
            let behind = encode_entries(others).take(k - key.len() - value.len());
            assert(buf =~= key + (value + behind));
            lemma_round_trip(entries[0].0, value + behind, depth);
            assert(buf.skip(key.len() as int) =~= value + behind);
            lemma_round_trip(entries[0].1, behind, depth);
            assert(buf.skip((key.len() + value.len()) as int) =~= behind);
            assert forall|i: int| 0 <= i < others.len() implies well_formed(
                (#[trigger] others[i]).0,
            ) && well_formed(others[i].1) by {
                assert(others[i] == entries[i + 1]);
            }
            assert forall|i: int| 0 <= i < others.len() implies nests_within(
                (#[trigger] others[i]).0,
                depth,
            ) && nests_within(others[i].1, depth) by {
                assert(others[i] == entries[i + 1]);
            }
            lemma_prefix_incomplete_entries(others, k - key.len() - value.len(), depth);
        }
    }
}

/// A bulk string whose header declares `n` bytes asks for more bytes as long
/// as fewer than `n` bytes and a delimiter follow the header, and fails for
/// good once `n` bytes follow and the two bytes behind them are not the delimiter.
pub proof fn lemma_bulk_length_mismatch(n: nat, body: Seq<u8>, depth: nat)
    requires
        n <= usize::MAX,
    ensures
        body.len() < n + 2 ==> decode_view(line(TAG_BULK_STRING, dec_digits(n)) + body, depth)
            == Err::<(FrameView, int), RespErrorView>(RespErrorView::NotComplete),
        body.len() >= n + 2 && !(body[n as int] == CR && body[n as int + 1] == LF) ==> decode_view(
            line(TAG_BULK_STRING, dec_digits(n)) + body,
            depth,
        ) == Err::<(FrameView, int), RespErrorView>(
            RespErrorView::InvalidFrameLength(reported_length(n)),
        ),
{
    lemma_header_then(TAG_BULK_STRING, n, body, depth);
}

/// What comes out of a decode is well-formed, nests no deeper than was
/// allowed, and took at least one byte and no more bytes than there were.
pub proof fn lemma_decoded_well_formed(buf: Seq<u8>, depth: nat)
    ensures
        match decode_view(buf, depth) {
            Ok((frame, used)) => well_formed(frame) && nests_within(frame, depth) && 0 < used
                <= buf.len(),
            Err(_) => true,
        },
    decreases depth, 0nat,
{
    let scanned = buf.len() > 0 && buf[0] != TAG_NULL && (is_line_tag(buf[0]) || is_header_tag(
        buf[0],
    ));
    let tag = if scanned {
        buf[0]
    } else {
        0u8
    };
    match (if scanned {
        first_crlf(buf)
    } else {
        None
    }) {
        None => {},
        Some(end) => {
            lemma_first_crlf_from(buf, 0);
            let payload = buf.subrange(1, end);
            let body = buf.skip(end + 2);
            assert(!has_crlf(payload)) by {
                assert forall|i: int| !crlf_at(payload, i) by {
                    if crlf_at(payload, i) {
                        assert(crlf_at(buf, i + 1));
                    }
                }
            }
            if is_line_tag(tag) {
                if (tag == TAG_SIMPLE_STRING || tag == TAG_ERROR) && valid_utf8(payload) {
                    vstd::utf8::decode_utf8_encode_utf8(payload);
                }
                lemma_parse_double_canonical(payload);
            } else {
                match parse_header(payload, tag == TAG_BULK_STRING || tag == TAG_ARRAY) {
                    Ok(Some(n)) => {
                        if tag == TAG_BULK_STRING {
                        } else if depth == 0 {
                        } else if tag == TAG_MAP {
                            lemma_decoded_entries_well_formed(body, n, (depth - 1) as nat);
                            match decode_entries(body, n, (depth - 1) as nat) {
                                Ok((raw, used)) => {
                                    lemma_collect_entries(raw);
                                    lemma_collect_entries_from(raw);
                                    let entries = collect_entries(raw);
                                    assert forall|i: int| 0 <= i < entries.len() implies well_formed(
                                        (#[trigger] entries[i]).0,
                                    ) && well_formed(entries[i].1) && nests_within(
                                        entries[i].0,
                                        (depth - 1) as nat,
                                    ) && nests_within(entries[i].1, (depth - 1) as nat) by {
                                        assert(raw.contains(entries[i]));
                                        let j = choose|j: int|
                                            0 <= j < raw.len() && raw[j] == entries[i];
                                        assert(well_formed(raw[j].0));
                                    }
                                },
                                Err(_) => {},
                            }
                        } else {
                            lemma_decoded_all_well_formed(body, n, (depth - 1) as nat);
                            match decode_all(body, n, (depth - 1) as nat) {
                                Ok((raw, used)) => {
                                    if tag == TAG_SET {
                                        lemma_collect_items(raw);
                                        lemma_collect_items_from(raw);
                                        let items = collect_items(raw);
                                        assert forall|i: int| 0 <= i < items.len() implies well_formed(
                                            #[trigger] items[i],
                                        ) && nests_within(items[i], (depth - 1) as nat) by {
                                            assert(raw.contains(items[i]));
                                            let j = choose|j: int|
                                                0 <= j < raw.len() && raw[j] == items[i];
                                            assert(well_formed(raw[j]));
                                        }
                                    }
                                },
                                Err(_) => {},
                            }
                        }
                    },
                    _ => {},
                }
            }
        },
    }
}

/// What comes out of decoding `count` frames is `count` well-formed frames
/// that nest no deeper than was allowed, and took no more bytes than there were.
pub proof fn lemma_decoded_all_well_formed(buf: Seq<u8>, count: nat, depth: nat)
    ensures
        match decode_all(buf, count, depth) {
            Ok((items, used)) => items.len() == count && 0 <= used <= buf.len() && forall|i: int|
                0 <= i < items.len() ==> well_formed(#[trigger] items[i]) && nests_within(
                    items[i],
                    depth,
                ),
            Err(_) => true,
        },
    decreases depth, count + 1,
{
    if count > 0 {
        lemma_decoded_well_formed(buf, depth);
        match decode_view(buf, depth) {
            Ok((first, used)) => {
                lemma_decoded_all_well_formed(buf.skip(used), (count - 1) as nat, depth);
                match decode_all(buf.skip(used), (count - 1) as nat, depth) {
                    Ok((rest, more)) => {
                        let items = seq![first] + rest;
                        assert forall|i: int| 0 <= i < items.len() implies well_formed(
                            #[trigger] items[i],
                        ) && nests_within(items[i], depth) by {
                            if i > 0 {
                                assert(items[i] == rest[i - 1]);
                            }
                        }
                    },
                    Err(_) => {},
                }
            },
            Err(_) => {},
        }
    }
}

/// What comes out of decoding `count` entries is `count` entries of
/// well-formed frames that nest no deeper than was allowed, and took no more
/// bytes than there were.
pub proof fn lemma_decoded_entries_well_formed(buf: Seq<u8>, count: nat, depth: nat)
    ensures
        match decode_entries(buf, count, depth) {
            Ok((entries, used)) => entries.len() == count && 0 <= used <= buf.len()
                && forall|i: int|
                0 <= i < entries.len() ==> well_formed((#[trigger] entries[i]).0) && well_formed(
                    entries[i].1,
                ) && nests_within(entries[i].0, depth) && nests_within(entries[i].1, depth),
            Err(_) => true,
        },
    decreases depth, count + 1,
{
    if count > 0 {
        lemma_decoded_well_formed(buf, depth);
        match decode_view(buf, depth) {
            Ok((key, used)) => {
                lemma_decoded_well_formed(buf.skip(used), depth);
                match decode_view(buf.skip(used), depth) {
                    Ok((value, more)) => {
                        lemma_decoded_entries_well_formed(
                            buf.skip(used + more),
                            (count - 1) as nat,
                            depth,
                        );
                        match decode_entries(buf.skip(used + more), (count - 1) as nat, depth) {
                            Ok((rest, further)) => {
                                let entries = seq![(key, value)] + rest;
                                assert forall|i: int| 0 <= i < entries.len() implies well_formed(
                                    (#[trigger] entries[i]).0,
                                ) && well_formed(entries[i].1) && nests_within(
                                    entries[i].0,
                                    depth,
                                ) && nests_within(entries[i].1, depth) by {
                                    if i > 0 {
                                        assert(entries[i] == rest[i - 1]);
                                    }
                                }
                            },
                            Err(_) => {},
                        }
                    },
                    Err(_) => {},
                }
            },
            Err(_) => {},
        }
    }
}

} // verus!
