//! From a frame to its exact bytes.
use vstd::prelude::*;
use vstd::slice::slice_to_vec;
use vstd::utf8::encode_utf8;
use bytes::BytesMut;
use crate::resp::buffer::{buffer_as_slice, buffer_new, buffer_put};
use crate::resp::double::double_text;
use crate::resp::frame::{
    frames_view, lemma_frames_view, lemma_pairs_view, pairs_view, Double, FrameView, RespFrame,
    RespMap, RespSet, TAG_ARRAY, TAG_BOOLEAN, TAG_BULK_STRING, TAG_DOUBLE, TAG_ERROR, TAG_INTEGER,
    TAG_MAP, TAG_NULL, TAG_SET, TAG_SIMPLE_STRING,
};
use crate::resp::wire::{
    append_bytes, dec_digits, integer_text, line, push_decimal, push_integer, CR, DIGIT_ONE,
    LETTER_F, LETTER_T, LF, MINUS,
};

verus! {

/// The header payload `-1` that marks an absent bulk string or array.
pub open spec fn absent_text() -> Seq<u8> {
    seq![MINUS, DIGIT_ONE]
}

/// The payload of a boolean: `t` or `f`.
pub open spec fn boolean_text(b: bool) -> Seq<u8> {
    if b {
        seq![LETTER_T]
    } else {
        seq![LETTER_F]
    }
}

/// The bytes that stand for `f` on the wire.
pub open spec fn encode_view(f: FrameView) -> Seq<u8>
    decreases f,
{
    match f {
        FrameView::SimpleString(text) => line(TAG_SIMPLE_STRING, encode_utf8(text)),
        FrameView::Error(text) => line(TAG_ERROR, encode_utf8(text)),
        FrameView::Integer(v) => line(TAG_INTEGER, integer_text(v)),
        FrameView::BulkString(data) => line(TAG_BULK_STRING, dec_digits(data.len())) + data
            + seq![CR, LF],
        FrameView::NullBulkString => line(TAG_BULK_STRING, absent_text()),
        FrameView::Array(items) => line(TAG_ARRAY, dec_digits(items.len())) + encode_all(items),
        FrameView::NullArray => line(TAG_ARRAY, absent_text()),
        FrameView::Null => line(TAG_NULL, Seq::empty()),
        FrameView::Boolean(b) => line(TAG_BOOLEAN, boolean_text(b)),
        FrameView::Double(d) => line(TAG_DOUBLE, double_text(d)),
        FrameView::RespMap(entries) => line(TAG_MAP, dec_digits(entries.len())) + encode_entries(
            entries,
        ),
        FrameView::RespSet(items) => line(TAG_SET, dec_digits(items.len())) + encode_all(items),
    }
}

/// The bytes of the frames of `items`, one after the other.
pub open spec fn encode_all(items: Seq<FrameView>) -> Seq<u8>
    decreases items,
{
    if items.len() == 0 {
        Seq::empty()
    } else {
        encode_view(items[0]) + encode_all(items.skip(1))
    }
}

/// The bytes of the entries of a map: each key, then its value.
pub open spec fn encode_entries(entries: Seq<(FrameView, FrameView)>) -> Seq<u8>
    decreases entries,
{
    if entries.len() == 0 {
        Seq::empty()
    } else {
        encode_view(entries[0].0) + encode_view(entries[0].1) + encode_entries(entries.skip(1))
    }
}

/// One more frame at the end adds its bytes at the end.
pub proof fn lemma_encode_all_push(items: Seq<FrameView>, last: FrameView)
    ensures
        encode_all(items.push(last)) == encode_all(items) + encode_view(last),
    decreases items.len(),
{
    let longer = items.push(last);
    if items.len() == 0 {
        assert(longer.skip(1) =~= Seq::<FrameView>::empty());
        assert(encode_all(longer.skip(1)) =~= Seq::<u8>::empty());
        assert(encode_all(longer) =~= encode_view(last));
        assert(encode_all(items) + encode_view(last) =~= encode_view(last));
    } else {
        lemma_encode_all_push(items.skip(1), last);
        assert(longer.skip(1) =~= items.skip(1).push(last));
        assert(longer[0] == items[0]);
        assert(encode_all(longer) =~= encode_all(items) + encode_view(last));
    }
}

/// One more entry at the end adds its bytes at the end.
pub proof fn lemma_encode_entries_push(
    entries: Seq<(FrameView, FrameView)>,
    last: (FrameView, FrameView),
)
    ensures
        encode_entries(entries.push(last)) == encode_entries(entries) + encode_view(last.0)
            + encode_view(last.1),
    decreases entries.len(),
{
    let longer = entries.push(last);
    if entries.len() == 0 {
        assert(longer.skip(1) =~= Seq::<(FrameView, FrameView)>::empty());
        assert(encode_entries(longer.skip(1)) =~= Seq::<u8>::empty());
        assert(encode_entries(longer) =~= encode_view(last.0) + encode_view(last.1));
        assert(encode_entries(entries) + encode_view(last.0) + encode_view(last.1) =~= encode_view(
            last.0,
        ) + encode_view(last.1));
    } else {
        lemma_encode_entries_push(entries.skip(1), last);
        assert(longer.skip(1) =~= entries.skip(1).push(last));
        assert(longer[0] == entries[0]);
        assert(encode_entries(longer) =~= encode_entries(entries) + encode_view(last.0)
            + encode_view(last.1));
    }
}

/// Appends the delimiter to `out`.
fn push_delimiter(out: &mut Vec<u8>)
    ensures
        final(out)@ == old(out)@ + seq![CR, LF],
{
    out.push(CR);
    out.push(LF);
    assert(final(out)@ =~= old(out)@ + seq![CR, LF]);
}

/// Appends a line of text under `tag` to `out`.
pub fn write_text(tag: u8, text: &String, out: &mut Vec<u8>)
    ensures
        final(out)@ == old(out)@ + line(tag, encode_utf8(text@)),
{
    out.push(tag);
    append_bytes(out, text.as_str().as_bytes());
    push_delimiter(out);
    assert(final(out)@ =~= old(out)@ + line(tag, encode_utf8(text@)));
}

/// Appends an integer frame to `out`.
pub fn write_integer(v: i64, out: &mut Vec<u8>)
    ensures
        final(out)@ == old(out)@ + line(TAG_INTEGER, integer_text(v)),
{
    out.push(TAG_INTEGER);
    push_integer(out, v);
    push_delimiter(out);
    assert(final(out)@ =~= old(out)@ + line(TAG_INTEGER, integer_text(v)));
}

/// Appends a header line under `tag` that declares `count` to `out`.
fn write_count(tag: u8, count: usize, out: &mut Vec<u8>)
    ensures
        final(out)@ == old(out)@ + line(tag, dec_digits(count as nat)),
{
    out.push(tag);
    push_decimal(out, count as u64);
    push_delimiter(out);
    assert(final(out)@ =~= old(out)@ + line(tag, dec_digits(count as nat)));
}

/// Appends the header line of an absent value under `tag` to `out`.
fn write_absent(tag: u8, out: &mut Vec<u8>)
    ensures
        final(out)@ == old(out)@ + line(tag, absent_text()),
{
    out.push(tag);
    out.push(MINUS);
    out.push(DIGIT_ONE);
    push_delimiter(out);
    assert(final(out)@ =~= old(out)@ + line(tag, absent_text()));
}

/// The bytes of the bulk string that holds `data`, put together in a byte buffer.
pub fn encode_bulk(data: &[u8]) -> (out: Vec<u8>)
    ensures
        out@ == encode_view(FrameView::BulkString(data@)),
{
    let mut length: Vec<u8> = Vec::new();
    push_decimal(&mut length, data.len() as u64);
    let mut delimiter: Vec<u8> = Vec::new();
    push_delimiter(&mut delimiter);
    let mut tag: Vec<u8> = Vec::new();
    tag.push(TAG_BULK_STRING);
    let mut bulk: BytesMut = buffer_new();
    buffer_put(&mut bulk, tag.as_slice());
    buffer_put(&mut bulk, length.as_slice());
    buffer_put(&mut bulk, delimiter.as_slice());
    buffer_put(&mut bulk, data);
    buffer_put(&mut bulk, delimiter.as_slice());
    let out: Vec<u8> = slice_to_vec(buffer_as_slice(&bulk));
    assert(out@ =~= encode_view(FrameView::BulkString(data@)));
    out
}

/// Appends a bulk string frame to `out`.
pub fn write_bulk(data: &[u8], out: &mut Vec<u8>)
    ensures
        final(out)@ == old(out)@ + encode_view(FrameView::BulkString(data@)),
{
    let bulk: Vec<u8> = encode_bulk(data);
    append_bytes(out, bulk.as_slice());
}

/// Appends a boolean frame to `out`.
pub fn write_boolean(b: bool, out: &mut Vec<u8>)
    ensures
        final(out)@ == old(out)@ + line(TAG_BOOLEAN, boolean_text(b)),
{
    out.push(TAG_BOOLEAN);
    out.push(if b { LETTER_T } else { LETTER_F });
    push_delimiter(out);
    assert(final(out)@ =~= old(out)@ + line(TAG_BOOLEAN, boolean_text(b)));
}

/// Appends a double frame to `out`.
pub fn write_double(d: &Double, out: &mut Vec<u8>)
    ensures
        final(out)@ == old(out)@ + line(TAG_DOUBLE, double_text(*d)),
{
    out.push(TAG_DOUBLE);
    d.write_text(out);
    push_delimiter(out);
    assert(final(out)@ =~= old(out)@ + line(TAG_DOUBLE, double_text(*d)));
}

/// Appends the bytes of `frame` to `out`.
pub fn write_frame(frame: &RespFrame, out: &mut Vec<u8>)
    ensures
        final(out)@ == old(out)@ + encode_view(frame@),
    decreases frame,
{
    match frame {
        RespFrame::SimpleString(s) => write_text(TAG_SIMPLE_STRING, &s.0, out),
        RespFrame::Error(s) => write_text(TAG_ERROR, &s.0, out),
        RespFrame::Integer(v) => write_integer(*v, out),
        RespFrame::BulkString(data) => write_bulk(data.as_slice(), out),
        RespFrame::NullBulkString(_) => write_absent(TAG_BULK_STRING, out),
        RespFrame::Array(items) => {
            write_count(TAG_ARRAY, items.len(), out);
            write_frames(items, out);
            proof {
                lemma_frames_view(items@);
                assert(final(out)@ =~= old(out)@ + encode_view(frame@));
            }
        },
        RespFrame::NullArray(_) => write_absent(TAG_ARRAY, out),
        RespFrame::Null(_) => {
            out.push(TAG_NULL);
            push_delimiter(out);
            assert(final(out)@ =~= old(out)@ + encode_view(frame@));
        },
        RespFrame::Boolean(b) => write_boolean(*b, out),
        RespFrame::Double(d) => write_double(d, out),
        RespFrame::RespMap(m) => {
            write_count(TAG_MAP, m.0.len(), out);
            write_entries(&m.0, out);
            proof {
                lemma_pairs_view(m.0@);
                assert(final(out)@ =~= old(out)@ + encode_view(frame@));
            }
        },
        RespFrame::RespSet(s) => {
            write_count(TAG_SET, s.0.len(), out);
            write_frames(&s.0, out);
            proof {
                lemma_frames_view(s.0@);
                assert(final(out)@ =~= old(out)@ + encode_view(frame@));
            }
        },
    }
}

/// Appends the bytes of the frames of `items`, in order, to `out`.
pub fn write_frames(items: &Vec<RespFrame>, out: &mut Vec<u8>)
    ensures
        final(out)@ == old(out)@ + encode_all(frames_view(items@)),
    decreases items,
{
    let n: usize = items.len();
    let mut i: usize = 0;
    proof {
        lemma_frames_view(items@);
        assert(frames_view(items@).take(0) =~= Seq::<FrameView>::empty());
        assert(out@ =~= old(out)@ + encode_all(frames_view(items@).take(0)));
    }
    while i < n
        invariant
            n == items@.len(),
            i <= n,
            frames_view(items@).len() == n,
            out@ == old(out)@ + encode_all(frames_view(items@).take(i as int)),
        decreases n - i,
    {
        let ghost before = out@;
        write_frame(&items[i], out);
        proof {
            lemma_frames_view(items@);
            let views = frames_view(items@);
            assert(views.take(i + 1) =~= views.take(i as int).push(views[i as int]));
            lemma_encode_all_push(views.take(i as int), views[i as int]);
            assert(out@ =~= old(out)@ + encode_all(views.take(i + 1)));
        }
        i = i + 1;
    }
    assert(frames_view(items@).take(n as int) =~= frames_view(items@));
}

/// Appends the bytes of the entries of a map, in order, to `out`.
pub fn write_entries(entries: &Vec<(RespFrame, RespFrame)>, out: &mut Vec<u8>)
    ensures
        final(out)@ == old(out)@ + encode_entries(pairs_view(entries@)),
    decreases entries,
{
    let n: usize = entries.len();
    let mut i: usize = 0;
    proof {
        lemma_pairs_view(entries@);
        assert(pairs_view(entries@).take(0) =~= Seq::<(FrameView, FrameView)>::empty());
        assert(out@ =~= old(out)@ + encode_entries(pairs_view(entries@).take(0)));
    }
    while i < n
        invariant
            n == entries@.len(),
            i <= n,
            pairs_view(entries@).len() == n,
            out@ == old(out)@ + encode_entries(pairs_view(entries@).take(i as int)),
        decreases n - i,
    {
        write_frame(&entries[i].0, out);
        write_frame(&entries[i].1, out);
        proof {
            lemma_pairs_view(entries@);
            let views = pairs_view(entries@);
            assert(views.take(i + 1) =~= views.take(i as int).push(views[i as int]));
            lemma_encode_entries_push(views.take(i as int), views[i as int]);
            assert(out@ =~= old(out)@ + encode_entries(views.take(i + 1)));
        }
        i = i + 1;
    }
    assert(pairs_view(entries@).take(n as int) =~= pairs_view(entries@));
}

} // verus!
