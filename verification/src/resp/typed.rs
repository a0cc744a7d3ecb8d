//! Encoding and decoding by the type of the value: each type that travels as
//! a frame encodes to that frame and decodes from it alone.
use vstd::prelude::*;
use vstd::pervasive::unreached;
use bytes::BytesMut;
use crate::resp::buffer::{buffer_advance, buffer_as_slice, buffer_bytes};
use crate::resp::decode::{decode_frame, decode_view};
use crate::resp::encode::{encode_bulk, encode_view, write_frame};
use crate::resp::error::{
    invalid_type, RespError, RespErrorView, MSG_EXPECT_ARRAY, MSG_EXPECT_BOOLEAN,
    MSG_EXPECT_BULK_STRING, MSG_EXPECT_DOUBLE, MSG_EXPECT_ERROR, MSG_EXPECT_INTEGER,
    MSG_EXPECT_MAP, MSG_EXPECT_NULL, MSG_EXPECT_NULL_ARRAY, MSG_EXPECT_NULL_BULK_STRING,
    MSG_EXPECT_SET, MSG_EXPECT_SIMPLE_STRING,
};
use crate::resp::frame::{
    frames_view, Double, FrameView, NullArray, NullBulkString, RespFrame, RespMap, RespNull,
    RespSet, SimpleError, SimpleString, TAG_ARRAY, TAG_BOOLEAN, TAG_BULK_STRING, TAG_DOUBLE,
    TAG_ERROR, TAG_INTEGER, TAG_MAP, TAG_NULL, TAG_SET, TAG_SIMPLE_STRING,
};

verus! {

/// How deep containers may nest where the caller names no limit.
pub const MAX_DEPTH: usize = 32;

/// The twelve shapes of a frame.
#[derive(PartialEq, Eq, Structural, Clone, Copy, Debug)]
pub enum FrameKind {
    SimpleString,
    Error,
    Integer,
    BulkString,
    NullBulkString,
    Array,
    NullArray,
    Null,
    Boolean,
    Double,
    RespMap,
    RespSet,
}

/// The shape of `f`.
pub open spec fn kind_of(f: FrameView) -> FrameKind {
    match f {
        FrameView::SimpleString(_) => FrameKind::SimpleString,
        FrameView::Error(_) => FrameKind::Error,
        FrameView::Integer(_) => FrameKind::Integer,
        FrameView::BulkString(_) => FrameKind::BulkString,
        FrameView::NullBulkString => FrameKind::NullBulkString,
        FrameView::Array(_) => FrameKind::Array,
        FrameView::NullArray => FrameKind::NullArray,
        FrameView::Null => FrameKind::Null,
        FrameView::Boolean(_) => FrameKind::Boolean,
        FrameView::Double(_) => FrameKind::Double,
        FrameView::RespMap(_) => FrameKind::RespMap,
        FrameView::RespSet(_) => FrameKind::RespSet,
    }
}

/// The tag that a frame of shape `kind` begins with.
pub open spec fn kind_tag(kind: FrameKind) -> u8 {
    match kind {
        FrameKind::SimpleString => TAG_SIMPLE_STRING,
        FrameKind::Error => TAG_ERROR,
        FrameKind::Integer => TAG_INTEGER,
        FrameKind::BulkString => TAG_BULK_STRING,
        FrameKind::NullBulkString => TAG_BULK_STRING,
        FrameKind::Array => TAG_ARRAY,
        FrameKind::NullArray => TAG_ARRAY,
        FrameKind::Null => TAG_NULL,
        FrameKind::Boolean => TAG_BOOLEAN,
        FrameKind::Double => TAG_DOUBLE,
        FrameKind::RespMap => TAG_MAP,
        FrameKind::RespSet => TAG_SET,
    }
}

/// What is said where a frame of shape `kind` is asked for and another comes.
pub open spec fn kind_message(kind: FrameKind) -> Seq<char> {
    match kind {
        FrameKind::SimpleString => MSG_EXPECT_SIMPLE_STRING@,
        FrameKind::Error => MSG_EXPECT_ERROR@,
        FrameKind::Integer => MSG_EXPECT_INTEGER@,
        FrameKind::BulkString => MSG_EXPECT_BULK_STRING@,
        FrameKind::NullBulkString => MSG_EXPECT_NULL_BULK_STRING@,
        FrameKind::Array => MSG_EXPECT_ARRAY@,
        FrameKind::NullArray => MSG_EXPECT_NULL_ARRAY@,
        FrameKind::Null => MSG_EXPECT_NULL@,
        FrameKind::Boolean => MSG_EXPECT_BOOLEAN@,
        FrameKind::Double => MSG_EXPECT_DOUBLE@,
        FrameKind::RespMap => MSG_EXPECT_MAP@,
        FrameKind::RespSet => MSG_EXPECT_SET@,
    }
}

/// The frame of shape `kind` that `buf` begins with, and the number of bytes
/// that it takes. Another tag, or another shape under the same tag, is an
/// `InvalidFrameType`; the tag is looked at before anything else.
pub open spec fn decode_typed(buf: Seq<u8>, kind: FrameKind, depth: nat) -> Result<
    (FrameView, int),
    RespErrorView,
> {
    if buf.len() == 0 {
        Err(RespErrorView::NotComplete)
    } else if buf[0] != kind_tag(kind) {
        Err(RespErrorView::InvalidFrameType(kind_message(kind)))
    } else {
        match decode_view(buf, depth) {
            Ok((frame, used)) => if kind_of(frame) == kind {
                Ok((frame, used))
            } else {
                Err(RespErrorView::InvalidFrameType(kind_message(kind)))
            },
            Err(e) => Err(e),
        }
    }
}

impl FrameKind {
    /// The tag that a frame of this shape begins with.
    pub fn tag(self) -> (t: u8)
        ensures
            t == kind_tag(self),
    {
        match self {
            FrameKind::SimpleString => TAG_SIMPLE_STRING,
            FrameKind::Error => TAG_ERROR,
            FrameKind::Integer => TAG_INTEGER,
            FrameKind::BulkString => TAG_BULK_STRING,
            FrameKind::NullBulkString => TAG_BULK_STRING,
            FrameKind::Array => TAG_ARRAY,
            FrameKind::NullArray => TAG_ARRAY,
            FrameKind::Null => TAG_NULL,
            FrameKind::Boolean => TAG_BOOLEAN,
            FrameKind::Double => TAG_DOUBLE,
            FrameKind::RespMap => TAG_MAP,
            FrameKind::RespSet => TAG_SET,
        }
    }

    /// What is said where a frame of this shape is asked for and another comes.
    pub fn expectation(self) -> (m: &'static str)
        ensures
            m@ == kind_message(self),
    {
        match self {
            FrameKind::SimpleString => MSG_EXPECT_SIMPLE_STRING,
            FrameKind::Error => MSG_EXPECT_ERROR,
            FrameKind::Integer => MSG_EXPECT_INTEGER,
            FrameKind::BulkString => MSG_EXPECT_BULK_STRING,
            FrameKind::NullBulkString => MSG_EXPECT_NULL_BULK_STRING,
            FrameKind::Array => MSG_EXPECT_ARRAY,
            FrameKind::NullArray => MSG_EXPECT_NULL_ARRAY,
            FrameKind::Null => MSG_EXPECT_NULL,
            FrameKind::Boolean => MSG_EXPECT_BOOLEAN,
            FrameKind::Double => MSG_EXPECT_DOUBLE,
            FrameKind::RespMap => MSG_EXPECT_MAP,
            FrameKind::RespSet => MSG_EXPECT_SET,
        }
    }
}

impl RespFrame {
    /// The shape of this frame.
    pub fn kind(&self) -> (k: FrameKind)
        ensures
            k == kind_of(self@),
    {
        match self {
            RespFrame::SimpleString(_) => FrameKind::SimpleString,
            RespFrame::Error(_) => FrameKind::Error,
            RespFrame::Integer(_) => FrameKind::Integer,
            RespFrame::BulkString(_) => FrameKind::BulkString,
            RespFrame::NullBulkString(_) => FrameKind::NullBulkString,
            RespFrame::Array(_) => FrameKind::Array,
            RespFrame::NullArray(_) => FrameKind::NullArray,
            RespFrame::Null(_) => FrameKind::Null,
            RespFrame::Boolean(_) => FrameKind::Boolean,
            RespFrame::Double(_) => FrameKind::Double,
            RespFrame::RespMap(_) => FrameKind::RespMap,
            RespFrame::RespSet(_) => FrameKind::RespSet,
        }
    }

    /// Decodes the frame at the head of `buf` and takes its bytes out of the
    /// buffer. Where no frame comes out, the buffer stays as it was.
    pub fn take_from(buf: &mut BytesMut, depth: usize) -> (r: Result<RespFrame, RespError>)
        ensures
            match decode_view(buffer_bytes(*old(buf)), depth as nat) {
                Ok((frame, used)) => match r {
                    Ok(taken) => taken@ == frame && buffer_bytes(*final(buf)) == buffer_bytes(
                        *old(buf),
                    ).skip(used),
                    Err(e) => false,
                },
                Err(failure) => match r {
                    Ok(taken) => false,
                    Err(e) => e@ == failure && buffer_bytes(*final(buf)) == buffer_bytes(
                        *old(buf),
                    ),
                },
            },
    {
        match decode_frame(buffer_as_slice(buf), depth) {
            Ok((frame, used)) => {
                buffer_advance(buf, used);
                Ok(frame)
            },
            Err(e) => Err(e),
        }
    }
}

/// Decodes the frame of shape `kind` at the head of `buf`.
pub fn decode_expecting(buf: &[u8], kind: FrameKind, depth: usize) -> (r: Result<
    (RespFrame, usize),
    RespError,
>)
    ensures
        match r {
            Ok((frame, used)) => decode_typed(buf@, kind, depth as nat) == Ok::<
                (FrameView, int),
                RespErrorView,
            >((frame@, used as int)) && used <= buf@.len() && kind_of(frame@) == kind,
            Err(e) => decode_typed(buf@, kind, depth as nat) == Err::<
                (FrameView, int),
                RespErrorView,
            >(e@),
        },
{
    if buf.len() == 0 {
        return Err(RespError::NotComplete);
    }
    if buf[0] != kind.tag() {
        return Err(invalid_type(kind.expectation()));
    }
    match decode_frame(buf, depth) {
        Ok((frame, used)) => if frame.kind() == kind {
            Ok((frame, used))
        } else {
            Err(invalid_type(kind.expectation()))
        },
        Err(e) => Err(e),
    }
}

/// A value that travels as one frame.
pub trait RespValue {
    /// The frame that `self` travels as.
    spec fn as_frame(&self) -> FrameView;
}

/// A value with exact bytes on the wire.
pub trait RespEncode: RespValue + Sized {
    /// The bytes of the frame that `self` travels as.
    fn encode(self) -> (out: Vec<u8>)
        ensures
            out@ == encode_view(self.as_frame()),
    ;
}

/// A value that is read from the head of a buffer.
pub trait RespDecode: RespValue + Sized {
    /// What decoding a value of this type from `buf` comes to: its frame and
    /// the number of bytes taken, or why there is none.
    spec fn decoded(buf: Seq<u8>) -> Result<(FrameView, int), RespErrorView>;

    /// Decodes the value at the head of `buf` and says how many bytes it
    /// took. `NotComplete` asks for more bytes; the other errors are final.
    fn decode(buf: &BytesMut) -> (r: Result<(Self, usize), RespError>)
        ensures
            match r {
                Ok((value, used)) => Self::decoded(buffer_bytes(*buf)) == Ok::<
                    (FrameView, int),
                    RespErrorView,
                >((value.as_frame(), used as int)) && used <= buffer_bytes(*buf).len(),
                Err(e) => Self::decoded(buffer_bytes(*buf)) == Err::<
                    (FrameView, int),
                    RespErrorView,
                >(e@),
            },
    ;
}

impl RespValue for RespFrame {
    open spec fn as_frame(&self) -> FrameView {
        self@
    }
}

impl RespEncode for RespFrame {
    fn encode(self) -> (out: Vec<u8>) {
        let mut out: Vec<u8> = Vec::new();
        write_frame(&self, &mut out);
        assert(out@ =~= encode_view(self@));
        out
    }
}

impl RespDecode for RespFrame {
    open spec fn decoded(buf: Seq<u8>) -> Result<(FrameView, int), RespErrorView> {
        decode_view(buf, MAX_DEPTH as nat)
    }

    fn decode(buf: &BytesMut) -> (r: Result<(RespFrame, usize), RespError>) {
        decode_frame(buffer_as_slice(buf), MAX_DEPTH)
    }
}

impl RespValue for SimpleString {
    open spec fn as_frame(&self) -> FrameView {
        FrameView::SimpleString(self@)
    }
}

impl RespEncode for SimpleString {
    fn encode(self) -> (out: Vec<u8>) {
        RespFrame::SimpleString(self).encode()
    }
}

impl RespDecode for SimpleString {
    open spec fn decoded(buf: Seq<u8>) -> Result<(FrameView, int), RespErrorView> {
        decode_typed(buf, FrameKind::SimpleString, MAX_DEPTH as nat)
    }

    fn decode(buf: &BytesMut) -> (r: Result<(SimpleString, usize), RespError>) {
        match decode_expecting(buffer_as_slice(buf), FrameKind::SimpleString, MAX_DEPTH) {
            Ok((RespFrame::SimpleString(value), used)) => Ok((value, used)),
            Ok(_) => unreached(),
            Err(e) => Err(e),
        }
    }
}

impl RespValue for SimpleError {
    open spec fn as_frame(&self) -> FrameView {
        FrameView::Error(self@)
    }
}

impl RespEncode for SimpleError {
    fn encode(self) -> (out: Vec<u8>) {
        RespFrame::Error(self).encode()
    }
}

impl RespDecode for SimpleError {
    open spec fn decoded(buf: Seq<u8>) -> Result<(FrameView, int), RespErrorView> {
        decode_typed(buf, FrameKind::Error, MAX_DEPTH as nat)
    }

    fn decode(buf: &BytesMut) -> (r: Result<(SimpleError, usize), RespError>) {
        match decode_expecting(buffer_as_slice(buf), FrameKind::Error, MAX_DEPTH) {
            Ok((RespFrame::Error(value), used)) => Ok((value, used)),
            Ok(_) => unreached(),
            Err(e) => Err(e),
        }
    }
}

impl RespValue for i64 {
    open spec fn as_frame(&self) -> FrameView {
        FrameView::Integer(*self)
    }
}

impl RespEncode for i64 {
    fn encode(self) -> (out: Vec<u8>) {
        RespFrame::Integer(self).encode()
    }
}

impl RespDecode for i64 {
    open spec fn decoded(buf: Seq<u8>) -> Result<(FrameView, int), RespErrorView> {
        decode_typed(buf, FrameKind::Integer, MAX_DEPTH as nat)
    }

    fn decode(buf: &BytesMut) -> (r: Result<(i64, usize), RespError>) {
        match decode_expecting(buffer_as_slice(buf), FrameKind::Integer, MAX_DEPTH) {
            Ok((RespFrame::Integer(value), used)) => Ok((value, used)),
            Ok(_) => unreached(),
            Err(e) => Err(e),
        }
    }
}

impl RespValue for Vec<u8> {
    open spec fn as_frame(&self) -> FrameView {
        FrameView::BulkString(self@)
    }
}

impl RespEncode for Vec<u8> {
    fn encode(self) -> (out: Vec<u8>) {
        encode_bulk(self.as_slice())
    }
}

impl RespDecode for Vec<u8> {
    open spec fn decoded(buf: Seq<u8>) -> Result<(FrameView, int), RespErrorView> {
        decode_typed(buf, FrameKind::BulkString, MAX_DEPTH as nat)
    }

    fn decode(buf: &BytesMut) -> (r: Result<(Vec<u8>, usize), RespError>) {
        match decode_expecting(buffer_as_slice(buf), FrameKind::BulkString, MAX_DEPTH) {
            Ok((RespFrame::BulkString(value), used)) => Ok((value, used)),
            Ok(_) => unreached(),
            Err(e) => Err(e),
        }
    }
}

impl RespValue for NullBulkString {
    open spec fn as_frame(&self) -> FrameView {
        FrameView::NullBulkString
    }
}

impl RespEncode for NullBulkString {
    fn encode(self) -> (out: Vec<u8>) {
        RespFrame::NullBulkString(self).encode()
    }
}

impl RespDecode for NullBulkString {
    open spec fn decoded(buf: Seq<u8>) -> Result<(FrameView, int), RespErrorView> {
        decode_typed(buf, FrameKind::NullBulkString, MAX_DEPTH as nat)
    }

    fn decode(buf: &BytesMut) -> (r: Result<(NullBulkString, usize), RespError>) {
        match decode_expecting(buffer_as_slice(buf), FrameKind::NullBulkString, MAX_DEPTH) {
            Ok((RespFrame::NullBulkString(value), used)) => Ok((value, used)),
            Ok(_) => unreached(),
            Err(e) => Err(e),
        }
    }
}

impl RespValue for Vec<RespFrame> {
    open spec fn as_frame(&self) -> FrameView {
        FrameView::Array(frames_view(self@))
    }
}

impl RespEncode for Vec<RespFrame> {
    fn encode(self) -> (out: Vec<u8>) {
        RespFrame::Array(self).encode()
    }
}

impl RespDecode for Vec<RespFrame> {
    open spec fn decoded(buf: Seq<u8>) -> Result<(FrameView, int), RespErrorView> {
        decode_typed(buf, FrameKind::Array, MAX_DEPTH as nat)
    }

    fn decode(buf: &BytesMut) -> (r: Result<(Vec<RespFrame>, usize), RespError>) {
        match decode_expecting(buffer_as_slice(buf), FrameKind::Array, MAX_DEPTH) {
            Ok((RespFrame::Array(value), used)) => Ok((value, used)),
            Ok(_) => unreached(),
            Err(e) => Err(e),
        }
    }
}

impl RespValue for NullArray {
    open spec fn as_frame(&self) -> FrameView {
        FrameView::NullArray
    }
}

impl RespEncode for NullArray {
    fn encode(self) -> (out: Vec<u8>) {
        RespFrame::NullArray(self).encode()
    }
}

impl RespDecode for NullArray {
    open spec fn decoded(buf: Seq<u8>) -> Result<(FrameView, int), RespErrorView> {
        decode_typed(buf, FrameKind::NullArray, MAX_DEPTH as nat)
    }

    fn decode(buf: &BytesMut) -> (r: Result<(NullArray, usize), RespError>) {
        match decode_expecting(buffer_as_slice(buf), FrameKind::NullArray, MAX_DEPTH) {
            Ok((RespFrame::NullArray(value), used)) => Ok((value, used)),
            Ok(_) => unreached(),
            Err(e) => Err(e),
        }
    }
}

impl RespValue for RespNull {
    open spec fn as_frame(&self) -> FrameView {
        FrameView::Null
    }
}

impl RespEncode for RespNull {
    fn encode(self) -> (out: Vec<u8>) {
        RespFrame::Null(self).encode()
    }
}

impl RespDecode for RespNull {
    open spec fn decoded(buf: Seq<u8>) -> Result<(FrameView, int), RespErrorView> {
        decode_typed(buf, FrameKind::Null, MAX_DEPTH as nat)
    }

    fn decode(buf: &BytesMut) -> (r: Result<(RespNull, usize), RespError>) {
        match decode_expecting(buffer_as_slice(buf), FrameKind::Null, MAX_DEPTH) {
            Ok((RespFrame::Null(value), used)) => Ok((value, used)),
            Ok(_) => unreached(),
            Err(e) => Err(e),
        }
    }
}

impl RespValue for bool {
    open spec fn as_frame(&self) -> FrameView {
        FrameView::Boolean(*self)
    }
}

impl RespEncode for bool {
    fn encode(self) -> (out: Vec<u8>) {
        RespFrame::Boolean(self).encode()
    }
}

impl RespDecode for bool {
    open spec fn decoded(buf: Seq<u8>) -> Result<(FrameView, int), RespErrorView> {
        decode_typed(buf, FrameKind::Boolean, MAX_DEPTH as nat)
    }

    fn decode(buf: &BytesMut) -> (r: Result<(bool, usize), RespError>) {
        match decode_expecting(buffer_as_slice(buf), FrameKind::Boolean, MAX_DEPTH) {
            Ok((RespFrame::Boolean(value), used)) => Ok((value, used)),
            Ok(_) => unreached(),
            Err(e) => Err(e),
        }
    }
}

impl RespValue for Double {
    open spec fn as_frame(&self) -> FrameView {
        FrameView::Double(*self)
    }
}

impl RespEncode for Double {
    fn encode(self) -> (out: Vec<u8>) {
        RespFrame::Double(self).encode()
    }
}

impl RespDecode for Double {
    open spec fn decoded(buf: Seq<u8>) -> Result<(FrameView, int), RespErrorView> {
        decode_typed(buf, FrameKind::Double, MAX_DEPTH as nat)
    }

    fn decode(buf: &BytesMut) -> (r: Result<(Double, usize), RespError>) {
        match decode_expecting(buffer_as_slice(buf), FrameKind::Double, MAX_DEPTH) {
            Ok((RespFrame::Double(value), used)) => Ok((value, used)),
            Ok(_) => unreached(),
            Err(e) => Err(e),
        }
    }
}

impl RespValue for RespMap {
    open spec fn as_frame(&self) -> FrameView {
        FrameView::RespMap(self@)
    }
}

impl RespEncode for RespMap {
    fn encode(self) -> (out: Vec<u8>) {
        RespFrame::RespMap(self).encode()
    }
}

impl RespDecode for RespMap {
    open spec fn decoded(buf: Seq<u8>) -> Result<(FrameView, int), RespErrorView> {
        decode_typed(buf, FrameKind::RespMap, MAX_DEPTH as nat)
    }

    fn decode(buf: &BytesMut) -> (r: Result<(RespMap, usize), RespError>) {
        match decode_expecting(buffer_as_slice(buf), FrameKind::RespMap, MAX_DEPTH) {
            Ok((RespFrame::RespMap(value), used)) => Ok((value, used)),
            Ok(_) => unreached(),
            Err(e) => Err(e),
        }
    }
}

impl RespValue for RespSet {
    open spec fn as_frame(&self) -> FrameView {
        FrameView::RespSet(self@)
    }
}

impl RespEncode for RespSet {
    fn encode(self) -> (out: Vec<u8>) {
        RespFrame::RespSet(self).encode()
    }
}

impl RespDecode for RespSet {
    open spec fn decoded(buf: Seq<u8>) -> Result<(FrameView, int), RespErrorView> {
        decode_typed(buf, FrameKind::RespSet, MAX_DEPTH as nat)
    }

    fn decode(buf: &BytesMut) -> (r: Result<(RespSet, usize), RespError>) {
        match decode_expecting(buffer_as_slice(buf), FrameKind::RespSet, MAX_DEPTH) {
            Ok((RespFrame::RespSet(value), used)) => Ok((value, used)),
            Ok(_) => unreached(),
            Err(e) => Err(e),
        }
    }
}

} // verus!
