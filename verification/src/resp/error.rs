//! Why a buffer did not decode.
use vstd::prelude::*;
use crate::text::{integer_chars, push_integer_chars, push_str};

verus! {

/// The outcome of a decode that produced no frame.
#[derive(PartialEq, Eq, Debug)]
pub enum RespError {
    /// The payload cannot be read as what its tag announces. Fatal.
    InvalidFrame(String),
    /// The tag, or a fixed marker after it, matches no known shape. Fatal.
    InvalidFrameType(String),
    /// A declared length disagrees with what follows it. Fatal.
    InvalidFrameLength(isize),
    /// The buffer is a proper beginning of a frame: more bytes are needed.
    NotComplete,
}

/// The model of a `RespError`.
pub enum RespErrorView {
    InvalidFrame(Seq<char>),
    InvalidFrameType(Seq<char>),
    InvalidFrameLength(int),
    NotComplete,
}

impl View for RespError {
    type V = RespErrorView;

    open spec fn view(&self) -> RespErrorView {
        match self {
            RespError::InvalidFrame(m) => RespErrorView::InvalidFrame(m@),
            RespError::InvalidFrameType(m) => RespErrorView::InvalidFrameType(m@),
            RespError::InvalidFrameLength(n) => RespErrorView::InvalidFrameLength(*n as int),
            RespError::NotComplete => RespErrorView::NotComplete,
        }
    }
}

/// Said of a tag that no frame begins with.
pub const MSG_UNKNOWN_TYPE: &'static str = "not support type";

/// Said of bytes after the tag `_` that are not the delimiter.
pub const MSG_EXPECT_NULL: &'static str = "expect: RespNull(_)";

/// Said of a header that begins with `-` where no absent value is meant.
pub const MSG_NEGATIVE_LENGTH: &'static str = "negative length";

/// Said of a line of text that is not UTF-8.
pub const MSG_TEXT: &'static str = "invalid utf-8 text";

/// Said of an integer payload that is no integer of 64 bits.
pub const MSG_INTEGER: &'static str = "invalid integer";

/// Said of a boolean payload that is neither `t` nor `f`.
pub const MSG_BOOLEAN: &'static str = "expect: bool(t|f)";

/// Said of a header that is no decimal number, or one too large for this machine.
pub const MSG_LENGTH: &'static str = "parse length err";

/// Said of a container nested more deeply than the caller allows.
pub const MSG_DEPTH: &'static str = "nesting too deep";

/// Said where a simple string is asked for and another frame comes.
pub const MSG_EXPECT_SIMPLE_STRING: &'static str = "expect: SimpleString(+)";

/// Said where a simple error is asked for and another frame comes.
pub const MSG_EXPECT_ERROR: &'static str = "expect: SimpleError(-)";

/// Said where an integer is asked for and another frame comes.
pub const MSG_EXPECT_INTEGER: &'static str = "expect: i64(:)";

/// Said where a bulk string is asked for and another frame comes.
pub const MSG_EXPECT_BULK_STRING: &'static str = "expect: Vec<u8>($)";

/// Said where the null bulk string is asked for and another frame comes.
pub const MSG_EXPECT_NULL_BULK_STRING: &'static str = "expect: NullBulkString($-1)";

/// Said where an array is asked for and another frame comes.
pub const MSG_EXPECT_ARRAY: &'static str = "expect: Array(*)";

/// Said where the null array is asked for and another frame comes.
pub const MSG_EXPECT_NULL_ARRAY: &'static str = "expect: NullArray(*-1)";

/// Said where a boolean is asked for and another frame comes.
pub const MSG_EXPECT_BOOLEAN: &'static str = "expect: bool(#)";

/// Said where a double is asked for and another frame comes.
pub const MSG_EXPECT_DOUBLE: &'static str = "expect: Double(,)";

/// Said where a map is asked for and another frame comes.
pub const MSG_EXPECT_MAP: &'static str = "expect: Map(%)";

/// Said where a set is asked for and another frame comes.
pub const MSG_EXPECT_SET: &'static str = "expect: Set(~)";

/// What is said in front of the message of an `InvalidFrame`.
pub const SAID_INVALID_FRAME: &'static str = "Invliad frame: ";

/// What is said in front of the message of an `InvalidFrameType`.
pub const SAID_INVALID_FRAME_TYPE: &'static str = "Invliad frame type: ";

/// What is said in front of the length of an `InvalidFrameLength`.
pub const SAID_INVALID_FRAME_LENGTH: &'static str = "Invliad frame length: ";

/// What is said of a `NotComplete`.
pub const SAID_NOT_COMPLETE: &'static str = "Frame is not complete";

/// What an error says of itself.
pub open spec fn said(e: RespErrorView) -> Seq<char> {
    match e {
        RespErrorView::InvalidFrame(message) => SAID_INVALID_FRAME@ + message,
        RespErrorView::InvalidFrameType(message) => SAID_INVALID_FRAME_TYPE@ + message,
        RespErrorView::InvalidFrameLength(length) => SAID_INVALID_FRAME_LENGTH@ + integer_chars(
            length,
        ),
        RespErrorView::NotComplete => SAID_NOT_COMPLETE@,
    }
}

impl RespError {
    /// What the error says of itself.
    pub fn to_string(&self) -> (text: String)
        ensures
            text@ == said(self@),
    {
        match self {
            RespError::InvalidFrame(message) => {
                let mut text: String = SAID_INVALID_FRAME.to_owned();
                push_str(&mut text, message.as_str());
                text
            },
            RespError::InvalidFrameType(message) => {
                let mut text: String = SAID_INVALID_FRAME_TYPE.to_owned();
                push_str(&mut text, message.as_str());
                text
            },
            RespError::InvalidFrameLength(length) => {
                let mut text: String = SAID_INVALID_FRAME_LENGTH.to_owned();
                push_integer_chars(&mut text, *length as i64);
                text
            },
            RespError::NotComplete => SAID_NOT_COMPLETE.to_owned(),
        }
    }

    /// An `InvalidFrame` with the given message.
    pub fn invalid_frame(message: String) -> (e: RespError)
        ensures
            e@ == RespErrorView::InvalidFrame(message@),
    {
        RespError::InvalidFrame(message)
    }

    /// An `InvalidFrameType` with the given message.
    pub fn invalid_frame_type(message: String) -> (e: RespError)
        ensures
            e@ == RespErrorView::InvalidFrameType(message@),
    {
        RespError::InvalidFrameType(message)
    }

    /// An `InvalidFrameLength` that reports `length`.
    pub fn invalid_frame_length(length: isize) -> (e: RespError)
        ensures
            e@ == RespErrorView::InvalidFrameLength(length as int),
    {
        RespError::InvalidFrameLength(length)
    }

    /// Whether more bytes may still complete the frame.
    pub fn is_retryable(&self) -> (r: bool)
        ensures
            r == (self@ == RespErrorView::NotComplete),
    {
        match self {
            RespError::NotComplete => true,
            _ => false,
        }
    }
}

/// An `InvalidFrame` that says `message`.
pub fn invalid(message: &'static str) -> (e: RespError)
    ensures
        e@ == RespErrorView::InvalidFrame(message@),
{
    RespError::InvalidFrame(message.to_owned())
}

/// An `InvalidFrameType` that says `message`.
pub fn invalid_type(message: &'static str) -> (e: RespError)
    ensures
        e@ == RespErrorView::InvalidFrameType(message@),
{
    RespError::InvalidFrameType(message.to_owned())
}

/// The length that an `InvalidFrameLength` reports for a declared length of `n`.
pub open spec fn reported_length(n: nat) -> int {
    if n <= isize::MAX {
        n as int
    } else {
        isize::MAX as int
    }
}

/// An `InvalidFrameLength` for a declared length of `n`.
pub fn invalid_length(n: usize) -> (e: RespError)
    ensures
        e@ == RespErrorView::InvalidFrameLength(reported_length(n as nat)),
{
    if n <= isize::MAX as usize {
        RespError::InvalidFrameLength(n as isize)
    } else {
        RespError::InvalidFrameLength(isize::MAX)
    }
}

} // verus!
