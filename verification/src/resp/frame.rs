//! The closed set of protocol frames and their mathematical model.
use vstd::prelude::*;

verus! {

/// The tag `+` of a simple string.
pub const TAG_SIMPLE_STRING: u8 = 43;

/// The tag `-` of a simple error.
pub const TAG_ERROR: u8 = 45;

/// The tag `:` of an integer.
pub const TAG_INTEGER: u8 = 58;

/// The tag `$` of a bulk string and of the null bulk string.
pub const TAG_BULK_STRING: u8 = 36;

/// The tag `*` of an array and of the null array.
pub const TAG_ARRAY: u8 = 42;

/// The tag `_` of the null.
pub const TAG_NULL: u8 = 95;

/// The tag `#` of a boolean.
pub const TAG_BOOLEAN: u8 = 35;

/// The tag `,` of a double.
pub const TAG_DOUBLE: u8 = 44;

/// The tag `%` of a map.
pub const TAG_MAP: u8 = 37;

/// The tag `~` of a set.
pub const TAG_SET: u8 = 126;

/// A line of text sent as a status reply.
#[derive(PartialEq, Eq, Hash, Debug, Clone)]
pub struct SimpleString(pub(crate) String);

/// A line of text sent as an error reply.
#[derive(PartialEq, Eq, Hash, Debug, Clone)]
pub struct SimpleError(pub(crate) String);

/// The typed null.
#[derive(PartialEq, Eq, Hash, Debug, Clone, Copy, Default)]
pub struct RespNull;

/// The array that is absent, as opposed to empty.
#[derive(PartialEq, Eq, Hash, Debug, Clone, Copy, Default)]
pub struct NullArray;

/// The bulk string that is absent, as opposed to empty.
#[derive(PartialEq, Eq, Hash, Debug, Clone, Copy, Default)]
pub struct NullBulkString;

/// A decimal number, or one of the three special values. It is held without
/// floating point, so two doubles are equal where they are the same value,
/// `Nan` too, and a double can be the key of a map.
#[derive(PartialEq, Eq, Structural, Hash, Debug, Clone, Copy)]
pub enum Double {
    /// Not a number: also what a payload that is no number reads as.
    Nan,
    /// Infinity, with its sign.
    Infinity { negative: bool },
    /// `mantissa` times ten to the `exponent`, with its sign.
    Finite { negative: bool, mantissa: u64, exponent: i16 },
}

/// Key and value frames in the order in which they were inserted. Any frame
/// can be a key; no key occurs twice.
#[derive(PartialEq, Eq, Hash, Debug)]
pub struct RespMap(pub(crate) Vec<(RespFrame, RespFrame)>);

/// Frames in the order in which they were inserted. No frame occurs twice.
#[derive(PartialEq, Eq, Hash, Debug)]
pub struct RespSet(pub(crate) Vec<RespFrame>);

/// One protocol value.
#[derive(Eq, Hash, Debug)]
pub enum RespFrame {
    SimpleString(SimpleString),
    Error(SimpleError),
    Integer(i64),
    BulkString(Vec<u8>),
    NullBulkString(NullBulkString),
    Array(Vec<RespFrame>),
    NullArray(NullArray),
    Null(RespNull),
    Boolean(bool),
    Double(Double),
    RespMap(RespMap),
    RespSet(RespSet),
}

/// What a frame is, apart from how it is stored.
pub enum FrameView {
    SimpleString(Seq<char>),
    Error(Seq<char>),
    Integer(i64),
    BulkString(Seq<u8>),
    NullBulkString,
    Array(Seq<FrameView>),
    NullArray,
    Null,
    Boolean(bool),
    Double(Double),
    RespMap(Seq<(FrameView, FrameView)>),
    RespSet(Seq<FrameView>),
}

/// The model of one stored frame.
pub open(crate) spec fn frame_view(f: RespFrame) -> FrameView
    decreases f,
{
    match f {
        RespFrame::SimpleString(s) => FrameView::SimpleString(s.0@),
        RespFrame::Error(s) => FrameView::Error(s.0@),
        RespFrame::Integer(v) => FrameView::Integer(v),
        RespFrame::BulkString(b) => FrameView::BulkString(b@),
        RespFrame::NullBulkString(_) => FrameView::NullBulkString,
        RespFrame::Array(items) => FrameView::Array(frames_view(items@)),
        RespFrame::NullArray(_) => FrameView::NullArray,
        RespFrame::Null(_) => FrameView::Null,
        RespFrame::Boolean(b) => FrameView::Boolean(b),
        RespFrame::Double(d) => FrameView::Double(d),
        RespFrame::RespMap(m) => FrameView::RespMap(pairs_view(m.0@)),
        RespFrame::RespSet(s) => FrameView::RespSet(frames_view(s.0@)),
    }
}

/// The models of stored frames, in order.
pub open(crate) spec fn frames_view(items: Seq<RespFrame>) -> Seq<FrameView>
    decreases items,
{
    if items.len() == 0 {
        Seq::empty()
    } else {
        frames_view(items.drop_last()).push(frame_view(items.last()))
    }
}

/// The models of stored entries, in order.
pub open(crate) spec fn pairs_view(entries: Seq<(RespFrame, RespFrame)>) -> Seq<
    (FrameView, FrameView),
>
    decreases entries,
{
    if entries.len() == 0 {
        Seq::empty()
    } else {
        pairs_view(entries.drop_last()).push(
            (frame_view(entries.last().0), frame_view(entries.last().1)),
        )
    }
}

/// The models of stored frames are those of the frames, place by place.
pub proof fn lemma_frames_view(items: Seq<RespFrame>)
    ensures
        frames_view(items).len() == items.len(),
        forall|i: int|
            0 <= i < items.len() ==> #[trigger] frames_view(items)[i] == frame_view(items[i]),
    decreases items.len(),
{
    if items.len() > 0 {
        lemma_frames_view(items.drop_last());
        assert forall|i: int| 0 <= i < items.len() implies #[trigger] frames_view(items)[i]
            == frame_view(items[i]) by {
            if i < items.len() - 1 {
                assert(items.drop_last()[i] == items[i]);
            }
        }
    }
}

/// The models of stored entries are those of their keys and values, place by place.
pub proof fn lemma_pairs_view(entries: Seq<(RespFrame, RespFrame)>)
    ensures
        pairs_view(entries).len() == entries.len(),
        forall|i: int| 0 <= i < entries.len() ==> #[trigger] pairs_view(entries)[i] == (
            frame_view(entries[i].0),
            frame_view(entries[i].1),
        ),
    decreases entries.len(),
{
    if entries.len() > 0 {
        lemma_pairs_view(entries.drop_last());
        assert forall|i: int| 0 <= i < entries.len() implies #[trigger] pairs_view(entries)[i] == (
            frame_view(entries[i].0),
            frame_view(entries[i].1),
        ) by {
            if i < entries.len() - 1 {
                assert(entries.drop_last()[i] == entries[i]);
            }
        }
    }
}

impl View for SimpleString {
    type V = Seq<char>;

    open(crate) spec fn view(&self) -> Seq<char> {
        self.0@
    }
}

impl View for SimpleError {
    type V = Seq<char>;

    open(crate) spec fn view(&self) -> Seq<char> {
        self.0@
    }
}

impl SimpleString {
    /// The simple string that says `text`.
    pub fn new(text: &str) -> (s: SimpleString)
        ensures
            s@ == text@,
    {
        SimpleString(text.to_owned())
    }

    /// What the simple string says.
    pub fn as_str(&self) -> (text: &str)
        ensures
            text@ == self@,
    {
        self.0.as_str()
    }
}

/// The simple string that says `text`. To the verifier `from` says nothing
/// of what it makes; `new` does.
impl From<&str> for SimpleString {
    fn from(text: &str) -> (s: SimpleString) {
        SimpleString::new(text)
    }
}

impl vstd::std_specs::convert::FromSpecImpl<&str> for SimpleString {
    open spec fn obeys_from_spec() -> bool {
        false
    }

    open spec fn from_spec(text: &str) -> SimpleString {
        choose|s: SimpleString| s@ == text@
    }
}

impl SimpleError {
    /// The simple error that says `text`.
    pub fn new(text: &str) -> (s: SimpleError)
        ensures
            s@ == text@,
    {
        SimpleError(text.to_owned())
    }

    /// What the simple error says.
    pub fn as_str(&self) -> (text: &str)
        ensures
            text@ == self@,
    {
        self.0.as_str()
    }
}

impl View for RespFrame {
    type V = FrameView;

    open(crate) spec fn view(&self) -> FrameView {
        frame_view(*self)
    }
}

} // verus!
