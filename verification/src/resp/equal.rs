//! Equality of frames: two frames are equal where their models are.
use vstd::prelude::*;
use vstd::std_specs::cmp::PartialEqSpecImpl;
use crate::resp::frame::{
    frame_view, frames_view, lemma_frames_view, lemma_pairs_view, pairs_view, RespFrame,
};

verus! {

/// Whether two byte strings hold the same bytes.
pub fn bytes_eq(a: &[u8], b: &[u8]) -> (r: bool)
    ensures
        r == (a@ == b@),
{
    let n: usize = a.len();
    if n != b.len() {
        return false;
    }
    let mut i: usize = 0;
    while i < n
        invariant
            n == a@.len(),
            n == b@.len(),
            i <= n,
            forall|j: int| 0 <= j < i ==> a@[j] == b@[j],
        decreases n - i,
    {
        if a[i] != b[i] {
            return false;
        }
        i = i + 1;
    }
    assert(a@ =~= b@);
    true
}

/// Whether two frames have the same model.
pub fn frame_eq(a: &RespFrame, b: &RespFrame) -> (r: bool)
    ensures
        r == (a@ == b@),
    decreases a,
{
    match (a, b) {
        (RespFrame::SimpleString(x), RespFrame::SimpleString(y)) => x.0 == y.0,
        (RespFrame::Error(x), RespFrame::Error(y)) => x.0 == y.0,
        (RespFrame::Integer(x), RespFrame::Integer(y)) => *x == *y,
        (RespFrame::BulkString(x), RespFrame::BulkString(y)) => bytes_eq(
            x.as_slice(),
            y.as_slice(),
        ),
        (RespFrame::NullBulkString(_), RespFrame::NullBulkString(_)) => true,
        (RespFrame::Array(x), RespFrame::Array(y)) => frames_eq(x, y),
        (RespFrame::NullArray(_), RespFrame::NullArray(_)) => true,
        (RespFrame::Null(_), RespFrame::Null(_)) => true,
        (RespFrame::Boolean(x), RespFrame::Boolean(y)) => *x == *y,
        (RespFrame::Double(x), RespFrame::Double(y)) => *x == *y,
        (RespFrame::RespMap(x), RespFrame::RespMap(y)) => entries_eq(&x.0, &y.0),
        (RespFrame::RespSet(x), RespFrame::RespSet(y)) => frames_eq(&x.0, &y.0),
        _ => false,
    }
}

/// Whether two lists of frames have the same models in the same order.
pub fn frames_eq(a: &Vec<RespFrame>, b: &Vec<RespFrame>) -> (r: bool)
    ensures
        r == (frames_view(a@) == frames_view(b@)),
    decreases a,
{
    proof {
        lemma_frames_view(a@);
        lemma_frames_view(b@);
    }
    let n: usize = a.len();
    if n != b.len() {
        return false;
    }
    let mut i: usize = 0;
    while i < n
        invariant
            n == a@.len(),
            n == b@.len(),
            i <= n,
            forall|j: int| 0 <= j < i ==> frame_view(a@[j]) == frame_view(b@[j]),
        decreases n - i,
    {
        if !frame_eq(&a[i], &b[i]) {
            proof {
                lemma_frames_view(a@);
                lemma_frames_view(b@);
                assert(frames_view(a@)[i as int] != frames_view(b@)[i as int]);
            }
            return false;
        }
        i = i + 1;
    }
    proof {
        lemma_frames_view(a@);
        lemma_frames_view(b@);
        assert(frames_view(a@) =~= frames_view(b@));
    }
    true
}

/// Whether two lists of entries have the same models in the same order.
pub fn entries_eq(a: &Vec<(RespFrame, RespFrame)>, b: &Vec<(RespFrame, RespFrame)>) -> (r: bool)
    ensures
        r == (pairs_view(a@) == pairs_view(b@)),
    decreases a,
{
    proof {
        lemma_pairs_view(a@);
        lemma_pairs_view(b@);
    }
    let n: usize = a.len();
    if n != b.len() {
        return false;
    }
    let mut i: usize = 0;
    while i < n
        invariant
            n == a@.len(),
            n == b@.len(),
            i <= n,
            forall|j: int|
                0 <= j < i ==> frame_view(a@[j].0) == frame_view(b@[j].0) && frame_view(a@[j].1)
                    == frame_view(b@[j].1),
        decreases n - i,
    {
        if !frame_eq(&a[i].0, &b[i].0) || !frame_eq(&a[i].1, &b[i].1) {
            proof {
                lemma_pairs_view(a@);
                lemma_pairs_view(b@);
                assert(pairs_view(a@)[i as int] != pairs_view(b@)[i as int]);
            }
            return false;
        }
        i = i + 1;
    }
    proof {
        lemma_pairs_view(a@);
        lemma_pairs_view(b@);
        assert(pairs_view(a@) =~= pairs_view(b@));
    }
    true
}

impl PartialEq for RespFrame {
    fn eq(&self, other: &RespFrame) -> (r: bool) {
        frame_eq(self, other)
    }
}

impl PartialEqSpecImpl for RespFrame {
    open spec fn obeys_eq_spec() -> bool {
        true
    }

    open spec fn eq_spec(&self, other: &RespFrame) -> bool {
        self@ == other@
    }
}

} // verus!
