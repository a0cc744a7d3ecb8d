//! Whether a stored frame is one that comes back from the wire as it went.
use vstd::prelude::*;
use vstd::utf8::encode_utf8;
use crate::resp::container::{distinct_items, distinct_keys};
use crate::resp::equal::frame_eq;
use crate::resp::frame::{
    frame_view, frames_view, lemma_frames_view, lemma_pairs_view, pairs_view, Double, RespFrame,
};
use crate::resp::laws::{has_crlf, lemma_nests_within_item, nests_within, well_formed};
use crate::resp::wire::{find_crlf, lemma_first_crlf_from};

verus! {

/// Whether `text` holds no CRLF pair.
fn is_one_line(text: &str) -> (r: bool)
    ensures
        r == !has_crlf(encode_utf8(text@)),
{
    let found: Option<usize> = find_crlf(text.as_bytes());
    proof {
        lemma_first_crlf_from(encode_utf8(text@), 0);
    }
    found.is_none()
}

impl Double {
    /// Whether this is the one value that stands for its number.
    pub fn canonical(&self) -> (r: bool)
        ensures
            r == self.is_canonical(),
    {
        match *self {
            Double::Finite { negative, mantissa, exponent } => if mantissa == 0 {
                exponent == 0
            } else {
                mantissa % 10 != 0
            },
            _ => true,
        }
    }
}

/// Whether no frame of `items` has the model of the frame at `index`, before it.
fn is_new_item(items: &Vec<RespFrame>, index: usize) -> (r: bool)
    requires
        index < items@.len(),
    ensures
        r == forall|i: int|
            0 <= i < index ==> frames_view(items@)[i] != frames_view(items@)[index as int],
{
    proof {
        lemma_frames_view(items@);
    }
    let mut i: usize = 0;
    while i < index
        invariant
            index < items@.len(),
            i <= index,
            frames_view(items@).len() == items@.len(),
            forall|j: int|
                0 <= j < items@.len() ==> #[trigger] frames_view(items@)[j] == frame_view(
                    items@[j],
                ),
            forall|j: int|
                0 <= j < i ==> frames_view(items@)[j] != frames_view(items@)[index as int],
        decreases index - i,
    {
        if frame_eq(&items[i], &items[index]) {
            assert(frames_view(items@)[i as int] == frames_view(items@)[index as int]);
            return false;
        }
        i = i + 1;
    }
    true
}

/// Whether no entry of `entries` has the key of the entry at `index`, before it.
fn is_new_key(entries: &Vec<(RespFrame, RespFrame)>, index: usize) -> (r: bool)
    requires
        index < entries@.len(),
    ensures
        r == forall|i: int|
            0 <= i < index ==> pairs_view(entries@)[i].0 != pairs_view(entries@)[index as int].0,
{
    proof {
        lemma_pairs_view(entries@);
    }
    let mut i: usize = 0;
    while i < index
        invariant
            index < entries@.len(),
            i <= index,
            pairs_view(entries@).len() == entries@.len(),
            forall|j: int|
                0 <= j < entries@.len() ==> #[trigger] pairs_view(entries@)[j] == (
                    frame_view(entries@[j].0),
                    frame_view(entries@[j].1),
                ),
            forall|j: int|
                0 <= j < i ==> pairs_view(entries@)[j].0 != pairs_view(
                    entries@,
                )[index as int].0,
        decreases index - i,
    {
        if frame_eq(&entries[i].0, &entries[index].0) {
            assert(pairs_view(entries@)[i as int].0 == pairs_view(entries@)[index as int].0);
            return false;
        }
        i = i + 1;
    }
    true
}

/// Whether each frame of `items` is well-formed; with `distinct`, also
/// whether none of them occurs twice.
fn are_well_formed(items: &Vec<RespFrame>, distinct: bool) -> (r: bool)
    ensures
        r == ((forall|i: int|
            0 <= i < items@.len() ==> well_formed(#[trigger] frames_view(items@)[i])) && (distinct
            ==> distinct_items(frames_view(items@)))),
    decreases items,
{
    proof {
        lemma_frames_view(items@);
    }
    let n: usize = items.len();
    let mut i: usize = 0;
    while i < n
        invariant
            n == items@.len(),
            i <= n,
            frames_view(items@).len() == n,
            forall|j: int|
                0 <= j < n ==> #[trigger] frames_view(items@)[j] == frame_view(items@[j]),
            forall|j: int| 0 <= j < i ==> well_formed(#[trigger] frames_view(items@)[j]),
            distinct ==> forall|j: int, k: int|
                0 <= j < k < i ==> frames_view(items@)[j] != frames_view(items@)[k],
        decreases n - i,
    {
        if !items[i].is_well_formed() {
            assert(!well_formed(frames_view(items@)[i as int]));
            return false;
        }
        if distinct && !is_new_item(items, i) {
            return false;
        }
        i = i + 1;
    }
    true
}

/// Whether the keys and values of `entries` are well-formed, and no key occurs twice.
fn are_well_formed_entries(entries: &Vec<(RespFrame, RespFrame)>) -> (r: bool)
    ensures
        r == ((forall|i: int|
            0 <= i < entries@.len() ==> well_formed((#[trigger] pairs_view(entries@)[i]).0)
                && well_formed(pairs_view(entries@)[i].1)) && distinct_keys(
            pairs_view(entries@),
        )),
    decreases entries,
{
    proof {
        lemma_pairs_view(entries@);
    }
    let n: usize = entries.len();
    let mut i: usize = 0;
    while i < n
        invariant
            n == entries@.len(),
            i <= n,
            pairs_view(entries@).len() == n,
            forall|j: int|
                0 <= j < n ==> #[trigger] pairs_view(entries@)[j] == (
                    frame_view(entries@[j].0),
                    frame_view(entries@[j].1),
                ),
            forall|j: int|
                0 <= j < i ==> well_formed((#[trigger] pairs_view(entries@)[j]).0) && well_formed(
                    pairs_view(entries@)[j].1,
                ),
            forall|j: int, k: int|
                0 <= j < k < i ==> pairs_view(entries@)[j].0 != pairs_view(entries@)[k].0,
        decreases n - i,
    {
        if !entries[i].0.is_well_formed() || !entries[i].1.is_well_formed() {
            assert(!(well_formed(pairs_view(entries@)[i as int].0) && well_formed(
                pairs_view(entries@)[i as int].1,
            )));
            return false;
        }
        if !is_new_key(entries, i) {
            return false;
        }
        i = i + 1;
    }
    true
}

/// Whether the containers among `items` nest no deeper than `depth`.
fn all_nest_within(items: &Vec<RespFrame>, depth: usize) -> (r: bool)
    ensures
        r == forall|i: int|
            0 <= i < items@.len() ==> nests_within(
                #[trigger] frames_view(items@)[i],
                depth as nat,
            ),
    decreases items,
{
    proof {
        lemma_frames_view(items@);
    }
    let n: usize = items.len();
    let mut i: usize = 0;
    while i < n
        invariant
            n == items@.len(),
            i <= n,
            frames_view(items@).len() == n,
            forall|j: int|
                0 <= j < n ==> #[trigger] frames_view(items@)[j] == frame_view(items@[j]),
            forall|j: int|
                0 <= j < i ==> nests_within(#[trigger] frames_view(items@)[j], depth as nat),
        decreases n - i,
    {
        if !items[i].nests_within(depth) {
            assert(!nests_within(frames_view(items@)[i as int], depth as nat));
            return false;
        }
        i = i + 1;
    }
    true
}

/// Whether the containers among the keys and values of `entries` nest no
/// deeper than `depth`.
fn all_entries_nest_within(entries: &Vec<(RespFrame, RespFrame)>, depth: usize) -> (r: bool)
    ensures
        r == forall|i: int|
            0 <= i < entries@.len() ==> nests_within(
                (#[trigger] pairs_view(entries@)[i]).0,
                depth as nat,
            ) && nests_within(pairs_view(entries@)[i].1, depth as nat),
    decreases entries,
{
    proof {
        lemma_pairs_view(entries@);
    }
    let n: usize = entries.len();
    let mut i: usize = 0;
    while i < n
        invariant
            n == entries@.len(),
            i <= n,
            pairs_view(entries@).len() == n,
            forall|j: int|
                0 <= j < n ==> #[trigger] pairs_view(entries@)[j] == (
                    frame_view(entries@[j].0),
                    frame_view(entries@[j].1),
                ),
            forall|j: int|
                0 <= j < i ==> nests_within(
                    (#[trigger] pairs_view(entries@)[j]).0,
                    depth as nat,
                ) && nests_within(pairs_view(entries@)[j].1, depth as nat),
        decreases n - i,
    {
        if !entries[i].0.nests_within(depth) || !entries[i].1.nests_within(depth) {
            assert(!(nests_within(pairs_view(entries@)[i as int].0, depth as nat)
                && nests_within(pairs_view(entries@)[i as int].1, depth as nat)));
            return false;
        }
        i = i + 1;
    }
    true
}

impl RespFrame {
    /// Whether this frame is well-formed: whether, nesting aside, decoding
    /// what it encodes to gives it back.
    pub fn is_well_formed(&self) -> (r: bool)
        ensures
            r == well_formed(self@),
        decreases self,
    {
        match self {
            RespFrame::SimpleString(text) => is_one_line(text.as_str()),
            RespFrame::Error(text) => is_one_line(text.as_str()),
            RespFrame::BulkString(data) => {
                let n: usize = data.len();
                true
            },
            RespFrame::Array(items) => {
                let n: usize = items.len();
                proof {
                    lemma_frames_view(items@);
                }
                are_well_formed(items, false)
            },
            RespFrame::Double(d) => d.canonical(),
            RespFrame::RespMap(entries) => {
                let n: usize = entries.0.len();
                proof {
                    lemma_pairs_view(entries.0@);
                }
                are_well_formed_entries(&entries.0)
            },
            RespFrame::RespSet(members) => {
                let n: usize = members.0.len();
                proof {
                    lemma_frames_view(members.0@);
                }
                are_well_formed(&members.0, true)
            },
            RespFrame::Integer(_) => true,
            RespFrame::NullBulkString(_) => true,
            RespFrame::NullArray(_) => true,
            RespFrame::Null(_) => true,
            RespFrame::Boolean(_) => true,
        }
    }

    /// Whether the containers of this frame nest no deeper than `depth`.
    pub fn nests_within(&self, depth: usize) -> (r: bool)
        ensures
            r == nests_within(self@, depth as nat),
        decreases self,
    {
        match self {
            RespFrame::Array(items) => {
                if depth == 0 {
                    return false;
                }
                let inner: bool = all_nest_within(items, depth - 1);
                proof {
                    let held = frames_view(items@);
                    lemma_frames_view(items@);
                    if nests_within(self@, depth as nat) {
                        assert forall|i: int| 0 <= i < held.len() implies nests_within(
                            #[trigger] held[i],
                            (depth - 1) as nat,
                        ) by {
                            lemma_nests_within_item(self@, depth as nat, i);
                        }
                    }
                }
                inner
            },
            RespFrame::RespMap(entries) => {
                if depth == 0 {
                    return false;
                }
                let inner: bool = all_entries_nest_within(&entries.0, depth - 1);
                proof {
                    let held = pairs_view(entries.0@);
                    lemma_pairs_view(entries.0@);
                    if nests_within(self@, depth as nat) {
                        assert forall|i: int| 0 <= i < held.len() implies nests_within(
                            (#[trigger] held[i]).0,
                            (depth - 1) as nat,
                        ) && nests_within(held[i].1, (depth - 1) as nat) by {
                            lemma_nests_within_item(self@, depth as nat, i);
                        }
                    }
                }
                inner
            },
            RespFrame::RespSet(members) => {
                if depth == 0 {
                    return false;
                }
                let inner: bool = all_nest_within(&members.0, depth - 1);
                proof {
                    let held = frames_view(members.0@);
                    lemma_frames_view(members.0@);
                    if nests_within(self@, depth as nat) {
                        assert forall|i: int| 0 <= i < held.len() implies nests_within(
                            #[trigger] held[i],
                            (depth - 1) as nat,
                        ) by {
                            lemma_nests_within_item(self@, depth as nat, i);
                        }
                    }
                }
                inner
            },
            RespFrame::SimpleString(_) => true,
            RespFrame::Error(_) => true,
            RespFrame::Integer(_) => true,
            RespFrame::BulkString(_) => true,
            RespFrame::NullBulkString(_) => true,
            RespFrame::NullArray(_) => true,
            RespFrame::Null(_) => true,
            RespFrame::Boolean(_) => true,
            RespFrame::Double(_) => true,
        }
    }
}

} // verus!
