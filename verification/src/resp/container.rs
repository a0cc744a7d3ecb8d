//! Maps and sets of frames: no key and no member occurs twice, and what was
//! inserted first stays first.
use vstd::prelude::*;
use crate::resp::equal::frame_eq;
use crate::resp::frame::{
    frames_view, lemma_frames_view, lemma_pairs_view, pairs_view, FrameView, RespFrame, RespMap,
    RespSet,
};

verus! {

/// Whether no key occurs twice in `entries`.
pub open spec fn distinct_keys(entries: Seq<(FrameView, FrameView)>) -> bool {
    forall|i: int, j: int| 0 <= i < j < entries.len() ==> entries[i].0 != entries[j].0
}

/// Whether no frame occurs twice in `items`.
pub open spec fn distinct_items(items: Seq<FrameView>) -> bool {
    forall|i: int, j: int| 0 <= i < j < items.len() ==> items[i] != items[j]
}

/// Index of the first entry of `entries` at `from` or later whose key is `key`.
pub open spec fn key_position(
    entries: Seq<(FrameView, FrameView)>,
    key: FrameView,
    from: int,
) -> Option<int>
    decreases entries.len() - from,
{
    if from < 0 || from >= entries.len() {
        None
    } else if entries[from].0 == key {
        Some(from)
    } else {
        key_position(entries, key, from + 1)
    }
}

/// Index of the first frame of `items` at `from` or later that is `item`.
pub open spec fn item_position(items: Seq<FrameView>, item: FrameView, from: int) -> Option<int>
    decreases items.len() - from,
{
    if from < 0 || from >= items.len() {
        None
    } else if items[from] == item {
        Some(from)
    } else {
        item_position(items, item, from + 1)
    }
}

/// The entries after `key` is given `value`: in the place of the entry that
/// had the key, or at the end where there was none.
pub open spec fn with_entry(
    entries: Seq<(FrameView, FrameView)>,
    key: FrameView,
    value: FrameView,
) -> Seq<(FrameView, FrameView)> {
    match key_position(entries, key, 0) {
        Some(i) => entries.update(i, (key, value)),
        None => entries.push((key, value)),
    }
}

/// The members after `item` is added: unchanged where it was one already.
pub open spec fn with_item(items: Seq<FrameView>, item: FrameView) -> Seq<FrameView> {
    match item_position(items, item, 0) {
        Some(i) => items,
        None => items.push(item),
    }
}

/// The entries of the map that takes the entries of `raw` one after the other.
pub open spec fn collect_entries(raw: Seq<(FrameView, FrameView)>) -> Seq<(FrameView, FrameView)>
    decreases raw.len(),
{
    if raw.len() == 0 {
        Seq::empty()
    } else {
        with_entry(collect_entries(raw.drop_last()), raw.last().0, raw.last().1)
    }
}

/// The members of the set that takes the frames of `raw` one after the other.
pub open spec fn collect_items(raw: Seq<FrameView>) -> Seq<FrameView>
    decreases raw.len(),
{
    if raw.len() == 0 {
        Seq::empty()
    } else {
        with_item(collect_items(raw.drop_last()), raw.last())
    }
}

/// What `key_position` returns, said without recursion.
pub proof fn lemma_key_position(entries: Seq<(FrameView, FrameView)>, key: FrameView, from: int)
    requires
        0 <= from,
    ensures
        match key_position(entries, key, from) {
            Some(i) => from <= i < entries.len() && entries[i].0 == key && forall|j: int|
                from <= j < i ==> entries[j].0 != key,
            None => forall|j: int| from <= j < entries.len() ==> entries[j].0 != key,
        },
    decreases entries.len() - from,
{
    if from < entries.len() && entries[from].0 != key {
        lemma_key_position(entries, key, from + 1);
    }
}

/// What `item_position` returns, said without recursion.
pub proof fn lemma_item_position(items: Seq<FrameView>, item: FrameView, from: int)
    requires
        0 <= from,
    ensures
        match item_position(items, item, from) {
            Some(i) => from <= i < items.len() && items[i] == item && forall|j: int|
                from <= j < i ==> items[j] != item,
            None => forall|j: int| from <= j < items.len() ==> items[j] != item,
        },
    decreases items.len() - from,
{
    if from < items.len() && items[from] != item {
        lemma_item_position(items, item, from + 1);
    }
}

/// Giving a key a value leaves no key twice.
pub proof fn lemma_with_entry_distinct(
    entries: Seq<(FrameView, FrameView)>,
    key: FrameView,
    value: FrameView,
)
    requires
        distinct_keys(entries),
    ensures
        distinct_keys(with_entry(entries, key, value)),
{
    lemma_key_position(entries, key, 0);
}

/// Adding a member leaves no member twice.
pub proof fn lemma_with_item_distinct(items: Seq<FrameView>, item: FrameView)
    requires
        distinct_items(items),
    ensures
        distinct_items(with_item(items, item)),
{
    lemma_item_position(items, item, 0);
}

/// What was collected has no key twice; entries without a key twice are
/// collected as they stand.
pub proof fn lemma_collect_entries(raw: Seq<(FrameView, FrameView)>)
    ensures
        distinct_keys(collect_entries(raw)),
        distinct_keys(raw) ==> collect_entries(raw) == raw,
    decreases raw.len(),
{
    if raw.len() > 0 {
        let shorter = raw.drop_last();
        lemma_collect_entries(shorter);
        lemma_with_entry_distinct(collect_entries(shorter), raw.last().0, raw.last().1);
        if distinct_keys(raw) {
            assert(distinct_keys(shorter)) by {
                assert forall|i: int, j: int| 0 <= i < j < shorter.len() implies shorter[i].0
                    != shorter[j].0 by {
                    assert(shorter[i] == raw[i] && shorter[j] == raw[j]);
                }
            }
            lemma_key_position(shorter, raw.last().0, 0);
            assert forall|j: int| 0 <= j < shorter.len() implies shorter[j].0 != raw.last().0 by {
                assert(shorter[j] == raw[j]);
            }
            assert(shorter.push(raw.last()) =~= raw);
        }
    } else {
        assert(raw =~= Seq::<(FrameView, FrameView)>::empty());
    }
}

/// What was collected has no member twice; frames without one twice are
/// collected as they stand.
pub proof fn lemma_collect_items(raw: Seq<FrameView>)
    ensures
        distinct_items(collect_items(raw)),
        distinct_items(raw) ==> collect_items(raw) == raw,
    decreases raw.len(),
{
    if raw.len() > 0 {
        let shorter = raw.drop_last();
        lemma_collect_items(shorter);
        lemma_with_item_distinct(collect_items(shorter), raw.last());
        if distinct_items(raw) {
            assert(distinct_items(shorter)) by {
                assert forall|i: int, j: int| 0 <= i < j < shorter.len() implies shorter[i]
                    != shorter[j] by {
                    assert(shorter[i] == raw[i] && shorter[j] == raw[j]);
                }
            }
            lemma_item_position(shorter, raw.last(), 0);
            assert forall|j: int| 0 <= j < shorter.len() implies shorter[j] != raw.last() by {
                assert(shorter[j] == raw[j]);
            }
            assert(shorter.push(raw.last()) =~= raw);
        }
    } else {
        assert(raw =~= Seq::<FrameView>::empty());
    }
}

/// Every entry that was collected is one of those handed in, and there are
/// no more of them.
pub proof fn lemma_collect_entries_from(raw: Seq<(FrameView, FrameView)>)
    ensures
        collect_entries(raw).len() <= raw.len(),
        forall|i: int|
            0 <= i < collect_entries(raw).len() ==> raw.contains(
                #[trigger] collect_entries(raw)[i],
            ),
    decreases raw.len(),
{
    if raw.len() > 0 {
        let shorter = raw.drop_last();
        let before = collect_entries(shorter);
        lemma_collect_entries_from(shorter);
        lemma_key_position(before, raw.last().0, 0);
        assert forall|i: int| 0 <= i < collect_entries(raw).len() implies raw.contains(
            #[trigger] collect_entries(raw)[i],
        ) by {
            let entry = collect_entries(raw)[i];
            if entry == raw.last() {
                assert(raw[raw.len() - 1] == entry);
            } else {
                assert(i < before.len() && before[i] == entry);
                assert(shorter.contains(before[i]));
                let j = choose|j: int| 0 <= j < shorter.len() && shorter[j] == entry;
                assert(raw[j] == entry);
            }
        }
    }
}

/// Every member that was collected is one of the frames handed in, and there
/// are no more of them.
pub proof fn lemma_collect_items_from(raw: Seq<FrameView>)
    ensures
        collect_items(raw).len() <= raw.len(),
        forall|i: int|
            0 <= i < collect_items(raw).len() ==> raw.contains(#[trigger] collect_items(raw)[i]),
    decreases raw.len(),
{
    if raw.len() > 0 {
        let shorter = raw.drop_last();
        let before = collect_items(shorter);
        lemma_collect_items_from(shorter);
        lemma_item_position(before, raw.last(), 0);
        assert forall|i: int| 0 <= i < collect_items(raw).len() implies raw.contains(
            #[trigger] collect_items(raw)[i],
        ) by {
            let item = collect_items(raw)[i];
            if i < before.len() {
                assert(before[i] == item);
                assert(shorter.contains(before[i]));
                let j = choose|j: int| 0 <= j < shorter.len() && shorter[j] == item;
                assert(raw[j] == item);
            } else {
                assert(raw[raw.len() - 1] == item);
            }
        }
    }
}

impl View for RespMap {
    type V = Seq<(FrameView, FrameView)>;

    open(crate) spec fn view(&self) -> Seq<(FrameView, FrameView)> {
        pairs_view(self.0@)
    }
}

impl View for RespSet {
    type V = Seq<FrameView>;

    open(crate) spec fn view(&self) -> Seq<FrameView> {
        frames_view(self.0@)
    }
}

/// The model of a frame, by what it holds.
pub proof fn lemma_frame_view(frame: RespFrame)
    ensures
        frame@ == match frame {
            RespFrame::SimpleString(text) => FrameView::SimpleString(text@),
            RespFrame::Error(text) => FrameView::Error(text@),
            RespFrame::Integer(v) => FrameView::Integer(v),
            RespFrame::BulkString(data) => FrameView::BulkString(data@),
            RespFrame::NullBulkString(_) => FrameView::NullBulkString,
            RespFrame::Array(items) => FrameView::Array(frames_view(items@)),
            RespFrame::NullArray(_) => FrameView::NullArray,
            RespFrame::Null(_) => FrameView::Null,
            RespFrame::Boolean(b) => FrameView::Boolean(b),
            RespFrame::Double(d) => FrameView::Double(d),
            RespFrame::RespMap(entries) => FrameView::RespMap(entries@),
            RespFrame::RespSet(members) => FrameView::RespSet(members@),
        },
{
}

impl RespMap {
    /// A map without entries.
    pub fn new() -> (m: RespMap)
        ensures
            m@ == Seq::<(FrameView, FrameView)>::empty(),
    {
        let m = RespMap(Vec::new());
        assert(m@ =~= Seq::<(FrameView, FrameView)>::empty());
        m
    }

    /// The number of entries.
    pub fn len(&self) -> (n: usize)
        ensures
            n == self@.len(),
    {
        proof {
            lemma_pairs_view(self.0@);
        }
        self.0.len()
    }

    /// Index of the entry whose key is `key`.
    fn position(&self, key: &RespFrame) -> (r: Option<usize>)
        ensures
            match r {
                Some(i) => key_position(self@, key@, 0) == Some(i as int) && i < self.0@.len(),
                None => key_position(self@, key@, 0) is None,
            },
    {
        proof {
            lemma_pairs_view(self.0@);
        }
        let n: usize = self.0.len();
        let mut i: usize = 0;
        while i < n
            invariant
                n == self.0@.len(),
                n == self@.len(),
                i <= n,
                key_position(self@, key@, 0) == key_position(self@, key@, i as int),
            decreases n - i,
        {
            proof {
                lemma_pairs_view(self.0@);
            }
            if frame_eq(&self.0[i].0, key) {
                return Some(i);
            }
            i = i + 1;
        }
        None
    }

    /// The value under `key`.
    pub fn get(&self, key: &RespFrame) -> (r: Option<&RespFrame>)
        ensures
            match r {
                Some(value) => match key_position(self@, key@, 0) {
                    Some(i) => value@ == self@[i].1,
                    None => false,
                },
                None => key_position(self@, key@, 0) is None,
            },
    {
        proof {
            lemma_pairs_view(self.0@);
        }
        match self.position(key) {
            Some(i) => Some(&self.0[i].1),
            None => None,
        }
    }

    /// Puts `value` under `key`, and returns the value that was there before.
    /// A new key goes to the end; a key that is there keeps its place.
    pub fn insert(&mut self, key: RespFrame, value: RespFrame) -> (r: Option<RespFrame>)
        ensures
            final(self)@ == with_entry(old(self)@, key@, value@),
            distinct_keys(old(self)@) ==> distinct_keys(final(self)@),
            match r {
                Some(before) => match key_position(old(self)@, key@, 0) {
                    Some(i) => before@ == old(self)@[i].1,
                    None => false,
                },
                None => key_position(old(self)@, key@, 0) is None,
            },
    {
        proof {
            lemma_pairs_view(self.0@);
            if distinct_keys(old(self)@) {
                lemma_with_entry_distinct(old(self)@, key@, value@);
            }
        }
        match self.position(&key) {
            Some(i) => {
                let ghost entry = (key@, value@);
                let before: (RespFrame, RespFrame) = self.0.remove(i);
                self.0.insert(i, (key, value));
                proof {
                    lemma_pairs_view(old(self).0@);
                    lemma_pairs_view(self.0@);
                    assert(self@ =~= old(self)@.update(i as int, entry));
                }
                Some(before.1)
            },
            None => {
                let ghost entry = (key@, value@);
                self.0.push((key, value));
                proof {
                    lemma_pairs_view(old(self).0@);
                    lemma_pairs_view(self.0@);
                    assert(self@ =~= old(self)@.push(entry));
                }
                None
            },
        }
    }
}

impl RespSet {
    /// A set without members.
    pub fn new() -> (s: RespSet)
        ensures
            s@ == Seq::<FrameView>::empty(),
    {
        let s = RespSet(Vec::new());
        assert(s@ =~= Seq::<FrameView>::empty());
        s
    }

    /// The number of members.
    pub fn len(&self) -> (n: usize)
        ensures
            n == self@.len(),
    {
        proof {
            lemma_frames_view(self.0@);
        }
        self.0.len()
    }

    /// Whether `item` is a member.
    pub fn contains(&self, item: &RespFrame) -> (r: bool)
        ensures
            r == item_position(self@, item@, 0).is_some(),
    {
        proof {
            lemma_frames_view(self.0@);
        }
        let n: usize = self.0.len();
        let mut i: usize = 0;
        while i < n
            invariant
                n == self.0@.len(),
                n == self@.len(),
                i <= n,
                item_position(self@, item@, 0) == item_position(self@, item@, i as int),
            decreases n - i,
        {
            proof {
                lemma_frames_view(self.0@);
            }
            if frame_eq(&self.0[i], item) {
                return true;
            }
            i = i + 1;
        }
        false
    }

    /// Adds `item` at the end unless it is a member already, and says whether it was added.
    pub fn insert(&mut self, item: RespFrame) -> (r: bool)
        ensures
            final(self)@ == with_item(old(self)@, item@),
            distinct_items(old(self)@) ==> distinct_items(final(self)@),
            r == item_position(old(self)@, item@, 0).is_none(),
    {
        proof {
            if distinct_items(old(self)@) {
                lemma_with_item_distinct(old(self)@, item@);
            }
        }
        if self.contains(&item) {
            false
        } else {
            let ghost added = item@;
            self.0.push(item);
            proof {
                lemma_frames_view(old(self).0@);
                lemma_frames_view(self.0@);
                assert(self@ =~= old(self)@.push(added));
            }
            true
        }
    }
}

} // verus!
