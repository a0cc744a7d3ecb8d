//! Counters whose names are fixed when they are made.
use vstd::prelude::*;
use crate::metrics::MetricsError;
use crate::ordered_map::{name_position, with_value, OrderedMap};
use crate::text::{dec_chars, push_digits, push_str};

verus! {

/// The counters named by `names`, all at zero; a name that comes again adds nothing.
pub open spec fn zeroed(names: Seq<&'static str>) -> Seq<(Seq<char>, u16)>
    decreases names.len(),
{
    if names.len() == 0 {
        Seq::empty()
    } else {
        with_value(zeroed(names.drop_last()), names.last()@, 0u16)
    }
}

/// The counter that the workers that move things add to.
pub const MOVE_KEY: &'static str = "move/api/v1";

/// What the counters of the workers that create things begin with.
pub const CREATE_KEY: &'static str = "create/api/v1/";

/// The counter that the worker number `idx` of those that create things adds to.
pub fn create_key(idx: usize) -> (key: String)
    ensures
        key@ == CREATE_KEY@ + dec_chars(idx as nat),
{
    let mut key: String = CREATE_KEY.to_owned();
    push_digits(&mut key, idx as u64);
    key
}

/// One line for each counter: its name, a colon and a blank, what it stands
/// at, and a line feed.
pub open spec fn rendered_lines(entries: Seq<(Seq<char>, u16)>) -> Seq<char>
    decreases entries.len(),
{
    if entries.len() == 0 {
        Seq::empty()
    } else {
        rendered_lines(entries.drop_last()) + entries.last().0 + seq![':', ' '] + dec_chars(
            entries.last().1 as nat,
        ) + seq!['\n']
    }
}

/// Counters of sixteen bits that wrap round at the ends of their range.
pub struct AmapMetrics {
    data: OrderedMap<u16>,
}

impl AmapMetrics {
    /// The counters and what they stand at, in the order in which they were named.
    pub closed spec fn view(&self) -> Seq<(Seq<char>, u16)> {
        self.data@
    }

    /// One counter at zero for each of `metri_names`.
    pub fn new(metri_names: &[&'static str]) -> (m: AmapMetrics)
        ensures
            m@ == zeroed(metri_names@),
    {
        let n: usize = metri_names.len();
        let mut data: OrderedMap<u16> = OrderedMap::new();
        let mut i: usize = 0;
        assert(metri_names@.take(0) =~= Seq::<&'static str>::empty());
        while i < n
            invariant
                n == metri_names@.len(),
                i <= n,
                data@ == zeroed(metri_names@.take(i as int)),
            decreases n - i,
        {
            data.insert(metri_names[i], 0);
            assert(metri_names@.take(i + 1).drop_last() =~= metri_names@.take(i as int));
            i = i + 1;
        }
        assert(metri_names@.take(n as int) =~= metri_names@);
        AmapMetrics { data }
    }

    /// The counters as text, one line for each in the order in which they
    /// were named, and an empty line behind them.
    pub fn render(&self) -> (text: String)
        ensures
            text@ == rendered_lines(self@) + seq!['\n'],
    {
        let n: usize = self.data.len();
        let mut text: String = String::new();
        let mut i: usize = 0;
        assert(self@.take(0) =~= Seq::<(Seq<char>, u16)>::empty());
        assert(text@ =~= rendered_lines(self@.take(0)));
        while i < n
            invariant
                n == self@.len(),
                i <= n,
                text@ == rendered_lines(self@.take(i as int)),
            decreases n - i,
        {
            match self.data.entry(i) {
                Some((name, value)) => {
                    proof {
                        reveal_strlit(": ");
                        reveal_strlit("\n");
                    }
                    push_str(&mut text, name);
                    push_str(&mut text, ": ");
                    push_digits(&mut text, *value as u64);
                    push_str(&mut text, "\n");
                    proof {
                        let upto = self@.take(i + 1);
                        assert(upto.drop_last() =~= self@.take(i as int));
                        assert(upto.last() == self@[i as int]);
                        assert(": "@ =~= seq![':', ' ']);
                        assert("\n"@ =~= seq!['\n']);
                        assert(text@ =~= rendered_lines(upto));
                    }
                },
                None => {},
            }
            i = i + 1;
        }
        proof {
            reveal_strlit("\n");
            assert("\n"@ =~= seq!['\n']);
            assert(self@.take(n as int) =~= self@);
        }
        push_str(&mut text, "\n");
        text
    }

    /// What the counter named `key` stands at.
    pub fn get(&self, key: &str) -> (r: Option<u16>)
        ensures
            match r {
                Some(n) => match name_position(self@, key@, 0) {
                    Some(i) => n == self@[i].1,
                    None => false,
                },
                None => name_position(self@, key@, 0) is None,
            },
    {
        match self.data.get(key) {
            Some(n) => Some(*n),
            None => None,
        }
    }

    /// Adds one to the counter named `key`; from the top of its range the
    /// counter goes to zero.
    pub fn inc(&mut self, key: &str) -> (r: Result<(), MetricsError>)
        ensures
            match name_position(old(self)@, key@, 0) {
                Some(i) => r is Ok && final(self)@ == old(self)@.update(
                    i,
                    (
                        key@,
                        if old(self)@[i].1 == u16::MAX {
                            0u16
                        } else {
                            (old(self)@[i].1 + 1) as u16
                        },
                    ),
                ),
                None => r == Err::<(), MetricsError>(MetricsError::KeyNotFound) && final(self)@
                    == old(self)@,
            },
    {
        match self.get(key) {
            Some(n) => {
                self.data.insert(key, if n == u16::MAX { 0 } else { n + 1 });
                Ok(())
            },
            None => Err(MetricsError::KeyNotFound),
        }
    }

    /// Takes one from the counter named `key`; from zero the counter goes to
    /// the top of its range.
    pub fn dec(&mut self, key: &str) -> (r: Result<(), MetricsError>)
        ensures
            match name_position(old(self)@, key@, 0) {
                Some(i) => r is Ok && final(self)@ == old(self)@.update(
                    i,
                    (
                        key@,
                        if old(self)@[i].1 == 0 {
                            u16::MAX
                        } else {
                            (old(self)@[i].1 - 1) as u16
                        },
                    ),
                ),
                None => r == Err::<(), MetricsError>(MetricsError::KeyNotFound) && final(self)@
                    == old(self)@,
            },
    {
        match self.get(key) {
            Some(n) => {
                self.data.insert(key, if n == 0 { u16::MAX } else { n - 1 });
                Ok(())
            },
            None => Err(MetricsError::KeyNotFound),
        }
    }
}

} // verus!
