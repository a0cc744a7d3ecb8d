//! Named counters.
pub mod ametrics;

use vstd::prelude::*;
use crate::ordered_map::{distinct_names, name_position, with_value, OrderedMap};
use crate::text::{integer_chars, push_integer_chars, push_str};

verus! {

/// Why a counter was not changed.
#[derive(PartialEq, Eq, Structural, Debug, Clone, Copy)]
pub enum MetricsError {
    /// The counter stands at the end of its range.
    Overflow,
    /// No counter has that name.
    KeyNotFound,
}

/// What the counter named `name` stands at; a counter that was never touched stands at zero.
pub open spec fn count_of(entries: Seq<(Seq<char>, i64)>, name: Seq<char>) -> int {
    match name_position(entries, name, 0) {
        Some(i) => entries[i].1 as int,
        None => 0,
    }
}

/// One line for each counter: its name, a colon and a blank, what it stands
/// at, and a line feed.
pub open spec fn rendered(entries: Seq<(Seq<char>, i64)>) -> Seq<char>
    decreases entries.len(),
{
    if entries.len() == 0 {
        Seq::empty()
    } else {
        rendered(entries.drop_last()) + entries.last().0 + seq![':', ' '] + integer_chars(
            entries.last().1 as int,
        ) + seq!['\n']
    }
}

/// Counters that come into being at zero when they are first touched.
pub struct Metrics {
    data: OrderedMap<i64>,
}

impl Metrics {
    /// The counters and what they stand at, first touched first.
    pub closed spec fn view(&self) -> Seq<(Seq<char>, i64)> {
        self.data@
    }

    /// No counters yet.
    pub fn new() -> (m: Metrics)
        ensures
            m@ == Seq::<(Seq<char>, i64)>::empty(),
    {
        Metrics { data: OrderedMap::new() }
    }

    /// What the counter named `key` stands at.
    pub fn get(&self, key: &str) -> (n: i64)
        ensures
            n == count_of(self@, key@),
    {
        match self.data.get(key) {
            Some(n) => *n,
            None => 0,
        }
    }

    /// Adds one to the counter named `key`. A counter at the top of its range stays there.
    pub fn inc(&mut self, key: &str) -> (r: Result<(), MetricsError>)
        ensures
            match r {
                Ok(_) => count_of(old(self)@, key@) < i64::MAX && final(self)@ == with_value(
                    old(self)@,
                    key@,
                    (count_of(old(self)@, key@) + 1) as i64,
                ),
                Err(e) => e == MetricsError::Overflow && count_of(old(self)@, key@) == i64::MAX
                    && final(self)@ == old(self)@,
            },
            distinct_names(old(self)@) ==> distinct_names(final(self)@),
    {
        let current: i64 = self.get(key);
        if current == i64::MAX {
            return Err(MetricsError::Overflow);
        }
        self.data.insert(key, current + 1);
        Ok(())
    }

    /// Takes one from the counter named `key`. A counter at the bottom of its range stays there.
    pub fn dec(&mut self, key: &str) -> (r: Result<(), MetricsError>)
        ensures
            match r {
                Ok(_) => count_of(old(self)@, key@) > i64::MIN && final(self)@ == with_value(
                    old(self)@,
                    key@,
                    (count_of(old(self)@, key@) - 1) as i64,
                ),
                Err(e) => e == MetricsError::Overflow && count_of(old(self)@, key@) == i64::MIN
                    && final(self)@ == old(self)@,
            },
            distinct_names(old(self)@) ==> distinct_names(final(self)@),
    {
        let current: i64 = self.get(key);
        if current == i64::MIN {
            return Err(MetricsError::Overflow);
        }
        self.data.insert(key, current - 1);
        Ok(())
    }

    /// The counters as text, one line for each, first touched first.
    pub fn render(&self) -> (text: String)
        ensures
            text@ == rendered(self@),
    {
        let n: usize = self.data.len();
        let mut text: String = String::new();
        let mut i: usize = 0;
        assert(self@.take(0) =~= Seq::<(Seq<char>, i64)>::empty());
        assert(text@ =~= rendered(self@.take(0)));
        while i < n
            invariant
                n == self@.len(),
                i <= n,
                text@ == rendered(self@.take(i as int)),
            decreases n - i,
        {
            match self.data.entry(i) {
                Some((name, value)) => {
                    proof {
                        reveal_strlit(": ");
                        reveal_strlit("\n");
                    }
                    let ghost before = text@;
                    push_str(&mut text, name);
                    push_str(&mut text, ": ");
                    push_integer_chars(&mut text, *value);
                    push_str(&mut text, "\n");
                    proof {
                        let upto = self@.take(i + 1);
                        assert(upto.drop_last() =~= self@.take(i as int));
                        assert(upto.last() == self@[i as int]);
                        assert(": "@ =~= seq![':', ' ']);
                        assert("\n"@ =~= seq!['\n']);
                        assert(text@ =~= rendered(upto));
                    }
                },
                None => {},
            }
            i = i + 1;
        }
        assert(self@.take(n as int) =~= self@);
        text
    }

    /// A copy of the counters and what they stand at, first touched first.
    pub fn snapshot(&self) -> (copy: Vec<(String, i64)>)
        ensures
            copy@.len() == self@.len(),
            forall|i: int|
                0 <= i < copy@.len() ==> copy@[i].0@ == self@[i].0 && copy@[i].1 == self@[i].1,
    {
        let n: usize = self.data.len();
        let mut copy: Vec<(String, i64)> = Vec::with_capacity(n);
        let mut i: usize = 0;
        while i < n
            invariant
                n == self@.len(),
                i <= n,
                copy@.len() == i,
                forall|j: int|
                    0 <= j < i ==> copy@[j].0@ == self@[j].0 && copy@[j].1 == self@[j].1,
            decreases n - i,
        {
            match self.data.entry(i) {
                Some((name, value)) => {
                    copy.push((name.to_owned(), *value));
                },
                None => {},
            }
            i = i + 1;
        }
        copy
    }
}

} // verus!
