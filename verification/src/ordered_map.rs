//! A map from names to values that remembers the order in which the names came.
use vstd::prelude::*;
use crate::text::str_eq;

verus! {

/// Values under names. No name occurs twice, and a name keeps the place that
/// it first took.
pub struct OrderedMap<T> {
    entries: Vec<(String, T)>,
}

/// Index of the first entry of `entries` at `from` or later whose name is `name`.
pub open spec fn name_position<T>(
    entries: Seq<(Seq<char>, T)>,
    name: Seq<char>,
    from: int,
) -> Option<int>
    decreases entries.len() - from,
{
    if from < 0 || from >= entries.len() {
        None
    } else if entries[from].0 == name {
        Some(from)
    } else {
        name_position(entries, name, from + 1)
    }
}

/// The entries after `name` is given `value`: in the place of the entry that
/// had the name, or at the end where there was none.
pub open spec fn with_value<T>(entries: Seq<(Seq<char>, T)>, name: Seq<char>, value: T) -> Seq<
    (Seq<char>, T),
> {
    match name_position(entries, name, 0) {
        Some(i) => entries.update(i, (name, value)),
        None => entries.push((name, value)),
    }
}

/// Whether no name occurs twice in `entries`.
pub open spec fn distinct_names<T>(entries: Seq<(Seq<char>, T)>) -> bool {
    forall|i: int, j: int| 0 <= i < j < entries.len() ==> entries[i].0 != entries[j].0
}

/// What `name_position` returns, said without recursion.
pub proof fn lemma_name_position<T>(entries: Seq<(Seq<char>, T)>, name: Seq<char>, from: int)
    requires
        0 <= from,
    ensures
        match name_position(entries, name, from) {
            Some(i) => from <= i < entries.len() && entries[i].0 == name && forall|j: int|
                from <= j < i ==> entries[j].0 != name,
            None => forall|j: int| from <= j < entries.len() ==> entries[j].0 != name,
        },
    decreases entries.len() - from,
{
    if from < entries.len() && entries[from].0 != name {
        lemma_name_position(entries, name, from + 1);
    }
}

/// Giving a name a value leaves no name twice, and changes the number of
/// entries only for a new name.
pub proof fn lemma_with_value<T>(entries: Seq<(Seq<char>, T)>, name: Seq<char>, value: T)
    requires
        distinct_names(entries),
    ensures
        distinct_names(with_value(entries, name, value)),
        name_position(with_value(entries, name, value), name, 0) is Some,
        with_value(entries, name, value)[name_position(
            with_value(entries, name, value),
            name,
            0,
        ).unwrap()].1 == value,
        forall|other: Seq<char>|
            other != name ==> #[trigger] name_position(
                with_value(entries, name, value),
                other,
                0,
            ) == name_position(entries, other, 0),
{
    let after = with_value(entries, name, value);
    lemma_name_position(entries, name, 0);
    lemma_name_position(after, name, 0);
    assert(name_position(after, name, 0) is Some) by {
        match name_position(entries, name, 0) {
            Some(i) => {
                assert(after[i].0 == name);
            },
            None => {
                assert(after[entries.len() as int].0 == name);
            },
        }
    }
    assert forall|other: Seq<char>| other != name implies #[trigger] name_position(
        after,
        other,
        0,
    ) == name_position(entries, other, 0) by {
        lemma_name_position(entries, other, 0);
        lemma_name_position(after, other, 0);
        match name_position(entries, other, 0) {
            Some(i) => {
                assert(after[i].0 == other);
                match name_position(after, other, 0) {
                    Some(k) => {
                        if k < i {
                            assert(entries[k].0 == after[k].0 || after[k].0 == name);
                        }
                    },
                    None => {},
                }
            },
            None => {
                match name_position(after, other, 0) {
                    Some(k) => {
                        if k < entries.len() {
                            assert(entries[k].0 == after[k].0 || after[k].0 == name);
                        }
                    },
                    None => {},
                }
            },
        }
    }
}

impl<T> OrderedMap<T> {
    /// The entries, first named first.
    pub closed spec fn view(&self) -> Seq<(Seq<char>, T)> {
        Seq::new(self.entries@.len(), |i: int| (self.entries@[i].0@, self.entries@[i].1))
    }

    /// A map without entries.
    pub fn new() -> (m: OrderedMap<T>)
        ensures
            m@ == Seq::<(Seq<char>, T)>::empty(),
    {
        let m = OrderedMap { entries: Vec::new() };
        assert(m@ =~= Seq::<(Seq<char>, T)>::empty());
        m
    }

    /// The number of entries.
    pub fn len(&self) -> (n: usize)
        ensures
            n == self@.len(),
    {
        self.entries.len()
    }

    /// Index of the entry named `name`.
    fn position(&self, name: &str) -> (r: Option<usize>)
        ensures
            match r {
                Some(i) => name_position(self@, name@, 0) == Some(i as int) && i
                    < self.entries@.len(),
                None => name_position(self@, name@, 0) is None,
            },
    {
        let n: usize = self.entries.len();
        let mut i: usize = 0;
        while i < n
            invariant
                n == self.entries@.len(),
                n == self@.len(),
                i <= n,
                name_position(self@, name@, 0) == name_position(self@, name@, i as int),
            decreases n - i,
        {
            if str_eq(self.entries[i].0.as_str(), name) {
                return Some(i);
            }
            i = i + 1;
        }
        None
    }

    /// Puts `value` under `name`. A new name goes to the end; a name that is
    /// there keeps its place and gets the new value.
    pub fn insert(&mut self, name: &str, value: T)
        ensures
            final(self)@ == with_value(old(self)@, name@, value),
            distinct_names(old(self)@) ==> distinct_names(final(self)@),
    {
        proof {
            if distinct_names(old(self)@) {
                lemma_with_value(old(self)@, name@, value);
            }
        }
        match self.position(name) {
            Some(i) => {
                let before: (String, T) = self.entries.remove(i);
                self.entries.insert(i, (before.0, value));
                proof {
                    lemma_name_position(old(self)@, name@, 0);
                    assert(old(self)@[i as int].0 == name@);
                    assert(self@ =~= old(self)@.update(i as int, (name@, value)));
                }
            },
            None => {
                self.entries.push((name.to_owned(), value));
                assert(self@ =~= old(self)@.push((name@, value)));
            },
        }
    }

    /// The value under `name`.
    pub fn get(&self, name: &str) -> (r: Option<&T>)
        ensures
            match r {
                Some(value) => match name_position(self@, name@, 0) {
                    Some(i) => *value == self@[i].1,
                    None => false,
                },
                None => name_position(self@, name@, 0) is None,
            },
    {
        match self.position(name) {
            Some(i) => Some(&self.entries[i].1),
            None => None,
        }
    }

    /// The name and the value of the entry at `index`, counted from zero in
    /// the order in which the names came.
    pub fn entry(&self, index: usize) -> (r: Option<(&str, &T)>)
        ensures
            match r {
                Some((name, value)) => index < self@.len() && name@ == self@[index as int].0
                    && *value == self@[index as int].1,
                None => index >= self@.len(),
            },
    {
        if index < self.entries.len() {
            Some((self.entries[index].0.as_str(), &self.entries[index].1))
        } else {
            None
        }
    }

    /// The values in the order in which their names came.
    pub fn to_vec(&self) -> (values: Vec<&T>)
        ensures
            values@.len() == self@.len(),
            forall|i: int| 0 <= i < values@.len() ==> *values@[i] == self@[i].1,
    {
        let n: usize = self.entries.len();
        let mut values: Vec<&T> = Vec::with_capacity(n);
        let mut i: usize = 0;
        while i < n
            invariant
                n == self.entries@.len(),
                n == self@.len(),
                i <= n,
                values@.len() == i,
                forall|j: int| 0 <= j < i ==> *values@[j] == self@[j].1,
            decreases n - i,
        {
            values.push(&self.entries[i].1);
            i = i + 1;
        }
        values
    }
}

} // verus!
