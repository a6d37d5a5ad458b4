//! Values kept under texts.
use vstd::prelude::*;
use crate::text::same;

verus! {

/// A small table from texts to values.
#[derive(Debug)]
pub struct Assoc<V> {
    entries: Vec<(String, V)>,
}

/// The value of the first entry from `from` on with the key.
spec fn value_from<V>(entries: Seq<(String, V)>, key: Seq<char>, from: int) -> Option<V>
    decreases entries.len() - from,
{
    if from < 0 || from >= entries.len() {
        None
    } else if entries[from].0@ == key {
        Some(entries[from].1)
    } else {
        value_from(entries, key, from + 1)
    }
}

proof fn value_from_push<V>(entries: Seq<(String, V)>, new: (String, V), key: Seq<char>, from: int)
    requires
        0 <= from <= entries.len(),
    ensures
        value_from(entries.push(new), key, from) == match value_from(entries, key, from) {
            Some(v) => Some(v),
            None => if new.0@ == key {
                Some(new.1)
            } else {
                None
            },
        },
    decreases entries.len() - from,
{
    let after = entries.push(new);
    if from < entries.len() {
        assert(after[from] == entries[from]);
        if entries[from].0@ != key {
            value_from_push(entries, new, key, from + 1);
        }
    } else {
        assert(after[from] == new);
        assert(value_from(after, key, from + 1) is None);
    }
}

proof fn value_from_skips<V>(entries: Seq<(String, V)>, key: Seq<char>, from: int, to: int)
    requires
        0 <= from <= to <= entries.len(),
        forall|i: int| from <= i < to ==> (#[trigger] entries[i]).0@ != key,
    ensures
        value_from(entries, key, from) == value_from(entries, key, to),
    decreases to - from,
{
    if from < to {
        assert(entries[from].0@ != key);
        value_from_skips(entries, key, from + 1, to);
    }
}

proof fn value_from_remove<V>(entries: Seq<(String, V)>, key: Seq<char>, at: int, from: int)
    requires
        0 <= at < entries.len(),
        0 <= from,
        entries[at].0@ != key,
    ensures
        value_from(entries.remove(at), key, from) == (if from <= at {
            value_from(entries, key, from)
        } else {
            value_from(entries, key, from + 1)
        }),
    decreases entries.len() - from,
{
    let after = entries.remove(at);
    if from < after.len() {
        if from < at {
            assert(after[from] == entries[from]);
            if entries[from].0@ != key {
                value_from_remove(entries, key, at, from + 1);
            }
        } else {
            assert(after[from] == entries[from + 1]);
            if entries[from + 1].0@ != key {
                value_from_remove(entries, key, at, from + 1);
            }
            if from == at {
                assert(value_from(entries, key, at) == value_from(entries, key, at + 1));
            }
        }
    } else if from <= at {
        assert(from == at && at == entries.len() - 1);
        assert(value_from(entries, key, at + 1) is None);
    }
}

impl<V> Assoc<V> {
    /// The value kept under a key.
    pub closed spec fn lookup(&self, key: Seq<char>) -> Option<V> {
        value_from(self.entries@, key, 0)
    }

    /// An empty table.
    pub fn new() -> (table: Assoc<V>)
        ensures
            forall|key: Seq<char>| #[trigger] table.lookup(key) is None,
    {
        Assoc { entries: Vec::new() }
    }

    /// The value kept under a key.
    pub fn get(&self, key: &str) -> (r: Option<&V>)
        ensures
            match r {
                Some(v) => self.lookup(key@) == Some(*v),
                None => self.lookup(key@) is None,
            },
    {
        let mut i: usize = 0;
        while i < self.entries.len()
            invariant
                i <= self.entries@.len(),
                self.lookup(key@) == value_from(self.entries@, key@, i as int),
            decreases self.entries.len() - i,
        {
            if same(&self.entries[i].0, key) {
                return Some(&self.entries[i].1);
            }
            i += 1;
        }
        None
    }

    /// Keep nothing under a key any more, and give back what was kept there.
    pub fn take(&mut self, key: &str) -> (r: Option<V>)
        ensures
            r == old(self).lookup(key@),
            final(self).lookup(key@) is None,
            forall|other: Seq<char>|
                other != key@ ==> #[trigger] final(self).lookup(other) == old(self).lookup(other),
    {
        let ghost start = self.entries@;
        let mut taken: Option<V> = None;
        let mut i: usize = 0;
        while i < self.entries.len()
            invariant
                i <= self.entries@.len(),
                forall|k: int| 0 <= k < i ==> (#[trigger] self.entries@[k]).0@ != key@,
                forall|other: Seq<char>|
                    other != key@ ==> #[trigger] value_from(self.entries@, other, 0) == value_from(
                        start,
                        other,
                        0,
                    ),
                match taken {
                    Some(v) => value_from(start, key@, 0) == Some(v),
                    None => value_from(start, key@, 0) == value_from(self.entries@, key@, 0),
                },
            decreases self.entries.len() - i,
        {
            if same(&self.entries[i].0, key) {
                let ghost before = self.entries@;
                proof {
                    value_from_skips(before, key@, 0, i as int);
                }
                let entry = self.entries.remove(i);
                assert(self.entries@ =~= before.remove(i as int));
                proof {
                    assert forall|other: Seq<char>| other != key@ implies #[trigger] value_from(
                        self.entries@,
                        other,
                        0,
                    ) == value_from(start, other, 0) by {
                        value_from_remove(before, other, i as int, 0);
                    }
                    assert forall|k: int| 0 <= k < i implies (#[trigger] self.entries@[k]).0@
                        != key@ by {
                        assert(before[k].0@ != key@);
                    }
                }
                if taken.is_none() {
                    taken = Some(entry.1);
                }
            } else {
                i += 1;
            }
        }
        proof {
            value_from_skips(self.entries@, key@, 0, self.entries@.len() as int);
        }
        taken
    }

    /// Keep a value under a key, in place of what was kept there.
    pub fn set(&mut self, key: &str, value: V)
        ensures
            final(self).lookup(key@) == Some(value),
            forall|other: Seq<char>|
                other != key@ ==> #[trigger] final(self).lookup(other) == old(self).lookup(other),
    {
        let _ = self.take(key);
        let ghost cleared = *self;
        let ghost before = self.entries@;
        self.entries.push((key.to_string(), value));
        proof {
            let new = self.entries@.last();
            assert(self.entries@ =~= before.push(new));
            assert forall|any: Seq<char>| #[trigger] self.lookup(any) == (if any == key@ {
                Some(value)
            } else {
                cleared.lookup(any)
            }) by {
                value_from_push(before, new, any, 0);
            }
        }
    }
}

} // verus!
