//! Sequence counters: every scope counts its events 1, 2, 3, ... without
//! gaps, never goes back, and refuses to go past the end of its range.

use crate::error::ChainbillsError;
use crate::identity::same_bytes;
use crate::search::{
    first_index, lemma_first_index, lemma_first_index_push, lemma_first_index_update,
    lemma_first_is, lemma_first_none,
};
use vstd::prelude::*;

verus! {

/// What follows `count` in a sequence: the next number, or a refusal at the
/// end of the range.
pub open spec fn next_of(count: u64) -> Result<u64, ChainbillsError> {
    if count < u64::MAX {
        Ok((count + 1) as u64)
    } else {
        Err(ChainbillsError::CounterOverflow)
    }
}

/// The number that follows `count`, or `CounterOverflow` when there is none.
pub fn next_count(count: u64) -> (r: Result<u64, ChainbillsError>)
    ensures
        r == next_of(count),
{
    match count.checked_add(1) {
        Some(next) => Ok(next),
        None => Err(ChainbillsError::CounterOverflow),
    }
}

/// What a counter of the registry counts: the events of one scope that
/// originated on one chain.
#[derive(Clone, Copy, Debug, PartialEq, Eq)]
pub struct CounterKey {
    pub scope: [u8; 32],
    pub chain_id: u16,
}

/// A counter of the registry with the last number it gave out.
#[derive(Clone, Copy, Debug, PartialEq, Eq)]
pub struct CounterEntry {
    pub key: CounterKey,
    pub value: u64,
}

/// Counters keyed by scope and chain. A counter that was never asked
/// stands at zero.
#[derive(Debug)]
pub struct CounterRegistry {
    pub entries: Vec<CounterEntry>,
}

/// The entries under the given key.
pub open spec fn under_key(key: CounterKey) -> spec_fn(CounterEntry) -> bool {
    |entry: CounterEntry| entry.key == key
}

/// The last number given out under the key: the value of the first entry
/// under it, or zero when there is none.
pub open spec fn counter_value(entries: Seq<CounterEntry>, key: CounterKey) -> u64 {
    match first_index(entries, under_key(key)) {
        Some(i) => entries[i].value,
        None => 0,
    }
}

proof fn lemma_counter_set(entries: Seq<CounterEntry>, key: CounterKey, i: int, value: u64)
    requires
        first_index(entries, under_key(key)) == Some(i),
    ensures
        counter_value(entries.update(i, CounterEntry { key, value }), key) == value,
        forall|other: CounterKey|
            other != key ==> #[trigger] counter_value(
                entries.update(i, CounterEntry { key, value }),
                other,
            ) == counter_value(entries, other),
{
    let entry = CounterEntry { key, value };
    lemma_first_index(entries, under_key(key));
    lemma_first_index_update(entries, under_key(key), i, entry);
    assert forall|other: CounterKey| other != key implies #[trigger] counter_value(
        entries.update(i, entry),
        other,
    ) == counter_value(entries, other) by {
        lemma_first_index(entries, under_key(other));
        lemma_first_index_update(entries, under_key(other), i, entry);
    }
}

proof fn lemma_counter_opened(entries: Seq<CounterEntry>, key: CounterKey, value: u64)
    requires
        first_index(entries, under_key(key)) is None,
    ensures
        counter_value(entries.push(CounterEntry { key, value }), key) == value,
        forall|other: CounterKey|
            other != key ==> #[trigger] counter_value(
                entries.push(CounterEntry { key, value }),
                other,
            ) == counter_value(entries, other),
{
    let entry = CounterEntry { key, value };
    let after = entries.push(entry);
    lemma_first_index_push(entries, under_key(key), entry);
    assert(after[entries.len() as int] == entry);
    assert forall|other: CounterKey| other != key implies #[trigger] counter_value(after, other)
        == counter_value(entries, other) by {
        lemma_first_index(entries, under_key(other));
        lemma_first_index_push(entries, under_key(other), entry);
        if first_index(entries, under_key(other)) is Some {
            let k = first_index(entries, under_key(other))->0;
            assert(after[k] == entries[k]);
        }
    }
}

impl CounterRegistry {
    /// The last number given out under the key, zero before the first.
    pub open spec fn value(&self, key: CounterKey) -> u64 {
        counter_value(self.entries@, key)
    }

    /// A registry in which every counter stands at zero.
    pub fn new() -> (registry: CounterRegistry)
        ensures
            forall|key: CounterKey| registry.value(key) == 0,
    {
        CounterRegistry { entries: Vec::new() }
    }

    fn position(&self, key: &CounterKey) -> (found: Option<usize>)
        ensures
            match found {
                Some(i) => first_index(self.entries@, under_key(*key)) == Some(i as int) && i
                    < self.entries@.len(),
                None => first_index(self.entries@, under_key(*key)) is None,
            },
    {
        let mut i: usize = 0;
        while i < self.entries.len()
            invariant
                i <= self.entries.len(),
                forall|j: int| 0 <= j < i ==> !under_key(*key)(#[trigger] self.entries@[j]),
            decreases self.entries.len() - i,
        {
            let entry = &self.entries[i];
            if entry.key.chain_id == key.chain_id && same_bytes(&entry.key.scope, &key.scope) {
                proof {
                    lemma_first_is(self.entries@, under_key(*key), i as int);
                }
                return Some(i);
            }
            i += 1;
        }
        proof {
            lemma_first_none(self.entries@, under_key(*key));
        }
        None
    }

    /// The last number given out under the key, zero before the first.
    pub fn current(&self, key: &CounterKey) -> (count: u64)
        ensures
            count == self.value(*key),
    {
        match self.position(key) {
            Some(i) => self.entries[i].value,
            None => 0,
        }
    }

    /// Gives out the next number under the key: one more than the last, and
    /// 1 the first time. Every other counter stays where it is. At the end
    /// of the range the request is refused and nothing changes.
    pub fn next(&mut self, key: CounterKey) -> (r: Result<u64, ChainbillsError>)
        ensures
            r == next_of(old(self).value(key)),
            r matches Ok(count) ==> final(self).value(key) == count,
            r is Err ==> *final(self) == *old(self),
            forall|other: CounterKey|
                other != key ==> #[trigger] final(self).value(other) == old(self).value(other),
    {
        match self.position(&key) {
            Some(i) => {
                let count = next_count(self.entries[i].value)?;
                self.entries[i] = CounterEntry { key, value: count };
                proof {
                    lemma_counter_set(old(self).entries@, key, i as int, count);
                }
                Ok(count)
            },
            None => {
                self.entries.push(CounterEntry { key, value: 1 });
                proof {
                    lemma_counter_opened(old(self).entries@, key, 1);
                }
                Ok(1)
            },
        }
    }
}

} // verus!
