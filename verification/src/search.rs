//! Finding the first entry of a sequence that has some property: the way in
//! which the ledger looks its entities up.

use vstd::prelude::*;

verus! {

/// Whether `i` is the first position of `s` whose entry has the property.
pub open spec fn is_first<T>(s: Seq<T>, wanted: spec_fn(T) -> bool, i: int) -> bool {
    &&& 0 <= i < s.len()
    &&& wanted(s[i])
    &&& forall|j: int| 0 <= j < i ==> !wanted(#[trigger] s[j])
}

/// The first position of `s` whose entry has the property, if any has.
pub open spec fn first_index<T>(s: Seq<T>, wanted: spec_fn(T) -> bool) -> Option<int> {
    if exists|i: int| is_first(s, wanted, i) {
        Some(choose|i: int| is_first(s, wanted, i))
    } else {
        None
    }
}

/// The first position with the property is what `first_index` gives, and
/// where none has it, it gives nothing.
pub proof fn lemma_first_index<T>(s: Seq<T>, wanted: spec_fn(T) -> bool)
    ensures
        match first_index(s, wanted) {
            Some(i) => is_first(s, wanted, i),
            None => forall|j: int| 0 <= j < s.len() ==> !wanted(#[trigger] s[j]),
        },
{
    if first_index(s, wanted) is None {
        assert forall|j: int| 0 <= j < s.len() implies !wanted(#[trigger] s[j]) by {
            if wanted(s[j]) {
                lemma_least(s, wanted, j);
            }
        }
    }
}

proof fn lemma_least<T>(s: Seq<T>, wanted: spec_fn(T) -> bool, k: int)
    requires
        0 <= k < s.len(),
        wanted(s[k]),
    ensures
        exists|i: int| is_first(s, wanted, i),
    decreases k,
{
    if exists|j: int| 0 <= j < k && wanted(s[j]) {
        let j = choose|j: int| 0 <= j < k && wanted(s[j]);
        lemma_least(s, wanted, j);
    } else {
        assert(is_first(s, wanted, k));
    }
}

/// A position that is first with the property is the one `first_index`
/// gives.
pub proof fn lemma_first_is<T>(s: Seq<T>, wanted: spec_fn(T) -> bool, i: int)
    requires
        is_first(s, wanted, i),
    ensures
        first_index(s, wanted) == Some(i),
{
    let c = choose|c: int| is_first(s, wanted, c);
    if c < i {
        assert(!wanted(s[c]));
    }
    if i < c {
        assert(!wanted(s[i]));
    }
}

/// Where no entry has the property, `first_index` gives nothing.
pub proof fn lemma_first_none<T>(s: Seq<T>, wanted: spec_fn(T) -> bool)
    requires
        forall|j: int| 0 <= j < s.len() ==> !wanted(#[trigger] s[j]),
    ensures
        first_index(s, wanted) is None,
{
}

/// Appending an entry leaves the first position with the property where it
/// was, and where there was none, the new entry is first if it has it.
pub proof fn lemma_first_index_push<T>(s: Seq<T>, wanted: spec_fn(T) -> bool, x: T)
    ensures
        first_index(s.push(x), wanted) == match first_index(s, wanted) {
            Some(i) => Some(i),
            None => if wanted(x) {
                Some(s.len() as int)
            } else {
                None
            },
        },
{
    lemma_first_index(s, wanted);
    let after = s.push(x);
    match first_index(s, wanted) {
        Some(i) => {
            assert(after[i] == s[i]);
            assert forall|j: int| 0 <= j < i implies !wanted(#[trigger] after[j]) by {
                assert(after[j] == s[j]);
            }
            lemma_first_is(after, wanted, i);
        },
        None => {
            assert forall|j: int| 0 <= j < s.len() implies !wanted(#[trigger] after[j]) by {
                assert(after[j] == s[j]);
            }
            if wanted(x) {
                assert(after[s.len() as int] == x);
                lemma_first_is(after, wanted, s.len() as int);
            } else {
                assert forall|j: int| 0 <= j < after.len() implies !wanted(
                    #[trigger] after[j],
                ) by {
                    if j < s.len() {
                        assert(after[j] == s[j]);
                    }
                }
                lemma_first_none(after, wanted);
            }
        },
    }
}

/// Replacing an entry by one that has the property if and only if the
/// replaced one had it leaves the first position with the property where
/// it was.
pub proof fn lemma_first_index_update<T>(s: Seq<T>, wanted: spec_fn(T) -> bool, i: int, x: T)
    requires
        0 <= i < s.len(),
        wanted(x) == wanted(s[i]),
    ensures
        first_index(s.update(i, x), wanted) == first_index(s, wanted),
{
    lemma_first_index(s, wanted);
    let after = s.update(i, x);
    assert forall|j: int| 0 <= j < s.len() implies wanted(#[trigger] after[j]) == wanted(
        s[j],
    ) by {}
    match first_index(s, wanted) {
        Some(c) => {
            assert(wanted(after[c]));
            assert forall|j: int| 0 <= j < c implies !wanted(#[trigger] after[j]) by {
                assert(!wanted(s[j]));
            }
            lemma_first_is(after, wanted, c);
        },
        None => {
            assert forall|j: int| 0 <= j < after.len() implies !wanted(#[trigger] after[j]) by {
                assert(!wanted(s[j]));
            }
            lemma_first_none(after, wanted);
        },
    }
}

} // verus!
