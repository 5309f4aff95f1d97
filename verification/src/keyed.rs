//! Keyed lists: sequences of `(key, value)` pairs, kept in the order in which
//! the keys came, in which a key stands at most once.

use vstd::prelude::*;

verus! {

/// Some pair of `entries` has the key `key`.
pub open spec fn has_key<V>(entries: Seq<(Seq<char>, V)>, key: Seq<char>) -> bool {
    exists|i: int| 0 <= i < entries.len() && (#[trigger] entries[i]).0 == key
}

/// An index at which `key` stands, where it stands at all.
pub open spec fn index_of<V>(entries: Seq<(Seq<char>, V)>, key: Seq<char>) -> int {
    choose|i: int| 0 <= i < entries.len() && (#[trigger] entries[i]).0 == key
}

/// The value that stands beside `key`.
pub open spec fn value_of<V>(entries: Seq<(Seq<char>, V)>, key: Seq<char>) -> Option<V> {
    if has_key(entries, key) {
        Some(entries[index_of(entries, key)].1)
    } else {
        None
    }
}

/// No key stands twice.
pub open spec fn distinct_keys<V>(entries: Seq<(Seq<char>, V)>) -> bool {
    forall|i: int, j: int|
        0 <= i < j < entries.len() ==> (#[trigger] entries[i]).0 != (#[trigger] entries[j]).0
}

/// `entries` with `value` beside `key`: in the place where `key` stood, or
/// at the end where it did not stand yet.
pub open spec fn put<V>(entries: Seq<(Seq<char>, V)>, key: Seq<char>, value: V) -> Seq<
    (Seq<char>, V),
> {
    if has_key(entries, key) {
        entries.update(index_of(entries, key), (key, value))
    } else {
        entries.push((key, value))
    }
}

/// `entries` without the pair of `key`.
pub open spec fn without<V>(entries: Seq<(Seq<char>, V)>, key: Seq<char>) -> Seq<(Seq<char>, V)> {
    if has_key(entries, key) {
        entries.remove(index_of(entries, key))
    } else {
        entries
    }
}

/// Where keys are distinct, a key found at `i` is found nowhere else.
pub proof fn lemma_key_at<V>(entries: Seq<(Seq<char>, V)>, key: Seq<char>, i: int)
    requires
        distinct_keys(entries),
        0 <= i < entries.len(),
        entries[i].0 == key,
    ensures
        has_key(entries, key),
        index_of(entries, key) == i,
        value_of(entries, key) == Some(entries[i].1),
{
    let j = index_of(entries, key);
    assert(0 <= j < entries.len() && entries[j].0 == key);
    if j != i {
        if j < i {
            assert(entries[j].0 != entries[i].0);
        } else {
            assert(entries[i].0 != entries[j].0);
        }
    }
}

/// A key that stands nowhere has no value.
pub proof fn lemma_key_absent<V>(entries: Seq<(Seq<char>, V)>, key: Seq<char>)
    requires
        forall|i: int| 0 <= i < entries.len() ==> (#[trigger] entries[i]).0 != key,
    ensures
        !has_key(entries, key),
        value_of(entries, key) == None::<V>,
{
}

/// `put` keeps keys distinct, gives `key` the new value, and leaves every
/// other key with the value it had.
pub proof fn lemma_put<V>(entries: Seq<(Seq<char>, V)>, key: Seq<char>, value: V)
    requires
        distinct_keys(entries),
    ensures
        distinct_keys(put(entries, key, value)),
        value_of(put(entries, key, value), key) == Some(value),
        forall|other: Seq<char>|
            other != key ==> #[trigger] value_of(put(entries, key, value), other) == value_of(
                entries,
                other,
            ),
{
    let after = put(entries, key, value);
    let at = if has_key(entries, key) {
        index_of(entries, key)
    } else {
        entries.len() as int
    };
    if has_key(entries, key) {
        lemma_key_at(entries, key, at);
    }
    assert(after.len() > at && after[at] == (key, value));
    assert forall|i: int| 0 <= i < after.len() && i != at implies #[trigger] after[i]
        == entries[i] && after[i].0 != key by {
        if has_key(entries, key) {
            if i < at {
                assert(entries[i].0 != entries[at].0);
            } else {
                assert(entries[at].0 != entries[i].0);
            }
        } else {
            assert(entries[i].0 != key);
        }
    }
    assert forall|i: int, j: int| 0 <= i < j < after.len() implies (#[trigger] after[i]).0 != (
    #[trigger] after[j]).0 by {
        if i != at && j != at {
            assert(entries[i].0 != entries[j].0);
        }
    }
    lemma_key_at(after, key, at);
    assert forall|other: Seq<char>| other != key implies #[trigger] value_of(after, other)
        == value_of(entries, other) by {
        if has_key(entries, other) {
            let j = index_of(entries, other);
            assert(j != at);
            assert(after[j] == entries[j]);
            lemma_key_at(entries, other, j);
            lemma_key_at(after, other, j);
        } else {
            assert forall|i: int| 0 <= i < after.len() implies (#[trigger] after[i]).0
                != other by {
                if i != at {
                    assert(after[i] == entries[i]);
                    assert(entries[i].0 != other);
                }
            }
            lemma_key_absent(after, other);
        }
    }
}

/// `without` keeps keys distinct, leaves `key` without a value, and leaves
/// every other key with the value it had.
pub proof fn lemma_without<V>(entries: Seq<(Seq<char>, V)>, key: Seq<char>)
    requires
        distinct_keys(entries),
    ensures
        distinct_keys(without(entries, key)),
        !has_key(without(entries, key), key),
        forall|other: Seq<char>|
            other != key ==> #[trigger] value_of(without(entries, key), other) == value_of(
                entries,
                other,
            ),
{
    let after = without(entries, key);
    if has_key(entries, key) {
        let at = index_of(entries, key);
        lemma_key_at(entries, key, at);
        assert forall|i: int| 0 <= i < after.len() implies #[trigger] after[i] == entries[if i
            < at {
            i
        } else {
            i + 1
        }] && after[i].0 != key by {
            if i < at {
                assert(entries[i].0 != entries[at].0);
            } else {
                assert(entries[at].0 != entries[i + 1].0);
            }
        }
        assert forall|i: int, j: int| 0 <= i < j < after.len() implies (#[trigger] after[i]).0
            != (#[trigger] after[j]).0 by {
            let a = if i < at {
                i
            } else {
                i + 1
            };
            let b = if j < at {
                j
            } else {
                j + 1
            };
            assert(entries[a].0 != entries[b].0);
        }
        lemma_key_absent(after, key);
        assert forall|other: Seq<char>| other != key implies #[trigger] value_of(after, other)
            == value_of(entries, other) by {
            if has_key(entries, other) {
                let j = index_of(entries, other);
                assert(j != at);
                let k = if j < at {
                    j
                } else {
                    j - 1
                };
                assert(after[k] == entries[j]);
                lemma_key_at(entries, other, j);
                lemma_key_at(after, other, k);
            } else {
                assert forall|i: int| 0 <= i < after.len() implies (#[trigger] after[i]).0
                    != other by {
                    let a = if i < at {
                        i
                    } else {
                        i + 1
                    };
                    assert(entries[a].0 != other);
                }
                lemma_key_absent(after, other);
            }
        }
    }
}

/// Where `key` stands in `entries`: the first index at which it is found.
pub fn find_key<V: DeepView>(entries: &Vec<(String, V)>, key: &String) -> (at: Option<usize>)
    ensures
        match at {
            Some(i) => {
                &&& i < entries.len()
                &&& entries.deep_view()[i as int].0 == key@
                &&& forall|k: int| 0 <= k < i ==> (#[trigger] entries.deep_view()[k]).0 != key@
            },
            None => !has_key(entries.deep_view(), key@),
        },
{
    let mut i: usize = 0;
    while i < entries.len()
        invariant
            i <= entries.len(),
            forall|k: int| 0 <= k < i ==> (#[trigger] entries.deep_view()[k]).0 != key@,
        decreases entries.len() - i,
    {
        if entries[i].0 == *key {
            return Some(i);
        }
        i += 1;
    }
    proof {
        lemma_key_absent(entries.deep_view(), key@);
    }
    None
}

} // verus!
