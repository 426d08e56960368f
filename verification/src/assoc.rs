//! Small sorted association lists keyed by integers.
//!
//! They model the ordered maps this core keeps: the file-descriptor table,
//! the futex table, the exit-code table and the process registry. Keys are
//! kept strictly increasing, so every key names at most one entry.

use vstd::prelude::*;

verus! {

/// Keys strictly increase along the list: each key occurs at most once.
pub open spec fn sorted_keys<V>(s: Seq<(usize, V)>) -> bool {
    forall|i: int, j: int| 0 <= i < j < s.len() ==> (#[trigger] s[i]).0 < (#[trigger] s[j]).0
}

/// Whether some entry has key `k`.
pub open spec fn has_key<V>(s: Seq<(usize, V)>, k: int) -> bool {
    exists|i: int| 0 <= i < s.len() && (#[trigger] s[i]).0 == k
}

/// The position of the entry with key `k`.
pub open spec fn index_of_key<V>(s: Seq<(usize, V)>, k: int) -> int {
    choose|i: int| 0 <= i < s.len() && (#[trigger] s[i]).0 == k
}

/// The value stored under key `k`.
pub open spec fn value_of<V>(s: Seq<(usize, V)>, k: int) -> V {
    s[index_of_key(s, k)].1
}

/// In a sorted list, equal keys mean equal positions.
pub proof fn lemma_index_unique<V>(s: Seq<(usize, V)>, i: int, j: int)
    requires
        sorted_keys(s),
        0 <= i < s.len(),
        0 <= j < s.len(),
        s[i].0 == s[j].0,
    ensures
        i == j,
{
    if i < j {
        assert(s[i].0 < s[j].0);
    }
    if j < i {
        assert(s[j].0 < s[i].0);
    }
}

/// In a sorted list, an entry with key `k` at position `i` is the entry
/// `value_of` speaks of.
pub proof fn lemma_value_at<V>(s: Seq<(usize, V)>, i: int)
    requires
        sorted_keys(s),
        0 <= i < s.len(),
    ensures
        has_key(s, s[i].0 as int),
        index_of_key(s, s[i].0 as int) == i,
        value_of(s, s[i].0 as int) == s[i].1,
{
    assert(0 <= i < s.len() && s[i].0 == s[i].0 as int);
    let j = index_of_key(s, s[i].0 as int);
    lemma_index_unique(s, i, j);
}

/// Look a key up.
pub fn assoc_get<V: Copy>(s: &Vec<(usize, V)>, k: usize) -> (r: Option<V>)
    requires
        sorted_keys(s@),
    ensures
        r is Some <==> has_key(s@, k as int),
        r matches Some(v) ==> v == value_of(s@, k as int),
{
    let n = s.len();
    let mut i: usize = 0;
    while i < n
        invariant
            0 <= i <= n,
            n == s@.len(),
            sorted_keys(s@),
            forall|j: int| 0 <= j < i ==> (#[trigger] s@[j]).0 != k,
        decreases n - i,
    {
        let (key, val) = s[i];
        if key == k {
            proof {
                lemma_value_at(s@, i as int);
            }
            return Some(val);
        }
        i += 1;
    }
    None
}

/// Insert or replace the entry with key `k`. Every other entry is kept,
/// under the same key and with the same value.
pub fn assoc_insert<V: Copy>(s: &mut Vec<(usize, V)>, k: usize, v: V)
    requires
        sorted_keys(old(s)@),
    ensures
        sorted_keys(final(s)@),
        has_key(final(s)@, k as int),
        value_of(final(s)@, k as int) == v,
        forall|k2: int|
            k2 != k as int ==> has_key(final(s)@, k2) == has_key(old(s)@, k2),
        forall|k2: int|
            k2 != k as int && has_key(old(s)@, k2) ==> value_of(final(s)@, k2) == value_of(
                old(s)@,
                k2,
            ),
        final(s)@.len() == old(s)@.len() + (if has_key(old(s)@, k as int) {
            0int
        } else {
            1int
        }),
    {
    let n = s.len();
    let mut idx: usize = 0;
    while idx < n && s[idx].0 < k
        invariant
            0 <= idx <= n,
            n == s@.len(),
            sorted_keys(s@),
            forall|j: int| 0 <= j < idx ==> (#[trigger] s@[j]).0 < k,
        decreases n - idx,
    {
        idx += 1;
    }
    proof {
        // Entries from idx on have keys at least k.
        assert forall|j: int| idx <= j < n implies (#[trigger] s@[j]).0 >= k by {
            if idx < n && j > idx as int {
                assert(s@[idx as int].0 < s@[j].0);
            }
        }
    }
    if idx < n && s[idx].0 == k {
        let ghost olds = s@;
        proof {
            lemma_value_at(olds, idx as int);
        }
        s.set(idx, (k, v));
        proof {
            assert forall|i: int, j: int|
                0 <= i < j < s@.len() implies (#[trigger] s@[i]).0 < (#[trigger] s@[j]).0 by {
                assert(olds[i].0 < olds[j].0);
            }
            lemma_value_at(s@, idx as int);
            assert forall|k2: int|
                k2 != k as int implies has_key(s@, k2) == has_key(olds, k2) by {
                if has_key(s@, k2) {
                    let i = choose|i: int| 0 <= i < s@.len() && (#[trigger] s@[i]).0 == k2;
                    assert(olds[i].0 == k2);
                }
                if has_key(olds, k2) {
                    let i = choose|i: int| 0 <= i < olds.len() && (#[trigger] olds[i]).0 == k2;
                    assert(s@[i].0 == k2);
                }
            }
            assert forall|k2: int|
                k2 != k as int && has_key(olds, k2) implies value_of(s@, k2) == value_of(
                olds,
                k2,
            ) by {
                let i = index_of_key(olds, k2);
                assert(olds[i].0 == k2);
                assert(s@[i] == olds[i]);
                lemma_index_unique(s@, i, index_of_key(s@, k2));
            }
        }
    } else {
        let ghost olds = s@;
        s.insert(idx, (k, v));
        proof {
            assert forall|i: int, j: int|
                0 <= i < j < s@.len() implies (#[trigger] s@[i]).0 < (#[trigger] s@[j]).0 by {
                if j < idx as int {
                    assert(olds[i].0 < olds[j].0);
                } else if i < idx as int && j == idx as int {
                    assert(olds[i].0 < k);
                } else if i < idx as int && j > idx as int {
                    assert(olds[i].0 < k);
                    assert(olds[j - 1].0 >= k);
                    assert(olds[j - 1].0 != k);
                } else if i == idx as int {
                    assert(olds[j - 1].0 >= k);
                    assert(olds[j - 1].0 != k);
                } else {
                    assert(olds[i - 1].0 < olds[j - 1].0);
                }
            }
            lemma_value_at(s@, idx as int);
            assert(!has_key(olds, k as int)) by {
                if has_key(olds, k as int) {
                    let i = choose|i: int|
                        0 <= i < olds.len() && (#[trigger] olds[i]).0 == k as int;
                    assert(olds[i].0 >= k || olds[i].0 < k);
                }
            }
            assert forall|k2: int|
                k2 != k as int implies has_key(s@, k2) == has_key(olds, k2) by {
                if has_key(s@, k2) {
                    let i = choose|i: int| 0 <= i < s@.len() && (#[trigger] s@[i]).0 == k2;
                    if i < idx as int {
                        assert(olds[i].0 == k2);
                    } else {
                        assert(olds[i - 1].0 == k2);
                    }
                }
                if has_key(olds, k2) {
                    let i = choose|i: int| 0 <= i < olds.len() && (#[trigger] olds[i]).0 == k2;
                    if i < idx as int {
                        assert(s@[i].0 == k2);
                    } else {
                        assert(s@[i + 1].0 == k2);
                    }
                }
            }
            assert forall|k2: int|
                k2 != k as int && has_key(olds, k2) implies value_of(s@, k2) == value_of(
                olds,
                k2,
            ) by {
                let i = index_of_key(olds, k2);
                assert(olds[i].0 == k2);
                if i < idx as int {
                    assert(s@[i] == olds[i]);
                    lemma_index_unique(s@, i, index_of_key(s@, k2));
                } else {
                    assert(s@[i + 1] == olds[i]);
                    lemma_index_unique(s@, i + 1, index_of_key(s@, k2));
                }
            }
        }
    }
}

/// Remove the entry with key `k`, if there is one. Every other entry is
/// kept, under the same key and with the same value.
pub fn assoc_remove<V: Copy>(s: &mut Vec<(usize, V)>, k: usize)
    requires
        sorted_keys(old(s)@),
    ensures
        sorted_keys(final(s)@),
        !has_key(final(s)@, k as int),
        forall|k2: int|
            k2 != k as int ==> has_key(final(s)@, k2) == has_key(old(s)@, k2),
        forall|k2: int|
            k2 != k as int && has_key(old(s)@, k2) ==> value_of(final(s)@, k2) == value_of(
                old(s)@,
                k2,
            ),
        final(s)@.len() == old(s)@.len() - (if has_key(old(s)@, k as int) {
            1int
        } else {
            0int
        }),
{
    let n = s.len();
    let mut i: usize = 0;
    while i < n
        invariant
            0 <= i <= n,
            n == s@.len(),
            s@ == old(s)@,
            sorted_keys(s@),
            forall|j: int| 0 <= j < i ==> (#[trigger] s@[j]).0 != k,
        decreases n - i,
    {
        if s[i].0 == k {
            let ghost olds = s@;
            proof {
                lemma_value_at(olds, i as int);
            }
            s.remove(i);
            proof {
                assert forall|a: int, b: int|
                    0 <= a < b < s@.len() implies (#[trigger] s@[a]).0 < (#[trigger] s@[b]).0 by {
                    if b < i as int {
                        assert(olds[a].0 < olds[b].0);
                    } else if a < i as int {
                        assert(olds[a].0 < olds[b + 1].0);
                    } else {
                        assert(olds[a + 1].0 < olds[b + 1].0);
                    }
                }
                assert forall|k2: int| !(has_key(s@, k2) && k2 == k as int) by {
                    if has_key(s@, k2) && k2 == k as int {
                        let a = choose|a: int| 0 <= a < s@.len() && (#[trigger] s@[a]).0 == k2;
                        if a < i as int {
                            assert(olds[a].0 == k2);
                            lemma_index_unique(olds, a, i as int);
                        } else {
                            assert(olds[a + 1].0 == k2);
                            lemma_index_unique(olds, a + 1, i as int);
                        }
                    }
                }
                assert forall|k2: int|
                    k2 != k as int implies has_key(s@, k2) == has_key(olds, k2) by {
                    if has_key(s@, k2) {
                        let a = choose|a: int| 0 <= a < s@.len() && (#[trigger] s@[a]).0 == k2;
                        if a < i as int {
                            assert(olds[a].0 == k2);
                        } else {
                            assert(olds[a + 1].0 == k2);
                        }
                    }
                    if has_key(olds, k2) {
                        let a = choose|a: int| 0 <= a < olds.len() && (#[trigger] olds[a]).0 == k2;
                        if a < i as int {
                            assert(s@[a].0 == k2);
                        } else {
                            assert(a != i as int);
                            assert(s@[a - 1].0 == k2);
                        }
                    }
                }
                assert forall|k2: int|
                    k2 != k as int && has_key(olds, k2) implies value_of(s@, k2) == value_of(
                    olds,
                    k2,
                ) by {
                    let a = index_of_key(olds, k2);
                    assert(olds[a].0 == k2);
                    if a < i as int {
                        assert(s@[a] == olds[a]);
                        lemma_index_unique(s@, a, index_of_key(s@, k2));
                    } else {
                        assert(a != i as int);
                        assert(s@[a - 1] == olds[a]);
                        lemma_index_unique(s@, a - 1, index_of_key(s@, k2));
                    }
                }
            }
            return;
        }
        i += 1;
    }
}

} // verus!
