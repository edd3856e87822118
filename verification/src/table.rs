//! Tables kept as lists of entries, read as finite maps.
//!
//! The ledger stores each of its tables as a list of `(key, amount)` entries
//! in which no key occurs twice. This module says which map such a list
//! stands for, what the sum of a map's amounts is, and how both change when
//! an entry is overwritten or appended.

use vstd::prelude::*;

verus! {

/// No key occurs in two entries.
pub open spec fn distinct_keys<K>(entries: Seq<(K, u64)>) -> bool {
    forall|i: int, j: int| 0 <= i < j < entries.len() ==> entries[i].0 != entries[j].0
}

/// Some entry has the key `key`.
pub open spec fn has_key<K>(entries: Seq<(K, u64)>, key: K) -> bool {
    exists|i: int| 0 <= i < entries.len() && entries[i].0 == key
}

/// The map that the entries stand for: each entry's key bound to its amount.
pub open spec fn table_of<K>(entries: Seq<(K, u64)>) -> Map<K, nat>
    decreases entries.len(),
{
    if entries.len() == 0 {
        Map::empty()
    } else {
        table_of(entries.drop_last()).insert(entries.last().0, entries.last().1 as nat)
    }
}

/// The sum of all amounts in a finite map.
pub open spec fn sum_values<K>(m: Map<K, nat>) -> nat
    decreases m.dom().len(),
    when m.dom().finite()
{
    if m.dom().len() == 0 {
        0
    } else {
        let key = m.dom().choose();
        m[key] + sum_values(m.remove(key))
    }
}

/// The sum can be taken starting from any key of the map.
pub proof fn lemma_sum_remove<K>(m: Map<K, nat>, key: K)
    requires
        m.dom().finite(),
        m.contains_key(key),
    ensures
        sum_values(m) == m[key] + sum_values(m.remove(key)),
    decreases m.dom().len(),
{
    let first = m.dom().choose();
    if first != key {
        lemma_sum_remove(m.remove(first), key);
        lemma_sum_remove(m.remove(key), first);
        assert(m.remove(first).remove(key) =~= m.remove(key).remove(first));
    }
}

/// Binding a key to an amount puts that amount in place of the key's old
/// share of the sum.
pub proof fn lemma_sum_insert<K>(m: Map<K, nat>, key: K, amount: nat)
    requires
        m.dom().finite(),
    ensures
        sum_values(m.insert(key, amount)) == amount + sum_values(m.remove(key)),
{
    lemma_sum_remove(m.insert(key, amount), key);
    assert(m.insert(key, amount).remove(key) =~= m.remove(key));
}

/// What `table_of` holds: exactly the keys of the entries, each bound to the
/// amount of its entry, and only finitely many of them.
pub proof fn lemma_table_of<K>(entries: Seq<(K, u64)>)
    requires
        distinct_keys(entries),
    ensures
        table_of(entries).dom().finite(),
        forall|key: K| #[trigger] table_of(entries).contains_key(key) <==> has_key(entries, key),
        forall|i: int|
            0 <= i < entries.len() ==> table_of(entries)[(#[trigger] entries[i]).0]
                == entries[i].1,
    decreases entries.len(),
{
    if entries.len() > 0 {
        let front = entries.drop_last();
        lemma_table_of(front);
        assert forall|key: K| #[trigger]
            table_of(entries).contains_key(key) <==> has_key(entries, key) by {
            if has_key(entries, key) {
                let i: int = choose|i: int| 0 <= i < entries.len() && entries[i].0 == key;
                if i < front.len() {
                    assert(front[i].0 == key);
                }
            }
        }
        assert forall|i: int| 0 <= i < entries.len() implies table_of(entries)[(
            #[trigger] entries[i]).0] == entries[i].1 by {
            if i < front.len() {
                assert(front[i] == entries[i]);
            }
        }
    }
}

/// Overwriting the amount of one entry rebinds that entry's key and leaves
/// the keys as they were.
pub proof fn lemma_table_update<K>(entries: Seq<(K, u64)>, i: int, amount: u64)
    requires
        distinct_keys(entries),
        0 <= i < entries.len(),
    ensures
        distinct_keys(entries.update(i, (entries[i].0, amount))),
        table_of(entries.update(i, (entries[i].0, amount))) == table_of(entries).insert(
            entries[i].0,
            amount as nat,
        ),
{
    let key = entries[i].0;
    let updated = entries.update(i, (key, amount));
    assert(distinct_keys(updated));
    lemma_table_of(entries);
    lemma_table_of(updated);
    let after = table_of(updated);
    let expected = table_of(entries).insert(key, amount as nat);
    assert forall|k: K| after.contains_key(k) <==> expected.contains_key(k) by {
        if has_key(entries, k) {
            let j: int = choose|j: int| 0 <= j < entries.len() && entries[j].0 == k;
            assert(updated[j].0 == k);
        }
    }
    assert(after =~= expected);
}

/// Appending an entry binds its key; with a key that no entry has yet, the
/// keys stay distinct.
pub proof fn lemma_table_push<K>(entries: Seq<(K, u64)>, key: K, amount: u64)
    ensures
        table_of(entries.push((key, amount))) == table_of(entries).insert(key, amount as nat),
        distinct_keys(entries) && !has_key(entries, key) ==> distinct_keys(
            entries.push((key, amount)),
        ),
{
    let pushed = entries.push((key, amount));
    assert(pushed.drop_last() =~= entries);
}

/// How many entries have the key `key`.
pub open spec fn count_key<K>(entries: Seq<(K, u64)>, key: K) -> nat
    decreases entries.len(),
{
    if entries.len() == 0 {
        0
    } else if entries.last().0 == key {
        count_key(entries.drop_last(), key) + 1
    } else {
        count_key(entries.drop_last(), key)
    }
}

/// Where keys are distinct, a key that occurs has exactly one entry.
pub proof fn lemma_count_key<K>(entries: Seq<(K, u64)>, key: K)
    requires
        distinct_keys(entries),
    ensures
        count_key(entries, key) == (if has_key(entries, key) {
            1nat
        } else {
            0nat
        }),
    decreases entries.len(),
{
    if entries.len() > 0 {
        let front = entries.drop_last();
        lemma_count_key(front, key);
        if entries.last().0 != key && has_key(entries, key) {
            let i: int = choose|i: int| 0 <= i < entries.len() && entries[i].0 == key;
            assert(front[i].0 == key);
        }
    }
}

/// Taking one more entry of a list with distinct keys adds that entry's
/// amount to the sum.
pub proof fn lemma_sum_take_next<K>(entries: Seq<(K, u64)>, n: int)
    requires
        distinct_keys(entries),
        0 <= n < entries.len(),
    ensures
        distinct_keys(entries.take(n)),
        distinct_keys(entries.take(n + 1)),
        sum_values(table_of(entries.take(n + 1))) == sum_values(table_of(entries.take(n)))
            + entries[n].1,
{
    let shorter = entries.take(n);
    let longer = entries.take(n + 1);
    assert(longer.drop_last() =~= shorter);
    assert(distinct_keys(shorter));
    assert(distinct_keys(longer));
    lemma_table_of(shorter);
    assert(!has_key(shorter, entries[n].0));
    lemma_sum_insert(table_of(shorter), entries[n].0, entries[n].1 as nat);
    assert(table_of(shorter).remove(entries[n].0) =~= table_of(shorter));
}

/// The amounts of the first `n` entries sum to no more than all of them.
pub proof fn lemma_sum_take_bounded<K>(entries: Seq<(K, u64)>, n: int)
    requires
        distinct_keys(entries),
        0 <= n <= entries.len(),
    ensures
        sum_values(table_of(entries.take(n))) <= sum_values(table_of(entries)),
    decreases entries.len() - n,
{
    if n < entries.len() {
        lemma_sum_take_next(entries, n);
        lemma_sum_take_bounded(entries, n + 1);
    } else {
        assert(entries.take(n) =~= entries);
    }
}

} // verus!
