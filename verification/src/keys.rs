//! Finding a key among named entries.

use vstd::prelude::*;

verus! {

/// The first place below `n` at which `k` stands in `keys`, or `n` where it
/// stands at none of them.
pub open spec fn key_pos(keys: Seq<Seq<char>>, k: Seq<char>, n: nat) -> nat
    decreases n,
{
    if n == 0 {
        0
    } else {
        let p = key_pos(keys, k, (n - 1) as nat);
        if p < n - 1 {
            p
        } else if keys[n - 1] == k {
            (n - 1) as nat
        } else {
            n
        }
    }
}

/// The keys of a vector of named entries, in their order.
pub open spec fn entry_keys<T>(entries: Seq<(String, T)>) -> Seq<Seq<char>> {
    Seq::new(entries.len(), |i: int| entries[i].0@)
}

/// `key_pos` gives a place that holds the key and has none before it that does.
pub proof fn lemma_key_pos(keys: Seq<Seq<char>>, k: Seq<char>, n: nat)
    requires
        n <= keys.len(),
    ensures
        key_pos(keys, k, n) <= n,
        key_pos(keys, k, n) < n ==> keys[key_pos(keys, k, n) as int] == k,
        forall|j: int| 0 <= j < key_pos(keys, k, n) ==> keys[j] != k,
    decreases n,
{
    if n > 0 {
        lemma_key_pos(keys, k, (n - 1) as nat);
    }
}

/// The first place that holds the key is what `key_pos` gives.
pub proof fn lemma_key_pos_is(keys: Seq<Seq<char>>, k: Seq<char>, n: nat, i: int)
    requires
        n <= keys.len(),
        0 <= i <= n,
        i < n ==> keys[i] == k,
        forall|j: int| 0 <= j < i ==> keys[j] != k,
    ensures
        key_pos(keys, k, n) == i,
{
    lemma_key_pos(keys, k, n);
}

/// The number of entries that a search over the first `n` looks at: `n`, or
/// all of them where there are fewer.
pub open spec fn reach(n: nat, len: nat) -> nat {
    if n <= len {
        n
    } else {
        len
    }
}

/// The place of `key` among the first `n` entries (among all, where there
/// are fewer than `n`): the first that bears it, or the number of entries
/// looked at.
pub fn find_key<T>(entries: &Vec<(String, T)>, key: &String, n: usize) -> (p: usize)
    ensures
        p == key_pos(entry_keys(entries@), key@, reach(n as nat, entries@.len())),
        p <= reach(n as nat, entries@.len()),
{
    let m: usize = if n <= entries.len() {
        n
    } else {
        entries.len()
    };
    let mut i: usize = 0;
    while i < m
        invariant
            i <= m <= entries@.len(),
            m == reach(n as nat, entries@.len()),
            forall|j: int| 0 <= j < i ==> entry_keys(entries@)[j] != key@,
        decreases m - i,
    {
        if entries[i].0 == *key {
            proof {
                lemma_key_pos_is(entry_keys(entries@), key@, m as nat, i as int);
            }
            return i;
        }
        i += 1;
    }
    proof {
        lemma_key_pos_is(entry_keys(entries@), key@, m as nat, m as int);
    }
    m
}

/// The key stands at two places.
pub open spec fn twice(keys: Seq<Seq<char>>, k: Seq<char>) -> bool {
    exists|i: int, j: int| 0 <= i < j < keys.len() && keys[i] == k && keys[j] == k
}

/// Whether `key`, which stands first at place `p`, stands at a later place too.
pub(crate) fn stands_again<T>(entries: &Vec<(String, T)>, key: &String, p: usize) -> (r: bool)
    requires
        p < entries@.len(),
        p == key_pos(entry_keys(entries@), key@, entries@.len()),
    ensures
        r == twice(entry_keys(entries@), key@),
{
    let ghost keys = entry_keys(entries@);
    proof {
        lemma_key_pos(keys, key@, entries@.len());
    }
    let n: usize = entries.len();
    let mut j: usize = p + 1;
    while j < n
        invariant
            p < j <= entries@.len(),
            n == entries@.len(),
            keys == entry_keys(entries@),
            keys[p as int] == key@,
            forall|i: int| 0 <= i < p ==> keys[i] != key@,
            forall|i: int| p < i < j ==> keys[i] != key@,
        decreases entries@.len() - j,
    {
        if entries[j].0 == *key {
            assert(0 <= p < j < keys.len() && keys[p as int] == key@ && keys[j as int] == key@);
            return true;
        }
        j += 1;
    }
    false
}

} // verus!
