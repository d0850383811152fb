//! The order of compressed public keys and the ring built from them.
//!
//! Keys are ordered as their 32-byte encodings, lexicographically. A ring
//! is the strictly ascending sequence of a set of keys, so every peer that
//! knows the same keys builds the same ring.

use vstd::prelude::*;

verus! {

/// Lexicographic order on byte strings of one length: at the first place
/// where they differ, `a` holds the smaller byte.
pub open spec fn key_less(a: Seq<u8>, b: Seq<u8>) -> bool {
    exists|k: int|
        0 <= k < a.len() && k < b.len() && #[trigger] a[k] < b[k] && (forall|j: int|
            0 <= j < k ==> a[j] == b[j])
}

/// Whether `keys` ascends strictly: every key is less than each key after
/// it.
pub open spec fn strictly_ascending(keys: Seq<[u8; 32]>) -> bool {
    forall|i: int, j: int| 0 <= i < j < keys.len() ==> key_less(#[trigger] keys[i]@, #[trigger] keys[j]@)
}

/// No key is less than itself.
pub proof fn lemma_key_less_irreflexive(a: Seq<u8>)
    ensures
        !key_less(a, a),
{
}

/// The order is transitive.
pub proof fn lemma_key_less_transitive(a: Seq<u8>, b: Seq<u8>, c: Seq<u8>)
    requires
        key_less(a, b),
        key_less(b, c),
    ensures
        key_less(a, c),
{
    let k1 = choose|k: int|
        0 <= k < a.len() && k < b.len() && #[trigger] a[k] < b[k] && (forall|j: int|
            0 <= j < k ==> a[j] == b[j]);
    let k2 = choose|k: int|
        0 <= k < b.len() && k < c.len() && #[trigger] b[k] < c[k] && (forall|j: int|
            0 <= j < k ==> b[j] == c[j]);
    let k = if k1 <= k2 {
        k1
    } else {
        k2
    };
    assert(a[k] < c[k]);
    assert(forall|j: int| 0 <= j < k ==> a[j] == c[j]);
}

/// Two keys that agree on their first `n` bytes are equal, or differ first
/// at some later place.
proof fn lemma_first_difference(a: Seq<u8>, b: Seq<u8>, n: int)
    requires
        a.len() == b.len(),
        0 <= n <= a.len(),
        forall|j: int| 0 <= j < n ==> a[j] == b[j],
    ensures
        a == b || key_less(a, b) || key_less(b, a),
    decreases a.len() - n,
{
    if n == a.len() {
        assert(a =~= b);
    } else if a[n] < b[n] {
    } else if b[n] < a[n] {
    } else {
        lemma_first_difference(a, b, n + 1);
    }
}

/// The order is total on keys of one length.
pub proof fn lemma_key_order_total(a: Seq<u8>, b: Seq<u8>)
    requires
        a.len() == b.len(),
    ensures
        a == b || key_less(a, b) || key_less(b, a),
{
    lemma_first_difference(a, b, 0);
}

/// No two keys are each less than the other.
pub proof fn lemma_key_less_asymmetric(a: Seq<u8>, b: Seq<u8>)
    requires
        key_less(a, b),
    ensures
        !key_less(b, a),
{
    if key_less(b, a) {
        lemma_key_less_transitive(a, b, a);
        lemma_key_less_irreflexive(a);
    }
}

/// How two keys stand to each other.
#[derive(Clone, Copy, Debug, PartialEq, Eq)]
pub enum KeyOrder {
    Less,
    Equal,
    Greater,
}

/// Compares two keys lexicographically.
pub fn key_order(a: &[u8; 32], b: &[u8; 32]) -> (order: KeyOrder)
    ensures
        order is Less <==> key_less(a@, b@),
        order is Equal <==> a@ == b@,
        order is Greater <==> key_less(b@, a@),
{
    let mut i: usize = 0;
    while i < 32
        invariant
            i <= 32,
            forall|j: int| 0 <= j < i ==> a@[j] == b@[j],
        decreases 32 - i,
    {
        if a[i] < b[i] {
            proof {
                lemma_key_less_asymmetric(a@, b@);
            }
            return KeyOrder::Less;
        }
        if a[i] > b[i] {
            proof {
                lemma_key_less_asymmetric(b@, a@);
            }
            return KeyOrder::Greater;
        }
        i += 1;
    }
    proof {
        assert(a@ =~= b@);
        lemma_key_less_irreflexive(a@);
    }
    KeyOrder::Equal
}

/// The place of `key` among `keys`: the first index that holds it, or
/// `None` where no index does.
pub fn position(keys: &Vec<[u8; 32]>, key: &[u8; 32]) -> (index: Option<usize>)
    ensures
        index is Some <==> keys@.contains(*key),
        index matches Some(i) ==> i < keys.len() && keys@[i as int] == *key && (forall|j: int|
            0 <= j < i ==> keys@[j] != *key),
{
    let mut i: usize = 0;
    while i < keys.len()
        invariant
            i <= keys.len(),
            forall|j: int| 0 <= j < i ==> keys@[j] != *key,
        decreases keys.len() - i,
    {
        if let KeyOrder::Equal = key_order(&keys[i], key) {
            assert(keys@[i as int] =~= *key);
            return Some(i);
        }
        i += 1;
    }
    None
}

/// Inserts `key` at its place in an ascending sequence of keys, unless it
/// is there already; returns whether it was inserted.
pub fn insert_ascending(keys: &mut Vec<[u8; 32]>, key: [u8; 32]) -> (inserted: bool)
    requires
        strictly_ascending(old(keys)@),
    ensures
        strictly_ascending(final(keys)@),
        final(keys)@.to_set() == old(keys)@.to_set().insert(key),
        inserted == !old(keys)@.contains(key),
        inserted ==> final(keys)@.len() == old(keys)@.len() + 1,
        !inserted ==> final(keys)@ == old(keys)@,
{
    let mut i: usize = 0;
    while i < keys.len()
        invariant
            i <= keys.len(),
            keys@ == old(keys)@,
            strictly_ascending(keys@),
            forall|j: int| 0 <= j < i ==> key_less(keys@[j]@, key@),
        ensures
            i < keys@.len() ==> key_less(key@, keys@[i as int]@),
        decreases keys.len() - i,
    {
        match key_order(&keys[i], &key) {
            KeyOrder::Less => {},
            KeyOrder::Equal => {
                assert(keys@[i as int] =~= key);
                assert(keys@.to_set().insert(key) =~= keys@.to_set());
                return false;
            },
            KeyOrder::Greater => {
                break ;
            },
        }
        i += 1;
    }
    proof {
        // Every key from `i` on is greater than `key`.
        assert forall|j: int| i <= j < keys@.len() implies key_less(key@, #[trigger] keys@[j]@) by {
            if j > i {
                lemma_key_less_transitive(key@, keys@[i as int]@, keys@[j]@);
            }
        }
        assert(!keys@.contains(key)) by {
            if keys@.contains(key) {
                let j = choose|j: int| 0 <= j < keys@.len() && keys@[j] == key;
                lemma_key_less_irreflexive(key@);
            }
        }
    }
    let ghost before = keys@;
    keys.insert(i, key);
    proof {
        assert(keys@ == before.insert(i as int, key));
        assert forall|a: int, b: int| 0 <= a < b < keys@.len() implies key_less(
            #[trigger] keys@[a]@,
            #[trigger] keys@[b]@,
        ) by {
            let a0 = if a < i { a } else { a - 1 };
            let b0 = if b < i { b } else { b - 1 };
            if a == i {
                assert(keys@[b] == before[b0]);
            } else if b == i {
                assert(keys@[a] == before[a0]);
            } else {
                assert(keys@[a] == before[a0]);
                assert(keys@[b] == before[b0]);
            }
        }
        assert(keys@.to_set() =~= before.to_set().insert(key)) by {
            assert forall|k: [u8; 32]| keys@.to_set().contains(k) implies before.to_set().insert(
                key,
            ).contains(k) by {
                let j = choose|j: int| 0 <= j < keys@.len() && keys@[j] == k;
                if j < i {
                    assert(before[j] == k);
                } else if j > i {
                    assert(before[j - 1] == k);
                }
            }
            assert forall|k: [u8; 32]| before.to_set().insert(key).contains(k) implies keys@.to_set().contains(
                k,
            ) by {
                if k == key {
                    assert(keys@[i as int] == k);
                } else {
                    let j = choose|j: int| 0 <= j < before.len() && before[j] == k;
                    if j < i {
                        assert(keys@[j] == k);
                    } else {
                        assert(keys@[j + 1] == k);
                    }
                }
            }
        }
    }
    true
}

/// Sorts keys into a ring: the strictly ascending sequence of the keys
/// given. Where no key is given twice, the ring is as long as the input.
pub fn sort_keys(keys: &Vec<[u8; 32]>) -> (ring: Vec<[u8; 32]>)
    ensures
        strictly_ascending(ring@),
        ring@.to_set() == keys@.to_set(),
        keys@.no_duplicates() ==> ring@.len() == keys@.len(),
{
    let mut ring: Vec<[u8; 32]> = Vec::new();
    let mut i: usize = 0;
    assert(keys@.take(0).to_set() =~= ring@.to_set());
    while i < keys.len()
        invariant
            i <= keys.len(),
            strictly_ascending(ring@),
            ring@.to_set() == keys@.take(i as int).to_set(),
            keys@.no_duplicates() ==> ring@.len() == i,
        decreases keys.len() - i,
    {
        let ghost before = ring@;
        let inserted = insert_ascending(&mut ring, keys[i]);
        proof {
            let key = keys@[i as int];
            let shorter = keys@.take(i as int);
            let longer = keys@.take(i + 1);
            assert(longer.to_set() =~= shorter.to_set().insert(key)) by {
                assert forall|k: [u8; 32]| longer.to_set().contains(k) implies shorter.to_set().insert(
                    key,
                ).contains(k) by {
                    let j = choose|j: int| 0 <= j < longer.len() && longer[j] == k;
                    if j < i {
                        assert(shorter[j] == k);
                    }
                }
                assert forall|k: [u8; 32]| shorter.to_set().insert(key).contains(
                    k,
                ) implies longer.to_set().contains(k) by {
                    if k == key {
                        assert(longer[i as int] == k);
                    } else {
                        let j = choose|j: int| 0 <= j < shorter.len() && shorter[j] == k;
                        assert(longer[j] == k);
                    }
                }
            }
            if keys@.no_duplicates() {
                if before.contains(key) {
                    assert(shorter.to_set().contains(key));
                    let j = choose|j: int| 0 <= j < shorter.len() && shorter[j] == key;
                    assert(keys@[j] == keys@[i as int]);
                }
            }
        }
        i += 1;
    }
    assert(keys@.take(keys@.len() as int) =~= keys@);
    ring
}

/// A ring is determined by its members: two strictly ascending sequences
/// that hold the same keys are the same sequence.
pub proof fn lemma_ring_determined_by_members(a: Seq<[u8; 32]>, b: Seq<[u8; 32]>)
    requires
        strictly_ascending(a),
        strictly_ascending(b),
        a.to_set() == b.to_set(),
    ensures
        a == b,
    decreases a.len(),
{
    if a.len() == 0 {
        if b.len() > 0 {
            assert(b.to_set().contains(b[0]));
            assert(a.to_set().contains(b[0]));
        }
        assert(a =~= b);
    } else if b.len() == 0 {
        assert(a.to_set().contains(a[0]));
        assert(b.to_set().contains(a[0]));
    } else {
        // The least key of the set stands first in both.
        assert(a.to_set().contains(a[0]));
        assert(b.to_set().contains(b[0]));
        let i = choose|i: int| 0 <= i < b.len() && b[i] == a[0];
        let j = choose|j: int| 0 <= j < a.len() && a[j] == b[0];
        assert(b.to_set().contains(a[0]));
        assert(a.to_set().contains(b[0]));
        if i > 0 && j > 0 {
            assert(key_less(b[0]@, b[i]@));
            assert(key_less(a[0]@, a[j]@));
            lemma_key_less_asymmetric(a[0]@, b[0]@);
        }
        if i > 0 && j == 0 {
            assert(key_less(b[0]@, b[i]@));
            lemma_key_less_irreflexive(a[0]@);
        }
        if i == 0 && j > 0 {
            assert(key_less(a[0]@, a[j]@));
            lemma_key_less_irreflexive(a[0]@);
        }
        assert(a[0] == b[0]);
        let a1 = a.drop_first();
        let b1 = b.drop_first();
        assert(strictly_ascending(a1)) by {
            assert forall|x: int, y: int| 0 <= x < y < a1.len() implies key_less(
                #[trigger] a1[x]@,
                #[trigger] a1[y]@,
            ) by {
                assert(a1[x] == a[x + 1] && a1[y] == a[y + 1]);
            }
        }
        assert(strictly_ascending(b1)) by {
            assert forall|x: int, y: int| 0 <= x < y < b1.len() implies key_less(
                #[trigger] b1[x]@,
                #[trigger] b1[y]@,
            ) by {
                assert(b1[x] == b[x + 1] && b1[y] == b[y + 1]);
            }
        }
        assert(a1.to_set() =~= b1.to_set()) by {
            assert forall|k: [u8; 32]| a1.to_set().contains(k) implies b1.to_set().contains(k) by {
                let x = choose|x: int| 0 <= x < a1.len() && a1[x] == k;
                assert(a[x + 1] == k);
                assert(key_less(a[0]@, a[x + 1]@));
                assert(a.to_set().contains(k));
                assert(b.to_set().contains(k));
                let y = choose|y: int| 0 <= y < b.len() && b[y] == k;
                if y == 0 {
                    lemma_key_less_irreflexive(a[0]@);
                }
                assert(b1[y - 1] == k);
            }
            assert forall|k: [u8; 32]| b1.to_set().contains(k) implies a1.to_set().contains(k) by {
                let x = choose|x: int| 0 <= x < b1.len() && b1[x] == k;
                assert(b[x + 1] == k);
                assert(key_less(b[0]@, b[x + 1]@));
                assert(b.to_set().contains(k));
                assert(a.to_set().contains(k));
                let y = choose|y: int| 0 <= y < a.len() && a[y] == k;
                if y == 0 {
                    lemma_key_less_irreflexive(b[0]@);
                }
                assert(a1[y - 1] == k);
            }
        }
        lemma_ring_determined_by_members(a1, b1);
        assert(a =~= b) by {
            assert(a.len() == b.len());
            assert forall|x: int| 0 <= x < a.len() implies a[x] == b[x] by {
                if x > 0 {
                    assert(a1[x - 1] == b1[x - 1]);
                }
            }
        }
    }
}

} // verus!
