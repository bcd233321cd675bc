//! The mathematical model of building an insertion-ordered map from a pair
//! list: what the entry sequence of the finished container is, and the laws
//! that construction obeys.

use vstd::prelude::*;

verus! {

/// `true` iff some pair of `s` has key `k`.
pub open spec fn has_key<K, V>(s: Seq<(K, V)>, k: K) -> bool {
    exists|i: int| 0 <= i < s.len() && s[i].0 == k
}

/// `s` with every pair whose key is `k` taken out; the others keep their
/// order.
pub open spec fn remove_key<K, V>(s: Seq<(K, V)>, k: K) -> Seq<(K, V)>
    decreases s.len(),
{
    if s.len() == 0 {
        Seq::empty()
    } else if s.last().0 == k {
        remove_key(s.drop_last(), k)
    } else {
        remove_key(s.drop_last(), k).push(s.last())
    }
}

/// One insertion, as the ordered map performs it: any entry with the same key
/// goes away, and the new pair is appended at the back of the iteration
/// order.
pub open spec fn spec_insert<K, V>(s: Seq<(K, V)>, k: K, v: V) -> Seq<(K, V)> {
    remove_key(s, k).push((k, v))
}

/// The entry sequence of the map built by inserting `pairs`, in order, into
/// an empty map.
pub open spec fn spec_insert_all<K, V>(pairs: Seq<(K, V)>) -> Seq<(K, V)>
    decreases pairs.len(),
{
    if pairs.len() == 0 {
        Seq::empty()
    } else {
        spec_insert(spec_insert_all(pairs.drop_last()), pairs.last().0, pairs.last().1)
    }
}

/// The value of the last pair of `pairs` whose key is `k`.
pub open spec fn last_value_of<K, V>(pairs: Seq<(K, V)>, k: K) -> V
    decreases pairs.len(),
{
    if pairs.len() == 0 {
        arbitrary()
    } else if pairs.last().0 == k {
        pairs.last().1
    } else {
        last_value_of(pairs.drop_last(), k)
    }
}

/// No two pairs of `s` share a key.
pub open spec fn unique_keys<K, V>(s: Seq<(K, V)>) -> bool {
    forall|i: int, j: int| 0 <= i < j < s.len() ==> s[i].0 != s[j].0
}

proof fn lemma_drop_last_push<A>(s: Seq<A>)
    requires
        s.len() > 0,
    ensures
        s.drop_last().push(s.last()) == s,
{
    assert(s.drop_last().push(s.last()) =~= s);
}

proof fn lemma_contains_push<A>(s: Seq<A>, x: A, y: A)
    ensures
        s.push(x).contains(y) <==> (s.contains(y) || x == y),
{
    if s.contains(y) {
        let i = choose|i: int| 0 <= i < s.len() && s[i] == y;
        assert(s.push(x)[i] == y);
    }
    if x == y {
        assert(s.push(x)[s.len() as int] == y);
    }
    if s.push(x).contains(y) {
        let i = choose|i: int| 0 <= i < s.push(x).len() && s.push(x)[i] == y;
        if i < s.len() {
            assert(s[i] == y);
        }
    }
}

proof fn lemma_has_key_push<K, V>(s: Seq<(K, V)>, p: (K, V), k: K)
    ensures
        has_key(s.push(p), k) <==> (has_key(s, k) || p.0 == k),
{
    if has_key(s, k) {
        let i = choose|i: int| 0 <= i < s.len() && s[i].0 == k;
        assert(s.push(p)[i].0 == k);
    }
    if p.0 == k {
        assert(s.push(p)[s.len() as int].0 == k);
    }
    if has_key(s.push(p), k) {
        let i = choose|i: int| 0 <= i < s.push(p).len() && s.push(p)[i].0 == k;
        if i < s.len() {
            assert(s[i].0 == k);
        }
    }
}

/// No key `k` is left after `remove_key(s, k)`.
proof fn lemma_remove_key_gone<K, V>(s: Seq<(K, V)>, k: K)
    ensures
        !has_key(remove_key(s, k), k),
    decreases s.len(),
{
    if s.len() == 0 {
    } else {
        lemma_remove_key_gone(s.drop_last(), k);
        if s.last().0 != k {
            lemma_has_key_push(remove_key(s.drop_last(), k), s.last(), k);
        }
    }
}

/// `remove_key` keeps every key other than the removed one, and adds none.
proof fn lemma_remove_key_has_key<K, V>(s: Seq<(K, V)>, k: K, k2: K)
    requires
        k2 != k,
    ensures
        has_key(remove_key(s, k), k2) <==> has_key(s, k2),
    decreases s.len(),
{
    if s.len() == 0 {
    } else {
        lemma_remove_key_has_key(s.drop_last(), k, k2);
        lemma_has_key_push(s.drop_last(), s.last(), k2);
        lemma_drop_last_push(s);
        if s.last().0 != k {
            lemma_has_key_push(remove_key(s.drop_last(), k), s.last(), k2);
        }
    }
}

/// `remove_key` keeps every pair whose key is not the removed one, and adds
/// none.
proof fn lemma_remove_key_contains<K, V>(s: Seq<(K, V)>, k: K, p: (K, V))
    requires
        p.0 != k,
    ensures
        remove_key(s, k).contains(p) <==> s.contains(p),
    decreases s.len(),
{
    if s.len() == 0 {
    } else {
        lemma_remove_key_contains(s.drop_last(), k, p);
        lemma_contains_push(s.drop_last(), s.last(), p);
        lemma_drop_last_push(s);
        if s.last().0 != k {
            lemma_contains_push(remove_key(s.drop_last(), k), s.last(), p);
        }
    }
}

/// Removing a key that does not occur changes nothing.
proof fn lemma_remove_key_absent<K, V>(s: Seq<(K, V)>, k: K)
    requires
        !has_key(s, k),
    ensures
        remove_key(s, k) == s,
    decreases s.len(),
{
    if s.len() == 0 {
        assert(remove_key(s, k) =~= s);
    } else {
        assert(!has_key(s.drop_last(), k)) by {
            if has_key(s.drop_last(), k) {
                let i = choose|i: int| 0 <= i < s.drop_last().len() && s.drop_last()[i].0 == k;
                assert(s[i].0 == k);
            }
        }
        assert(s.last().0 != k) by {
            if s.last().0 == k {
                assert(s[s.len() - 1].0 == k);
            }
        }
        lemma_remove_key_absent(s.drop_last(), k);
        lemma_drop_last_push(s);
    }
}

/// `remove_key` keeps keys unique.
proof fn lemma_remove_key_unique<K, V>(s: Seq<(K, V)>, k: K)
    requires
        unique_keys(s),
    ensures
        unique_keys(remove_key(s, k)),
    decreases s.len(),
{
    if s.len() == 0 {
    } else {
        assert(unique_keys(s.drop_last()));
        lemma_remove_key_unique(s.drop_last(), k);
        if s.last().0 != k {
            let r0 = remove_key(s.drop_last(), k);
            let r = r0.push(s.last());
            lemma_remove_key_gone(s.drop_last(), k);
            assert forall|i: int, j: int| 0 <= i < j < r.len() implies r[i].0 != r[j].0 by {
                if j == r0.len() {
                    assert(r[i] == r0[i]);
                    assert(r[j] == s.last());
                    assert(has_key(r0, r0[i].0));
                    assert(r0[i].0 != k);
                    lemma_remove_key_has_key(s.drop_last(), k, r0[i].0);
                    let w = choose|w: int|
                        0 <= w < s.drop_last().len() && s.drop_last()[w].0 == r0[i].0;
                    assert(s[w].0 == r0[i].0);
                    assert(s[w].0 != s[s.len() - 1].0);
                } else {
                    assert(r[i] == r0[i] && r[j] == r0[j]);
                }
            }
        }
    }
}

/// One step of the construction: building from `s.push(p)` is building from
/// `s` and then inserting `p`.
pub proof fn lemma_insert_all_push<K, V>(s: Seq<(K, V)>, p: (K, V))
    ensures
        spec_insert_all(s.push(p)) == spec_insert(spec_insert_all(s), p.0, p.1),
{
    assert(s.push(p).drop_last() =~= s);
    assert(s.push(p).last() == p);
}

/// The finished container never holds two entries with one key, whatever the
/// pair list was.
pub proof fn lemma_insert_all_unique_keys<K, V>(pairs: Seq<(K, V)>)
    ensures
        unique_keys(spec_insert_all(pairs)),
    decreases pairs.len(),
{
    if pairs.len() == 0 {
    } else {
        lemma_insert_all_unique_keys(pairs.drop_last());
        let r0 = spec_insert_all(pairs.drop_last());
        let k = pairs.last().0;
        let rk = remove_key(r0, k);
        let r = rk.push((k, pairs.last().1));
        lemma_remove_key_unique(r0, k);
        lemma_remove_key_gone(r0, k);
        assert forall|i: int, j: int| 0 <= i < j < r.len() implies r[i].0 != r[j].0 by {
            if j == rk.len() {
                assert(r[i] == rk[i]);
                if r[i].0 == k {
                    assert(has_key(rk, k));
                }
            } else {
                assert(r[i] == rk[i] && r[j] == rk[j]);
            }
        }
    }
}

/// A key occurs in the finished container exactly when it occurs in the pair
/// list.
pub proof fn lemma_insert_all_has_key<K, V>(pairs: Seq<(K, V)>, k: K)
    ensures
        has_key(spec_insert_all(pairs), k) <==> has_key(pairs, k),
    decreases pairs.len(),
{
    if pairs.len() == 0 {
    } else {
        lemma_insert_all_has_key(pairs.drop_last(), k);
        let r0 = spec_insert_all(pairs.drop_last());
        let kn = pairs.last().0;
        if k != kn {
            lemma_remove_key_has_key(r0, kn, k);
        } else {
            lemma_remove_key_gone(r0, kn);
        }
        lemma_has_key_push(remove_key(r0, kn), (kn, pairs.last().1), k);
        lemma_has_key_push(pairs.drop_last(), pairs.last(), k);
        lemma_drop_last_push(pairs);
    }
}

/// The finished container holds the pair `(k, last value written for k)`.
proof fn lemma_insert_all_last_value<K, V>(pairs: Seq<(K, V)>, k: K)
    requires
        has_key(pairs, k),
    ensures
        spec_insert_all(pairs).contains((k, last_value_of(pairs, k))),
    decreases pairs.len(),
{
    let r0 = spec_insert_all(pairs.drop_last());
    let kn = pairs.last().0;
    let vn = pairs.last().1;
    let rk = remove_key(r0, kn);
    if kn == k {
        assert(rk.push((kn, vn))[rk.len() as int] == (k, last_value_of(pairs, k)));
    } else {
        assert(has_key(pairs.drop_last(), k)) by {
            let i = choose|i: int| 0 <= i < pairs.len() && pairs[i].0 == k;
            assert(i < pairs.len() - 1);
            assert(pairs.drop_last()[i].0 == k);
        }
        lemma_insert_all_last_value(pairs.drop_last(), k);
        let p = (k, last_value_of(pairs.drop_last(), k));
        lemma_remove_key_contains(r0, kn, p);
        lemma_contains_push(rk, (kn, vn), p);
    }
}

/// Ordered lists of pairs with pairwise distinct keys come through the
/// construction unchanged: iterating the finished container yields exactly
/// the pairs written, in the order they were written.
pub proof fn lemma_unique_keys_in_order<K, V>(pairs: Seq<(K, V)>)
    requires
        unique_keys(pairs),
    ensures
        spec_insert_all(pairs) == pairs,
    decreases pairs.len(),
{
    if pairs.len() == 0 {
        assert(spec_insert_all(pairs) =~= pairs);
    } else {
        assert(unique_keys(pairs.drop_last()));
        lemma_unique_keys_in_order(pairs.drop_last());
        assert(!has_key(pairs.drop_last(), pairs.last().0)) by {
            if has_key(pairs.drop_last(), pairs.last().0) {
                let i = choose|i: int|
                    0 <= i < pairs.drop_last().len() && pairs.drop_last()[i].0 == pairs.last().0;
                assert(pairs[i].0 == pairs[pairs.len() - 1].0);
            }
        }
        lemma_remove_key_absent(pairs.drop_last(), pairs.last().0);
        lemma_drop_last_push(pairs);
    }
}

/// A pair list with a repeated key builds a container with exactly one entry
/// for that key, holding the value of the key's last occurrence. Stated for
/// any key that occurs at all, repeated or not.
pub proof fn lemma_duplicate_key_last_wins<K, V>(pairs: Seq<(K, V)>, k: K)
    requires
        has_key(pairs, k),
    ensures
        has_key(spec_insert_all(pairs), k),
        unique_keys(spec_insert_all(pairs)),
        forall|i: int|
            0 <= i < spec_insert_all(pairs).len() && spec_insert_all(pairs)[i].0 == k
                ==> spec_insert_all(pairs)[i] == (k, last_value_of(pairs, k)),
{
    lemma_insert_all_unique_keys(pairs);
    lemma_insert_all_has_key(pairs, k);
    lemma_insert_all_last_value(pairs, k);
    let r = spec_insert_all(pairs);
    let lv = last_value_of(pairs, k);
    let w = choose|w: int| 0 <= w < r.len() && r[w] == (k, lv);
    assert forall|i: int| 0 <= i < r.len() && r[i].0 == k implies r[i] == (k, lv) by {
        if i < w {
            assert(r[i].0 != r[w].0);
        } else if w < i {
            assert(r[w].0 != r[i].0);
        }
    }
}

/// The empty invocation: no pairs build a container with no entries.
pub proof fn lemma_empty_invocation<K, V>(pairs: Seq<(K, V)>)
    requires
        pairs.len() == 0,
    ensures
        spec_insert_all(pairs) == Seq::<(K, V)>::empty(),
{
}

} // verus!
