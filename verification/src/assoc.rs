//! Association lists keyed by identifiers: the maps of the orchestrator,
//! held as sequences of (key, value) pairs with distinct keys.
use vstd::prelude::*;

verus! {

/// The value of the first pair with key `k`.
pub open spec fn find<V>(s: Seq<(u128, V)>, k: u128) -> Option<V>
    decreases s.len(),
{
    if s.len() == 0 {
        None
    } else if s[0].0 == k {
        Some(s[0].1)
    } else {
        find(s.drop_first(), k)
    }
}

/// The keys, in order.
pub open spec fn keys_of<V>(s: Seq<(u128, V)>) -> Seq<u128> {
    s.map_values(|p: (u128, V)| p.0)
}

/// Whether no key occurs twice.
pub open spec fn unique_keys<V>(s: Seq<(u128, V)>) -> bool {
    forall|i: int, j: int| 0 <= i < j < s.len() ==> s[i].0 != s[j].0
}

/// Whether no element occurs twice.
pub open spec fn no_duplicates(s: Seq<u128>) -> bool {
    forall|i: int, j: int| 0 <= i < j < s.len() ==> s[i] != s[j]
}

/// Whether some pair has key `k`.
pub open spec fn has_key<V>(s: Seq<(u128, V)>, k: u128) -> bool {
    exists|i: int| 0 <= i < s.len() && s[i].0 == k
}

/// The value at the first position with key `k` is what `find` gives.
pub proof fn lemma_find_first<V>(s: Seq<(u128, V)>, k: u128, i: int)
    requires
        0 <= i <= s.len(),
        forall|j: int| 0 <= j < i ==> (#[trigger] s[j]).0 != k,
    ensures
        i < s.len() && s[i].0 == k ==> find(s, k) == Some(s[i].1),
        i == s.len() ==> find(s, k) == None::<V>,
    decreases i,
{
    if i > 0 {
        let rest = s.drop_first();
        assert forall|j: int| 0 <= j < i - 1 implies (#[trigger] rest[j]).0 != k by {
            assert(rest[j] == s[j + 1]);
        }
        lemma_find_first(rest, k, i - 1);
        assert(s[0].0 != k);
        if i < s.len() {
            assert(rest[i - 1] == s[i]);
        }
    }
}

/// With distinct keys, the pair with key `k` gives `find`.
pub proof fn lemma_find_unique<V>(s: Seq<(u128, V)>, k: u128, i: int)
    requires
        unique_keys(s),
        0 <= i < s.len(),
        s[i].0 == k,
    ensures
        find(s, k) == Some(s[i].1),
{
    assert forall|j: int| 0 <= j < i implies (#[trigger] s[j]).0 != k by {}
    lemma_find_first(s, k, i);
}

/// Without a pair with key `k`, `find` gives nothing.
pub proof fn lemma_find_absent<V>(s: Seq<(u128, V)>, k: u128)
    requires
        !has_key(s, k),
    ensures
        find(s, k) == None::<V>,
{
    assert forall|j: int| 0 <= j < s.len() implies (#[trigger] s[j]).0 != k by {}
    lemma_find_first(s, k, s.len() as int);
}

/// `find` gives a value exactly where a pair has the key.
pub proof fn lemma_find_some<V>(s: Seq<(u128, V)>, k: u128)
    ensures
        find(s, k) is Some <==> has_key(s, k),
        find(s, k) matches Some(v) ==> exists|i: int| 0 <= i < s.len() && s[i].0 == k && s[i].1 == v,
    decreases s.len(),
{
    if s.len() > 0 {
        lemma_find_some(s.drop_first(), k);
        if s[0].0 != k {
            if has_key(s, k) {
                let i = choose|i: int| 0 <= i < s.len() && s[i].0 == k;
                assert(s.drop_first()[i - 1].0 == k);
            }
            if has_key(s.drop_first(), k) {
                let i = choose|i: int| 0 <= i < s.drop_first().len() && s.drop_first()[i].0 == k;
                assert(s[i + 1].0 == k);
            }
            if find(s, k) is Some {
                let v = find(s, k)->0;
                let i = choose|i: int| 0 <= i < s.drop_first().len() && s.drop_first()[i].0 == k && s.drop_first()[i].1 == v;
                assert(s[i + 1] == s.drop_first()[i]);
            }
        } else {
            assert(s[0].0 == k);
        }
    }
}

/// The pairs whose key is not `k`, in order.
pub open spec fn without_key<V>(s: Seq<(u128, V)>, k: u128) -> Seq<(u128, V)>
    decreases s.len(),
{
    if s.len() == 0 {
        s
    } else {
        let r = without_key(s.drop_last(), k);
        if s.last().0 == k { r } else { r.push(s.last()) }
    }
}

/// Set key `k` to `v`: the first pair with key `k` is replaced, or a pair is
/// added at the end.
pub open spec fn key_insert<V>(s: Seq<(u128, V)>, k: u128, v: V) -> Seq<(u128, V)>
    decreases s.len(),
{
    if s.len() == 0 {
        seq![(k, v)]
    } else if s[0].0 == k {
        s.update(0, (k, v))
    } else {
        seq![s[0]] + key_insert(s.drop_first(), k, v)
    }
}

/// Removing a key keeps the other pairs, in order, and no other key.
pub proof fn lemma_without_key<V>(s: Seq<(u128, V)>, k: u128)
    ensures
        forall|x: u128| #[trigger] has_key(without_key(s, k), x) <==> (has_key(s, x) && x != k),
        forall|x: u128| x != k ==> #[trigger] find(without_key(s, k), x) == find(s, x),
        find(without_key(s, k), k) == None::<V>,
        unique_keys(s) ==> unique_keys(without_key(s, k)),
        without_key(s, k).len() <= s.len(),
        forall|i: int| 0 <= i < without_key(s, k).len() ==> s.contains(#[trigger] without_key(s, k)[i]),
    decreases s.len(),
{
    if s.len() > 0 {
        let d = s.drop_last();
        lemma_without_key(d, k);
        let r = without_key(d, k);
        let w = without_key(s, k);
        assert forall|i: int| 0 <= i < w.len() implies s.contains(#[trigger] w[i]) by {
            if i < r.len() {
                assert(d.contains(r[i]));
                let j = choose|j: int| 0 <= j < d.len() && d[j] == r[i];
                assert(s[j] == d[j]);
            } else {
                assert(s[s.len() - 1] == s.last());
            }
        }
        assert forall|i: int| 0 <= i < r.len() implies #[trigger] w[i] == r[i] by {}
        assert forall|x: u128| #[trigger] has_key(w, x) <==> (has_key(s, x) && x != k) by {
            if has_key(w, x) {
                let i = choose|i: int| 0 <= i < w.len() && w[i].0 == x;
                if i < r.len() {
                    assert(r[i].0 == x);
                    assert(has_key(r, x));
                    let j = choose|j: int| 0 <= j < d.len() && d[j].0 == x;
                    assert(s[j] == d[j]);
                } else {
                    assert(s.last().0 != k);
                    assert(w[i] == s.last());
                    assert(s[s.len() - 1].0 == x);
                }
            }
            if has_key(s, x) && x != k {
                let j = choose|j: int| 0 <= j < s.len() && s[j].0 == x;
                if j < d.len() {
                    assert(d[j].0 == x);
                    assert(has_key(d, x));
                    assert(has_key(r, x));
                    let i = choose|i: int| 0 <= i < r.len() && r[i].0 == x;
                    assert(w[i].0 == x);
                } else {
                    assert(s.last().0 == x);
                    assert(w[w.len() - 1].0 == x);
                }
            }
        }
        lemma_find_some(s, k);
        lemma_find_some(w, k);
        assert(d.push(s.last()) =~= s);
        assert forall|x: u128| x != k implies #[trigger] find(w, x) == find(s, x) by {
            lemma_find_snoc(d, s.last(), x);
            lemma_find_some(d, x);
            lemma_find_some(r, x);
            if s.last().0 != k {
                lemma_find_snoc(r, s.last(), x);
            }
        }
        if unique_keys(s) {
            assert(unique_keys(d));
            if s.last().0 != k {
                assert forall|i: int, j: int| 0 <= i < j < w.len() implies w[i].0 != w[j].0 by {
                    if j == r.len() {
                        assert(has_key(r, r[i].0));
                        assert(has_key(d, r[i].0));
                        let m = choose|m: int| 0 <= m < d.len() && d[m].0 == r[i].0;
                        assert(s[m].0 == d[m].0);
                    }
                }
            }
        }
    }
}

/// `find` on a sequence with one more pair at the end.
pub proof fn lemma_find_snoc<V>(s: Seq<(u128, V)>, p: (u128, V), x: u128)
    ensures
        find(s.push(p), x) == (if has_key(s, x) { find(s, x) } else if p.0 == x { Some(p.1) } else { None }),
    decreases s.len(),
{
    lemma_find_some(s, x);
    if s.len() == 0 {
        assert(s.push(p).drop_first() =~= s);
    } else {
        assert(s.push(p).drop_first() =~= s.drop_first().push(p));
        lemma_find_snoc(s.drop_first(), p, x);
        lemma_find_some(s.drop_first(), x);
        if s[0].0 != x {
            if has_key(s, x) {
                let i = choose|i: int| 0 <= i < s.len() && s[i].0 == x;
                assert(s.drop_first()[i - 1].0 == x);
            }
            if has_key(s.drop_first(), x) {
                let i = choose|i: int| 0 <= i < s.drop_first().len() && s.drop_first()[i].0 == x;
                assert(s[i + 1].0 == x);
            }
        } else {
            assert(has_key(s, x)) by {
                assert(s[0].0 == x);
            }
        }
    }
}

/// Setting a key makes it map to the value and keeps the other keys and
/// their values.
pub proof fn lemma_key_insert<V>(s: Seq<(u128, V)>, k: u128, v: V)
    ensures
        find(key_insert(s, k, v), k) == Some(v),
        forall|x: u128| x != k ==> #[trigger] find(key_insert(s, k, v), x) == find(s, x),
        forall|x: u128| #[trigger] has_key(key_insert(s, k, v), x) <==> (has_key(s, x) || x == k),
        unique_keys(s) ==> unique_keys(key_insert(s, k, v)),
        key_insert(s, k, v).len() == (if has_key(s, k) { s.len() } else { s.len() + 1 }),
    decreases s.len(),
{
    let r = key_insert(s, k, v);
    if s.len() == 0 {
        assert(r[0].0 == k);
        assert(r.drop_first() =~= Seq::<(u128, V)>::empty());
        assert forall|x: u128| x != k implies #[trigger] find(r, x) == find(s, x) by {
            assert(find(Seq::<(u128, V)>::empty(), x) == None::<V>);
        }
        assert forall|x: u128| #[trigger] has_key(r, x) <==> (has_key(s, x) || x == k) by {
            if x == k {
                assert(r[0].0 == x);
            }
        }
    } else if s[0].0 == k {
        assert(has_key(s, k)) by {
            assert(s[0].0 == k);
        }
        assert(r.drop_first() =~= s.drop_first());
        assert forall|x: u128| x != k implies #[trigger] find(r, x) == find(s, x) by {}
        assert forall|x: u128| #[trigger] has_key(r, x) <==> (has_key(s, x) || x == k) by {
            if has_key(s, x) {
                let i = choose|i: int| 0 <= i < s.len() && s[i].0 == x;
                assert(r[i].0 == x);
            }
            if has_key(r, x) {
                let i = choose|i: int| 0 <= i < r.len() && r[i].0 == x;
                assert(s[i].0 == x || i == 0);
            }
        }
        if unique_keys(s) {
            assert forall|i: int, j: int| 0 <= i < j < r.len() implies r[i].0 != r[j].0 by {
                assert(r[j] == s[j]);
                if i > 0 {
                    assert(r[i] == s[i]);
                }
            }
        }
    } else {
        let t = s.drop_first();
        lemma_key_insert(t, k, v);
        let rt = key_insert(t, k, v);
        assert(r == seq![s[0]] + rt);
        assert(r.drop_first() =~= rt);
        assert(r[0] == s[0]);
        assert forall|x: u128| x != k implies #[trigger] find(r, x) == find(s, x) by {
            if s[0].0 != x {
                assert(find(r, x) == find(rt, x));
                assert(find(s, x) == find(t, x));
            }
        }
        assert forall|x: u128| #[trigger] has_key(r, x) <==> (has_key(s, x) || x == k) by {
            if has_key(s, x) && x != s[0].0 {
                let i = choose|i: int| 0 <= i < s.len() && s[i].0 == x;
                assert(i > 0);
                assert(t[i - 1].0 == x);
                assert(has_key(rt, x));
                let m = choose|m: int| 0 <= m < rt.len() && rt[m].0 == x;
                assert(r[m + 1].0 == x);
            }
            if x == s[0].0 {
                assert(r[0].0 == x);
            }
            if x == k {
                assert(has_key(rt, x));
                let m = choose|m: int| 0 <= m < rt.len() && rt[m].0 == x;
                assert(r[m + 1].0 == x);
            }
            if has_key(r, x) {
                let i = choose|i: int| 0 <= i < r.len() && r[i].0 == x;
                if i > 0 {
                    assert(rt[i - 1].0 == x);
                    assert(has_key(rt, x));
                    if x != k {
                        assert(has_key(t, x));
                        let m = choose|m: int| 0 <= m < t.len() && t[m].0 == x;
                        assert(s[m + 1] == t[m]);
                    }
                } else {
                    assert(s[0].0 == x);
                }
            }
        }
        if has_key(s, k) {
            let i = choose|i: int| 0 <= i < s.len() && s[i].0 == k;
            assert(i > 0);
            assert(t[i - 1].0 == k);
        }
        if has_key(t, k) {
            let i = choose|i: int| 0 <= i < t.len() && t[i].0 == k;
            assert(s[i + 1].0 == k);
        }
        if unique_keys(s) {
            assert(unique_keys(t));
            assert forall|i: int, j: int| 0 <= i < j < r.len() implies r[i].0 != r[j].0 by {
                if i == 0 {
                    assert(r[j] == rt[j - 1]);
                    assert(has_key(rt, rt[j - 1].0));
                    if rt[j - 1].0 != k {
                        assert(has_key(t, rt[j - 1].0));
                        let m = choose|m: int| 0 <= m < t.len() && t[m].0 == rt[j - 1].0;
                        assert(s[m + 1].0 == t[m].0);
                    }
                } else {
                    assert(r[i] == rt[i - 1]);
                    assert(r[j] == rt[j - 1]);
                }
            }
        }
    }
}

/// Where the first pair with key `k` is at `i`, setting `k` replaces it;
/// where no pair has key `k`, setting it adds a pair at the end.
pub proof fn lemma_key_insert_at<V>(s: Seq<(u128, V)>, k: u128, v: V, i: int)
    requires
        0 <= i <= s.len(),
        forall|j: int| 0 <= j < i ==> (#[trigger] s[j]).0 != k,
    ensures
        i < s.len() && s[i].0 == k ==> key_insert(s, k, v) == s.update(i, (k, v)),
        i == s.len() ==> key_insert(s, k, v) == s.push((k, v)),
    decreases i,
{
    if i > 0 {
        let rest = s.drop_first();
        assert forall|j: int| 0 <= j < i - 1 implies (#[trigger] rest[j]).0 != k by {
            assert(rest[j] == s[j + 1]);
        }
        lemma_key_insert_at(rest, k, v, i - 1);
        assert(s[0].0 != k);
        if i < s.len() && s[i].0 == k {
            assert(rest[i - 1] == s[i]);
            assert(seq![s[0]] + rest.update(i - 1, (k, v)) =~= s.update(i, (k, v)));
        }
        if i == s.len() {
            assert(seq![s[0]] + rest.push((k, v)) =~= s.push((k, v)));
        }
    } else {
        if s.len() == 0 {
            assert(seq![(k, v)] =~= s.push((k, v)));
        }
    }
}

/// Without a pair with key `k`, removing `k` changes nothing.
pub proof fn lemma_without_absent<V>(s: Seq<(u128, V)>, k: u128)
    requires
        forall|j: int| 0 <= j < s.len() ==> (#[trigger] s[j]).0 != k,
    ensures
        without_key(s, k) == s,
    decreases s.len(),
{
    if s.len() > 0 {
        let d = s.drop_last();
        assert forall|j: int| 0 <= j < d.len() implies (#[trigger] d[j]).0 != k by {
            assert(d[j] == s[j]);
        }
        lemma_without_absent(d, k);
        assert(s.last().0 != k);
        assert(d.push(s.last()) =~= s);
    }
}

/// With distinct keys, removing the key of the pair at `i` removes that
/// pair.
pub proof fn lemma_without_at<V>(s: Seq<(u128, V)>, k: u128, i: int)
    requires
        unique_keys(s),
        0 <= i < s.len(),
        s[i].0 == k,
    ensures
        without_key(s, k) == s.remove(i),
    decreases s.len(),
{
    let d = s.drop_last();
    if i == s.len() - 1 {
        assert forall|j: int| 0 <= j < d.len() implies (#[trigger] d[j]).0 != k by {
            assert(d[j] == s[j]);
        }
        lemma_without_absent(d, k);
        assert(s.remove(i) =~= d);
    } else {
        assert(unique_keys(d));
        lemma_without_at(d, k, i);
        assert(s.last().0 != k);
        assert(s.remove(i) =~= d.remove(i).push(s.last()));
    }
}

/// Whether no name occurs twice as a key.
pub open spec fn distinct_names<V>(s: Seq<(Seq<char>, V)>) -> bool {
    forall|i: int, j: int| 0 <= i < j < s.len() ==> s[i].0 != s[j].0
}

/// Whether some pair has the name `k` as key.
pub open spec fn has_name<V>(s: Seq<(Seq<char>, V)>, k: Seq<char>) -> bool {
    exists|i: int| 0 <= i < s.len() && s[i].0 == k
}

} // verus!
