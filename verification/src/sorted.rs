//! Sorted lists without repetition, of identifiers and of texts: what
//! sorting a list and removing its repeated elements gives.
use vstd::prelude::*;

verus! {

/// Whether the identifiers are in increasing order, none repeated.
pub open spec fn strictly_increasing(s: Seq<u128>) -> bool {
    forall|i: int, j: int| 0 <= i < j < s.len() ==> s[i] < s[j]
}

/// The text order of `String`: lexicographic, character by character, by
/// code point (UTF-8 keeps that order for bytes), a prefix first.
pub open spec fn text_less(a: Seq<char>, b: Seq<char>) -> bool {
    exists|k: int| #![trigger a.take(k), b.take(k)] differ_at(a, b, k) && (k == a.len() && k < b.len() || k < a.len() && k < b.len()
        && (a[k] as int) < (b[k] as int))
}

/// Whether `a` and `b` agree before position `k`, within both.
pub open spec fn differ_at(a: Seq<char>, b: Seq<char>, k: int) -> bool {
    &&& 0 <= k <= a.len()
    &&& k <= b.len()
    &&& a.take(k) == b.take(k)
    &&& (k < a.len() && k < b.len() ==> a[k] != b[k])
}

/// Whether the texts are in increasing order, none repeated.
pub open spec fn texts_increasing(s: Seq<Seq<char>>) -> bool {
    forall|i: int, j: int| 0 <= i < j < s.len() ==> text_less(s[i], s[j])
}

/// Two texts that agree before two positions where they differ or end
/// agree there.
proof fn lemma_differ_unique(a: Seq<char>, b: Seq<char>, k1: int, k2: int)
    requires
        differ_at(a, b, k1),
        differ_at(a, b, k2),
        k1 < a.len() && k1 < b.len() || k1 == a.len() || k1 == b.len(),
        k2 < a.len() && k2 < b.len() || k2 == a.len() || k2 == b.len(),
    ensures
        k1 == k2,
{
    if k1 < k2 {
        assert(a.take(k2)[k1] == b.take(k2)[k1]);
    }
    if k2 < k1 {
        assert(a.take(k1)[k2] == b.take(k1)[k2]);
    }
}

/// No text is less than itself.
pub proof fn lemma_text_irreflexive(a: Seq<char>)
    ensures
        !text_less(a, a),
{
}

/// Two texts that differ are ordered one way or the other, and not both.
pub proof fn lemma_text_total(a: Seq<char>, b: Seq<char>)
    ensures
        a != b ==> text_less(a, b) || text_less(b, a),
        !(text_less(a, b) && text_less(b, a)),
{
    lemma_first_difference(a, b);
    let k = first_difference(a, b);
    if a != b {
        if k == a.len() && k == b.len() {
            assert(a.take(k) =~= a);
            assert(b.take(k) =~= b);
        } else if k == a.len() {
            assert(differ_at(a, b, k));
        } else if k == b.len() {
            assert(differ_at(b, a, k));
            assert(b.take(k) == a.take(k));
        } else {
            assert(differ_at(b, a, k));
            if (a[k] as int) < (b[k] as int) {
            } else {
                assert(a[k] != b[k]);
                assert((a[k] as int) != (b[k] as int));
            }
        }
    }
    if text_less(a, b) && text_less(b, a) {
        let k1 = choose|k: int| #![trigger a.take(k), b.take(k)] differ_at(a, b, k) && (k == a.len() && k < b.len() || k < a.len()
            && k < b.len() && (a[k] as int) < (b[k] as int));
        let k2 = choose|k: int| #![trigger b.take(k), a.take(k)] differ_at(b, a, k) && (k == b.len() && k < a.len() || k < b.len()
            && k < a.len() && (b[k] as int) < (a[k] as int));
        lemma_differ_unique(a, b, k1, k2);
    }
}

/// The first position where two texts differ or one of them ends.
spec fn first_difference(a: Seq<char>, b: Seq<char>) -> int
    decreases a.len(),
{
    if a.len() == 0 || b.len() == 0 || a[0] != b[0] {
        0
    } else {
        1 + first_difference(a.drop_first(), b.drop_first())
    }
}

proof fn lemma_first_difference(a: Seq<char>, b: Seq<char>)
    ensures
        differ_at(a, b, first_difference(a, b)),
        first_difference(a, b) < a.len() && first_difference(a, b) < b.len() || first_difference(a, b) == a.len()
            || first_difference(a, b) == b.len(),
    decreases a.len(),
{
    if !(a.len() == 0 || b.len() == 0 || a[0] != b[0]) {
        lemma_first_difference(a.drop_first(), b.drop_first());
        let k = first_difference(a.drop_first(), b.drop_first());
        assert(a.take(k + 1) =~= seq![a[0]] + a.drop_first().take(k));
        assert(b.take(k + 1) =~= seq![b[0]] + b.drop_first().take(k));
        if k < a.drop_first().len() && k < b.drop_first().len() {
            assert(a[k + 1] == a.drop_first()[k]);
            assert(b[k + 1] == b.drop_first()[k]);
        }
    } else {
        assert(a.take(0) =~= b.take(0));
    }
}

/// The text order is transitive.
pub proof fn lemma_text_transitive(a: Seq<char>, b: Seq<char>, c: Seq<char>)
    requires
        text_less(a, b),
        text_less(b, c),
    ensures
        text_less(a, c),
{
    let k1 = choose|k: int| #![trigger a.take(k), b.take(k)] differ_at(a, b, k) && (k == a.len() && k < b.len() || k < a.len()
        && k < b.len() && (a[k] as int) < (b[k] as int));
    let k2 = choose|k: int| #![trigger b.take(k), c.take(k)] differ_at(b, c, k) && (k == b.len() && k < c.len() || k < b.len()
        && k < c.len() && (b[k] as int) < (c[k] as int));
    lemma_first_difference(a, c);
    let k = first_difference(a, c);
    if k1 < k2 {
        assert forall|j: int| 0 <= j < k1 implies a[j] == c[j] by {
            assert(a.take(k1)[j] == b.take(k1)[j]);
            assert(b.take(k2)[j] == c.take(k2)[j]);
        }
        assert(a.take(k1) =~= c.take(k1));
        assert(b.take(k2)[k1] == c.take(k2)[k1]);
        if k1 == a.len() {
            assert(differ_at(a, c, k1));
        } else {
            assert(differ_at(a, c, k1));
        }
    } else if k2 < k1 {
        assert forall|j: int| 0 <= j < k2 implies a[j] == c[j] by {
            assert(a.take(k1)[j] == b.take(k1)[j]);
            assert(b.take(k2)[j] == c.take(k2)[j]);
        }
        assert(a.take(k2) =~= c.take(k2));
        assert(a.take(k1)[k2] == b.take(k1)[k2]);
        assert(differ_at(a, c, k2));
    } else {
        assert forall|j: int| 0 <= j < k1 implies a[j] == c[j] by {
            assert(a.take(k1)[j] == b.take(k1)[j]);
            assert(b.take(k2)[j] == c.take(k2)[j]);
        }
        assert(a.take(k1) =~= c.take(k1));
        assert(differ_at(a, c, k1));
    }
}

/// Whether `a` comes before `b` in the text order.
pub fn text_before(a: &str, b: &str) -> (r: bool)
    ensures
        r == text_less(a@, b@),
{
    let n = a.unicode_len();
    let m = b.unicode_len();
    let mut i: usize = 0;
    while i < n && i < m
        invariant
            n == a@.len(),
            m == b@.len(),
            i <= n,
            i <= m,
            forall|j: int| 0 <= j < i ==> a@[j] == b@[j],
        decreases n - i,
    {
        let ca = a.get_char(i);
        let cb = b.get_char(i);
        if ca != cb {
            assert(a@.take(i as int) =~= b@.take(i as int));
            assert(differ_at(a@, b@, i as int));
            proof {
                if text_less(a@, b@) {
                    let k = choose|k: int| #![trigger a@.take(k), b@.take(k)] differ_at(a@, b@, k) && (k == a@.len() && k < b@.len()
                        || k < a@.len() && k < b@.len() && (a@[k] as int) < (b@[k] as int));
                    lemma_differ_unique(a@, b@, k, i as int);
                }
            }
            return (ca as u32) < (cb as u32);
        }
        i = i + 1;
    }
    assert(a@.take(i as int) =~= b@.take(i as int));
    assert(differ_at(a@, b@, i as int));
    proof {
        if text_less(a@, b@) {
            let k = choose|k: int| #![trigger a@.take(k), b@.take(k)] differ_at(a@, b@, k) && (k == a@.len() && k < b@.len() || k
                < a@.len() && k < b@.len() && (a@[k] as int) < (b@[k] as int));
            lemma_differ_unique(a@, b@, k, i as int);
        }
    }
    n < m
}

/// The identifiers of a list in increasing order, each once.
pub fn sorted_unique_ids(v: &Vec<u128>) -> (r: Vec<u128>)
    ensures
        strictly_increasing(r@),
        forall|x: u128| #[trigger] r@.contains(x) <==> v@.contains(x),
{
    let mut out: Vec<u128> = Vec::new();
    let mut i: usize = 0;
    while i < v.len()
        invariant
            i <= v@.len(),
            strictly_increasing(out@),
            forall|x: u128| #[trigger] out@.contains(x) <==> v@.take(i as int).contains(x),
        decreases v@.len() - i,
    {
        let x = v[i];
        let mut p: usize = 0;
        while p < out.len() && out[p] < x
            invariant
                p <= out@.len(),
                forall|j: int| 0 <= j < p ==> out@[j] < x,
            decreases out@.len() - p,
        {
            p = p + 1;
        }
        let ghost before = out@;
        if p < out.len() && out[p] == x {
        } else {
            out.insert(p, x);
            assert forall|a: int, b: int| 0 <= a < b < out@.len() implies out@[a] < out@[b] by {
                if b == p {
                } else if a == p {
                    assert(out@[b] == before[b - 1]);
                    assert(before[p as int] >= x);
                    if b - 1 > p {
                        assert(before[p as int] < before[b - 1]);
                    }
                } else {
                    let a2 = if a < p { a } else { a - 1 };
                    let b2 = if b < p { b } else { b - 1 };
                    assert(out@[a] == before[a2] && out@[b] == before[b2]);
                }
            }
        }
        assert(v@.take(i + 1)[i as int] == x);
        assert forall|y: u128| #[trigger] out@.contains(y) <==> v@.take(i + 1).contains(y) by {
            assert(v@.take(i + 1) =~= v@.take(i as int).push(x));
            if out@.contains(y) {
                let k = choose|k: int| 0 <= k < out@.len() && out@[k] == y;
                if y != x {
                    let k2 = if k < p || (p < before.len() && before[p as int] == x) { k } else { k - 1 };
                    assert(before[k2] == y);
                    assert(before.contains(y));
                }
            }
            if v@.take(i + 1).contains(y) {
                if y == x {
                    assert(out@[p as int] == x);
                } else {
                    assert(v@.take(i as int).contains(y)) by {
                        let k = choose|k: int| 0 <= k < i + 1 && #[trigger] v@.take(i + 1)[k] == y;
                        assert(v@.take(i as int)[k] == y);
                    }
                    assert(before.contains(y));
                    let k = choose|k: int| 0 <= k < before.len() && before[k] == y;
                    if p < before.len() && before[p as int] == x {
                        assert(out@[k] == y);
                    } else {
                        let k2 = if k < p { k } else { k + 1 };
                        assert(out@[k2] == y);
                    }
                }
            }
        }
        i = i + 1;
    }
    assert(v@.take(v@.len() as int) =~= v@);
    out
}

/// The texts of a list in text order, each once.
pub fn sorted_unique_texts(v: &Vec<String>) -> (r: Vec<String>)
    ensures
        texts_increasing(crate::text::views(r@)),
        forall|x: Seq<char>| #[trigger] crate::text::views(r@).contains(x) <==> crate::text::views(v@).contains(x),
{
    let ghost vv = crate::text::views(v@);
    let mut out: Vec<String> = Vec::new();
    let mut i: usize = 0;
    assert(crate::text::views(out@) =~= Seq::<Seq<char>>::empty());
    while i < v.len()
        invariant
            vv == crate::text::views(v@),
            i <= v@.len(),
            texts_increasing(crate::text::views(out@)),
            forall|x: Seq<char>| #[trigger] crate::text::views(out@).contains(x) <==> vv.take(i as int).contains(x),
        decreases v@.len() - i,
    {
        let x = &v[i];
        let ghost ov = crate::text::views(out@);
        let mut p: usize = 0;
        while p < out.len() && text_before(out[p].as_str(), x.as_str())
            invariant
                ov == crate::text::views(out@),
                p <= out@.len(),
                forall|j: int| 0 <= j < p ==> text_less(ov[j], x@),
            decreases out@.len() - p,
        {
            p = p + 1;
        }
        let dup = p < out.len() && crate::text::str_equal(out[p].as_str(), x.as_str());
        if !dup {
            out.insert(p, x.clone());
            let ghost nv = crate::text::views(out@);
            assert(nv =~= ov.insert(p as int, x@));
            assert forall|a: int, b: int| 0 <= a < b < nv.len() implies text_less(nv[a], nv[b]) by {
                if b == p {
                } else if a == p {
                    assert(nv[b] == ov[b - 1]);
                    assert(!text_less(ov[p as int], x@));
                    assert(ov[p as int] != x@);
                    lemma_text_total(ov[p as int], x@);
                    if b - 1 > p {
                        lemma_text_transitive(x@, ov[p as int], ov[b - 1]);
                    }
                } else {
                    let a2 = if a < p { a } else { a - 1 };
                    let b2 = if b < p { b } else { b - 1 };
                    assert(nv[a] == ov[a2] && nv[b] == ov[b2]);
                }
            }
        }
        let ghost nv = crate::text::views(out@);
        assert(vv.take(i + 1)[i as int] == x@);
        assert forall|y: Seq<char>| #[trigger] nv.contains(y) <==> vv.take(i + 1).contains(y) by {
            assert(vv.take(i + 1) =~= vv.take(i as int).push(x@));
            if nv.contains(y) {
                let k = choose|k: int| 0 <= k < nv.len() && nv[k] == y;
                if y != x@ {
                    let k2 = if dup || k < p { k } else { k - 1 };
                    assert(ov[k2] == y);
                    assert(ov.contains(y));
                }
            }
            if vv.take(i + 1).contains(y) {
                if y == x@ {
                    assert(nv[p as int] == x@);
                } else {
                    assert(vv.take(i as int).contains(y)) by {
                        let k = choose|k: int| 0 <= k < i + 1 && #[trigger] vv.take(i + 1)[k] == y;
                        assert(vv.take(i as int)[k] == y);
                    }
                    assert(ov.contains(y));
                    let k = choose|k: int| 0 <= k < ov.len() && ov[k] == y;
                    if dup {
                        assert(nv[k] == y);
                    } else {
                        let k2 = if k < p { k } else { k + 1 };
                        assert(nv[k2] == y);
                    }
                }
            }
        }
        i = i + 1;
    }
    assert(vv.take(v@.len() as int) =~= vv);
    out
}

} // verus!
