//! Text helpers shared by the orchestrator: comparing, splitting, joining
//! and parsing character sequences.
use vstd::prelude::*;

verus! {

/// The pieces of `s` separated by `sep`, as `str::split` with a one-character
/// pattern gives them: always at least one piece, empty pieces kept.
pub open spec fn split_chars(s: Seq<char>, sep: char) -> Seq<Seq<char>>
    decreases s.len(),
{
    if s.len() == 0 {
        seq![Seq::<char>::empty()]
    } else {
        let r = split_chars(s.drop_last(), sep);
        if s.last() == sep {
            r.push(Seq::<char>::empty())
        } else {
            r.update(r.len() - 1, r.last().push(s.last()))
        }
    }
}

/// The pieces of `parts` glued together with `sep` in between.
pub open spec fn join_chars(parts: Seq<Seq<char>>, sep: Seq<char>) -> Seq<char>
    decreases parts.len(),
{
    if parts.len() == 0 {
        Seq::<char>::empty()
    } else if parts.len() == 1 {
        parts[0]
    } else {
        join_chars(parts.drop_last(), sep) + sep + parts.last()
    }
}

/// The views of a vector of strings.
pub open spec fn views(v: Seq<String>) -> Seq<Seq<char>> {
    v.map_values(|s: String| s@)
}

pub open spec fn is_digit(c: char) -> bool {
    '0' <= c && c <= '9'
}

pub open spec fn all_digits(s: Seq<char>) -> bool {
    forall|i: int| 0 <= i < s.len() ==> is_digit(#[trigger] s[i])
}

/// The decimal value of a sequence of digits.
pub open spec fn decimal_value(s: Seq<char>) -> nat
    decreases s.len(),
{
    if s.len() == 0 {
        0
    } else {
        decimal_value(s.drop_last()) * 10 + ((s.last() as int - '0' as int) as nat)
    }
}

/// What `usize::from_str` accepts: an optional `+`, then one or more decimal
/// digits whose value fits in a `usize`.
pub open spec fn parse_usize_spec(s: Seq<char>) -> Option<usize> {
    let digits = if s.len() > 0 && s[0] == '+' { s.drop_first() } else { s };
    if digits.len() > 0 && all_digits(digits) && decimal_value(digits) <= usize::MAX {
        Some(decimal_value(digits) as usize)
    } else {
        None
    }
}

/// Whether `c` occurs in `s`.
pub open spec fn has_char(s: Seq<char>, c: char) -> bool {
    exists|i: int| 0 <= i < s.len() && s[i] == c
}

pub proof fn lemma_split_nonempty(s: Seq<char>, sep: char)
    ensures
        split_chars(s, sep).len() >= 1,
    decreases s.len(),
{
    if s.len() > 0 {
        lemma_split_nonempty(s.drop_last(), sep);
    }
}

/// A sequence without the separator is a single piece.
pub proof fn lemma_split_no_sep(s: Seq<char>, sep: char)
    requires
        !has_char(s, sep),
    ensures
        split_chars(s, sep) == seq![s],
    decreases s.len(),
{
    if s.len() > 0 {
        let t = s.drop_last();
        assert(!has_char(t, sep)) by {
            if has_char(t, sep) {
                let i = choose|i: int| 0 <= i < t.len() && t[i] == sep;
                assert(s[i] == sep);
            }
        }
        lemma_split_no_sep(t, sep);
        assert(s.last() != sep) by {
            assert(s[s.len() - 1] == s.last());
        }
        assert(t.push(s.last()) =~= s);
        let r = split_chars(t, sep);
        assert(r.update(r.len() - 1, r.last().push(s.last())) =~= seq![s]);
    } else {
        assert(s =~= Seq::<char>::empty());
    }
}

/// Splitting `a + [sep] + b`, where `b` holds no separator, gives the pieces
/// of `a` followed by `b`.
pub proof fn lemma_split_append(a: Seq<char>, b: Seq<char>, sep: char)
    requires
        !has_char(b, sep),
    ensures
        split_chars(a + seq![sep] + b, sep) == split_chars(a, sep).push(b),
    decreases b.len(),
{
    lemma_split_nonempty(a, sep);
    if b.len() == 0 {
        let x = a + seq![sep] + b;
        assert(x.drop_last() =~= a);
        assert(x.last() == sep);
        assert(b =~= Seq::<char>::empty());
    } else {
        let b1 = b.drop_last();
        assert(!has_char(b1, sep)) by {
            if has_char(b1, sep) {
                let i = choose|i: int| 0 <= i < b1.len() && b1[i] == sep;
                assert(b[i] == sep);
            }
        }
        lemma_split_append(a, b1, sep);
        let x = a + seq![sep] + b;
        assert(x.drop_last() =~= a + seq![sep] + b1);
        assert(x.last() == b.last());
        assert(b.last() != sep) by {
            assert(b[b.len() - 1] == b.last());
        }
        let r = split_chars(a + seq![sep] + b1, sep);
        assert(r == split_chars(a, sep).push(b1));
        assert(b1.push(b.last()) =~= b);
        assert(r.update(r.len() - 1, r.last().push(b.last())) =~= split_chars(a, sep).push(b));
    }
}

/// Splitting a join undoes it, where no piece holds the separator.
pub proof fn lemma_split_join(parts: Seq<Seq<char>>, sep: char)
    requires
        parts.len() >= 1,
        forall|i: int| 0 <= i < parts.len() ==> !has_char(#[trigger] parts[i], sep),
    ensures
        split_chars(join_chars(parts, seq![sep]), sep) == parts,
    decreases parts.len(),
{
    if parts.len() == 1 {
        assert(!has_char(parts[0], sep));
        lemma_split_no_sep(parts[0], sep);
        assert(seq![parts[0]] =~= parts);
    } else {
        let p1 = parts.drop_last();
        assert forall|i: int| 0 <= i < p1.len() implies !has_char(#[trigger] p1[i], sep) by {
            assert(p1[i] == parts[i]);
        }
        lemma_split_join(p1, sep);
        assert(!has_char(parts[parts.len() - 1], sep));
        lemma_split_append(join_chars(p1, seq![sep]), parts.last(), sep);
        assert(p1.push(parts.last()) =~= parts);
    }
}

/// Whether two strings hold the same characters.
pub fn str_equal(a: &str, b: &str) -> (r: bool)
    ensures
        r == (a@ == b@),
{
    let n = a.unicode_len();
    let m = b.unicode_len();
    if n != m {
        return false;
    }
    let mut i: usize = 0;
    while i < n
        invariant
            n == a@.len(),
            m == b@.len(),
            n == m,
            i <= n,
            forall|j: int| 0 <= j < i ==> a@[j] == b@[j],
        decreases n - i,
    {
        if a.get_char(i) != b.get_char(i) {
            return false;
        }
        i = i + 1;
    }
    assert(a@ =~= b@);
    true
}

/// Split `s` at each occurrence of `sep`, as `str::split` with a
/// one-character pattern does.
pub fn split_on(s: &str, sep: char) -> (r: Vec<String>)
    ensures
        views(r@) == split_chars(s@, sep),
{
    let n = s.unicode_len();
    let mut done: Vec<String> = Vec::new();
    let mut start: usize = 0;
    let mut i: usize = 0;
    assert(s@.take(0) =~= Seq::<char>::empty());
    assert(views(done@) =~= Seq::<Seq<char>>::empty());
    assert(s@.subrange(0, 0) =~= Seq::<char>::empty());
    while i < n
        invariant
            n == s@.len(),
            start <= i <= n,
            split_chars(s@.take(i as int), sep) == views(done@).push(s@.subrange(start as int, i as int)),
        decreases n - i,
    {
        let c = s.get_char(i);
        let ghost prev = s@.take(i as int);
        assert(s@.take(i + 1).drop_last() =~= prev);
        assert(s@.take(i + 1).last() == c);
        if c == sep {
            let ghost before = done@;
            let piece = String::from_str(s.substring_char(start, i));
            done.push(piece);
            assert(views(done@) =~= views(before).push(piece@));
            assert(s@.subrange(i + 1, i + 1) =~= Seq::<char>::empty());
            start = i + 1;
        } else {
            assert(s@.subrange(start as int, i as int).push(c) =~= s@.subrange(start as int, i + 1));
        }
        i = i + 1;
    }
    let ghost before = done@;
    let last = String::from_str(s.substring_char(start, n));
    done.push(last);
    assert(s@.take(n as int) =~= s@);
    assert(views(done@) =~= views(before).push(last@));
    done
}

/// Join `parts` with `sep` in between.
pub fn join_with(parts: &Vec<String>, sep: &str) -> (r: String)
    ensures
        r@ == join_chars(views(parts@), sep@),
{
    let mut res = String::new();
    let ghost all = views(parts@);
    let mut i: usize = 0;
    assert(all.take(0) =~= Seq::<Seq<char>>::empty());
    while i < parts.len()
        invariant
            all == views(parts@),
            i <= parts.len(),
            res@ == join_chars(all.take(i as int), sep@),
        decreases parts.len() - i,
    {
        assert(all.take(i + 1).drop_last() =~= all.take(i as int));
        assert(all.take(i + 1).last() == parts@[i as int]@);
        if i == 0 {
            res.append(parts[i].as_str());
            assert(all.take(1) =~= seq![parts@[0]@]);
        } else {
            res.append(sep);
            res.append(parts[i].as_str());
        }
        i = i + 1;
    }
    assert(all.take(parts.len() as int) =~= all);
    res
}

proof fn lemma_decimal_grows(s: Seq<char>, c: char)
    requires
        is_digit(c),
    ensures
        decimal_value(s.push(c)) >= decimal_value(s),
        decimal_value(s.push(c)) == decimal_value(s) * 10 + (c as int - '0' as int),
{
    assert(s.push(c).drop_last() =~= s);
}

/// Any extension by digits of a sequence of digits has at least its value.
proof fn lemma_decimal_prefix(s: Seq<char>, k: int)
    requires
        0 <= k <= s.len(),
        all_digits(s),
    ensures
        decimal_value(s) >= decimal_value(s.take(k)),
    decreases s.len() - k,
{
    if k < s.len() {
        lemma_decimal_prefix(s, k + 1);
        assert(s.take(k + 1) =~= s.take(k).push(s[k]));
        assert(is_digit(s[k]));
        lemma_decimal_grows(s.take(k), s[k]);
    } else {
        assert(s.take(k) =~= s);
    }
}

/// Parse a decimal `usize` as `usize::from_str` does.
pub fn parse_usize(s: &str) -> (r: Option<usize>)
    ensures
        r == parse_usize_spec(s@),
{
    let n = s.unicode_len();
    if n == 0 {
        return None;
    }
    let start: usize = if s.get_char(0) == '+' { 1 } else { 0 };
    let ghost digits = if s@.len() > 0 && s@[0] == '+' { s@.drop_first() } else { s@ };
    assert(digits =~= s@.subrange(start as int, n as int));
    if start == n {
        return None;
    }
    let mut value: usize = 0;
    let mut i: usize = start;
    assert(digits.take(0) =~= Seq::<char>::empty());
    while i < n
        invariant
            n == s@.len(),
            start <= i <= n,
            digits =~= s@.subrange(start as int, n as int),
            digits == (if s@.len() > 0 && s@[0] == '+' { s@.drop_first() } else { s@ }),
            digits.len() > 0,
            value == decimal_value(digits.take(i - start)),
            all_digits(digits.take(i - start)),
        decreases n - i,
    {
        let c = s.get_char(i);
        let ghost k = i - start;
        assert(digits[k] == c);
        assert(digits.take(k + 1) =~= digits.take(k).push(c));
        if !('0' <= c && c <= '9') {
            assert(!all_digits(digits));
            return None;
        }
        let d: usize = ((c as u32) - ('0' as u32)) as usize;
        proof {
            lemma_decimal_grows(digits.take(k), c);
        }
        if value > (usize::MAX - d) / 10 {
            proof {
                assert(decimal_value(digits.take(k + 1)) > usize::MAX);
                if all_digits(digits) {
                    lemma_decimal_prefix(digits, k + 1);
                }
            }
            return None;
        }
        value = value * 10 + d;
        i = i + 1;
    }
    assert(digits.take(n - start) =~= digits);
    Some(value)
}

/// Whether `v` holds a string equal to `s`.
pub fn contains_string(v: &Vec<String>, s: &str) -> (r: bool)
    ensures
        r == views(v@).contains(s@),
{
    let mut i: usize = 0;
    while i < v.len()
        invariant
            i <= v.len(),
            forall|j: int| 0 <= j < i ==> v@[j]@ != s@,
        decreases v.len() - i,
    {
        if str_equal(v[i].as_str(), s) {
            assert(views(v@)[i as int] == s@);
            return true;
        }
        i = i + 1;
    }
    proof {
        if views(v@).contains(s@) {
            let k = choose|k: int| 0 <= k < views(v@).len() && views(v@)[k] == s@;
            assert(v@[k]@ == s@);
        }
    }
    false
}

/// Whether `v` holds the value `x`.
pub fn contains_id(v: &Vec<u128>, x: u128) -> (r: bool)
    ensures
        r == v@.contains(x),
{
    let mut i: usize = 0;
    while i < v.len()
        invariant
            i <= v.len(),
            forall|j: int| 0 <= j < i ==> v@[j] != x,
        decreases v.len() - i,
    {
        if v[i] == x {
            return true;
        }
        i = i + 1;
    }
    false
}

/// Copy a vector of strings.
pub fn clone_strings(v: &Vec<String>) -> (r: Vec<String>)
    ensures
        views(r@) == views(v@),
{
    let mut out: Vec<String> = Vec::new();
    let mut i: usize = 0;
    while i < v.len()
        invariant
            i <= v.len(),
            views(out@) =~= views(v@).take(i as int),
        decreases v.len() - i,
    {
        let ghost before = out@;
        let c = v[i].clone();
        out.push(c);
        assert(views(out@) =~= views(before).push(c@));
        assert(views(v@).take(i + 1) =~= views(v@).take(i as int).push(v@[i as int]@));
        i = i + 1;
    }
    assert(views(v@).take(v.len() as int) =~= views(v@));
    out
}

} // verus!
