//! Utilities on character sequences: splitting on a separator, decimal
//! digits, and the executable helpers that mirror them.

use vstd::prelude::*;

verus! {

/// The segments of `s` between occurrences of `sep`, in order. There is
/// always at least one segment; adjacent separators yield empty segments.
pub open spec fn split_on(s: Seq<char>, sep: char) -> Seq<Seq<char>>
    decreases s.len(),
{
    if s.len() == 0 {
        seq![Seq::<char>::empty()]
    } else if s.last() == sep {
        split_on(s.drop_last(), sep).push(Seq::<char>::empty())
    } else {
        let r = split_on(s.drop_last(), sep);
        r.update(r.len() - 1, r.last().push(s.last()))
    }
}

pub proof fn lemma_split_on_len(s: Seq<char>, sep: char)
    ensures
        split_on(s, sep).len() >= 1,
    decreases s.len(),
{
    if s.len() > 0 {
        lemma_split_on_len(s.drop_last(), sep);
    }
}

/// Splitting a separator-free string yields that string as the one segment.
pub proof fn lemma_split_on_free(s: Seq<char>, sep: char)
    requires
        forall|i: int| 0 <= i < s.len() ==> s[i] != sep,
    ensures
        split_on(s, sep) == seq![s],
    decreases s.len(),
{
    if s.len() == 0 {
        assert(s =~= Seq::<char>::empty());
    } else {
        lemma_split_on_free(s.drop_last(), sep);
        assert(s.drop_last().push(s.last()) =~= s);
        assert(split_on(s, sep) =~~= seq![s]);
    }
}

/// Splitting `a + [sep] + b` with `a` separator-free prepends `a` as a segment.
pub proof fn lemma_split_on_concat(a: Seq<char>, b: Seq<char>, sep: char)
    requires
        forall|i: int| 0 <= i < a.len() ==> a[i] != sep,
    ensures
        split_on(a + seq![sep] + b, sep) == seq![a] + split_on(b, sep),
    decreases b.len(),
{
    let s = a + seq![sep] + b;
    if b.len() == 0 {
        assert(s.drop_last() =~= a);
        assert(s.last() == sep);
        lemma_split_on_free(a, sep);
        assert(split_on(s, sep) =~~= seq![a] + split_on(b, sep));
    } else {
        let b2 = b.drop_last();
        assert(s.drop_last() =~= a + seq![sep] + b2);
        assert(s.last() == b.last());
        lemma_split_on_concat(a, b2, sep);
        lemma_split_on_len(b2, sep);
        assert(split_on(s, sep) =~~= seq![a] + split_on(b, sep));
    }
}

pub open spec fn is_digit(c: char) -> bool {
    '0' <= c && c <= '9'
}

pub open spec fn digit_val(c: char) -> nat {
    (c as u32 - '0' as u32) as nat
}

pub open spec fn all_digits(s: Seq<char>) -> bool {
    forall|i: int| 0 <= i < s.len() ==> is_digit(s[i])
}

/// The value of a string of decimal digits, most significant first.
pub open spec fn digits_val(s: Seq<char>) -> nat
    decreases s.len(),
{
    if s.len() == 0 {
        0
    } else {
        digits_val(s.drop_last()) * 10 + digit_val(s.last())
    }
}

/// A digit string's value never shrinks as more digits are appended.
pub proof fn lemma_digits_val_prefix(s: Seq<char>, i: int)
    requires
        0 <= i <= s.len(),
    ensures
        digits_val(s.take(i)) <= digits_val(s),
    decreases s.len() - i,
{
    if i < s.len() {
        lemma_digits_val_prefix(s.drop_last(), i);
        assert(s.drop_last().take(i) =~= s.take(i));
    } else {
        assert(s.take(i) =~= s);
    }
}

/// The decimal digit character for a value below ten.
pub open spec fn dec_digit(d: nat) -> char {
    if d == 0 { '0' }
    else if d == 1 { '1' }
    else if d == 2 { '2' }
    else if d == 3 { '3' }
    else if d == 4 { '4' }
    else if d == 5 { '5' }
    else if d == 6 { '6' }
    else if d == 7 { '7' }
    else if d == 8 { '8' }
    else { '9' }
}

/// The decimal rendering of `n`, without sign or leading zeros
/// (`0` renders as `"0"`).
pub open spec fn dec_str(n: nat) -> Seq<char>
    decreases n,
{
    if n < 10 {
        seq![dec_digit(n)]
    } else {
        dec_str(n / 10).push(dec_digit(n % 10))
    }
}

/// Every character of a decimal rendering is a digit.
pub proof fn lemma_dec_str_digits(n: nat)
    ensures
        all_digits(dec_str(n)),
        dec_str(n).len() >= 1,
    decreases n,
{
    if n >= 10 {
        lemma_dec_str_digits(n / 10);
    }
}

/// Splitting distributes over a separator placed between two parts,
/// whatever they contain.
pub proof fn lemma_split_on_join(a: Seq<char>, b: Seq<char>, sep: char)
    ensures
        split_on(a + seq![sep] + b, sep) == split_on(a, sep) + split_on(b, sep),
    decreases b.len(),
{
    let s = a + seq![sep] + b;
    if b.len() == 0 {
        assert(s.drop_last() =~= a);
        assert(s.last() == sep);
        assert(split_on(s, sep) =~~= split_on(a, sep) + split_on(b, sep));
    } else {
        let b2 = b.drop_last();
        assert(s.drop_last() =~= a + seq![sep] + b2);
        assert(s.last() == b.last());
        lemma_split_on_join(a, b2, sep);
        lemma_split_on_len(b2, sep);
        lemma_split_on_len(a, sep);
        assert(split_on(s, sep) =~~= split_on(a, sep) + split_on(b, sep));
    }
}

/// The number of positions of `s` where `pat` occurs (occurrences may
/// overlap; an empty pattern is counted nowhere).
pub open spec fn count_occ(s: Seq<char>, pat: Seq<char>) -> nat
    decreases s.len(),
{
    if pat.len() == 0 || s.len() < pat.len() {
        0
    } else {
        (if s.take(pat.len() as int) == pat {
            1nat
        } else {
            0nat
        }) + count_occ(s.skip(1), pat)
    }
}

/// Peeling off a front part in which the pattern matches nowhere leaves
/// the count unchanged.
pub proof fn lemma_count_occ_skip(s: Seq<char>, pat: Seq<char>, n: int)
    requires
        0 <= n <= s.len(),
        pat.len() > 0,
        forall|p: int|
            0 <= p < n && p + pat.len() <= s.len() ==> #[trigger] s.skip(p).take(
                pat.len() as int,
            ) != pat,
    ensures
        count_occ(s, pat) == count_occ(s.skip(n), pat),
    decreases n,
{
    if n > 0 {
        if s.len() >= pat.len() {
            assert(s.skip(0).take(pat.len() as int) != pat);
            assert(s.skip(0) =~= s);
            assert(s.take(pat.len() as int) != pat);
        }
        assert forall|p: int|
            0 <= p < n - 1 && p + pat.len() <= s.skip(1).len() implies #[trigger] s.skip(1).skip(
            p,
        ).take(pat.len() as int) != pat by {
            assert(s.skip(1).skip(p) =~= s.skip(p + 1));
            assert(s.skip(p + 1).take(pat.len() as int) != pat);
        }
        lemma_count_occ_skip(s.skip(1), pat, n - 1);
        assert(s.skip(1).skip(n - 1) =~= s.skip(n));
    } else {
        assert(s.skip(0) =~= s);
    }
}

/// The characters of `s`, in order.
pub fn str_chars(s: &str) -> (v: Vec<char>)
    ensures
        v@ == s@,
{
    let n = s.unicode_len();
    let mut v: Vec<char> = Vec::new();
    let mut i: usize = 0;
    while i < n
        invariant
            i <= n,
            n == s@.len(),
            v@ == s@.take(i as int),
        decreases n - i,
    {
        v.push(s.get_char(i));
        i = i + 1;
        assert(v@ =~= s@.take(i as int));
    }
    assert(v@ =~= s@);
    v
}

/// Splits `v` on `sep`; the executable counterpart of `split_on`.
pub fn split_chars(v: &Vec<char>, sep: char) -> (r: Vec<Vec<char>>)
    ensures
        r.deep_view() == split_on(v@, sep),
{
    let mut segs: Vec<Vec<char>> = Vec::new();
    let mut cur: Vec<char> = Vec::new();
    let mut i: usize = 0;
    while i < v.len()
        invariant
            i <= v.len(),
            split_on(v@.take(i as int), sep) == segs.deep_view().push(cur@),
        decreases v.len() - i,
    {
        let ghost prev_segs = segs.deep_view();
        let ghost prev_cur = cur@;
        let c = v[i];
        if c == sep {
            segs.push(cur);
            cur = Vec::new();
        } else {
            cur.push(c);
        }
        i = i + 1;
        proof {
            let t = v@.take(i as int);
            assert(t.drop_last() =~= v@.take(i - 1));
            assert(t.last() == c);
            if c == sep {
                assert(segs.deep_view() =~~= prev_segs.push(prev_cur));
                assert(split_on(t, sep) =~~= segs.deep_view().push(cur@));
            } else {
                assert(split_on(t, sep) =~~= segs.deep_view().push(cur@));
            }
        }
    }
    assert(v@.take(v.len() as int) =~= v@);
    let ghost prev_segs = segs.deep_view();
    let ghost prev_cur = cur@;
    segs.push(cur);
    proof {
        assert(segs.deep_view() =~~= prev_segs.push(prev_cur));
    }
    segs
}

/// Keeps the nonempty segments, in order.
pub fn filter_nonempty(segs: Vec<Vec<char>>) -> (r: Vec<Vec<char>>)
    ensures
        r.deep_view() == segs.deep_view().filter(|t: Seq<char>| t.len() > 0),
{
    let mut r: Vec<Vec<char>> = Vec::new();
    let mut i: usize = 0;
    while i < segs.len()
        invariant
            i <= segs.len(),
            r.deep_view() == segs.deep_view().take(i as int).filter(|t: Seq<char>| t.len() > 0),
        decreases segs.len() - i,
    {
        let ghost prev = r.deep_view();
        let ghost p = |t: Seq<char>| t.len() > 0;
        if segs[i].len() > 0 {
            let t = segs[i].clone();
            r.push(t);
        }
        i = i + 1;
        proof {
            reveal(Seq::filter);
            let pre = segs.deep_view().take(i as int);
            assert(pre.drop_last() =~= segs.deep_view().take(i - 1));
            assert(pre.last() == segs.deep_view()[i - 1]);
            if segs@[i - 1]@.len() > 0 {
                assert(r.deep_view() =~~= prev.push(segs.deep_view()[i - 1]));
            }
            assert(r.deep_view() =~~= pre.filter(p));
        }
    }
    assert(segs.deep_view().take(segs.len() as int) =~= segs.deep_view());
    r
}

/// Whether the characters of `v` spell exactly the string `s`.
pub fn chars_eq_str(v: &[char], s: &str) -> (r: bool)
    ensures
        r == (v@ == s@),
{
    let n = s.unicode_len();
    if v.len() != n {
        assert(v@ != s@);
        return false;
    }
    let mut i: usize = 0;
    while i < n
        invariant
            i <= n,
            n == s@.len(),
            v@.len() == n,
            forall|j: int| 0 <= j < i ==> v@[j] == s@[j],
        decreases n - i,
    {
        if v[i] != s.get_char(i) {
            return false;
        }
        i = i + 1;
    }
    proof {
        assert(v@ =~= s@);
    }
    true
}

} // verus!
