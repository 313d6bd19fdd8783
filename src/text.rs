use vstd::prelude::*;
use vstd::std_specs::iter::IteratorSpec;

verus! {

/// The decimal digit character for `d < 10`.
pub open spec fn digit_char(d: nat) -> char {
    if d == 0 { '0' } else if d == 1 { '1' } else if d == 2 { '2' } else if d == 3 { '3' }
    else if d == 4 { '4' } else if d == 5 { '5' } else if d == 6 { '6' } else if d == 7 { '7' }
    else if d == 8 { '8' } else { '9' }
}

/// The decimal representation of `n`, without leading zeros.
pub open spec fn decimal(n: nat) -> Seq<char>
    decreases n,
{
    if n < 10 {
        seq![digit_char(n)]
    } else {
        decimal(n / 10).push(digit_char(n % 10))
    }
}

/// The characters of the string, in order.
pub(crate) fn chars_of(s: &str) -> (r: Vec<char>)
    ensures
        r@ == s@,
{
    broadcast use vstd::string::axiom_spec_iter, vstd::string::next_postcondition;

    let mut it = s.chars();
    let mut out: Vec<char> = Vec::new();
    loop
        invariant
            out@ + IteratorSpec::remaining(&it) == s@,
            it.obeys_prophetic_iter_laws(),
            IteratorSpec::decrease(&it) is Some,
        ensures
            out@ == s@,
        decreases IteratorSpec::decrease(&it)->0,
    {
        let ghost before = IteratorSpec::remaining(&it);
        match it.next() {
            Some(c) => {
                out.push(c);
                proof {
                    assert(before == seq![c] + IteratorSpec::remaining(&it));
                }
            },
            None => {
                proof {
                    assert(IteratorSpec::remaining(&it).len() == 0);
                    assert(out@ + IteratorSpec::remaining(&it) =~= out@);
                }
                break;
            },
        }
    }
    out
}

/// Relies on collecting characters into a `String`: the string holds them in order.
#[verifier::external_body]
pub(crate) fn string_of(v: &[char]) -> (r: String)
    ensures
        r@ == v@,
{
    v.iter().collect()
}

pub(crate) fn exec_digit_char(d: u32) -> (c: char)
    requires
        d < 10,
    ensures
        c == digit_char(d as nat),
{
    if d == 0 { '0' } else if d == 1 { '1' } else if d == 2 { '2' } else if d == 3 { '3' }
    else if d == 4 { '4' } else if d == 5 { '5' } else if d == 6 { '6' } else if d == 7 { '7' }
    else if d == 8 { '8' } else { '9' }
}

/// Appends the decimal representation of `n` to `out`.
pub fn push_decimal(out: &mut Vec<char>, n: u32)
    ensures
        final(out)@ == old(out)@ + decimal(n as nat),
    decreases n,
{
    if n < 10 {
        out.push(exec_digit_char(n));
        assert(decimal(n as nat) == seq![digit_char(n as nat)]);
    } else {
        push_decimal(out, n / 10);
        out.push(exec_digit_char(n % 10));
        assert(decimal(n as nat) == decimal((n / 10) as nat).push(digit_char((n % 10) as nat)));
    }
}

/// Appends the characters of `s` to `out`.
pub fn push_seq(out: &mut Vec<char>, s: &[char])
    ensures
        final(out)@ == old(out)@ + s@,
{
    let mut i: usize = 0;
    while i < s.len()
        invariant
            0 <= i <= s@.len(),
            out@ == old(out)@ + s@.subrange(0, i as int),
        decreases s@.len() - i,
    {
        out.push(s[i]);
        i = i + 1;
        assert(s@.subrange(0, i as int) == s@.subrange(0, i - 1).push(s@[i - 1]));
    }
    assert(s@.subrange(0, s@.len() as int) == s@);
}

/// `pat` occurs in `s` starting at index `i`.
pub open spec fn match_at(s: Seq<char>, pat: Seq<char>, i: int) -> bool {
    0 <= i && i + pat.len() <= s.len() && s.subrange(i, i + pat.len()) == pat
}

/// The first index at or after `i` where `pat` occurs in `s`.
pub open spec fn find_from(s: Seq<char>, pat: Seq<char>, i: nat) -> Option<nat>
    decreases s.len() + 1 - i,
{
    if i + pat.len() > s.len() {
        None
    } else if match_at(s, pat, i as int) {
        Some(i)
    } else {
        find_from(s, pat, i + 1)
    }
}

/// `pat` occurs somewhere in `s`.
pub open spec fn contains(s: Seq<char>, pat: Seq<char>) -> bool {
    find_from(s, pat, 0) is Some
}

/// `s` begins with `pat`.
pub open spec fn starts_with(s: Seq<char>, pat: Seq<char>) -> bool {
    match_at(s, pat, 0)
}

/// `s` ends with `pat`.
pub open spec fn ends_with(s: Seq<char>, pat: Seq<char>) -> bool {
    s.len() >= pat.len() && match_at(s, pat, s.len() - pat.len())
}

/// What a search from `i` reports: the first occurrence, or that there is none.
pub proof fn lemma_find_from(s: Seq<char>, pat: Seq<char>, i: nat)
    ensures
        match find_from(s, pat, i) {
            Some(j) => i <= j && j + pat.len() <= s.len() && match_at(s, pat, j as int)
                && forall|k: int| i <= k < j ==> !match_at(s, pat, k),
            None => forall|k: int| i <= k ==> !match_at(s, pat, k),
        },
    decreases s.len() + 1 - i,
{
    if i + pat.len() <= s.len() && !match_at(s, pat, i as int) {
        lemma_find_from(s, pat, i + 1);
    }
}

/// Whether `pat` occurs in `s` at index `i`.
pub fn exec_match_at(s: &[char], pat: &[char], i: usize) -> (r: bool)
    ensures
        r == match_at(s@, pat@, i as int),
{
    if pat.len() > s.len() || i > s.len() - pat.len() {
        return false;
    }
    let n = s.len();
    let mut k: usize = 0;
    while k < pat.len()
        invariant
            n == s@.len(),
            i + pat@.len() <= s@.len(),
            0 <= k <= pat@.len(),
            forall|m: int| 0 <= m < k ==> s@[i + m] == pat@[m],
        decreases pat@.len() - k,
    {
        assert(i + k < s@.len());
        if s[i + k] != pat[k] {
            assert(s@.subrange(i as int, i + pat@.len())[k as int] != pat@[k as int]);
            return false;
        }
        k = k + 1;
    }
    assert(s@.subrange(i as int, i + pat@.len()) =~= pat@);
    true
}

/// The first index at or after `from` where `pat` occurs in `s`.
pub fn find_at(s: &[char], pat: &[char], from: usize) -> (r: Option<usize>)
    ensures
        match r {
            Some(j) => find_from(s@, pat@, from as nat) == Some(j as nat),
            None => find_from(s@, pat@, from as nat) is None,
        },
{
    let mut i: usize = from;
    while i <= s.len() && pat.len() <= s.len() - i
        invariant
            from <= i,
            find_from(s@, pat@, from as nat) == find_from(s@, pat@, i as nat),
        decreases s@.len() + 1 - i,
    {
        if exec_match_at(s, pat, i) {
            return Some(i);
        }
        if i == s.len() {
            assert(s@.subrange(i as int, i as int) =~= pat@);
            assert(false);
        }
        i = i + 1;
    }
    None
}

/// Whether `pat` occurs in `s`.
pub fn exec_contains(s: &[char], pat: &[char]) -> (r: bool)
    ensures
        r == contains(s@, pat@),
{
    find_at(s, pat, 0).is_some()
}

/// Whether `s` ends with `pat`.
pub fn exec_ends_with(s: &[char], pat: &[char]) -> (r: bool)
    ensures
        r == ends_with(s@, pat@),
{
    if s.len() < pat.len() {
        false
    } else {
        exec_match_at(s, pat, s.len() - pat.len())
    }
}

/// A copy of `s[from..to]`.
pub fn copy_range(s: &[char], from: usize, to: usize) -> (r: Vec<char>)
    requires
        from <= to <= s@.len(),
    ensures
        r@ == s@.subrange(from as int, to as int),
{
    let mut r: Vec<char> = Vec::new();
    let mut i: usize = from;
    while i < to
        invariant
            from <= i <= to <= s@.len(),
            r@ == s@.subrange(from as int, i as int),
        decreases to - i,
    {
        r.push(s[i]);
        i = i + 1;
        assert(s@.subrange(from as int, i as int) == s@.subrange(from as int, i - 1).push(s@[i - 1]));
    }
    r
}

/// Appends `s[from..to]` to `out`.
pub fn push_range(out: &mut Vec<char>, s: &[char], from: usize, to: usize)
    requires
        from <= to <= s@.len(),
    ensures
        final(out)@ == old(out)@ + s@.subrange(from as int, to as int),
{
    let mut i: usize = from;
    while i < to
        invariant
            from <= i <= to <= s@.len(),
            out@ == old(out)@ + s@.subrange(from as int, i as int),
        decreases to - i,
    {
        out.push(s[i]);
        i = i + 1;
        assert(s@.subrange(from as int, i as int) == s@.subrange(from as int, i - 1).push(s@[i - 1]));
    }
}

/// The last index `k` with `lo <= k` and `k + pat.len() <= hi` where `pat`
/// occurs in `s`.
pub open spec fn rfind_in(s: Seq<char>, pat: Seq<char>, lo: nat, hi: nat) -> Option<nat>
    decreases hi,
{
    if hi < lo + pat.len() {
        None
    } else if match_at(s, pat, hi - pat.len()) {
        Some((hi - pat.len()) as nat)
    } else if hi == 0 {
        None
    } else {
        rfind_in(s, pat, lo, (hi - 1) as nat)
    }
}

pub proof fn lemma_rfind_in(s: Seq<char>, pat: Seq<char>, lo: nat, hi: nat)
    ensures
        match rfind_in(s, pat, lo, hi) {
            Some(k) => lo <= k && k + pat.len() <= hi && match_at(s, pat, k as int),
            None => true,
        },
    decreases hi,
{
    if hi >= lo + pat.len() && !match_at(s, pat, hi - pat.len()) && hi > 0 {
        lemma_rfind_in(s, pat, lo, (hi - 1) as nat);
    }
}

/// The last occurrence of `pat` inside `s[lo..hi]`.
pub fn exec_rfind_in(s: &[char], pat: &[char], lo: usize, hi: usize) -> (r: Option<usize>)
    ensures
        match r {
            Some(k) => rfind_in(s@, pat@, lo as nat, hi as nat) == Some(k as nat),
            None => rfind_in(s@, pat@, lo as nat, hi as nat) is None,
        },
{
    let mut h: usize = hi;
    loop
        invariant
            h <= hi,
            rfind_in(s@, pat@, lo as nat, hi as nat) == rfind_in(s@, pat@, lo as nat, h as nat),
        decreases h,
    {
        if h < pat.len() || h - pat.len() < lo {
            return None;
        }
        if exec_match_at(s, pat, h - pat.len()) {
            return Some(h - pat.len());
        }
        if h == 0 {
            return None;
        }
        h = h - 1;
    }
}

/// Whether two character sequences are equal.
pub fn same_chars(a: &[char], b: &[char]) -> (r: bool)
    ensures
        r == (a@ == b@),
{
    if a.len() == b.len() && exec_match_at(a, b, 0) {
        assert(a@.subrange(0, b@.len() as int) =~= a@);
        true
    } else {
        proof {
            if a@ == b@ {
                assert(a@.subrange(0, b@.len() as int) =~= a@);
            }
        }
        false
    }
}

} // verus!
