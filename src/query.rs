use vstd::prelude::*;

use crate::date::{digits_at, is_digit, value_of};
use crate::text::chars_of;

verus! {

/// The name/value pairs `serde_urlencoded` decodes from a query string, in
/// order; `None` where it refuses the text.
pub uninterp spec fn urlencoded_pairs(query: Seq<char>) -> Option<Seq<(Seq<char>, Seq<char>)>>;

/// The character sequences held by a list of string pairs.
pub open spec fn pairs_view(v: Seq<(String, String)>) -> Seq<(Seq<char>, Seq<char>)> {
    v.map_values(|p: (String, String)| (p.0@, p.1@))
}

/// Relies on `serde_urlencoded::from_str` into a list of string pairs: the
/// outcome depends on the text alone.
#[verifier::external_body]
fn decode_pairs(query: &str) -> (r: Option<Vec<(String, String)>>)
    ensures
        match r {
            Some(v) => urlencoded_pairs(query@) == Some(pairs_view(v@)),
            None => urlencoded_pairs(query@) is None,
        },
{
    serde_urlencoded::from_str::<Vec<(String, String)>>(query).ok()
}

/// The value of the last pair named `key`.
pub open spec fn last_value(pairs: Seq<(Seq<char>, Seq<char>)>, key: Seq<char>) -> Option<Seq<char>>
    decreases pairs.len(),
{
    if pairs.len() == 0 {
        None
    } else if pairs.last().0 == key {
        Some(pairs.last().1)
    } else {
        last_value(pairs.drop_last(), key)
    }
}

/// The number `str::parse::<u32>` reads from `s`: an optional `+`, then one
/// or more ASCII digits whose value fits in a `u32`.
pub open spec fn parse_u32_spec(s: Seq<char>) -> Option<nat> {
    let start: nat = if s.len() > 0 && s[0] == '+' { 1 } else { 0 };
    let k = (s.len() - start) as nat;
    if s.len() > start && digits_at(s, start, k) == k && value_of(s, start, k) <= u32::MAX {
        Some(value_of(s, start, k))
    } else {
        None
    }
}

/// The page a query asks for: its `page` value read as a positive number,
/// else 1.
pub open spec fn page_spec(pairs: Seq<(Seq<char>, Seq<char>)>) -> nat {
    match last_value(pairs, seq!['p', 'a', 'g', 'e']) {
        None => 1,
        Some(v) => match parse_u32_spec(v) {
            Some(n) => if n > 0 { n } else { 1 },
            None => 1,
        },
    }
}

/// The decoded pairs of a URL query string.
pub struct QueryString {
    items: Vec<(String, String)>,
}

proof fn lemma_digits_all(s: Seq<char>, p: nat, k: nat)
    requires
        p + k <= s.len(),
    ensures
        digits_at(s, p, k) == k <==> forall|i: int| p <= i < p + k ==> is_digit(s[i]),
    decreases k,
{
    if k > 0 {
        lemma_digits_all(s, p + 1, (k - 1) as nat);
        if !is_digit(s[p as int]) {
            assert(digits_at(s, p, k) == 0);
        }
    }
}

/// Reads a `u32` as `str::parse` does; see `parse_u32_spec`.
pub fn parse_u32(s: &str) -> (r: Option<u32>)
    ensures
        match r {
            Some(n) => parse_u32_spec(s@) == Some(n as nat),
            None => parse_u32_spec(s@) is None,
        },
{
    let c = chars_of(s);
    let n = c.len();
    let start: usize = if n > 0 && c[0] == '+' { 1 } else { 0 };
    if n <= start {
        return None;
    }
    let ghost k = (n - start) as nat;
    proof {
        lemma_digits_all(c@, start as nat, k);
    }
    let mut v: u64 = 0;
    let mut i: usize = start;
    while i < n
        invariant
            n == c@.len(),
            start <= i <= n,
            k == n - start,
            start == (if c@.len() > 0 && c@[0] == '+' { 1nat } else { 0nat }),
            c@ == s@,
            v == value_of(c@, start as nat, (i - start) as nat),
            v <= u32::MAX,
            forall|j: int| start <= j < i ==> is_digit(c@[j]),
        decreases n - i,
    {
        if !('0' <= c[i] && c[i] <= '9') {
            proof {
                assert(!is_digit(c@[i as int]));
                assert(start <= i < start + k);
                lemma_digits_all(c@, start as nat, k);
                assert(!(forall|j: int| start <= j < start + k ==> is_digit(c@[j])));
                assert(digits_at(c@, start as nat, k) != k);
            }
            return None;
        }
        let d = (c[i] as u32 - '0' as u32) as u64;
        proof {
            assert(value_of(c@, start as nat, (i + 1 - start) as nat)
                == value_of(c@, start as nat, (i - start) as nat) * 10 + d);
        }
        v = v * 10 + d;
        if v > 4294967295 {
            proof {
                if forall|j: int| start <= j < start + k ==> is_digit(#[trigger] c@[j]) {
                    lemma_value_grows(c@, start as nat, (i + 1 - start) as nat, k);
                    assert(value_of(c@, start as nat, k) > u32::MAX);
                } else {
                    lemma_digits_all(c@, start as nat, k);
                    assert(digits_at(c@, start as nat, k) != k);
                }
            }
            return None;
        }
        i = i + 1;
    }
    Some(v as u32)
}

proof fn lemma_value_grows(s: Seq<char>, p: nat, j: nat, k: nat)
    requires
        j <= k,
        p + k <= s.len(),
        forall|i: int| p <= i < p + k ==> is_digit(s[i]),
    ensures
        value_of(s, p, j) <= value_of(s, p, k),
    decreases k - j,
{
    if j < k {
        lemma_value_grows(s, p, j, (k - 1) as nat);
    }
}

impl QueryString {
    /// The pairs held, in order.
    pub closed spec fn pairs(&self) -> Seq<(Seq<char>, Seq<char>)> {
        pairs_view(self.items@)
    }

    /// Decodes a query string; one that does not decode holds no pairs.
    pub fn from(buf: &str) -> (r: QueryString)
        ensures
            r.pairs() == match urlencoded_pairs(buf@) {
                Some(p) => p,
                None => Seq::empty(),
            },
    {
        match decode_pairs(buf) {
            Some(items) => QueryString { items },
            None => {
                let r = QueryString { items: Vec::new() };
                assert(r.pairs() =~= Seq::empty());
                r
            },
        }
    }

    /// The value of the last pair named `key`.
    pub fn get(&self, key: &str) -> (r: Option<String>)
        ensures
            match last_value(self.pairs(), key@) {
                Some(v) => r matches Some(s) && s@ == v,
                None => r is None,
            },
    {
        let k = chars_of(key);
        let mut i: usize = self.items.len();
        proof {
            assert(self.pairs().subrange(0, i as int) =~= self.pairs());
        }
        while i > 0
            invariant
                i <= self.items@.len(),
                k@ == key@,
                last_value(self.pairs(), key@) == last_value(self.pairs().subrange(0, i as int), key@),
            decreases i,
        {
            let name = chars_of(self.items[i - 1].0.as_str());
            let ghost pre = self.pairs().subrange(0, i as int);
            proof {
                assert(pre.drop_last() =~= self.pairs().subrange(0, i - 1));
            }
            if name.len() == k.len() && crate::text::exec_match_at(name.as_slice(), k.as_slice(), 0) {
                proof {
                    assert(name@.subrange(0, k@.len() as int) =~= name@);
                }
                return Some(self.items[i - 1].1.clone());
            }
            proof {
                if pre.last().0 == key@ {
                    assert(name@.subrange(0, k@.len() as int) =~= name@);
                }
            }
            i = i - 1;
        }
        None
    }

    /// The page the query asks for: its `page` value when that is a
    /// positive number, else 1.
    pub fn get_page(&self) -> (r: u32)
        ensures
            r == page_spec(self.pairs()),
    {
        proof {
            reveal_strlit("page");
            assert("page"@ =~= seq!['p', 'a', 'g', 'e']);
        }
        match self.get("page") {
            None => 1,
            Some(v) => match parse_u32(v.as_str()) {
                Some(n) => if n > 0 { n } else { 1 },
                None => 1,
            },
        }
    }

    /// The pairs held, in order.
    pub fn items(&self) -> (r: Vec<(String, String)>)
        ensures
            pairs_view(r@) == self.pairs(),
    {
        let mut out: Vec<(String, String)> = Vec::new();
        let mut i: usize = 0;
        while i < self.items.len()
            invariant
                i <= self.items@.len(),
                pairs_view(out@) == self.pairs().subrange(0, i as int),
            decreases self.items@.len() - i,
        {
            let p = (self.items[i].0.clone(), self.items[i].1.clone());
            let ghost before = out@;
            out.push(p);
            proof {
                assert(out@ == before.push(p));
                assert(p.0@ == self.items@[i as int].0@ && p.1@ == self.items@[i as int].1@);
                assert(pairs_view(out@) =~= pairs_view(before).push((p.0@, p.1@)));
                assert(self.pairs().subrange(0, i + 1) =~= self.pairs().subrange(0, i as int).push(self.pairs()[i as int]));
                assert(pairs_view(out@) =~= self.pairs().subrange(0, i + 1));
            }
            i = i + 1;
        }
        proof {
            assert(self.pairs().subrange(0, i as int) =~= self.pairs());
        }
        out
    }
}

} // verus!
