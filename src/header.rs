use vstd::prelude::*;

use crate::text::{
    chars_of, copy_range, exec_match_at, exec_rfind_in, find_at, find_from, lemma_find_from,
    lemma_rfind_in, match_at, rfind_in, string_of,
};

verus! {

/// Whether `char::is_alphanumeric` holds of a character: it is alphabetic
/// or numeric in Unicode.
pub uninterp spec fn alphanumeric(c: char) -> bool;

/// Relies on `char::is_alphanumeric`: the answer depends on the character
/// alone.
#[verifier::external_body]
fn is_alphanumeric(c: char) -> (r: bool)
    ensures
        r == alphanumeric(c),
{
    c.is_alphanumeric()
}

/// A character allowed in a header key: a Unicode letter or digit, or `_`.
/// A bracketed key holding any other character makes the line no header
/// line, so it ends the key/value phase of the header.
pub open spec fn is_word(c: char) -> bool {
    alphanumeric(c) || c == '_'
}

/// End of the run of key characters in `s` that starts at `k`.
pub open spec fn word_end(s: Seq<char>, k: nat) -> nat
    decreases s.len() - k,
{
    if k < s.len() && is_word(s[k as int]) {
        word_end(s, k + 1)
    } else {
        k
    }
}

pub open spec fn kv_sep() -> Seq<char> {
    seq![']', ':', ' ', '#', ' ', '(']
}

/// A header line `[KEY]: # (value)` whose `[` stands at `i`: the key is the
/// run of key characters after `[`, the value runs to the last `)` of the
/// line and is not empty.
pub open spec fn kv_match(s: Seq<char>, i: nat) -> Option<(Seq<char>, Seq<char>)> {
    if i < s.len() && s[i as int] == '[' {
        let j = word_end(s, i + 1);
        if j > i + 1 && match_at(s, kv_sep(), j as int) {
            match rfind_in(s, seq![')'], 0, s.len()) {
                Some(c) => if c >= j + 7 {
                    Some((s.subrange((i + 1) as int, j as int), s.subrange((j + 6) as int, c as int)))
                } else {
                    None
                },
                None => None,
            }
        } else {
            None
        }
    } else {
        None
    }
}

/// The leftmost header key/value pair of `s` at or after `i`.
pub open spec fn kv_from(s: Seq<char>, i: nat) -> Option<(Seq<char>, Seq<char>)>
    decreases s.len() - i,
{
    if i >= s.len() {
        None
    } else {
        match kv_match(s, i) {
            Some(kv) => Some(kv),
            None => kv_from(s, i + 1),
        }
    }
}

/// The key and value of a header line, if it holds one.
pub open spec fn header_kv(s: Seq<char>) -> Option<(Seq<char>, Seq<char>)> {
    kv_from(s, 0)
}

fn exec_is_word(c: char) -> (r: bool)
    ensures
        r == is_word(c),
{
    is_alphanumeric(c) || c == '_'
}

fn exec_word_end(s: &[char], k: usize) -> (r: usize)
    requires
        k <= s@.len(),
    ensures
        r == word_end(s@, k as nat),
        k <= r <= s@.len(),
{
    let mut j = k;
    while j < s.len() && exec_is_word(s[j])
        invariant
            k <= j <= s@.len(),
            word_end(s@, k as nat) == word_end(s@, j as nat),
        decreases s@.len() - j,
    {
        j = j + 1;
    }
    j
}

/// The key and value of a header line `[KEY]: # (value)`, if it holds one.
pub fn extract_texted_header(line: &[char]) -> (r: Option<(Vec<char>, Vec<char>)>)
    ensures
        match r {
            Some((k, v)) => header_kv(line@) == Some((k@, v@)),
            None => header_kv(line@) is None,
        },
{
    let sep = chars_of("]: # (");
    let close = chars_of(")");
    proof {
        reveal_strlit("]: # (");
        reveal_strlit(")");
        assert(sep@ =~= kv_sep());
        assert(close@ =~= seq![')']);
    }
    let n = line.len();
    let last_close = exec_rfind_in(line, close.as_slice(), 0, n);
    proof {
        lemma_rfind_in(line@, seq![')'], 0, n as nat);
    }
    let mut i: usize = 0;
    while i < n
        invariant
            n == line@.len(),
            sep@ == kv_sep(),
            kv_from(line@, 0) == kv_from(line@, i as nat),
            match last_close {
                Some(c) => rfind_in(line@, seq![')'], 0, n as nat) == Some(c as nat) && c < n,
                None => rfind_in(line@, seq![')'], 0, n as nat) is None,
            },
        decreases n - i,
    {
        if line[i] == '[' {
            let j = exec_word_end(line, i + 1);
            if j > i + 1 && exec_match_at(line, sep.as_slice(), j) {
                if let Some(c) = last_close {
                    if c > j + 6 {
                        let key = copy_range(line, i + 1, j);
                        let val = copy_range(line, j + 6, c);
                        return Some((key, val));
                    }
                }
            }
        }
        i = i + 1;
    }
    None
}

/// The space-separated tokens of `s[p..]`, empty tokens dropped.
pub open spec fn tags_from(s: Seq<char>, p: nat) -> Seq<Seq<char>>
    decreases s.len() + 1 - p,
{
    if p >= s.len() {
        Seq::empty()
    } else {
        match find_from(s, seq![' '], p) {
            None => seq![s.subrange(p as int, s.len() as int)],
            Some(i) => if p <= i < s.len() {
                (if i > p { seq![s.subrange(p as int, i as int)] } else { Seq::empty() })
                    + tags_from(s, i + 1)
            } else {
                Seq::empty()
            },
        }
    }
}

/// The tags of a `TAGS` value: split at single spaces, empty tokens dropped,
/// repeated tags kept.
pub open spec fn tags_of(s: Seq<char>) -> Seq<Seq<char>> {
    tags_from(s, 0)
}

/// The character sequences held by a list of strings.
pub open spec fn strings_view(v: Seq<String>) -> Seq<Seq<char>> {
    v.map_values(|t: String| t@)
}

/// Splits a `TAGS` value at single spaces, dropping empty tokens and keeping
/// repeated ones.
pub fn extract_tags(tags_str: &str) -> (r: Vec<String>)
    ensures
        strings_view(r@) == tags_of(tags_str@),
{
    let s = chars_of(tags_str);
    let sp = chars_of(" ");
    proof {
        reveal_strlit(" ");
        assert(sp@ =~= seq![' ']);
    }
    let n = s.len();
    let mut out: Vec<String> = Vec::new();
    let mut p: usize = 0;
    proof {
        assert(strings_view(out@) + tags_from(s@, 0) =~= tags_from(s@, 0));
    }
    while p < n
        invariant
            n == s@.len(),
            p <= n,
            s@ == tags_str@,
            sp@ == seq![' '],
            tags_of(tags_str@) == strings_view(out@) + tags_from(s@, p as nat),
        decreases n - p,
    {
        proof {
            lemma_find_from(s@, seq![' '], p as nat);
        }
        let ghost before = out@;
        match find_at(s.as_slice(), sp.as_slice(), p) {
            None => {
                let t = copy_range(s.as_slice(), p, n);
                out.push(string_of(t.as_slice()));
                proof {
                    assert(strings_view(out@) =~= strings_view(before) + seq![t@]);
                    assert(strings_view(before) + seq![t@] + tags_from(s@, n as nat)
                        =~= strings_view(out@));
                }
                p = n;
            },
            Some(i) => {
                if i > p {
                    let t = copy_range(s.as_slice(), p, i);
                    out.push(string_of(t.as_slice()));
                    proof {
                        assert(strings_view(out@) =~= strings_view(before) + seq![t@]);
                        assert(strings_view(before) + (seq![t@] + tags_from(s@, (i + 1) as nat))
                            =~= strings_view(out@) + tags_from(s@, (i + 1) as nat));
                    }
                } else {
                    proof {
                        assert(strings_view(before) + (Seq::<Seq<char>>::empty() + tags_from(s@, (i + 1) as nat))
                            =~= strings_view(out@) + tags_from(s@, (i + 1) as nat));
                    }
                }
                p = i + 1;
            },
        }
    }
    proof {
        assert(strings_view(out@) + tags_from(s@, p as nat) =~= strings_view(out@));
    }
    out
}

} // verus!
