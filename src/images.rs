use vstd::prelude::*;

use crate::parsing::{exec_is_ws, is_ws};
use crate::render::HtmlRenderer;
use crate::text::{
    chars_of, contains, ends_with, exec_contains, exec_ends_with, find_at, find_from,
    lemma_find_from, match_at, exec_match_at, push_range, push_seq, string_of,
};

verus! {

pub open spec fn image_open() -> Seq<char> {
    seq!['!', '[']
}

pub open spec fn label_close() -> Seq<char> {
    seq![']', '(']
}

pub open spec fn paren_close() -> Seq<char> {
    seq![')']
}

pub open spec fn scheme_sep() -> Seq<char> {
    seq![':', '/', '/']
}

/// `url` as seen from a page under `prefix`: absolute URLs (holding `://`)
/// stay as they are; others get `prefix` and one `/` in front.
pub open spec fn prefixed_url(prefix: Seq<char>, url: Seq<char>) -> Seq<char> {
    if contains(url, scheme_sep()) {
        url
    } else if ends_with(prefix, seq!['/']) {
        prefix + url
    } else {
        prefix + seq!['/'] + url
    }
}

/// `s[p..]` with the target of every `![label](target)` rewritten by
/// `prefixed_url`.
pub open spec fn rewrite_md_from(prefix: Seq<char>, s: Seq<char>, p: nat) -> Seq<char>
    decreases s.len() + 1 - p,
{
    if p > s.len() {
        Seq::empty()
    } else {
        match find_from(s, image_open(), p) {
            None => s.subrange(p as int, s.len() as int),
            Some(a) => {
                let t = a + 2;
                if t <= p || t > s.len() {
                    Seq::empty()
                } else {
                    match find_from(s, label_close(), t) {
                        None => s.subrange(p as int, t as int) + rewrite_md_from(prefix, s, t),
                        Some(le) => match find_from(s, paren_close(), le + 2) {
                            None => s.subrange(p as int, t as int) + rewrite_md_from(prefix, s, t),
                            Some(ue) => if ue + 1 <= s.len() && p < ue + 1 {
                                s.subrange(p as int, (le + 2) as int) + prefixed_url(
                                    prefix,
                                    s.subrange((le + 2) as int, ue as int),
                                ) + seq![')'] + rewrite_md_from(prefix, s, ue + 1)
                            } else {
                                Seq::empty()
                            },
                        },
                    }
                }
            },
        }
    }
}

/// `s` with the target of every Markdown image rewritten by `prefixed_url`.
pub open spec fn rewrite_md_images(prefix: Seq<char>, s: Seq<char>) -> Seq<char> {
    rewrite_md_from(prefix, s, 0)
}

/// Appends `prefixed_url(prefix, url)` to `out`.
fn push_prefixed_url(out: &mut Vec<char>, prefix: &[char], url: &[char])
    ensures
        final(out)@ == old(out)@ + prefixed_url(prefix@, url@),
{
    let sep = chars_of("://");
    let slash = chars_of("/");
    proof {
        reveal_strlit("://");
        reveal_strlit("/");
        assert(sep@ =~= scheme_sep());
        assert(slash@ =~= seq!['/']);
    }
    let ghost start = out@;
    if exec_contains(url, sep.as_slice()) {
        push_seq(out, url);
    } else if exec_ends_with(prefix, slash.as_slice()) {
        push_seq(out, prefix);
        push_seq(out, url);
        assert(out@ =~= start + (prefix@ + url@));
    } else {
        push_seq(out, prefix);
        out.push('/');
        push_seq(out, url);
        assert(out@ =~= start + (prefix@ + seq!['/'] + url@));
    }
}

/// Rewrites the target of every Markdown image `![label](target)` so that a
/// relative target points under `post_name`; absolute URLs stay as they are.
pub fn change_images(post_name: &str, md_post: &str) -> (r: String)
    ensures
        r@ == rewrite_md_images(post_name@, md_post@),
{
    let s = chars_of(md_post);
    let prefix = chars_of(post_name);
    let open = chars_of("![");
    let mid = chars_of("](");
    let close = chars_of(")");
    proof {
        reveal_strlit("![");
        reveal_strlit("](");
        reveal_strlit(")");
        assert(open@ =~= image_open());
        assert(mid@ =~= label_close());
        assert(close@ =~= paren_close());
    }
    let n = s.len();
    let mut out: Vec<char> = Vec::new();
    let mut p: usize = 0;
    loop
        invariant
            n == s@.len(),
            p <= s@.len(),
            s@ == md_post@,
            prefix@ == post_name@,
            open@ == image_open(),
            mid@ == label_close(),
            close@ == paren_close(),
            rewrite_md_images(post_name@, md_post@) == out@ + rewrite_md_from(prefix@, s@, p as nat),
        decreases s@.len() + 1 - p,
    {
        proof {
            lemma_find_from(s@, image_open(), p as nat);
        }
        match find_at(s.as_slice(), open.as_slice(), p) {
            None => {
                push_range(&mut out, s.as_slice(), p, n);
                return string_of(out.as_slice());
            },
            Some(a) => {
                let t = a + 2;
                let ghost before = out@;
                proof {
                    lemma_find_from(s@, label_close(), t as nat);
                }
                match find_at(s.as_slice(), mid.as_slice(), t) {
                    None => {
                        push_range(&mut out, s.as_slice(), p, t);
                        proof {
                            assert(before + (s@.subrange(p as int, t as int) + rewrite_md_from(prefix@, s@, t as nat))
                                =~= out@ + rewrite_md_from(prefix@, s@, t as nat));
                        }
                        p = t;
                    },
                    Some(le) => {
                        proof {
                            lemma_find_from(s@, paren_close(), (le + 2) as nat);
                        }
                        match find_at(s.as_slice(), close.as_slice(), le + 2) {
                            None => {
                                push_range(&mut out, s.as_slice(), p, t);
                                proof {
                                    assert(before + (s@.subrange(p as int, t as int) + rewrite_md_from(prefix@, s@, t as nat))
                                        =~= out@ + rewrite_md_from(prefix@, s@, t as nat));
                                }
                                p = t;
                            },
                            Some(ue) => {
                                push_range(&mut out, s.as_slice(), p, le + 2);
                                let url = vstd::slice::slice_subrange(s.as_slice(), le + 2, ue);
                                push_prefixed_url(&mut out, prefix.as_slice(), url);
                                out.push(')');
                                proof {
                                    let u = prefixed_url(prefix@, s@.subrange(le + 2, ue as int));
                                    assert(out@ =~= before + s@.subrange(p as int, le + 2) + u + seq![')']);
                                    assert(before + (s@.subrange(p as int, le + 2) + u + seq![')'] + rewrite_md_from(prefix@, s@, (ue + 1) as nat))
                                        =~= out@ + rewrite_md_from(prefix@, s@, (ue + 1) as nat));
                                }
                                p = ue + 1;
                            },
                        }
                    },
                }
            },
        }
    }
}

pub open spec fn img_open() -> Seq<char> {
    seq!['<', 'i', 'm', 'g']
}

pub open spec fn src_open() -> Seq<char> {
    seq!['s', 'r', 'c', '=', '"']
}

/// The first index at or after `q` where a `src` attribute starts inside
/// the tag body ending at `e`: `src="` right after a whitespace character,
/// so that attributes such as `data-src` do not count.
pub open spec fn src_attr_from(s: Seq<char>, q: nat, e: nat) -> Option<nat>
    decreases e + 1 - q,
{
    if q + 5 > e {
        None
    } else if q > 0 && q <= s.len() && is_ws(s[q - 1]) && match_at(s, src_open(), q as int) {
        Some(q)
    } else {
        src_attr_from(s, q + 1, e)
    }
}

proof fn lemma_src_attr_from(s: Seq<char>, q: nat, e: nat)
    ensures
        src_attr_from(s, q, e) matches Some(k) ==> q <= k && k + 5 <= e && k > 0 && match_at(s, src_open(), k as int),
    decreases e + 1 - q,
{
    if q + 5 <= e && !(q > 0 && q <= s.len() && is_ws(s[q - 1]) && match_at(s, src_open(), q as int)) {
        lemma_src_attr_from(s, q + 1, e);
    }
}

/// Where the `src` attribute of a tag starts inside `s[lo..e]`.
fn exec_src_attr(s: &[char], src: &[char], lo: usize, e: usize) -> (r: Option<usize>)
    requires
        src@ == src_open(),
        e <= s@.len(),
    ensures
        match r {
            Some(k) => src_attr_from(s@, lo as nat, e as nat) == Some(k as nat),
            None => src_attr_from(s@, lo as nat, e as nat) is None,
        },
{
    let mut q = lo;
    while q <= e && e - q >= 5
        invariant
            lo <= q,
            e <= s@.len(),
            src@ == src_open(),
            src_attr_from(s@, lo as nat, e as nat) == src_attr_from(s@, q as nat, e as nat),
        decreases e + 1 - q,
    {
        if q > 0 && exec_is_ws(s[q - 1]) && exec_match_at(s, src, q) {
            return Some(q);
        }
        q = q + 1;
    }
    None
}

/// Within the tag body `s[lo..e]`, the first `src` attribute and the index
/// of the quote that closes its value, when that quote lies inside the tag.
pub open spec fn src_value(s: Seq<char>, lo: nat, e: nat) -> Option<(nat, nat)> {
    match src_attr_from(s, lo, e) {
        None => None,
        Some(q) => match find_from(s, seq!['"'], q + 5) {
            Some(v) => if v < e { Some((q, v)) } else { None },
            None => None,
        },
    }
}

/// `s[p..]` with the `src` value of every `<img ...>` tag rewritten by
/// `prefixed_url`. A tag runs from `<img` to the next `>`; its `src` is the
/// first attribute named exactly `src` (`src="` after whitespace), and it
/// is rewritten when its value closes before the `>`. Other attributes,
/// such as `data-src`, stay as they are.
pub open spec fn rewrite_html_from(prefix: Seq<char>, s: Seq<char>, p: nat) -> Seq<char>
    decreases s.len() + 1 - p,
{
    if p > s.len() {
        Seq::empty()
    } else {
        match find_from(s, img_open(), p) {
            None => s.subrange(p as int, s.len() as int),
            Some(a) => if a + 4 > s.len() || a < p {
                Seq::empty()
            } else {
                match find_from(s, seq!['>'], a + 4) {
                    None => s.subrange(p as int, s.len() as int),
                    Some(e) => if e >= s.len() {
                        Seq::empty()
                    } else {
                        match src_value(s, a + 4, e) {
                            None => s.subrange(p as int, (a + 1) as int) + rewrite_html_from(prefix, s, a + 1),
                            Some((q, v)) => if q + 5 <= v && p <= q {
                                s.subrange(p as int, (q + 5) as int) + prefixed_url(prefix, s.subrange((q + 5) as int, v as int))
                                    + s.subrange(v as int, (e + 1) as int) + rewrite_html_from(prefix, s, e + 1)
                            } else {
                                Seq::empty()
                            },
                        }
                    },
                }
            },
        }
    }
}

/// `html` with the `src` of every image tag rewritten by `prefixed_url`.
pub open spec fn rewrite_html_images(prefix: Seq<char>, html: Seq<char>) -> Seq<char> {
    rewrite_html_from(prefix, html, 0)
}

impl HtmlRenderer {
    /// Rewrites the `src` of every `<img ...>` tag so that a relative source
    /// points under `prefix`; absolute URLs stay as they are.
    pub fn change_images(prefix: &str, html: &str) -> (r: String)
        ensures
            r@ == rewrite_html_images(prefix@, html@),
    {
        let s = chars_of(html);
        let pre = chars_of(prefix);
        let img = chars_of("<img");
        let src = chars_of("src=\"");
        let quote = chars_of("\"");
        let gt = chars_of(">");
        proof {
            reveal_strlit("<img");
            reveal_strlit("src=\"");
            reveal_strlit("\"");
            reveal_strlit(">");
            assert(img@ =~= img_open());
            assert(src@ =~= src_open());
            assert(quote@ =~= seq!['"']);
            assert(gt@ =~= seq!['>']);
        }
        let n = s.len();
        let mut out: Vec<char> = Vec::new();
        let mut p: usize = 0;
        loop
            invariant
                n == s@.len(),
                p <= s@.len(),
                s@ == html@,
                pre@ == prefix@,
                img@ == img_open(),
                src@ == src_open(),
                quote@ == seq!['"'],
                gt@ == seq!['>'],
                rewrite_html_images(prefix@, html@) == out@ + rewrite_html_from(prefix@, s@, p as nat),
            decreases s@.len() + 1 - p,
        {
            proof {
                lemma_find_from(s@, img_open(), p as nat);
            }
            let a = match find_at(s.as_slice(), img.as_slice(), p) {
                None => {
                    push_range(&mut out, s.as_slice(), p, n);
                    return string_of(out.as_slice());
                },
                Some(a) => a,
            };
            proof {
                lemma_find_from(s@, seq!['>'], (a + 4) as nat);
            }
            let e = match find_at(s.as_slice(), gt.as_slice(), a + 4) {
                None => {
                    push_range(&mut out, s.as_slice(), p, n);
                    return string_of(out.as_slice());
                },
                Some(e) => e,
            };
            let ghost before = out@;
            proof {
                lemma_src_attr_from(s@, (a + 4) as nat, e as nat);
            }
            let found = match exec_src_attr(s.as_slice(), src.as_slice(), a + 4, e) {
                None => None,
                Some(q) => {
                    proof {
                        lemma_find_from(s@, seq!['"'], (q + 5) as nat);
                    }
                    match find_at(s.as_slice(), quote.as_slice(), q + 5) {
                        Some(v) => if v < e { Some((q, v)) } else { None },
                        None => None,
                    }
                },
            };
            match found {
                None => {
                    push_range(&mut out, s.as_slice(), p, a + 1);
                    proof {
                        assert(before + (s@.subrange(p as int, a + 1) + rewrite_html_from(prefix@, s@, (a + 1) as nat))
                            =~= out@ + rewrite_html_from(prefix@, s@, (a + 1) as nat));
                    }
                    p = a + 1;
                },
                Some((q, v)) => {
                    push_range(&mut out, s.as_slice(), p, q + 5);
                    let value = vstd::slice::slice_subrange(s.as_slice(), q + 5, v);
                    push_prefixed_url(&mut out, pre.as_slice(), value);
                    push_range(&mut out, s.as_slice(), v, e + 1);
                    proof {
                        let u = prefixed_url(prefix@, s@.subrange(q + 5, v as int));
                        assert(out@ =~= before + s@.subrange(p as int, q + 5) + u + s@.subrange(v as int, e + 1));
                        assert(before + (s@.subrange(p as int, q + 5) + u + s@.subrange(v as int, e + 1)
                            + rewrite_html_from(prefix@, s@, (e + 1) as nat))
                            =~= out@ + rewrite_html_from(prefix@, s@, (e + 1) as nat));
                    }
                    p = e + 1;
                },
            }
        }
    }
}

} // verus!
