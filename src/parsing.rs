use vstd::prelude::*;

use crate::content::{header_view, options_view, ContentHeader, MaxLineCount, PostId, RenderOptions};
use crate::date::{parse_date_spec, parse_date_time, DateTime};
use crate::error::ContentError;
use crate::header::{extract_tags, extract_texted_header, header_kv, tags_of};
use crate::text::{
    contains, exec_contains, starts_with, push_seq,
    chars_of, copy_range, same_chars, exec_match_at, exec_rfind_in, find_at, find_from, lemma_find_from,
    lemma_rfind_in, match_at, push_range, rfind_in, string_of,
};

verus! {

pub open spec fn comment_open() -> Seq<char> {
    seq!['<', '!', '-', '-']
}

pub open spec fn comment_close() -> Seq<char> {
    seq!['-', '-', '>']
}

/// `s[p..]` with every `<!--`...`-->` span removed, spans not nested; `None`
/// when a span is opened and never closed.
pub open spec fn strip_comments_from(s: Seq<char>, p: nat) -> Option<Seq<char>>
    decreases s.len() + 1 - p,
{
    if p > s.len() {
        None
    } else {
        match find_from(s, comment_open(), p) {
            None => Some(s.subrange(p as int, s.len() as int)),
            Some(i) => match find_from(s, comment_close(), i + 4) {
                None => None,
                Some(j) => if p < j + 3 && j + 3 <= s.len() {
                    match strip_comments_from(s, j + 3) {
                        None => None,
                        Some(r) => Some(s.subrange(p as int, i as int) + r),
                    }
                } else {
                    None
                },
            },
        }
    }
}

/// `s` with every comment span removed, or `None` for an unterminated one.
pub open spec fn strip_comments(s: Seq<char>) -> Option<Seq<char>> {
    strip_comments_from(s, 0)
}

/// Removes every `<!--`...`-->` span from the text; fails when a span is
/// never closed.
pub fn remove_comments(md_post: &str) -> (r: Result<String, ContentError>)
    ensures
        match strip_comments(md_post@) {
            Some(t) => r matches Ok(out) && out@ == t,
            None => r == Err::<String, ContentError>(ContentError::UnterminatedComment),
        },
{
    let s = chars_of(md_post);
    let open = chars_of("<!--");
    let close = chars_of("-->");
    proof {
        reveal_strlit("<!--");
        reveal_strlit("-->");
        assert(open@ =~= comment_open());
        assert(close@ =~= comment_close());
    }
    let n = s.len();
    let mut res: Vec<char> = Vec::new();
    let mut p: usize = 0;
    loop
        invariant
            n == s@.len(),
            p <= s@.len(),
            open@ == comment_open(),
            close@ == comment_close(),
            strip_comments(md_post@) == match strip_comments_from(s@, p as nat) {
                None => None,
                Some(t) => Some(res@ + t),
            },
            s@ == md_post@,
        decreases s@.len() + 1 - p,
    {
        proof {
            lemma_find_from(s@, comment_open(), p as nat);
        }
        match find_at(s.as_slice(), open.as_slice(), p) {
            None => {
                push_range(&mut res, s.as_slice(), p, s.len());
                proof {
                    assert(res@ + Seq::<char>::empty() =~= res@);
                }
                return Ok(string_of(res.as_slice()));
            },
            Some(i) => {
                proof {
                    assert(comment_open().len() == 4);
                    assert(comment_close().len() == 3);
                    assert(i + 4 <= s@.len());
                    lemma_find_from(s@, comment_close(), (i + 4) as nat);
                }
                match find_at(s.as_slice(), close.as_slice(), i + 4) {
                    None => {
                        return Err(ContentError::UnterminatedComment);
                    },
                    Some(j) => {
                        let ghost old_res = res@;
                        push_range(&mut res, s.as_slice(), p, i);
                        proof {
                            assert forall|t: Seq<char>| old_res + (s@.subrange(p as int, i as int) + t) == res@ + t by {
                                assert(old_res + (s@.subrange(p as int, i as int) + t) =~= res@ + t);
                            }
                        }
                        p = j + 3;
                    },
                }
            },
        }
    }
}

/// `line` without one trailing carriage return.
pub open spec fn strip_cr(line: Seq<char>) -> Seq<char> {
    if line.len() > 0 && line.last() == '\r' {
        line.drop_last()
    } else {
        line
    }
}

/// The lines of `s`, as `str::lines` yields them: split at `\n`, a `\r`
/// before that `\n` removed, no empty line after a final `\n`; a last line
/// without `\n` is kept as it is.
pub open spec fn lines_of(s: Seq<char>) -> Seq<Seq<char>>
    decreases s.len(),
{
    if s.len() == 0 {
        Seq::empty()
    } else {
        match find_from(s, seq!['\n'], 0) {
            None => seq![s],
            Some(i) => if i < s.len() {
                seq![strip_cr(s.subrange(0, i as int))] + lines_of(s.subrange((i + 1) as int, s.len() as int))
            } else {
                Seq::empty()
            },
        }
    }
}

/// The character sequences held by a list of lines.
pub open spec fn lines_view(lines: Seq<Vec<char>>) -> Seq<Seq<char>> {
    lines.map_values(|l: Vec<char>| l@)
}

fn exec_strip_cr(s: &[char], from: usize, to: usize) -> (r: Vec<char>)
    requires
        from <= to <= s@.len(),
    ensures
        r@ == strip_cr(s@.subrange(from as int, to as int)),
{
    if to > from && s[to - 1] == '\r' {
        let r = copy_range(s, from, to - 1);
        assert(r@ =~= s@.subrange(from as int, to as int).drop_last());
        r
    } else {
        copy_range(s, from, to)
    }
}

proof fn lemma_lines_of_suffix(s: Seq<char>, p: nat, i: nat)
    requires
        p <= i < s.len(),
        find_from(s, seq!['\n'], p) == Some(i),
    ensures
        find_from(s.subrange(p as int, s.len() as int), seq!['\n'], 0) == Some((i - p) as nat),
{
    lemma_find_from(s, seq!['\n'], p);
    let t = s.subrange(p as int, s.len() as int);
    lemma_find_from(t, seq!['\n'], 0);
    assert forall|k: int| 0 <= k implies (match_at(t, seq!['\n'], k) == match_at(s, seq!['\n'], k + p)) by {
        if 0 <= k && k + 1 <= t.len() {
            assert(t.subrange(k, k + 1) =~= s.subrange(k + p, k + p + 1));
        }
    }
    match find_from(t, seq!['\n'], 0) {
        Some(j) => {
            assert(match_at(s, seq!['\n'], (j + p) as int));
            assert(!match_at(t, seq!['\n'], (i - p) as int) || j <= i - p);
            assert(match_at(t, seq!['\n'], (i - p) as int));
        },
        None => {
            assert(match_at(t, seq!['\n'], (i - p) as int));
        },
    }
}

proof fn lemma_lines_of_no_newline(s: Seq<char>, p: nat)
    requires
        p < s.len(),
        find_from(s, seq!['\n'], p) is None,
    ensures
        find_from(s.subrange(p as int, s.len() as int), seq!['\n'], 0) is None,
{
    lemma_find_from(s, seq!['\n'], p);
    let t = s.subrange(p as int, s.len() as int);
    lemma_find_from(t, seq!['\n'], 0);
    match find_from(t, seq!['\n'], 0) {
        Some(j) => {
            assert(t.subrange(j as int, (j + 1) as int) =~= s.subrange((j + p) as int, (j + p + 1) as int));
            assert(match_at(s, seq!['\n'], (j + p) as int));
        },
        None => {},
    }
}

/// Splits text into lines, as `str::lines` does.
pub fn split_lines(text: &str) -> (r: Vec<Vec<char>>)
    ensures
        lines_view(r@) == lines_of(text@),
{
    let s = chars_of(text);
    let nl = chars_of("\n");
    proof {
        reveal_strlit("\n");
        assert(nl@ =~= seq!['\n']);
    }
    let n = s.len();
    let mut out: Vec<Vec<char>> = Vec::new();
    let mut p: usize = 0;
    proof {
        assert(s@.subrange(0, n as int) =~= s@);
        assert(lines_view(out@) =~= Seq::<Seq<char>>::empty());
        assert(lines_view(out@) + lines_of(text@) =~= lines_of(text@));
    }
    while p < n
        invariant
            n == s@.len(),
            p <= n,
            s@ == text@,
            nl@ == seq!['\n'],
            lines_of(text@) == lines_view(out@) + lines_of(s@.subrange(p as int, n as int)),
        decreases n - p,
    {
        proof {
            lemma_find_from(s@, seq!['\n'], p as nat);
        }
        let ghost t = s@.subrange(p as int, n as int);
        match find_at(s.as_slice(), nl.as_slice(), p) {
            None => {
                let line = copy_range(s.as_slice(), p, n);
                proof {
                    lemma_lines_of_no_newline(s@, p as nat);
                    assert(lines_of(t) == seq![t]);
                }
                let ghost before = out@;
                out.push(line);
                proof {
                    assert(lines_view(out@) =~= lines_view(before) + seq![line@]);
                    assert(lines_view(before) + seq![line@] + Seq::<Seq<char>>::empty()
                        =~= lines_view(before) + seq![line@]);
                }
                p = n;
            },
            Some(i) => {
                let line = exec_strip_cr(s.as_slice(), p, i);
                proof {
                    lemma_lines_of_suffix(s@, p as nat, i as nat);
                    assert(t.subrange(0, (i - p) as int) =~= s@.subrange(p as int, i as int));
                    assert(t.subrange((i - p + 1) as int, t.len() as int) =~= s@.subrange(i + 1, n as int));
                }
                let ghost before = out@;
                out.push(line);
                proof {
                    assert(lines_view(out@) =~= lines_view(before) + seq![line@]);
                    assert(lines_of(t) == seq![line@] + lines_of(s@.subrange(i + 1, n as int)));
                    assert(lines_view(before) + (seq![line@] + lines_of(s@.subrange(i + 1, n as int)))
                        =~= lines_view(out@) + lines_of(s@.subrange(i + 1, n as int)));
                }
                p = i + 1;
            },
        }
    }
    proof {
        assert(s@.subrange(n as int, n as int).len() == 0);
        assert(lines_view(out@) + Seq::<Seq<char>>::empty() =~= lines_view(out@));
    }
    out
}

/// A whitespace character, as `char::is_whitespace` defines it.
pub open spec fn is_ws(c: char) -> bool {
    ('\u{9}' <= c && c <= '\u{d}') || c == ' ' || c == '\u{85}' || c == '\u{a0}' || c == '\u{1680}'
        || ('\u{2000}' <= c && c <= '\u{200a}') || c == '\u{2028}' || c == '\u{2029}'
        || c == '\u{202f}' || c == '\u{205f}' || c == '\u{3000}'
}

pub(crate) fn exec_is_ws(c: char) -> (r: bool)
    ensures
        r == is_ws(c),
{
    ('\u{9}' <= c && c <= '\u{d}') || c == ' ' || c == '\u{85}' || c == '\u{a0}' || c == '\u{1680}'
        || ('\u{2000}' <= c && c <= '\u{200a}') || c == '\u{2028}' || c == '\u{2029}'
        || c == '\u{202f}' || c == '\u{205f}' || c == '\u{3000}'
}

/// First index at or after `i` that holds no whitespace (or the length).
pub open spec fn trim_start_at(s: Seq<char>, i: nat) -> nat
    decreases s.len() - i,
{
    if i < s.len() && is_ws(s[i as int]) {
        trim_start_at(s, i + 1)
    } else {
        i
    }
}

/// One past the last index below `j`, and not below `lo`, that holds no
/// whitespace (or `lo`).
pub open spec fn trim_end_at(s: Seq<char>, j: nat, lo: nat) -> nat
    decreases j,
{
    if j > lo && j <= s.len() && is_ws(s[j - 1]) {
        trim_end_at(s, (j - 1) as nat, lo)
    } else {
        j
    }
}

/// `s` without leading and trailing whitespace, as `str::trim` gives it.
pub open spec fn trim(s: Seq<char>) -> Seq<char> {
    let a = trim_start_at(s, 0);
    s.subrange(a as int, trim_end_at(s, s.len(), a) as int)
}

proof fn lemma_trim_bounds(s: Seq<char>, i: nat, j: nat, lo: nat)
    requires
        i <= s.len(),
        lo <= j <= s.len(),
    ensures
        i <= trim_start_at(s, i) <= s.len(),
        lo <= trim_end_at(s, j, lo) <= j,
    decreases s.len() - i + j,
{
    if i < s.len() && is_ws(s[i as int]) {
        lemma_trim_bounds(s, i + 1, j, lo);
    }
    if j > lo && is_ws(s[j - 1]) {
        lemma_trim_bounds(s, i, (j - 1) as nat, lo);
    }
}

/// The bounds of `s` without leading and trailing whitespace.
fn trim_bounds(s: &[char]) -> (r: (usize, usize))
    ensures
        r.0 == trim_start_at(s@, 0),
        r.1 == trim_end_at(s@, s@.len(), r.0 as nat),
        r.0 <= r.1 <= s@.len(),
{
    let mut a: usize = 0;
    while a < s.len() && exec_is_ws(s[a])
        invariant
            a <= s@.len(),
            trim_start_at(s@, 0) == trim_start_at(s@, a as nat),
        decreases s@.len() - a,
    {
        a = a + 1;
    }
    let mut b: usize = s.len();
    while b > a && exec_is_ws(s[b - 1])
        invariant
            a <= b <= s@.len(),
            trim_end_at(s@, s@.len(), a as nat) == trim_end_at(s@, b as nat, a as nat),
        decreases b,
    {
        b = b - 1;
    }
    (a, b)
}

/// Whether `s` trimmed is exactly `pat`.
fn trimmed_is(s: &[char], pat: &[char]) -> (r: bool)
    ensures
        r == (trim(s@) == pat@),
{
    let (a, b) = trim_bounds(s);
    if b - a == pat.len() && exec_match_at(s, pat, a) {
        assert(trim(s@) =~= s@.subrange(a as int, a + pat@.len()));
        true
    } else {
        proof {
            if trim(s@) == pat@ {
                assert(s@.subrange(a as int, a + pat@.len()) =~= trim(s@));
            }
        }
        false
    }
}

/// Whether `s` is empty once trimmed.
pub open spec fn is_blank(s: Seq<char>) -> bool {
    trim(s).len() == 0
}

fn line_is_blank(s: &[char]) -> (r: bool)
    ensures
        r == is_blank(s@),
{
    let (a, b) = trim_bounds(s);
    a == b
}

/// Index of the first line at or after `k` that is not blank.
pub open spec fn skip_blank(lines: Seq<Seq<char>>, k: nat) -> nat
    decreases lines.len() - k,
{
    if k < lines.len() && is_blank(lines[k as int]) {
        skip_blank(lines, k + 1)
    } else {
        k
    }
}

/// The four header values, in the order id, date, author, tags.
pub open spec fn set_field(
    f: (Seq<char>, Seq<char>, Seq<char>, Seq<char>),
    key: Seq<char>,
    val: Seq<char>,
) -> (Seq<char>, Seq<char>, Seq<char>, Seq<char>) {
    if key == seq!['I', 'D'] {
        (val, f.1, f.2, f.3)
    } else if key == seq!['D', 'A', 'T', 'E'] {
        (f.0, val, f.2, f.3)
    } else if key == seq!['A', 'U', 'T', 'H', 'O', 'R'] {
        (f.0, f.1, val, f.3)
    } else if key == seq!['T', 'A', 'G', 'S'] {
        (f.0, f.1, f.2, val)
    } else {
        f
    }
}

/// The key/value phase: from line `k`, empty lines are skipped and each
/// header line sets its field; the first other line (or the end) stops it.
pub open spec fn scan_fields(
    lines: Seq<Seq<char>>,
    k: nat,
    f: (Seq<char>, Seq<char>, Seq<char>, Seq<char>),
) -> (nat, (Seq<char>, Seq<char>, Seq<char>, Seq<char>))
    decreases lines.len() - k,
{
    if k >= lines.len() {
        (k, f)
    } else if lines[k as int].len() == 0 {
        scan_fields(lines, k + 1, f)
    } else {
        match header_kv(lines[k as int]) {
            None => (k, f),
            Some((key, val)) => scan_fields(lines, k + 1, set_field(f, key, val)),
        }
    }
}

/// Index of the first line at or after `k` that trims to `-->`.
pub open spec fn find_comment_end(lines: Seq<Seq<char>>, k: nat) -> Option<nat>
    decreases lines.len() - k,
{
    if k >= lines.len() {
        None
    } else if trim(lines[k as int]) == comment_close() {
        Some(k)
    } else {
        find_comment_end(lines, k + 1)
    }
}

/// Why a header could not be read.
pub enum HeaderFailure {
    MissingTerminator,
    Empty,
    BadDate,
}

/// The header at the top of `lines`: its id, date, author and tags, and the
/// index of the line where reading stopped; or why there is none.
pub open spec fn parse_header_spec(lines: Seq<Seq<char>>) -> Result<
    (Seq<char>, DateTime, Seq<char>, Seq<Seq<char>>, nat),
    HeaderFailure,
> {
    let k1 = skip_blank(lines, 0);
    let commented = k1 < lines.len() && trim(lines[k1 as int]) == comment_open();
    let start = if commented { k1 + 1 } else { k1 };
    let (k2, f) = scan_fields(lines, start, (Seq::empty(), Seq::empty(), Seq::empty(), Seq::empty()));
    let end = if commented { find_comment_end(lines, k2) } else { Some(k2) };
    match end {
        None => Err(HeaderFailure::MissingTerminator),
        Some(k3) => if f.0.len() == 0 && f.1.len() == 0 && f.2.len() == 0 && f.3.len() == 0 {
            Err(HeaderFailure::Empty)
        } else {
            match parse_date_spec(f.1) {
                None => Err(HeaderFailure::BadDate),
                Some(d) => Ok((f.0, d, f.2, tags_of(f.3), k3)),
            }
        },
    }
}

/// Reads the header at the top of `lines`: optional blank lines and an
/// optional `<!--` line, then `[KEY]: # (value)` lines for `ID`, `DATE`,
/// `AUTHOR` and `TAGS` (others ignored, empty lines skipped), then, if the
/// header opened a comment, lines up to the one holding `-->`. Returns the
/// header and the index of the line where reading stopped.
pub fn parse_texted_header(file_name: &str, lines: &Vec<Vec<char>>) -> (r: Result<(ContentHeader, usize), ContentError>)
    ensures
        match parse_header_spec(lines_view(lines@)) {
            Ok((id, date, author, tags, k)) => r matches Ok((h, c))
                && header_view(h) == (file_name@, id, date, author, tags) && c == k,
            Err(HeaderFailure::MissingTerminator) => r matches Err(ContentError::MissingCommentTerminator(p))
                && p@ == file_name@,
            Err(HeaderFailure::Empty) => r matches Err(ContentError::InvalidHeader),
            Err(HeaderFailure::BadDate) => r matches Err(ContentError::InvalidDate(p)) && p@ == file_name@,
        },
{
    let ghost lv = lines_view(lines@);
    let n = lines.len();
    let open = chars_of("<!--");
    let close = chars_of("-->");
    let k_id = chars_of("ID");
    let k_date = chars_of("DATE");
    let k_author = chars_of("AUTHOR");
    let k_tags = chars_of("TAGS");
    proof {
        reveal_strlit("<!--");
        reveal_strlit("-->");
        reveal_strlit("ID");
        reveal_strlit("DATE");
        reveal_strlit("AUTHOR");
        reveal_strlit("TAGS");
        assert(open@ =~= comment_open());
        assert(close@ =~= comment_close());
        assert(k_id@ =~= seq!['I', 'D']);
        assert(k_date@ =~= seq!['D', 'A', 'T', 'E']);
        assert(k_author@ =~= seq!['A', 'U', 'T', 'H', 'O', 'R']);
        assert(k_tags@ =~= seq!['T', 'A', 'G', 'S']);
    }
    // Leading blank lines, then an optional comment opening.
    let mut k: usize = 0;
    while k < n && line_is_blank(lines[k].as_slice())
        invariant
            n == lines@.len(),
            k <= n,
            lv == lines_view(lines@),
            skip_blank(lv, 0) == skip_blank(lv, k as nat),
        decreases n - k,
    {
        k = k + 1;
    }
    let commented = k < n && trimmed_is(lines[k].as_slice(), open.as_slice());
    if commented {
        k = k + 1;
    }
    let ghost start = k as nat;
    // Key/value lines.
    let mut id: Vec<char> = Vec::new();
    let mut date: Vec<char> = Vec::new();
    let mut author: Vec<char> = Vec::new();
    let mut tags: Vec<char> = Vec::new();
    let mut done = false;
    proof {
        assert(id@ =~= Seq::<char>::empty());
    }
    while k < n && !done
        invariant
            n == lines@.len(),
            k <= n,
            lv == lines_view(lines@),
            k_id@ == seq!['I', 'D'],
            k_date@ == seq!['D', 'A', 'T', 'E'],
            k_author@ == seq!['A', 'U', 'T', 'H', 'O', 'R'],
            k_tags@ == seq!['T', 'A', 'G', 'S'],
            scan_fields(lv, start, (Seq::empty(), Seq::empty(), Seq::empty(), Seq::empty()))
                == scan_fields(lv, k as nat, (id@, date@, author@, tags@)),
            done ==> scan_fields(lv, k as nat, (id@, date@, author@, tags@)) == (k as nat, (id@, date@, author@, tags@)),
        decreases (n - k) * 2 + (if done { 0int } else { 1int }),
    {
        let line = lines[k].as_slice();
        if line.len() == 0 {
            k = k + 1;
        } else {
            match extract_texted_header(line) {
                None => {
                    done = true;
                },
                Some((key, val)) => {
                    if same_chars(key.as_slice(), k_id.as_slice()) {
                        id = val;
                    } else if same_chars(key.as_slice(), k_date.as_slice()) {
                        date = val;
                    } else if same_chars(key.as_slice(), k_author.as_slice()) {
                        author = val;
                    } else if same_chars(key.as_slice(), k_tags.as_slice()) {
                        tags = val;
                    }
                    k = k + 1;
                },
            }
        }
    }
    // The end of the comment the header opened.
    if commented {
        while k < n && !trimmed_is(lines[k].as_slice(), close.as_slice())
            invariant
                n == lines@.len(),
                k <= n,
                lv == lines_view(lines@),
                close@ == comment_close(),
                find_comment_end(lv, scan_fields(lv, start, (Seq::empty(), Seq::empty(), Seq::empty(), Seq::empty())).0)
                    == find_comment_end(lv, k as nat),
            decreases n - k,
        {
            k = k + 1;
        }
        if k == n {
            return Err(ContentError::MissingCommentTerminator(file_name.to_owned()));
        }
    }
    if id.len() == 0 && date.len() == 0 && author.len() == 0 && tags.len() == 0 {
        return Err(ContentError::InvalidHeader);
    }
    let date_str = string_of(date.as_slice());
    let dt = match parse_date_time(date_str.as_str()) {
        Ok(d) => d,
        Err(_) => {
            return Err(ContentError::InvalidDate(file_name.to_owned()));
        },
    };
    let tags_str = string_of(tags.as_slice());
    let tag_list = extract_tags(tags_str.as_str());
    let header = ContentHeader {
        file_name: file_name.to_owned(),
        id: PostId(string_of(id.as_slice())),
        date: dt,
        author: string_of(author.as_slice()),
        tags: tag_list,
    };
    Ok((header, k))
}

/// The title of Markdown content: from line `k` on, the first line that
/// starts with `# `, without that marker; and the index of the line after
/// it. Without such a line the title is empty and every line is used up.
pub open spec fn title_markdown_spec(lines: Seq<Seq<char>>, k: nat) -> (Seq<char>, nat)
    decreases lines.len() - k,
{
    if k >= lines.len() {
        (Seq::empty(), lines.len())
    } else if starts_with(lines[k as int], seq!['#', ' ']) {
        (lines[k as int].subrange(2, lines[k as int].len() as int), k + 1)
    } else {
        title_markdown_spec(lines, k + 1)
    }
}

/// Finds the Markdown title from line `cursor` on; see `title_markdown_spec`.
pub fn parse_title_markdown(lines: &Vec<Vec<char>>, cursor: usize) -> (r: (String, usize))
    ensures
        (r.0@, r.1 as nat) == title_markdown_spec(lines_view(lines@), cursor as nat),
{
    let ghost lv = lines_view(lines@);
    let marker = chars_of("# ");
    proof {
        reveal_strlit("# ");
        assert(marker@ =~= seq!['#', ' ']);
    }
    let n = lines.len();
    let mut k = cursor;
    while k < n
        invariant
            n == lines@.len(),
            lv == lines_view(lines@),
            marker@ == seq!['#', ' '],
            title_markdown_spec(lv, cursor as nat) == title_markdown_spec(lv, k as nat),
        decreases n - k,
    {
        let line = lines[k].as_slice();
        if crate::text::exec_match_at(line, marker.as_slice(), 0) {
            let t = copy_range(line, 2, line.len());
            return (string_of(t.as_slice()), k + 1);
        }
        k = k + 1;
    }
    (string_of(Vec::new().as_slice()), n)
}

pub open spec fn nat_opt(o: Option<usize>) -> Option<nat> {
    match o {
        Some(v) => Some(v as nat),
        None => None,
    }
}

pub open spec fn min_opt(a: Option<nat>, b: Option<nat>) -> Option<nat> {
    match (a, b) {
        (Some(x), Some(y)) => Some(if x <= y { x } else { y }),
        (Some(x), None) => Some(x),
        (None, y) => y,
    }
}

pub open spec fn max_opt(a: Option<nat>, b: Option<nat>) -> Option<nat> {
    match (a, b) {
        (Some(x), Some(y)) => Some(if x >= y { x } else { y }),
        (Some(x), None) => Some(x),
        (None, y) => y,
    }
}

/// The title held by an HTML line: the text between the first `<h1>` or
/// `<h2>` and the last `</h1>` or `</h2>` after it, when not empty.
pub open spec fn title_in_html_line(line: Seq<char>) -> Option<Seq<char>> {
    let open = min_opt(
        find_from(line, seq!['<', 'h', '1', '>'], 0),
        find_from(line, seq!['<', 'h', '2', '>'], 0),
    );
    let close = max_opt(
        rfind_in(line, seq!['<', '/', 'h', '1', '>'], 0, line.len()),
        rfind_in(line, seq!['<', '/', 'h', '2', '>'], 0, line.len()),
    );
    match (open, close) {
        (Some(i), Some(c)) => if c >= i + 5 {
            Some(line.subrange((i + 4) as int, c as int))
        } else {
            None
        },
        _ => None,
    }
}

/// The title of HTML content: from line `k` on, the first line that holds
/// one; and the index of the line after it. Without such a line the title is
/// empty and every line is used up.
pub open spec fn title_html_spec(lines: Seq<Seq<char>>, k: nat) -> (Seq<char>, nat)
    decreases lines.len() - k,
{
    if k >= lines.len() {
        (Seq::empty(), lines.len())
    } else {
        match title_in_html_line(lines[k as int]) {
            Some(t) => (t, k + 1),
            None => title_html_spec(lines, k + 1),
        }
    }
}

fn exec_min_opt(a: Option<usize>, b: Option<usize>) -> (r: Option<usize>)
    ensures
        r matches Some(x) ==> min_opt(nat_opt(a), nat_opt(b)) == Some(x as nat),
        r is None ==> min_opt(nat_opt(a), nat_opt(b)) is None,
{
    match (a, b) {
        (Some(x), Some(y)) => Some(if x <= y { x } else { y }),
        (Some(x), None) => Some(x),
        (None, y) => y,
    }
}

fn exec_max_opt(a: Option<usize>, b: Option<usize>) -> (r: Option<usize>)
    ensures
        r matches Some(x) ==> max_opt(nat_opt(a), nat_opt(b)) == Some(x as nat),
        r is None ==> max_opt(nat_opt(a), nat_opt(b)) is None,
{
    match (a, b) {
        (Some(x), Some(y)) => Some(if x >= y { x } else { y }),
        (Some(x), None) => Some(x),
        (None, y) => y,
    }
}

fn html_line_title(line: &[char], h1: &[char], h2: &[char], c1: &[char], c2: &[char]) -> (r: Option<Vec<char>>)
    requires
        h1@ == seq!['<', 'h', '1', '>'],
        h2@ == seq!['<', 'h', '2', '>'],
        c1@ == seq!['<', '/', 'h', '1', '>'],
        c2@ == seq!['<', '/', 'h', '2', '>'],
    ensures
        match r {
            Some(t) => title_in_html_line(line@) == Some(t@),
            None => title_in_html_line(line@) is None,
        },
{
    let f1 = find_at(line, h1, 0);
    let f2 = find_at(line, h2, 0);
    let l1 = exec_rfind_in(line, c1, 0, line.len());
    let l2 = exec_rfind_in(line, c2, 0, line.len());
    proof {
        lemma_find_from(line@, h1@, 0);
        lemma_find_from(line@, h2@, 0);
        lemma_rfind_in(line@, c1@, 0, line@.len());
        lemma_rfind_in(line@, c2@, 0, line@.len());
        assert(nat_opt(f1) == find_from(line@, h1@, 0));
        assert(nat_opt(f2) == find_from(line@, h2@, 0));
        assert(nat_opt(l1) == rfind_in(line@, c1@, 0, line@.len()));
        assert(nat_opt(l2) == rfind_in(line@, c2@, 0, line@.len()));
    }
    let open = exec_min_opt(f1, f2);
    let close = exec_max_opt(l1, l2);
    match (open, close) {
        (Some(i), Some(c)) => {
            if c >= 5 && c - 5 >= i {
                Some(copy_range(line, i + 4, c))
            } else {
                None
            }
        },
        _ => None,
    }
}

/// Finds the HTML title from line `cursor` on; see `title_html_spec`.
pub fn parse_title_html(lines: &Vec<Vec<char>>, cursor: usize) -> (r: (String, usize))
    ensures
        (r.0@, r.1 as nat) == title_html_spec(lines_view(lines@), cursor as nat),
{
    let ghost lv = lines_view(lines@);
    let h1 = chars_of("<h1>");
    let h2 = chars_of("<h2>");
    let c1 = chars_of("</h1>");
    let c2 = chars_of("</h2>");
    proof {
        reveal_strlit("<h1>");
        reveal_strlit("<h2>");
        reveal_strlit("</h1>");
        reveal_strlit("</h2>");
        assert(h1@ =~= seq!['<', 'h', '1', '>']);
        assert(h2@ =~= seq!['<', 'h', '2', '>']);
        assert(c1@ =~= seq!['<', '/', 'h', '1', '>']);
        assert(c2@ =~= seq!['<', '/', 'h', '2', '>']);
    }
    let n = lines.len();
    let mut k = cursor;
    while k < n
        invariant
            n == lines@.len(),
            lv == lines_view(lines@),
            h1@ == seq!['<', 'h', '1', '>'],
            h2@ == seq!['<', 'h', '2', '>'],
            c1@ == seq!['<', '/', 'h', '1', '>'],
            c2@ == seq!['<', '/', 'h', '2', '>'],
            title_html_spec(lv, cursor as nat) == title_html_spec(lv, k as nat),
        decreases n - k,
    {
        let line = lines[k].as_slice();
        if let Some(t) = html_line_title(line, h1.as_slice(), h2.as_slice(), c1.as_slice(), c2.as_slice()) {
            return (string_of(t.as_slice()), k + 1);
        }
        k = k + 1;
    }
    (string_of(Vec::new().as_slice()), n)
}

/// Lines `k` to `stop`, each followed by a newline.
pub open spec fn join_lines(lines: Seq<Seq<char>>, k: nat, stop: nat) -> Seq<char>
    decreases stop - k,
{
    if k >= stop || k >= lines.len() {
        Seq::empty()
    } else {
        lines[k as int] + seq!['\n'] + join_lines(lines, k + 1, stop)
    }
}

/// Index of the first line at or after `k` that holds `tag` (or the number
/// of lines).
pub open spec fn first_break(lines: Seq<Seq<char>>, k: nat, tag: Seq<char>) -> nat
    decreases lines.len() - k,
{
    if k >= lines.len() {
        lines.len()
    } else if contains(lines[k as int], tag) {
        k
    } else {
        first_break(lines, k + 1, tag)
    }
}

proof fn lemma_first_break_bounds(lines: Seq<Seq<char>>, k: nat, tag: Seq<char>)
    ensures
        k <= lines.len() ==> k <= first_break(lines, k, tag),
        first_break(lines, k, tag) <= lines.len(),
    decreases lines.len() - k,
{
    if k < lines.len() && !contains(lines[k as int], tag) {
        lemma_first_break_bounds(lines, k + 1, tag);
    }
}

/// Where the body that starts at line `k` ends: the end of the lines for
/// full content; for a preview, the first line holding the break tag or the
/// line limit, whichever comes first.
pub open spec fn body_end(lines: Seq<Seq<char>>, k: nat, opts: Option<(Option<int>, Seq<char>, Seq<char>)>) -> nat {
    match opts {
        None => lines.len(),
        Some((max, tag, _prefix)) => {
            let b = first_break(lines, k, tag);
            match max {
                None => b,
                Some(m) => if m <= 0 {
                    k
                } else if k + m < b {
                    (k + m) as nat
                } else {
                    b
                },
            }
        },
    }
}

/// The body from line `k` on, as `extract_content` gives it.
pub open spec fn body_spec(lines: Seq<Seq<char>>, k: nat, opts: Option<(Option<int>, Seq<char>, Seq<char>)>) -> Seq<char> {
    join_lines(lines, k, body_end(lines, k, opts))
}

/// A preview of a body whose fifth line is the first to hold the break tag
/// is its first four lines, each followed by a newline.
pub proof fn lemma_preview_before_fifth_line(lines: Seq<Seq<char>>, tag: Seq<char>, prefix: Seq<char>)
    requires
        lines.len() >= 5,
        contains(lines[4], tag),
        forall|i: int| 0 <= i < 4 ==> !contains(#[trigger] lines[i], tag),
    ensures
        body_spec(lines, 0, Some((None, tag, prefix)))
            == lines[0] + seq!['\n'] + lines[1] + seq!['\n'] + lines[2] + seq!['\n'] + lines[3] + seq!['\n'],
{
    assert(!contains(lines[0], tag));
    assert(!contains(lines[1], tag));
    assert(!contains(lines[2], tag));
    assert(!contains(lines[3], tag));
    assert(first_break(lines, 4, tag) == 4);
    assert(first_break(lines, 3, tag) == 4);
    assert(first_break(lines, 2, tag) == 4);
    assert(first_break(lines, 1, tag) == 4);
    assert(first_break(lines, 0, tag) == 4);
    assert(join_lines(lines, 4, 4) == Seq::<char>::empty());
    assert(join_lines(lines, 3, 4) =~= lines[3] + seq!['\n']);
    assert(join_lines(lines, 2, 4) == lines[2] + seq!['\n'] + join_lines(lines, 3, 4));
    assert(join_lines(lines, 1, 4) == lines[1] + seq!['\n'] + join_lines(lines, 2, 4));
    assert(join_lines(lines, 0, 4) == lines[0] + seq!['\n'] + join_lines(lines, 1, 4));
    assert(join_lines(lines, 0, 4) =~= lines[0] + seq!['\n'] + lines[1] + seq!['\n'] + lines[2] + seq!['\n']
        + lines[3] + seq!['\n']);
}

/// The body from line `cursor` on, each line followed by a newline: all of
/// it, or for a preview the lines before the first one that holds the break
/// tag and at most the line limit.
pub fn extract_content(lines: &Vec<Vec<char>>, cursor: usize, render_options: &RenderOptions) -> (r: String)
    ensures
        r@ == body_spec(lines_view(lines@), cursor as nat, options_view(*render_options)),
{
    let ghost lv = lines_view(lines@);
    let n = lines.len();
    let (tag, limit): (Option<Vec<char>>, Option<i32>) = match render_options {
        RenderOptions::FullContent => (None, None),
        RenderOptions::PreviewOnly(p, _) => (
            Some(chars_of(p.tag_based.0.as_str())),
            match p.max_line_count {
                Some(MaxLineCount(m)) => Some(m),
                None => None,
            },
        ),
    };
    let ghost stop = body_end(lv, cursor as nat, options_view(*render_options));
    let mut out: Vec<char> = Vec::new();
    let mut k = cursor;
    proof {
        assert(out@ + join_lines(lv, cursor as nat, stop) =~= join_lines(lv, cursor as nat, stop));
        if let Some((_, t, _)) = options_view(*render_options) {
            lemma_first_break_bounds(lv, cursor as nat, t);
        }
    }
    let mut done = false;
    while k < n && !done
        invariant
            n == lines@.len(),
            lv == lines_view(lines@),
            cursor <= k,
            stop == body_end(lv, cursor as nat, options_view(*render_options)),
            join_lines(lv, cursor as nat, stop) == out@ + join_lines(lv, k as nat, stop),
            match options_view(*render_options) {
                Some((max, t, _)) => {
                    &&& tag matches Some(tv) && tv@ == t
                    &&& (max matches Some(m) ==> limit == Some(m as i32) && m == m as i32)
                    &&& (max is None ==> limit is None)
                    &&& first_break(lv, cursor as nat, t) == first_break(lv, k as nat, t)
                    &&& (k <= n ==> k <= first_break(lv, k as nat, t))
                    &&& first_break(lv, k as nat, t) <= n
                },
                None => tag is None && limit is None && stop == n,
            },
            k <= stop || k >= n,
            done ==> k >= stop,
        decreases (n - k) * 2 + (if done { 0int } else { 1int }),
    {
        let mut at_limit = false;
        if let Some(m) = limit {
            if m <= 0 || k - cursor >= m as usize {
                at_limit = true;
            }
        }
        let line = lines[k].as_slice();
        let mut at_break = false;
        if let Some(t) = &tag {
            if exec_contains(line, t.as_slice()) {
                at_break = true;
            }
        }
        if at_limit || at_break {
            proof {
                if let Some((max, t, _)) = options_view(*render_options) {
                    lemma_first_break_bounds(lv, k as nat, t);
                    assert(lv[k as int] == line@);
                    if at_break {
                        assert(contains(lv[k as int], t));
                        assert(first_break(lv, k as nat, t) == k);
                    }
                    let b = first_break(lv, cursor as nat, t);
                    assert(b >= k);
                    if at_limit {
                        assert(max matches Some(m) && (m <= 0 || k - cursor >= m));
                        if let Some(m) = max {
                            if m <= 0 {
                                assert(stop == cursor);
                            } else if cursor + m < b {
                                assert(stop == cursor + m);
                            } else {
                                assert(stop == b);
                            }
                        }
                    } else {
                        assert(at_break);
                        assert(b == k);
                        assert(stop <= b);
                    }
                }
            }
            done = true;
        } else {
        proof {
            if let Some((_, t, _)) = options_view(*render_options) {
                lemma_first_break_bounds(lv, (k + 1) as nat, t);
            }
            assert(k < stop);
            assert(join_lines(lv, k as nat, stop) == lv[k as int] + seq!['\n'] + join_lines(lv, (k + 1) as nat, stop));
        }
        let ghost before = out@;
        push_seq(&mut out, line);
        out.push('\n');
        proof {
            assert(before + (lv[k as int] + seq!['\n'] + join_lines(lv, (k + 1) as nat, stop))
                =~= out@ + join_lines(lv, (k + 1) as nat, stop));
        }
        k = k + 1;
        }
    }
    proof {
        assert(k >= stop || k >= n);
        assert(join_lines(lv, k as nat, stop) == Seq::<char>::empty());
        assert(out@ + Seq::<char>::empty() =~= out@);
    }
    string_of(out.as_slice())
}

} // verus!
