use vstd::prelude::*;

use std::sync::Arc;

use crate::cache::share;
use crate::date::DateTime;
use crate::header::strings_view;
use crate::content::{options_view, Content, ContentFile, ContentFormat, ImagePrefix, PreviewOptions, RenderOptions};
use crate::error::ContentError;
use crate::render::{html_render_spec, render_matches, texted_render_spec, HtmlRenderer, TextedRenderer};
use crate::text::{chars_of, ends_with, exec_ends_with, push_seq, string_of};

verus! {

/// What rendering a file gives, by the renderer its format selects.
pub open spec fn render_content_spec(file: &ContentFile, opts: RenderOptions) -> Result<
    ((Seq<char>, Seq<char>, crate::date::DateTime, Seq<char>, Seq<Seq<char>>), Seq<char>, Seq<char>),
    crate::render::RenderFailure,
> {
    match file.format {
        ContentFormat::Texted => texted_render_spec(file.format, file.raw_content@, file.file_path@, options_view(opts)),
        ContentFormat::Html => html_render_spec(file.format, file.raw_content@, file.file_path@, options_view(opts)),
    }
}

/// Renders a file with the renderer its format selects.
pub fn render_content(file: &ContentFile, render_options: RenderOptions) -> (r: Result<Content, ContentError>)
    ensures
        render_matches(r, file, render_content_spec(file, render_options)),
{
    match file.format {
        ContentFormat::Texted => TextedRenderer::render(file, render_options),
        ContentFormat::Html => HtmlRenderer::render(file, render_options),
    }
}

/// The render options for the preview of the post at `link`: its images are
/// looked up under `/view/<link>`.
pub fn preview_render_options(preview: &PreviewOptions, link: &str) -> (r: RenderOptions)
    ensures
        r matches RenderOptions::PreviewOnly(p, ImagePrefix(prefix)) && p == *preview
            && prefix@ == "/view/"@ + link@,
{
    let mut prefix = chars_of("/view/");
    push_seq(&mut prefix, chars_of(link).as_slice());
    let p = PreviewOptions { max_line_count: preview.max_line_count, tag_based: crate::content::BreakTag(preview.tag_based.0.clone()) };
    RenderOptions::PreviewOnly(p, ImagePrefix(string_of(prefix.as_slice())))
}

/// The page to show: the one asked for when it exists, else the first.
pub fn page_or_first(cur_page: u32, page_count: u32) -> (r: u32)
    ensures
        r == if cur_page == 0 || cur_page > page_count { 1 } else { cur_page },
{
    if cur_page == 0 || cur_page > page_count {
        1
    } else {
        cur_page
    }
}

/// The channel fields of an RSS feed.
pub struct RssChannel<'a> {
    pub ch_title: &'a str,
    pub ch_link: &'a str,
    pub ch_desc: &'a str,
}

/// `s`, with a `/` added when it does not end with one.
pub open spec fn with_slash(s: Seq<char>) -> Seq<char> {
    if ends_with(s, seq!['/']) { s } else { s + seq!['/'] }
}

/// The public address of the post at `link`: `<base>/view/<link>/`.
pub open spec fn full_link_spec(base_url: Seq<char>, link: Seq<char>) -> Seq<char> {
    with_slash(base_url) + seq!['v', 'i', 'e', 'w', '/'] + with_slash(link)
}

fn push_with_slash(out: &mut Vec<char>, s: &str)
    ensures
        final(out)@ == old(out)@ + with_slash(s@),
{
    let c = chars_of(s);
    let slash = chars_of("/");
    proof {
        reveal_strlit("/");
        assert(slash@ =~= seq!['/']);
    }
    push_seq(out, c.as_slice());
    if !exec_ends_with(c.as_slice(), slash.as_slice()) {
        out.push('/');
        assert(final(out)@ =~= old(out)@ + (s@ + seq!['/']));
    }
}

/// The public address of the post at `link`; see `full_link_spec`.
pub fn full_link(base_url: &str, link: &str) -> (r: String)
    ensures
        r@ == full_link_spec(base_url@, link@),
{
    let mut out: Vec<char> = Vec::new();
    push_with_slash(&mut out, base_url);
    push_seq(&mut out, chars_of("view/").as_slice());
    push_with_slash(&mut out, link);
    proof {
        reveal_strlit("view/");
        assert(out@ =~= full_link_spec(base_url@, link@));
    }
    string_of(out.as_slice())
}

/// `a` comes strictly before `b` in time.
pub open spec fn date_lt(a: DateTime, b: DateTime) -> bool {
    a.year < b.year || (a.year == b.year && (a.month < b.month || (a.month == b.month && (a.day < b.day
        || (a.day == b.day && (a.hour < b.hour || (a.hour == b.hour && (a.minute < b.minute
        || (a.minute == b.minute && a.second < b.second)))))))))
}

fn exec_date_lt(a: &DateTime, b: &DateTime) -> (r: bool)
    ensures
        r == date_lt(*a, *b),
{
    if a.year != b.year {
        a.year < b.year
    } else if a.month != b.month {
        a.month < b.month
    } else if a.day != b.day {
        a.day < b.day
    } else if a.hour != b.hour {
        a.hour < b.hour
    } else if a.minute != b.minute {
        a.minute < b.minute
    } else {
        a.second < b.second
    }
}

/// Newest first: no post is older than one after it.
pub open spec fn newest_first(s: Seq<Arc<Content>>) -> bool {
    forall|i: int, j: int| 0 <= i < j < s.len() ==> !date_lt(s[i].header.date, s[j].header.date)
}

/// The same posts, newest first.
pub fn sort_by_date_desc(contents: &Vec<Arc<Content>>) -> (r: Vec<Arc<Content>>)
    ensures
        r@.to_multiset() == contents@.to_multiset(),
        newest_first(r@),
{
    let mut out: Vec<Arc<Content>> = Vec::new();
    let mut i: usize = 0;
    proof {
        assert(contents@.subrange(0, 0) =~= Seq::<Arc<Content>>::empty());
        assert(out@ =~= Seq::<Arc<Content>>::empty());
    }
    while i < contents.len()
        invariant
            i <= contents@.len(),
            out@.to_multiset() == contents@.subrange(0, i as int).to_multiset(),
            newest_first(out@),
        decreases contents@.len() - i,
    {
        let x = share(&contents[i]);
        let mut p: usize = 0;
        while p < out.len() && !exec_date_lt(&out[p].header.date, &x.header.date)
            invariant
                p <= out@.len(),
                forall|k: int| 0 <= k < p ==> !date_lt(out@[k].header.date, x.header.date),
            decreases out@.len() - p,
        {
            p = p + 1;
        }
        proof {
            assert forall|k: int| p <= k < out@.len() implies date_lt(out@[k].header.date, x.header.date) by {
                if k > p {
                    assert(!date_lt(out@[p as int].header.date, out@[k].header.date));
                }
            }
        }
        let ghost before = out@;
        out.insert(p, x);
        proof {
            assert(out@ == before.insert(p as int, x));
            assert(contents@.subrange(0, i + 1) =~= contents@.subrange(0, i as int).push(contents@[i as int]));
            let sub = contents@.subrange(0, i as int);
            assert(sub.push(x) =~= sub.insert(i as int, x));
            assert(x == contents@[i as int]);
            vstd::seq_lib::to_multiset_insert(before, p as int, x);
            vstd::seq_lib::to_multiset_insert(sub, i as int, x);
            assert(out@.to_multiset() == contents@.subrange(0, i + 1).to_multiset());
            assert forall|a: int, b: int| 0 <= a < b < out@.len() implies !date_lt(out@[a].header.date, out@[b].header.date) by {
                if b < p {
                    assert(out@[a] == before[a] && out@[b] == before[b]);
                } else if a < p && b == p {
                } else if a < p && b > p {
                    assert(out@[b] == before[b - 1]);
                } else if a == p {
                    assert(out@[b] == before[b - 1]);
                    assert(date_lt(before[b - 1].header.date, x.header.date));
                } else {
                    assert(out@[a] == before[a - 1] && out@[b] == before[b - 1]);
                }
            }
        }
        i = i + 1;
    }
    proof {
        assert(contents@.subrange(0, i as int) =~= contents@);
    }
    out
}

/// The post's tags include `tag`.
pub open spec fn has_tag(c: Content, tag: Seq<char>) -> bool {
    strings_view(c.header.tags@).contains(tag)
}

/// The posts of `s` that carry `tag`, in order.
pub open spec fn with_tag(s: Seq<Arc<Content>>, tag: Seq<char>) -> Seq<Arc<Content>>
    decreases s.len(),
{
    if s.len() == 0 {
        Seq::empty()
    } else if has_tag(*s.last(), tag) {
        with_tag(s.drop_last(), tag).push(s.last())
    } else {
        with_tag(s.drop_last(), tag)
    }
}

fn carries_tag(c: &Content, tag: &[char]) -> (r: bool)
    ensures
        r == has_tag(*c, tag@),
{
    let mut k: usize = 0;
    while k < c.header.tags.len()
        invariant
            k <= c.header.tags@.len(),
            forall|m: int| 0 <= m < k ==> c.header.tags@[m]@ != tag@,
        decreases c.header.tags@.len() - k,
    {
        let t = chars_of(c.header.tags[k].as_str());
        if t.len() == tag.len() && crate::text::exec_match_at(t.as_slice(), tag, 0) {
            proof {
                assert(t@.subrange(0, tag@.len() as int) =~= t@);
                assert(strings_view(c.header.tags@)[k as int] == tag@);
            }
            return true;
        }
        proof {
            if t@ == tag@ {
                assert(t@.subrange(0, tag@.len() as int) =~= t@);
            }
        }
        k = k + 1;
    }
    proof {
        if strings_view(c.header.tags@).contains(tag@) {
            let m = choose|m: int| 0 <= m < strings_view(c.header.tags@).len() && strings_view(c.header.tags@)[m] == tag@;
            assert(c.header.tags@[m]@ == tag@);
        }
    }
    false
}

/// The posts that carry `tag`, in their order.
pub fn posts_with_tag(contents: &Vec<Arc<Content>>, tag: &str) -> (r: Vec<Arc<Content>>)
    ensures
        r@ == with_tag(contents@, tag@),
{
    let t = chars_of(tag);
    let mut out: Vec<Arc<Content>> = Vec::new();
    let mut i: usize = 0;
    proof {
        assert(contents@.subrange(0, 0) =~= Seq::<Arc<Content>>::empty());
    }
    while i < contents.len()
        invariant
            i <= contents@.len(),
            t@ == tag@,
            out@ == with_tag(contents@.subrange(0, i as int), tag@),
        decreases contents@.len() - i,
    {
        proof {
            assert(contents@.subrange(0, i + 1).drop_last() =~= contents@.subrange(0, i as int));
        }
        if carries_tag(&contents[i], t.as_slice()) {
            out.push(share(&contents[i]));
        }
        i = i + 1;
    }
    proof {
        assert(contents@.subrange(0, i as int) =~= contents@);
    }
    out
}

/// Every tag of every post, in order, repeats kept.
pub open spec fn all_tags(s: Seq<Arc<Content>>) -> Seq<Seq<char>>
    decreases s.len(),
{
    if s.len() == 0 {
        Seq::empty()
    } else {
        all_tags(s.drop_last()) + strings_view(s.last().header.tags@)
    }
}

/// The tags of `counts`, as sequences.
pub open spec fn count_keys(counts: Seq<(String, u64)>) -> Seq<Seq<char>> {
    counts.map_values(|e: (String, u64)| e.0@)
}

/// `counts` holds each tag of `tags` once, with how often it occurs.
pub open spec fn counts_match(counts: Seq<(String, u64)>, tags: Seq<Seq<char>>) -> bool {
    &&& count_keys(counts).no_duplicates()
    &&& forall|i: int| 0 <= i < counts.len() ==> counts[i].1 == tags.to_multiset().count(#[trigger] counts[i].0@)
    &&& forall|t: Seq<char>| tags.contains(t) ==> count_keys(counts).contains(t)
    &&& forall|i: int| 0 <= i < counts.len() ==> tags.contains(#[trigger] counts[i].0@)
}

proof fn lemma_all_tags_step(s: Seq<Arc<Content>>, i: int)
    requires
        0 <= i < s.len(),
    ensures
        all_tags(s.subrange(0, i + 1)) == all_tags(s.subrange(0, i)) + strings_view(s[i].header.tags@),
{
    assert(s.subrange(0, i + 1).drop_last() =~= s.subrange(0, i));
}

/// How often each tag occurs over the posts: each tag once, with its number
/// of occurrences.
pub fn tag_counts(contents: &Vec<Arc<Content>>) -> (r: Vec<(String, u64)>)
    requires
        all_tags(contents@).len() <= u64::MAX,
    ensures
        counts_match(r@, all_tags(contents@)),
{
    broadcast use vstd::seq_lib::group_to_multiset_ensures;
    let mut out: Vec<(String, u64)> = Vec::new();
    let mut i: usize = 0;
    proof {
        assert(contents@.subrange(0, 0) =~= Seq::<Arc<Content>>::empty());
        assert(all_tags(Seq::<Arc<Content>>::empty()) =~= Seq::<Seq<char>>::empty());
        assert(count_keys(out@) =~= Seq::<Seq<char>>::empty());
    }
    let n = contents.len();
    while i < n
        invariant
            n == contents@.len(),
            i <= n,
            counts_match(out@, all_tags(contents@.subrange(0, i as int))),
            all_tags(contents@).len() <= u64::MAX,
        decreases n - i,
    {
        let tags = &contents[i].header.tags;
        let ghost base = all_tags(contents@.subrange(0, i as int));
        let ghost sv = strings_view(tags@);
        proof {
            lemma_all_tags_step(contents@, i as int);
            lemma_all_tags_prefix(contents@, (i + 1) as nat);
            assert(sv.subrange(0, 0) =~= Seq::<Seq<char>>::empty());
            assert(base + sv.subrange(0, 0) =~= base);
        }
        let mut k: usize = 0;
        while k < tags.len()
            invariant
                n == contents@.len(),
                i < n,
                k <= tags@.len(),
                tags@ == contents@[i as int].header.tags@,
                sv == strings_view(tags@),
                base.len() + sv.len() <= u64::MAX,
                counts_match(out@, base + sv.subrange(0, k as int)),
            decreases tags@.len() - k,
        {
            let t = chars_of(tags[k].as_str());
            let ghost cur = base + sv.subrange(0, k as int);
            let ghost next = cur.push(t@);
            proof {
                assert(base + sv.subrange(0, k + 1) =~= next);
                vstd::seq_lib::to_multiset_build(cur, t@);
                assert(cur.len() == base.len() + k);
            }
            let mut j: usize = 0;
            let mut found: Option<usize> = None;
            while j < out.len() && found.is_none()
                invariant
                    j <= out@.len(),
                    found is None ==> forall|m: int| 0 <= m < j ==> out@[m].0@ != t@,
                    found matches Some(m) ==> m < out@.len() && out@[m as int].0@ == t@,
                decreases out@.len() - j, if found is None { 1int } else { 0int },
            {
                if crate::text::same_chars(chars_of(out[j].0.as_str()).as_slice(), t.as_slice()) {
                    found = Some(j);
                } else {
                    j = j + 1;
                }
            }
            let ghost before = out@;
            match found {
                Some(m) => {
                    let c = out[m].1;
                    proof {
                        assert(c == cur.to_multiset().count(t@));
                        assert(cur.to_multiset().count(t@) <= cur.len()) by {
                            vstd::seq_lib::to_multiset_len(cur);
                            vstd::multiset::axiom_count_le_len(cur.to_multiset(), t@);
                        }
                    }
                    let name = out[m].0.clone();
                    out.set(m, (name, c + 1));
                    proof {
                        assert(count_keys(out@) =~= count_keys(before));
                        assert forall|q: int| 0 <= q < out@.len() implies out@[q].1 == next.to_multiset().count(#[trigger] out@[q].0@) by {
                            if q != m {
                                assert(count_keys(before)[q] != count_keys(before)[m as int]);
                                assert(before[q].0@ != t@);
                            }
                        }
                        assert forall|q: int| 0 <= q < out@.len() implies next.contains(#[trigger] out@[q].0@) by {
                            assert(cur.contains(before[q].0@));
                            let w = choose|w: int| 0 <= w < cur.len() && cur[w] == before[q].0@;
                            assert(next[w] == cur[w]);
                        }
                        assert forall|u: Seq<char>| next.contains(u) implies count_keys(out@).contains(u) by {
                            let w = choose|w: int| 0 <= w < next.len() && next[w] == u;
                            if w < cur.len() {
                                assert(cur.contains(u));
                            } else {
                                assert(count_keys(out@)[m as int] == u);
                            }
                        }
                    }
                },
                None => {
                    proof {
                        assert(!count_keys(out@).contains(t@)) by {
                            if count_keys(out@).contains(t@) {
                                let w = choose|w: int| 0 <= w < count_keys(out@).len() && count_keys(out@)[w] == t@;
                                assert(out@[w].0@ == t@);
                            }
                        }
                        assert(!cur.contains(t@));
                        vstd::seq_lib::to_multiset_contains(cur, t@);
                        assert(cur.to_multiset().count(t@) == 0);
                    }
                    out.push((tags[k].clone(), 1));
                    proof {
                        assert(count_keys(out@) =~= count_keys(before).push(t@));
                        assert forall|q: int| 0 <= q < out@.len() implies out@[q].1 == next.to_multiset().count(#[trigger] out@[q].0@) by {
                            if q < before.len() {
                                assert(before[q].0@ != t@);
                            }
                        }
                        assert forall|q: int| 0 <= q < out@.len() implies next.contains(#[trigger] out@[q].0@) by {
                            if q < before.len() {
                                assert(cur.contains(before[q].0@));
                                let w = choose|w: int| 0 <= w < cur.len() && cur[w] == before[q].0@;
                                assert(next[w] == cur[w]);
                            } else {
                                assert(next[cur.len() as int] == t@);
                            }
                        }
                        assert forall|u: Seq<char>| next.contains(u) implies count_keys(out@).contains(u) by {
                            let w = choose|w: int| 0 <= w < next.len() && next[w] == u;
                            if w < cur.len() {
                                assert(cur.contains(u));
                                let z = choose|z: int| 0 <= z < count_keys(before).len() && count_keys(before)[z] == u;
                                assert(count_keys(out@)[z] == u);
                            } else {
                                assert(count_keys(out@)[before.len() as int] == u);
                            }
                        }
                    }
                },
            }
            k = k + 1;
        }
        proof {
            assert(sv.subrange(0, k as int) =~= sv);
        }
        i = i + 1;
    }
    proof {
        assert(contents@.subrange(0, i as int) =~= contents@);
    }
    out
}

/// The same tag counts, most frequent first.
pub fn sort_by_frequency(counts: &Vec<(String, u64)>) -> (r: Vec<(String, u64)>)
    ensures
        r@.to_multiset() == counts@.to_multiset(),
        forall|i: int, j: int| 0 <= i < j < r@.len() ==> r@[i].1 >= r@[j].1,
{
    let mut out: Vec<(String, u64)> = Vec::new();
    let mut i: usize = 0;
    proof {
        assert(counts@.subrange(0, 0) =~= Seq::<(String, u64)>::empty());
        assert(out@ =~= Seq::<(String, u64)>::empty());
    }
    while i < counts.len()
        invariant
            i <= counts@.len(),
            out@.to_multiset() == counts@.subrange(0, i as int).to_multiset(),
            forall|a: int, b: int| 0 <= a < b < out@.len() ==> out@[a].1 >= out@[b].1,
        decreases counts@.len() - i,
    {
        let x = (counts[i].0.clone(), counts[i].1);
        let mut p: usize = 0;
        while p < out.len() && out[p].1 >= x.1
            invariant
                p <= out@.len(),
                forall|k: int| 0 <= k < p ==> out@[k].1 >= x.1,
            decreases out@.len() - p,
        {
            p = p + 1;
        }
        let ghost before = out@;
        out.insert(p, x);
        proof {
            let sub = counts@.subrange(0, i as int);
            assert(counts@.subrange(0, i + 1) =~= sub.push(counts@[i as int]));
            assert(sub.push(x) =~= sub.insert(i as int, x));
            assert(x == counts@[i as int]);
            vstd::seq_lib::to_multiset_insert(before, p as int, x);
            vstd::seq_lib::to_multiset_insert(sub, i as int, x);
            assert forall|a: int, b: int| 0 <= a < b < out@.len() implies out@[a].1 >= out@[b].1 by {
                if b < p {
                    assert(out@[a] == before[a] && out@[b] == before[b]);
                } else if a < p && b == p {
                } else if a < p && b > p {
                    assert(out@[b] == before[b - 1]);
                } else if a == p {
                    assert(out@[b] == before[b - 1]);
                    assert(before[p as int].1 < x.1);
                } else {
                    assert(out@[a] == before[a - 1] && out@[b] == before[b - 1]);
                }
            }
        }
        i = i + 1;
    }
    proof {
        assert(counts@.subrange(0, i as int) =~= counts@);
    }
    out
}

proof fn lemma_all_tags_prefix(s: Seq<Arc<Content>>, j: nat)
    requires
        j <= s.len(),
    ensures
        all_tags(s.subrange(0, j as int)).len() <= all_tags(s).len(),
    decreases s.len() - j,
{
    if j < s.len() {
        lemma_all_tags_prefix(s, j + 1);
        lemma_all_tags_step(s, j as int);
    } else {
        assert(s.subrange(0, j as int) =~= s);
    }
}

} // verus!
