use vstd::prelude::*;

use crate::render::format_of;
use crate::text::{
    chars_of, contains, copy_range, exec_contains, exec_ends_with, exec_rfind_in, ends_with,
    lemma_rfind_in, push_seq, rfind_in, string_of,
};

verus! {

/// End of `p[0..e]` without trailing `/`s.
pub open spec fn trim_slashes_end(p: Seq<char>, e: nat) -> nat
    decreases e,
{
    if e > 0 && e <= p.len() && p[e - 1] == '/' {
        trim_slashes_end(p, (e - 1) as nat)
    } else {
        e
    }
}

/// The last component of a path: what follows its last `/`, trailing `/`s
/// ignored.
pub open spec fn last_component(p: Seq<char>) -> Seq<char> {
    let e = trim_slashes_end(p, p.len());
    match rfind_in(p, seq!['/'], 0, e) {
        Some(i) => p.subrange((i + 1) as int, e as int),
        None => p.subrange(0, e as int),
    }
}

/// A file name without its extension, as `Path::file_stem` gives it: the
/// part before the last `.`, unless that dot starts the name or the name is
/// `..`.
pub open spec fn stem_of(name: Seq<char>) -> Seq<char> {
    if name == seq!['.', '.'] {
        name
    } else {
        match rfind_in(name, seq!['.'], 0, name.len()) {
            Some(i) => if i > 0 { name.subrange(0, i as int) } else { name },
            None => name,
        }
    }
}

/// `file` inside the directory `dir`.
pub open spec fn join_path(dir: Seq<char>, file: Seq<char>) -> Seq<char> {
    if dir.len() == 0 || ends_with(dir, seq!['/']) { dir + file } else { dir + seq!['/'] + file }
}

proof fn lemma_trim_slashes_end(p: Seq<char>, e: nat)
    requires
        e <= p.len(),
    ensures
        trim_slashes_end(p, e) <= e,
    decreases e,
{
    if e > 0 && p[e - 1] == '/' {
        lemma_trim_slashes_end(p, (e - 1) as nat);
    }
}

fn exec_last_component(p: &[char]) -> (r: Vec<char>)
    ensures
        r@ == last_component(p@),
{
    let mut e = p.len();
    while e > 0 && p[e - 1] == '/'
        invariant
            e <= p@.len(),
            trim_slashes_end(p@, p@.len()) == trim_slashes_end(p@, e as nat),
        decreases e,
    {
        e = e - 1;
    }
    let slash = chars_of("/");
    proof {
        reveal_strlit("/");
        assert(slash@ =~= seq!['/']);
        lemma_rfind_in(p@, seq!['/'], 0, e as nat);
    }
    match exec_rfind_in(p, slash.as_slice(), 0, e) {
        Some(i) => copy_range(p, i + 1, e),
        None => copy_range(p, 0, e),
    }
}

fn exec_stem(name: &[char]) -> (r: Vec<char>)
    ensures
        r@ == stem_of(name@),
{
    let dots = chars_of("..");
    let dot = chars_of(".");
    proof {
        reveal_strlit("..");
        reveal_strlit(".");
        assert(dots@ =~= seq!['.', '.']);
        assert(dot@ =~= seq!['.']);
        lemma_rfind_in(name@, seq!['.'], 0, name@.len());
    }
    if name.len() == 2 && name[0] == '.' && name[1] == '.' {
        assert(name@ =~= seq!['.', '.']);
        return copy_range(name, 0, 2);
    }
    proof {
        if name@ == seq!['.', '.'] {
            assert(name@.len() == 2 && name@[0] == '.' && name@[1] == '.');
        }
    }
    match exec_rfind_in(name, dot.as_slice(), 0, name.len()) {
        Some(i) => if i > 0 { copy_range(name, 0, i) } else { copy_range(name, 0, name.len()) },
        None => copy_range(name, 0, name.len()),
    }
}

/// A post's link name and the file that holds it.
#[derive(Debug, PartialEq)]
pub struct PostLink {
    pub post_name: String,
    pub post_path: String,
}

/// The directory of posts and the base name of the index file of a
/// directory post.
pub struct PostList {
    pub root_dir: String,
    pub post_file: String,
}

/// The post links a listing gives, as name/path pairs.
pub open spec fn post_links_view(v: Seq<PostLink>) -> Seq<(Seq<char>, Seq<char>)> {
    v.map_values(|l: PostLink| (l.post_name@, l.post_path@))
}

/// The first of `files` whose name holds `base_name`.
pub open spec fn first_holding(files: Seq<Seq<char>>, base_name: Seq<char>) -> Option<Seq<char>>
    decreases files.len(),
{
    if files.len() == 0 {
        None
    } else if contains(files[0], base_name) {
        Some(files[0])
    } else {
        first_holding(files.drop_first(), base_name)
    }
}

/// The directory posts among `dirs` (each with the names of the files in
/// it), each with the first file whose name holds `post_file`.
pub open spec fn dir_posts(post_file: Seq<char>, dirs: Seq<(Seq<char>, Seq<Seq<char>>)>) -> Seq<(Seq<char>, Seq<char>)>
    decreases dirs.len(),
{
    if dirs.len() == 0 {
        Seq::empty()
    } else {
        let rest = dir_posts(post_file, dirs.drop_last());
        match first_holding(dirs.last().1, post_file) {
            Some(f) => rest.push((dirs.last().0, f)),
            None => rest,
        }
    }
}

/// The posts of a listing: one per directory post, named after the
/// directory; then one per content file (`.md`, `.html`, `.htm`), named
/// after the file without its extension.
pub open spec fn post_links_spec(dirs: Seq<(Seq<char>, Seq<char>)>, files: Seq<Seq<char>>) -> Seq<(Seq<char>, Seq<char>)> {
    dirs.map_values(|d: (Seq<char>, Seq<char>)| (last_component(d.0), join_path(d.0, d.1)))
        + files_posts(files)
}

/// The content files among `files`, each named after its stem.
pub open spec fn files_posts(files: Seq<Seq<char>>) -> Seq<(Seq<char>, Seq<char>)>
    decreases files.len(),
{
    if files.len() == 0 {
        Seq::empty()
    } else {
        let rest = files_posts(files.drop_last());
        let f = files.last();
        if format_of(f) is Some {
            rest.push((stem_of(last_component(f)), f))
        } else {
            rest
        }
    }
}

pub open spec fn strs(v: Seq<String>) -> Seq<Seq<char>> {
    v.map_values(|s: String| s@)
}

pub open spec fn str_pairs(v: Seq<(String, String)>) -> Seq<(Seq<char>, Seq<char>)> {
    v.map_values(|p: (String, String)| (p.0@, p.1@))
}

impl PostList {
    /// Keeps the directories that hold an index file: for each, the first
    /// file whose name holds `post_file`.
    pub fn filter_dirs(post_file: &str, dirs: &Vec<(String, Vec<String>)>) -> (r: Vec<(String, String)>)
        ensures
            str_pairs(r@) == dir_posts(
                post_file@,
                dirs@.map_values(|d: (String, Vec<String>)| (d.0@, strs(d.1@))),
            ),
    {
        let ghost dv = dirs@.map_values(|d: (String, Vec<String>)| (d.0@, strs(d.1@)));
        let base = chars_of(post_file);
        let mut out: Vec<(String, String)> = Vec::new();
        let mut i: usize = 0;
        while i < dirs.len()
            invariant
                i <= dirs@.len(),
                base@ == post_file@,
                dv == dirs@.map_values(|d: (String, Vec<String>)| (d.0@, strs(d.1@))),
                str_pairs(out@) == dir_posts(post_file@, dv.subrange(0, i as int)),
            decreases dirs@.len() - i,
        {
            let files = &dirs[i].1;
            let mut j: usize = 0;
            let mut found: Option<usize> = None;
            proof {
                assert(strs(files@).subrange(0, files@.len() as int) =~= strs(files@));
            }
            while j < files.len() && found.is_none()
                invariant
                    i < dirs@.len(),
                    j <= files@.len(),
                    base@ == post_file@,
                    files@ == dirs@[i as int].1@,
                    found is None ==> first_holding(strs(files@), post_file@)
                        == first_holding(strs(files@).subrange(j as int, files@.len() as int), post_file@),
                    found matches Some(k) ==> k < files@.len()
                        && first_holding(strs(files@), post_file@) == Some(files@[k as int]@),
                decreases files@.len() - j, if found is None { 1int } else { 0int },
            {
                let ghost rest = strs(files@).subrange(j as int, files@.len() as int);
                proof {
                    assert(rest[0] == files@[j as int]@);
                    assert(rest.drop_first() =~= strs(files@).subrange(j + 1, files@.len() as int));
                }
                if exec_contains(chars_of(files[j].as_str()).as_slice(), base.as_slice()) {
                    found = Some(j);
                } else {
                    j = j + 1;
                }
            }
            proof {
                if found is None {
                    assert(strs(files@).subrange(j as int, files@.len() as int) =~= Seq::<Seq<char>>::empty());
                }
                assert(dv.subrange(0, i + 1).drop_last() =~= dv.subrange(0, i as int));
                assert(dv.subrange(0, i + 1).last() == dv[i as int]);
                assert(dv[i as int].1 == strs(files@));
            }
            if let Some(k) = found {
                let ghost before = out@;
                out.push((dirs[i].0.clone(), files[k].clone()));
                proof {
                    assert(str_pairs(out@) =~= str_pairs(before).push((dirs@[i as int].0@, files@[k as int]@)));
                }
            }
            i = i + 1;
        }
        proof {
            assert(dv.subrange(0, i as int) =~= dv);
        }
        out
    }
}

/// The posts of a listing; see `post_links_spec`. `dirs` holds each
/// directory post with its index file name, `files` the files found beside
/// them.
pub fn list_post_files(dirs: &Vec<(String, String)>, files: &Vec<String>) -> (r: Vec<PostLink>)
    ensures
        post_links_view(r@) == post_links_spec(str_pairs(dirs@), strs(files@)),
{
    let mut posts: Vec<PostLink> = Vec::new();
    let mut i: usize = 0;
    let ghost dspec = str_pairs(dirs@).map_values(|d: (Seq<char>, Seq<char>)| (last_component(d.0), join_path(d.0, d.1)));
    while i < dirs.len()
        invariant
            i <= dirs@.len(),
            dspec == str_pairs(dirs@).map_values(|d: (Seq<char>, Seq<char>)| (last_component(d.0), join_path(d.0, d.1))),
            post_links_view(posts@) == dspec.subrange(0, i as int),
        decreases dirs@.len() - i,
    {
        let dir = chars_of(dirs[i].0.as_str());
        let name = exec_last_component(dir.as_slice());
        let mut path = chars_of(dirs[i].0.as_str());
        let slash = chars_of("/");
        proof {
            reveal_strlit("/");
            assert(slash@ =~= seq!['/']);
        }
        if dir.len() > 0 && !exec_ends_with(dir.as_slice(), slash.as_slice()) {
            path.push('/');
        }
        push_seq(&mut path, chars_of(dirs[i].1.as_str()).as_slice());
        proof {
            assert(path@ =~= join_path(dir@, dirs@[i as int].1@));
        }
        let ghost before = posts@;
        posts.push(PostLink { post_name: string_of(name.as_slice()), post_path: string_of(path.as_slice()) });
        proof {
            assert(str_pairs(dirs@)[i as int] == (dirs@[i as int].0@, dirs@[i as int].1@));
            assert(dspec[i as int] == (name@, path@));
            assert(post_links_view(posts@) =~= post_links_view(before).push((name@, path@)));
            assert(dspec.subrange(0, i + 1) =~= dspec.subrange(0, i as int).push(dspec[i as int]));
        }
        i = i + 1;
    }
    let mut j: usize = 0;
    proof {
        assert(dspec.subrange(0, i as int) =~= dspec);
        assert(files_posts(strs(files@).subrange(0, 0)) =~= Seq::<(Seq<char>, Seq<char>)>::empty());
        assert(post_links_view(posts@) =~= dspec + files_posts(strs(files@).subrange(0, 0)));
    }
    while j < files.len()
        invariant
            j <= files@.len(),
            post_links_view(posts@) == dspec + files_posts(strs(files@).subrange(0, j as int)),
        decreases files@.len() - j,
    {
        let f = chars_of(files[j].as_str());
        let ghost sub = strs(files@).subrange(0, j + 1);
        proof {
            assert(sub.drop_last() =~= strs(files@).subrange(0, j as int));
            assert(sub.last() == files@[j as int]@);
        }
        if crate::content::ContentFile::guess_type(files[j].as_str()).is_some() {
            let name = exec_stem(exec_last_component(f.as_slice()).as_slice());
            let ghost before = posts@;
            posts.push(PostLink { post_name: string_of(name.as_slice()), post_path: files[j].clone() });
            proof {
                assert(post_links_view(posts@) =~= post_links_view(before).push((name@, files@[j as int]@)));
            }
        }
        j = j + 1;
    }
    proof {
        assert(strs(files@).subrange(0, j as int) =~= strs(files@));
    }
    posts
}

} // verus!
