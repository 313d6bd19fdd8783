use vstd::prelude::*;

use crate::text::{chars_of, push_seq, string_of};

verus! {

/// The header block of a new post: the id, date and author in the header
/// micro-format inside a comment, an empty tag list, then the title line
/// (`# Replace with title` when none is given) and a blank line.
pub open spec fn header_text(id: Seq<char>, name: Seq<char>, date: Seq<char>, title: Option<Seq<char>>) -> Seq<char> {
    "<!--\n[ID]: # ("@ + id + ")\n[DATE]: # ("@ + date + ")\n[AUTHOR]: # ("@ + name
        + ")\n[TAGS]: # ()\n-->\n\n# "@ + match title {
        Some(t) => t,
        None => "Replace with title"@,
    } + "\n\n"@
}

fn push_str(out: &mut Vec<char>, s: &str)
    ensures
        final(out)@ == old(out)@ + s@,
{
    let c = chars_of(s);
    push_seq(out, c.as_slice());
}

/// Writes the header block of a new post; see `header_text`.
pub fn render_header(id: &str, name: &str, date: &str, title: Option<&str>) -> (r: String)
    ensures
        r@ == header_text(id@, name@, date@, match title {
            Some(t) => Some(t@),
            None => None,
        }),
{
    let mut buf: Vec<char> = Vec::new();
    push_str(&mut buf, "<!--\n[ID]: # (");
    push_str(&mut buf, id);
    push_str(&mut buf, ")\n[DATE]: # (");
    push_str(&mut buf, date);
    push_str(&mut buf, ")\n[AUTHOR]: # (");
    push_str(&mut buf, name);
    push_str(&mut buf, ")\n[TAGS]: # ()\n-->\n\n# ");
    match title {
        Some(t) => push_str(&mut buf, t),
        None => push_str(&mut buf, "Replace with title"),
    }
    push_str(&mut buf, "\n\n");
    proof {
        let t = match title {
            Some(t) => t@,
            None => "Replace with title"@,
        };
        assert(buf@ =~= "<!--\n[ID]: # ("@ + id@ + ")\n[DATE]: # ("@ + date@ + ")\n[AUTHOR]: # ("@ + name@
            + ")\n[TAGS]: # ()\n-->\n\n# "@ + t + "\n\n"@);
    }
    string_of(buf.as_slice())
}

/// The sample body of a new post, with a preview break.
pub open spec fn body_text() -> Seq<char> {
    "This is a body example\nPlease remove it and replace with your content\n\n<!-- more -->\n\nAnd this is the rest of your post\n"@
}

/// Writes the sample body of a new post.
pub fn render_body() -> (r: String)
    ensures
        r@ == body_text(),
{
    string_of(chars_of("This is a body example\nPlease remove it and replace with your content\n\n<!-- more -->\n\nAnd this is the rest of your post\n").as_slice())
}

} // verus!
