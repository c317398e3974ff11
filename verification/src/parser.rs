//! Front matter and document-level parsing helpers: splitting the YAML
//! front-matter block off a markdown document, reading the title and
//! document type out of it, and finding a document's first heading.

use vstd::prelude::*;
use crate::document::Document;
use crate::notebook::Notebook;
use crate::split::CodeTaskDefinition;
use vstd::string::*;
use crate::events::BlockKind;
use crate::events::FrontMatter;
use crate::events::FrontMatterModel;
use crate::events::PositionedEvent;
use crate::events::PositionedEventModel;
use crate::events::SemanticEvent;
use crate::split::lines_spec;
use crate::split::split_lines;
use crate::text::is_match_at;
use crate::text::push_char;
use crate::text::str_eq;
use crate::text::substring;
use crate::text::trim;
use crate::text::trim_spec;

verus! {

broadcast use vstd::string::group_string_axioms;

/// Everything one parsed document yields: its title, its front matter,
/// its element form, the rendered outputs, and the extracted exercise
/// artifacts.
#[derive(Debug)]
pub struct DocumentParsed {
    pub title: String,
    pub frontmatter: FrontMatter,
    pub doc_content: Document,
    pub html: String,
    pub notebook: Notebook,
    pub md: String,
    pub raw_solution: String,
    pub split_meta: CodeTaskDefinition,
}

/// The document type used when the front matter names none.
pub fn default_doc_type() -> (r: String)
    ensures
        r@ == "text"@,
{
    String::from_str("text")
}

/// `s` without one pair of surrounding double quotes, when it has one.
pub open spec fn unquote_spec(s: Seq<char>) -> Seq<char> {
    if s.len() >= 2 && s[0] == '"' && s[s.len() - 1] == '"' {
        s.subrange(1, s.len() - 1)
    } else {
        s
    }
}

/// Remove one pair of surrounding double quotes.
pub fn unquote(s: &str) -> (r: String)
    ensures
        r@ == unquote_spec(s@),
{
    let n = s.unicode_len();
    if n >= 2 && s.get_char(0) == '"' && s.get_char(n - 1) == '"' {
        substring(s, 1, n - 1)
    } else {
        s.to_owned()
    }
}

/// Fold over the front matter's lines: a `title:` line sets the title, a
/// `type:` line sets the document type, later lines win, and all other
/// lines are ignored.
pub open spec fn fm_fold(
    lines: Seq<Seq<char>>,
    title: Option<Seq<char>>,
    doc_type: Option<Seq<char>>,
) -> (Option<Seq<char>>, Option<Seq<char>>)
    decreases lines.len(),
{
    if lines.len() == 0 {
        (title, doc_type)
    } else {
        let t = trim_spec(lines[0]);
        if t.len() >= 6 && t.subrange(0, 6) == "title:"@ {
            fm_fold(
                lines.drop_first(),
                Some(unquote_spec(trim_spec(t.subrange(6, t.len() as int)))),
                doc_type,
            )
        } else if t.len() >= 5 && t.subrange(0, 5) == "type:"@ {
            fm_fold(
                lines.drop_first(),
                title,
                Some(unquote_spec(trim_spec(t.subrange(5, t.len() as int)))),
            )
        } else {
            fm_fold(lines.drop_first(), title, doc_type)
        }
    }
}

/// The metadata read from a front-matter block: the `title:` value if
/// any, and the `type:` value, which is `text` when no `type:` line
/// stands in the block.
pub open spec fn front_matter_spec(yaml: Seq<char>) -> FrontMatterModel {
    let folded = fm_fold(lines_spec(yaml), None, None);
    FrontMatterModel {
        title: folded.0,
        doc_type: match folded.1 {
            Some(d) => d,
            None => "text"@,
        },
    }
}

/// Read the title and document type out of a front-matter block. A
/// document whose front matter has no `type:` line gets the type `text`.
///
/// The reader covers the subset these two keys use: one `title:` or
/// `type:` scalar per line, optionally double-quoted, later lines
/// winning. Multi-line scalars, single quotes, escapes and comments are
/// beyond it; richer front matter belongs to a full YAML loader outside
/// this crate, as notebook front matter already uses.
pub fn parse_front_matter(yaml: &str) -> (fm: FrontMatter)
    ensures
        fm@ == front_matter_spec(yaml@),
        fm_fold(lines_spec(yaml@), None, None).1 is None ==> fm@.doc_type == "text"@,
{
    let lines = split_lines(yaml);
    let n = lines.len();
    let mut i: usize = 0;
    let mut title: Option<String> = None;
    let mut doc_type: Option<String> = None;
    proof {
        assert(lines@.map_values(|l: String| l@).skip(0) =~= lines_spec(yaml@));
    }
    while i < n
        invariant
            n == lines@.len(),
            i <= n,
            fm_fold(lines_spec(yaml@), None, None) == fm_fold(
                lines@.map_values(|l: String| l@).skip(i as int),
                match title {
                    Some(ref t) => Some(t@),
                    None => None,
                },
                match doc_type {
                    Some(ref d) => Some(d@),
                    None => None,
                },
            ),
        decreases n - i,
    {
        let ghost rem = lines@.map_values(|l: String| l@).skip(i as int);
        proof {
            assert(rem[0] == lines@.map_values(|l: String| l@)[i as int]);
            assert(rem.drop_first() =~= lines@.map_values(|l: String| l@).skip(i + 1));
        }
        let t = trim(lines[i].as_str());
        let tn = t.unicode_len();
        proof {
            reveal_strlit("title:");
            reveal_strlit("type:");
            assert("title:"@.len() == 6);
            assert("type:"@.len() == 5);
        }
        if tn >= 6 && is_match_at(t, "title:", 0) {
            let val = substring(t, 6, tn);
            let tv = trim(val.as_str());
            title = Some(unquote(tv));
        } else if tn >= 5 && is_match_at(t, "type:", 0) {
            let val = substring(t, 5, tn);
            let tv = trim(val.as_str());
            doc_type = Some(unquote(tv));
        }
        i += 1;
    }
    proof {
        assert(lines@.map_values(|l: String| l@).skip(n as int) =~= Seq::<Seq<char>>::empty());
    }
    match doc_type {
        Some(d) => FrontMatter { title, doc_type: d },
        None => FrontMatter { title, doc_type: default_doc_type() },
    }
}

/// Index of the first line at or after `i` whose trimmed content is
/// `---`, or the number of lines when there is none.
pub open spec fn fm_close_from(lines: Seq<Seq<char>>, i: int) -> int
    decreases lines.len() - i,
{
    if i < 0 || i >= lines.len() {
        lines.len() as int
    } else if trim_spec(lines[i]) == "---"@ {
        i
    } else {
        fm_close_from(lines, i + 1)
    }
}

/// How a document splits into front matter and body: when the first line
/// is `---` and a later `---` line closes the block, the lines between
/// are the front matter and the lines after the closing fence are the
/// body; otherwise there is no front matter and the body is the whole
/// document.
pub open spec fn split_front_matter_spec(s: Seq<char>) -> (Option<Seq<Seq<char>>>, Seq<
    Seq<char>,
>) {
    let lines = lines_spec(s);
    if lines.len() >= 1 && trim_spec(lines[0]) == "---"@ {
        let c = fm_close_from(lines, 1);
        if c < lines.len() {
            (Some(lines.subrange(1, c)), lines.skip(c + 1))
        } else {
            (None, lines)
        }
    } else {
        (None, lines)
    }
}

/// Join lines with newlines, without a trailing newline.
pub open spec fn join_lines(lines: Seq<Seq<char>>) -> Seq<char>
    decreases lines.len(),
{
    if lines.len() == 0 {
        Seq::empty()
    } else if lines.len() == 1 {
        lines[0]
    } else {
        lines[0].push('\n') + join_lines(lines.drop_first())
    }
}

/// Join the lines of `v` in `[from, to)` with newlines.
fn join_range(v: &Vec<String>, from: usize, to: usize) -> (r: String)
    requires
        from <= to <= v@.len(),
    ensures
        r@ == join_lines(v@.map_values(|l: String| l@).subrange(from as int, to as int)),
{
    let ghost all = v@.map_values(|l: String| l@);
    let mut r = String::new();
    let mut i: usize = from;
    while i < to
        invariant
            from <= i <= to <= v@.len(),
            all == v@.map_values(|l: String| l@),
            join_lines(all.subrange(from as int, to as int)) == r@ + join_lines(
                all.subrange(i as int, to as int),
            ),
        decreases to - i,
    {
        let ghost pre = r@;
        r.append(v[i].as_str());
        if i + 1 < to {
            push_char(&mut r, '\n');
        }
        proof {
            let sub = all.subrange(i as int, to as int);
            assert(sub[0] == all[i as int]);
            assert(sub.drop_first() =~= all.subrange(i + 1, to as int));
            if i + 1 < to {
                assert(r@ =~= pre + all[i as int].push('\n'));
                assert(join_lines(sub) =~= all[i as int].push('\n') + join_lines(
                    sub.drop_first(),
                ));
            } else {
                assert(sub.len() == 1);
                assert(join_lines(sub) == sub[0]);
            }
            assert(join_lines(all.subrange(from as int, to as int)) =~= r@ + join_lines(
                all.subrange(i + 1, to as int),
            ));
        }
        i += 1;
    }
    proof {
        assert(all.subrange(to as int, to as int) =~= Seq::<Seq<char>>::empty());
    }
    r
}

/// Split a markdown document into its front-matter block and its body.
/// The front matter is the run of lines between an opening `---` first
/// line and the next `---` line; a document that does not start that way
/// is all body.
pub fn split_front_matter(input: &str) -> (r: (Option<String>, String))
    ensures
        ({
            let sp = split_front_matter_spec(input@);
            &&& (match r.0 {
                Some(ref y) => sp.0 is Some && y@ == join_lines(sp.0->0),
                None => sp.0 is None,
            })
            &&& r.1@ == join_lines(sp.1)
        }),
{
    proof {
        reveal_strlit("---");
        assert("---"@.len() == 3);
    }
    let lines = split_lines(input);
    let n = lines.len();
    let ghost all = lines@.map_values(|l: String| l@);
    if n == 0 {
        return (None, join_range(&lines, 0, 0));
    }
    let first = trim(lines[0].as_str());
    if !str_eq(first, "---") {
        proof {
            assert(all.subrange(0, n as int) =~= all);
        }
        return (None, join_range(&lines, 0, n));
    }
    let mut c: usize = 1;
    while c < n && !str_eq(trim(lines[c].as_str()), "---")
        invariant
            n == lines@.len(),
            all == lines@.map_values(|l: String| l@),
            1 <= c <= n,
            fm_close_from(all, 1) == fm_close_from(all, c as int),
        decreases n - c,
    {
        c += 1;
    }
    if c == n {
        proof {
            assert(fm_close_from(all, n as int) == n);
            assert(all.subrange(0, n as int) =~= all);
        }
        (None, join_range(&lines, 0, n))
    } else {
        proof {
            assert(fm_close_from(all, c as int) == c);
            assert(all.skip(c + 1) =~= all.subrange(c + 1, n as int));
        }
        let yaml = join_range(&lines, 1, c);
        let body = join_range(&lines, c + 1, n);
        (Some(yaml), body)
    }
}

/// The text of the first level-one heading: when a heading start of
/// level one is followed directly by a text event, its trimmed text is
/// the title; otherwise the search continues, and a document without
/// such a pair has the empty title.
pub open spec fn find_header_spec(events: Seq<PositionedEventModel>) -> Seq<char>
    decreases events.len(),
{
    if events.len() == 0 {
        Seq::empty()
    } else if events[0].event matches SemanticEvent::Start(BlockKind::Heading(1u32)) {
        if events.len() == 1 {
            Seq::empty()
        } else {
            match events[1].event {
                SemanticEvent::Text(t) => trim_spec(t),
                _ => find_header_spec(events.skip(2)),
            }
        }
    } else {
        find_header_spec(events.drop_first())
    }
}

/// Find the document's title: the text right after the first level-one
/// heading start.
pub fn find_header(events: &Vec<PositionedEvent>) -> (r: String)
    ensures
        r@ == find_header_spec(events@.map_values(|e: PositionedEvent| e@)),
{
    let ghost all = events@.map_values(|e: PositionedEvent| e@);
    let n = events.len();
    let mut i: usize = 0;
    proof {
        assert(all.skip(0) =~= all);
    }
    while i < n
        invariant
            n == events@.len(),
            all == events@.map_values(|e: PositionedEvent| e@),
            i <= n,
            find_header_spec(all) == find_header_spec(all.skip(i as int)),
        decreases n - i,
    {
        let ghost rem = all.skip(i as int);
        proof {
            assert(rem[0] == all[i as int]);
            assert(rem.drop_first() =~= all.skip(i + 1));
        }
        let is_h1 = match &events[i].event {
            SemanticEvent::Start(BlockKind::Heading(l)) => *l == 1,
            _ => false,
        };
        if is_h1 {
            if i + 1 < n {
                proof {
                    assert(rem[1] == all[i + 1]);
                    assert(rem.skip(2) =~= all.skip(i + 2));
                }
                match &events[i + 1].event {
                    SemanticEvent::Text(t) => {
                        return trim(t.as_str()).to_owned();
                    },
                    _ => {
                        i += 2;
                    },
                }
            } else {
                proof {
                    assert(rem.len() == 1);
                }
                return String::new();
            }
        } else {
            i += 1;
        }
    }
    proof {
        assert(all.skip(n as int) =~= Seq::<PositionedEventModel>::empty());
    }
    String::new()
}

} // verus!
