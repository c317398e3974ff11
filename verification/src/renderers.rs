//! Writers from the event sequence back to text. The markdown writer is
//! a structurally stateful serializer, verified against a fold over the
//! events; HTML serialization is an outside collaborator and lives with
//! the caller.

use vstd::prelude::*;
use vstd::string::*;
use crate::events::BlockKind;
use crate::events::EventDocument;
use crate::events::PositionedEvent;
use crate::events::PositionedEventModel;
use crate::events::SemanticEvent;
use pulldown_cmark::CodeBlockKind;
use pulldown_cmark::CowStr;
use pulldown_cmark::Event;
use pulldown_cmark::HeadingLevel;
use pulldown_cmark::LinkType;
use pulldown_cmark::Tag;
use crate::text::dec_str;
use crate::text::repeat_spec;
use crate::text::repeat_str;
use crate::text::str_eq;
use crate::text::u64_to_string;

verus! {

broadcast use vstd::string::group_string_axioms;

/// What a start tag writes: heading hashes, a code fence with its info
/// string, a list bullet or number, and the markdown inline markers.
pub open spec fn start_tag_text(k: BlockKind<Seq<char>>, list_num: Option<u64>) -> Seq<char> {
    match k {
        BlockKind::Paragraph => Seq::empty(),
        BlockKind::Heading(l) => repeat_spec("#"@, l as nat) + " "@,
        BlockKind::BlockQuote => Seq::empty(),
        BlockKind::CodeBlock(info) => "```"@ + info + "\n"@,
        BlockKind::IndentedCode => "```plain\n"@,
        BlockKind::List(_) => Seq::empty(),
        BlockKind::Item => match list_num {
            None => "- "@,
            Some(i) => dec_str(i as nat) + ". "@,
        },
        BlockKind::FootnoteDefinition(_) => Seq::empty(),
        BlockKind::Table => Seq::empty(),
        BlockKind::TableHead => Seq::empty(),
        BlockKind::TableRow => Seq::empty(),
        BlockKind::TableCell => Seq::empty(),
        BlockKind::Emphasis => "*"@,
        BlockKind::Strong => "__"@,
        BlockKind::Strikethrough => Seq::empty(),
        BlockKind::Link(_, _) => "["@,
        BlockKind::Image(_, _) => Seq::empty(),
    }
}

/// What an end tag writes: closing fences, blank lines, the closing
/// inline markers, and a link's destination and title.
pub open spec fn end_tag_text(k: BlockKind<Seq<char>>) -> Seq<char> {
    match k {
        BlockKind::Paragraph => "\n"@,
        BlockKind::Heading(_) => "\n\n"@,
        BlockKind::BlockQuote => Seq::empty(),
        BlockKind::CodeBlock(_) => "\n```\n"@,
        BlockKind::IndentedCode => "\n```\n"@,
        BlockKind::List(_) => "\n"@,
        BlockKind::Item => "\n"@,
        BlockKind::FootnoteDefinition(_) => Seq::empty(),
        BlockKind::Table => Seq::empty(),
        BlockKind::TableHead => Seq::empty(),
        BlockKind::TableRow => Seq::empty(),
        BlockKind::TableCell => Seq::empty(),
        BlockKind::Emphasis => "*"@,
        BlockKind::Strong => "__"@,
        BlockKind::Strikethrough => Seq::empty(),
        BlockKind::Link(dest, title) => "]("@ + dest + " "@ + title + ")"@,
        BlockKind::Image(_, _) => Seq::empty(),
    }
}

/// What one event writes, given the current list numbering.
pub open spec fn event_text(e: SemanticEvent<Seq<char>>, list_num: Option<u64>) -> Seq<char> {
    match e {
        SemanticEvent::Start(k) => start_tag_text(k, list_num),
        SemanticEvent::End(k) => end_tag_text(k),
        SemanticEvent::Text(t) => if t == "\\"@ {
            "\\\\"@
        } else {
            t
        },
        SemanticEvent::Code(_) => Seq::empty(),
        SemanticEvent::Html(h) => h,
        SemanticEvent::FootnoteReference(_) => Seq::empty(),
        SemanticEvent::SoftBreak => "\n"@,
        SemanticEvent::HardBreak => "\n\n"@,
        SemanticEvent::Rule => Seq::empty(),
        SemanticEvent::TaskListMarker(_) => Seq::empty(),
    }
}

/// How an event changes the list numbering: a list start installs its
/// numbering, and writing a numbered item advances it. The number
/// saturates at its widest value rather than wrapping.
pub open spec fn event_state(e: SemanticEvent<Seq<char>>, list_num: Option<u64>) -> Option<
    u64,
> {
    match e {
        SemanticEvent::Start(BlockKind::List(i)) => i,
        SemanticEvent::Start(BlockKind::Item) => match list_num {
            None => None,
            Some(i) => Some(
                if i == u64::MAX {
                    i
                } else {
                    (i + 1) as u64
                },
            ),
        },
        _ => list_num,
    }
}

/// The markdown text of an event sequence, threading the list state.
pub open spec fn md_fold(events: Seq<PositionedEventModel>, list_num: Option<u64>) -> Seq<
    char,
>
    decreases events.len(),
{
    if events.len() == 0 {
        Seq::empty()
    } else {
        event_text(events[0].event, list_num) + md_fold(
            events.drop_first(),
            event_state(events[0].event, list_num),
        )
    }
}

/// Writes an event sequence back to markdown text.
pub struct MarkdownWriter {
    /// The text written so far.
    pub source: String,
    /// The numbering of the open ordered list, if any.
    pub list_order_num: Option<u64>,
}

impl MarkdownWriter {
    /// A fresh writer: nothing written, no open list.
    pub fn new() -> (r: MarkdownWriter)
        ensures
            r.source@ == Seq::<char>::empty(),
            r.list_order_num is None,
    {
        MarkdownWriter { source: String::new(), list_order_num: None }
    }

    /// Write one start tag.
    fn start_tag(&mut self, kind: &BlockKind<String>)
        ensures
            final(self).source@ == old(self).source@ + start_tag_text(
                crate::events::kind_model(*kind),
                old(self).list_order_num,
            ),
            final(self).list_order_num == event_state(
                SemanticEvent::Start(crate::events::kind_model(*kind)),
                old(self).list_order_num,
            ),
    {
        match kind {
            BlockKind::Paragraph => {},
            BlockKind::Heading(l) => {
                let hashes = repeat_str("#", *l as usize);
                self.source.append(hashes.as_str());
                self.source.append(" ");
            },
            BlockKind::BlockQuote => {},
            BlockKind::CodeBlock(info) => {
                self.source.append("```");
                self.source.append(info.as_str());
                self.source.append("\n");
            },
            BlockKind::IndentedCode => {
                self.source.append("```plain\n");
            },
            BlockKind::List(i) => {
                self.list_order_num = *i;
            },
            BlockKind::Item => {
                match self.list_order_num {
                    None => {
                        self.source.append("- ");
                    },
                    Some(i) => {
                        let num = u64_to_string(i);
                        self.source.append(num.as_str());
                        self.source.append(". ");
                        self.list_order_num = Some(
                            if i == u64::MAX {
                                i
                            } else {
                                i + 1
                            },
                        );
                    },
                }
            },
            BlockKind::FootnoteDefinition(_) => {},
            BlockKind::Table => {},
            BlockKind::TableHead => {},
            BlockKind::TableRow => {},
            BlockKind::TableCell => {},
            BlockKind::Emphasis => {
                self.source.append("*");
            },
            BlockKind::Strong => {
                self.source.append("__");
            },
            BlockKind::Strikethrough => {},
            BlockKind::Link(_, _) => {
                self.source.append("[");
            },
            BlockKind::Image(_, _) => {},
        }
    }

    /// Write one end tag.
    fn end_tag(&mut self, kind: &BlockKind<String>)
        ensures
            final(self).source@ == old(self).source@ + end_tag_text(
                crate::events::kind_model(*kind),
            ),
            final(self).list_order_num == old(self).list_order_num,
    {
        match kind {
            BlockKind::Paragraph => {
                self.source.append("\n");
            },
            BlockKind::Heading(_) => {
                self.source.append("\n\n");
            },
            BlockKind::BlockQuote => {},
            BlockKind::CodeBlock(_) => {
                self.source.append("\n```\n");
            },
            BlockKind::IndentedCode => {
                self.source.append("\n```\n");
            },
            BlockKind::List(_) => {
                self.source.append("\n");
            },
            BlockKind::Item => {
                self.source.append("\n");
            },
            BlockKind::FootnoteDefinition(_) => {},
            BlockKind::Table => {},
            BlockKind::TableHead => {},
            BlockKind::TableRow => {},
            BlockKind::TableCell => {},
            BlockKind::Emphasis => {
                self.source.append("*");
            },
            BlockKind::Strong => {
                self.source.append("__");
            },
            BlockKind::Strikethrough => {},
            BlockKind::Link(dest, title) => {
                self.source.append("](");
                self.source.append(dest.as_str());
                self.source.append(" ");
                self.source.append(title.as_str());
                self.source.append(")");
            },
            BlockKind::Image(_, _) => {},
        }
    }

    /// Write one event.
    pub fn write_event(&mut self, event: &SemanticEvent<String>)
        ensures
            final(self).source@ == old(self).source@ + event_text(
                event@,
                old(self).list_order_num,
            ),
            final(self).list_order_num == event_state(event@, old(self).list_order_num),
    {
        match event {
            SemanticEvent::Start(kind) => {
                self.start_tag(kind);
            },
            SemanticEvent::End(kind) => {
                self.end_tag(kind);
            },
            SemanticEvent::Text(t) => {
                proof {
                    reveal_strlit("\\");
                    reveal_strlit("\\\\");
                }
                if str_eq(t.as_str(), "\\") {
                    self.source.append("\\\\");
                } else {
                    self.source.append(t.as_str());
                }
            },
            SemanticEvent::Code(_) => {},
            SemanticEvent::Html(h) => {
                self.source.append(h.as_str());
            },
            SemanticEvent::FootnoteReference(_) => {},
            SemanticEvent::SoftBreak => {
                self.source.append("\n");
            },
            SemanticEvent::HardBreak => {
                self.source.append("\n\n");
            },
            SemanticEvent::Rule => {},
            SemanticEvent::TaskListMarker(_) => {},
        }
        proof {
            assert(final(self).source@ =~= old(self).source@ + event_text(
                event@,
                old(self).list_order_num,
            ));
        }
    }

    /// Write every event, in order, and hand back the accumulated text.
    pub fn run(self, events: &Vec<PositionedEvent>) -> (r: String)
        ensures
            r@ == self.source@ + md_fold(
                events@.map_values(|e: PositionedEvent| e@),
                self.list_order_num,
            ),
    {
        let ghost all = events@.map_values(|e: PositionedEvent| e@);
        let mut w = self;
        let ghost base = w.source@;
        let n = events.len();
        let mut i: usize = 0;
        proof {
            assert(all.skip(0) =~= all);
        }
        while i < n
            invariant
                n == events@.len(),
                all == events@.map_values(|e: PositionedEvent| e@),
                i <= n,
                base + md_fold(all, self.list_order_num) == w.source@ + md_fold(
                    all.skip(i as int),
                    w.list_order_num,
                ),
                base == self.source@,
            decreases n - i,
        {
            let ghost rem = all.skip(i as int);
            let ghost pre = w.source@;
            let ghost ln0 = w.list_order_num;
            proof {
                assert(rem[0] == all[i as int]);
                assert(rem.drop_first() =~= all.skip(i + 1));
            }
            w.write_event(&events[i].event);
            proof {
                assert(base + md_fold(all, self.list_order_num) =~= w.source@ + md_fold(
                    all.skip(i + 1),
                    w.list_order_num,
                ));
            }
            i += 1;
        }
        proof {
            assert(all.skip(n as int) =~= Seq::<PositionedEventModel>::empty());
            assert(w.source@ =~= base + md_fold(all, self.list_order_num));
        }
        w.source
    }
}

/// Write an event sequence to markdown text, starting from a fresh
/// writer.
pub fn render_markdown(events: &Vec<PositionedEvent>) -> (r: String)
    ensures
        r@ == md_fold(events@.map_values(|e: PositionedEvent| e@), None::<u64>),
{
    let w = MarkdownWriter::new();
    w.run(events)
}

// ------------------------------------------------------------------
// The event-to-notebook writer.
// ------------------------------------------------------------------

/// What one cell of the regenerated notebook holds.
#[verifier::ext_equal]
pub enum NotebookCellModel {
    /// A markdown cell: the markdown text of a run of events outside
    /// code blocks.
    Markdown(Seq<char>),
    /// A code cell: the gathered text of one fenced code block.
    Code(Seq<char>),
}

/// The cells an event sequence regenerates: runs of events outside code
/// blocks become markdown cells (written as the markdown writer writes
/// them), each fenced block becomes a code cell of its text, and empty
/// markdown runs produce no cell.
pub open spec fn nb_fold(
    events: Seq<PositionedEventModel>,
    in_code: bool,
    md: Seq<char>,
    ln: Option<u64>,
    src: Seq<char>,
    cells: Seq<NotebookCellModel>,
) -> Seq<NotebookCellModel>
    decreases events.len(),
{
    if events.len() == 0 {
        if in_code {
            cells.push(NotebookCellModel::Code(src))
        } else if md.len() > 0 {
            cells.push(NotebookCellModel::Markdown(md))
        } else {
            cells
        }
    } else {
        let e = events[0].event;
        let rest = events.drop_first();
        match e {
            SemanticEvent::Start(BlockKind::CodeBlock(_)) => nb_fold(
                rest,
                true,
                Seq::empty(),
                ln,
                Seq::empty(),
                if md.len() > 0 {
                    cells.push(NotebookCellModel::Markdown(md))
                } else {
                    cells
                },
            ),
            SemanticEvent::End(BlockKind::CodeBlock(_)) => {
                if in_code {
                    nb_fold(
                        rest,
                        false,
                        Seq::empty(),
                        ln,
                        Seq::empty(),
                        cells.push(NotebookCellModel::Code(src)),
                    )
                } else {
                    nb_fold(rest, false, md + event_text(e, ln), event_state(e, ln), src, cells)
                }
            },
            SemanticEvent::Text(t) => {
                if in_code {
                    nb_fold(rest, true, md, ln, src + t, cells)
                } else {
                    nb_fold(rest, false, md + event_text(e, ln), event_state(e, ln), src, cells)
                }
            },
            _ => {
                if in_code {
                    nb_fold(rest, in_code, md, ln, src, cells)
                } else {
                    nb_fold(rest, false, md + event_text(e, ln), event_state(e, ln), src, cells)
                }
            },
        }
    }
}

/// The cells the whole sequence regenerates.
pub open spec fn nb_cells_spec(events: Seq<PositionedEventModel>) -> Seq<NotebookCellModel> {
    nb_fold(events, false, Seq::empty(), None, Seq::empty(), Seq::empty())
}

/// A regenerated cell carries exactly what its model says: markdown
/// cells the markdown text, code cells the block's text with no outputs
/// and no execution count, both with empty metadata.
pub open spec fn nb_cell_matches(m: NotebookCellModel, c: crate::notebook::Cell) -> bool {
    match m {
        NotebookCellModel::Markdown(t) => c matches crate::notebook::Cell::Markdown {
            common,
        } && common.source@ == t,
        NotebookCellModel::Code(src) => c matches crate::notebook::Cell::Code {
            common,
            execution_count,
            outputs,
        } && common.source@ == src && execution_count is None && outputs@.len() == 0,
    }
}

fn empty_cell_meta() -> (r: crate::notebook::CellMeta)
    ensures
        r.collapsed is None,
        r.language_id is None,
{
    crate::notebook::CellMeta {
        collapsed: None,
        deletable: None,
        format: None,
        name: None,
        tags: None,
        language_id: None,
    }
}

/// Regenerate a notebook from an event sequence: markdown runs become
/// markdown cells, fenced code blocks become code cells.
pub fn render_notebook(events: &Vec<PositionedEvent>) -> (nb: crate::notebook::Notebook)
    ensures
        nb.metadata.kernelspec is None,
        nb.nbformat == 4,
        nb.nbformat_minor == 5,
        nb.cells@.len() == nb_cells_spec(events@.map_values(|e: PositionedEvent| e@)).len(),
        forall|i: int|
            0 <= i < nb.cells@.len() ==> nb_cell_matches(
                nb_cells_spec(events@.map_values(|e: PositionedEvent| e@))[i],
                #[trigger] nb.cells@[i],
            ),
{
    let ghost all = events@.map_values(|e: PositionedEvent| e@);
    let ghost target = nb_cells_spec(all);
    let n = events.len();
    let mut i: usize = 0;
    let mut in_code = false;
    let mut w = MarkdownWriter::new();
    let mut src = String::new();
    let mut cells: Vec<crate::notebook::Cell> = Vec::new();
    let ghost mut cm: Seq<NotebookCellModel> = Seq::empty();
    proof {
        assert(all.skip(0) =~= all);
    }
    while i < n
        invariant
            n == events@.len(),
            all == events@.map_values(|e: PositionedEvent| e@),
            i <= n,
            target == nb_cells_spec(all),
            target == nb_fold(
                all.skip(i as int),
                in_code,
                w.source@,
                w.list_order_num,
                src@,
                cm,
            ),
            cells@.len() == cm.len(),
            forall|j: int|
                0 <= j < cm.len() ==> #[trigger] nb_cell_matches(cm[j], cells@[j]),
        decreases n - i,
    {
        let ghost rem = all.skip(i as int);
        proof {
            assert(rem[0] == all[i as int]);
            assert(rem.drop_first() =~= all.skip(i + 1));
        }
        let is_code_start = match &events[i].event {
            SemanticEvent::Start(BlockKind::CodeBlock(_)) => true,
            _ => false,
        };
        let is_code_end = match &events[i].event {
            SemanticEvent::End(BlockKind::CodeBlock(_)) => true,
            _ => false,
        };
        if is_code_start {
            let ln_keep = w.list_order_num;
            if w.source.as_str().unicode_len() > 0 {
                let ghost md_text = w.source@;
                let text = w.source;
                cells.push(
                    crate::notebook::Cell::Markdown {
                        common: crate::notebook::CellCommon {
                            metadata: empty_cell_meta(),
                            source: text,
                        },
                    },
                );
                proof {
                    cm = cm.push(NotebookCellModel::Markdown(md_text));
                }
            }
            w = MarkdownWriter { source: String::new(), list_order_num: ln_keep };
            in_code = true;
            src = String::new();
        } else if is_code_end && in_code {
            let done = src;
            src = String::new();
            cells.push(
                crate::notebook::Cell::Code {
                    common: crate::notebook::CellCommon {
                        metadata: empty_cell_meta(),
                        source: done,
                    },
                    execution_count: None,
                    outputs: Vec::new(),
                },
            );
            proof {
                cm = cm.push(NotebookCellModel::Code(done@));
            }
            in_code = false;
            w = MarkdownWriter { source: String::new(), list_order_num: w.list_order_num };
        } else if in_code {
            match &events[i].event {
                SemanticEvent::Text(t) => {
                    src.append(t.as_str());
                },
                _ => {},
            }
        } else {
            w.write_event(&events[i].event);
        }
        i += 1;
    }
    proof {
        assert(all.skip(n as int) =~= Seq::<PositionedEventModel>::empty());
    }
    if in_code {
        cells.push(
            crate::notebook::Cell::Code {
                common: crate::notebook::CellCommon {
                    metadata: empty_cell_meta(),
                    source: src,
                },
                execution_count: None,
                outputs: Vec::new(),
            },
        );
        proof {
            cm = cm.push(NotebookCellModel::Code(src@));
        }
    } else if w.source.as_str().unicode_len() > 0 {
        cells.push(
            crate::notebook::Cell::Markdown {
                common: crate::notebook::CellCommon {
                    metadata: empty_cell_meta(),
                    source: w.source,
                },
            },
        );
        proof {
            cm = cm.push(NotebookCellModel::Markdown(w.source@));
        }
    }
    crate::notebook::Notebook {
        metadata: crate::notebook::NotebookMeta { kernelspec: None },
        nbformat: 4,
        nbformat_minor: 5,
        cells,
    }
}

// ------------------------------------------------------------------
// The event-to-HTML writer, through the markup collaborator.
// ------------------------------------------------------------------

/// The HTML text the markup grammar writes for an event sequence: a
/// function of the events alone.
pub uninterp spec fn html_of_events(events: Seq<PositionedEventModel>) -> Seq<char>;

/// The markup collaborator's heading-level type, declared so the
/// conversion helpers can name it.
#[verifier::external_type_specification]
#[verifier::external_body]
pub struct ExHeadingLevel(HeadingLevel);

/// The markup collaborator's block-tag type.
#[verifier::external_type_specification]
#[verifier::external_body]
pub struct ExTag<'a>(Tag<'a>);

/// The markup collaborator's event type.
#[verifier::external_type_specification]
#[verifier::external_body]
pub struct ExEvent<'a>(Event<'a>);

/// Relies on pulldown_cmark's `HeadingLevel`: the level for a heading
/// depth, every depth outside one through five collapsing to six.
#[verifier::external_body]
fn pd_heading(level: u32) -> pulldown_cmark::HeadingLevel {
    match level {
        1 => HeadingLevel::H1,
        2 => HeadingLevel::H2,
        3 => HeadingLevel::H3,
        4 => HeadingLevel::H4,
        5 => HeadingLevel::H5,
        _ => HeadingLevel::H6,
    }
}

/// Relies on pulldown_cmark's `Tag::Heading`: a heading with no
/// fragment and no classes.
#[verifier::external_body]
fn pd_heading_tag(level: u32) -> pulldown_cmark::Tag<'static> {
    Tag::Heading(pd_heading(level), None, Vec::new())
}

/// Relies on pulldown_cmark's `Tag::CodeBlock`: a fenced block with the
/// given info string.
#[verifier::external_body]
fn pd_fenced(info: &String) -> pulldown_cmark::Tag<'static> {
    Tag::CodeBlock(CodeBlockKind::Fenced(CowStr::from(info.clone())))
}

/// Relies on pulldown_cmark's `Tag::FootnoteDefinition`.
#[verifier::external_body]
fn pd_footnote(name: &String) -> pulldown_cmark::Tag<'static> {
    Tag::FootnoteDefinition(CowStr::from(name.clone()))
}

/// Relies on pulldown_cmark's `Tag::Link`: an inline link.
#[verifier::external_body]
fn pd_link(dest: &String, title: &String) -> pulldown_cmark::Tag<'static> {
    Tag::Link(LinkType::Inline, CowStr::from(dest.clone()), CowStr::from(title.clone()))
}

/// Relies on pulldown_cmark's `Tag::Image`: an inline image.
#[verifier::external_body]
fn pd_image(dest: &String, title: &String) -> pulldown_cmark::Tag<'static> {
    Tag::Image(LinkType::Inline, CowStr::from(dest.clone()), CowStr::from(title.clone()))
}

/// Relies on pulldown_cmark's `Tag`: each block kind converted
/// one-for-one, fields moved.
#[verifier::external_body]
fn pd_tag(kind: &BlockKind<String>) -> pulldown_cmark::Tag<'static> {
    match kind {
        BlockKind::Paragraph => Tag::Paragraph, BlockKind::BlockQuote => Tag::BlockQuote,
        BlockKind::Heading(l) => pd_heading_tag(*l),
        BlockKind::CodeBlock(i) => pd_fenced(i),
        BlockKind::IndentedCode => Tag::CodeBlock(CodeBlockKind::Indented),
        BlockKind::List(n) => Tag::List(*n), BlockKind::Item => Tag::Item,
        BlockKind::FootnoteDefinition(n) => pd_footnote(n),
        BlockKind::Table => Tag::Table(Vec::new()), BlockKind::TableHead => Tag::TableHead,
        BlockKind::TableRow => Tag::TableRow, BlockKind::TableCell => Tag::TableCell,
        BlockKind::Emphasis => Tag::Emphasis, BlockKind::Strong => Tag::Strong,
        BlockKind::Strikethrough => Tag::Strikethrough,
        BlockKind::Link(d, t) => pd_link(d, t),
        BlockKind::Image(d, t) => pd_image(d, t),
    }
}

/// Relies on pulldown_cmark's `Event`: each event converted one-for-one,
/// fields moved.
#[verifier::external_body]
fn pd_event(event: &SemanticEvent<String>) -> pulldown_cmark::Event<'static> {
    match event {
        SemanticEvent::Start(k) => Event::Start(pd_tag(k)),
        SemanticEvent::End(k) => Event::End(pd_tag(k)),
        SemanticEvent::Text(t) => Event::Text(CowStr::from(t.clone())),
        SemanticEvent::Code(t) => Event::Code(CowStr::from(t.clone())),
        SemanticEvent::Html(t) => Event::Html(CowStr::from(t.clone())),
        SemanticEvent::FootnoteReference(t) => Event::FootnoteReference(CowStr::from(t.clone())),
        SemanticEvent::SoftBreak => Event::SoftBreak, SemanticEvent::HardBreak => Event::HardBreak,
        SemanticEvent::Rule => Event::Rule,
        SemanticEvent::TaskListMarker(c) => Event::TaskListMarker(*c),
    }
}

/// Relies on pulldown_cmark's `html::push_html`: the HTML serialization
/// of the event sequence, each event converted one-for-one on the way.
#[verifier::external_body]
pub fn events_to_html(events: &Vec<PositionedEvent>) -> (r: String)
    ensures
        r@ == html_of_events(events@.map_values(|e: PositionedEvent| e@)),
{
    let mut out = String::new();
    pulldown_cmark::html::push_html(&mut out, events.iter().map(|e| pd_event(&e.event)));
    out
}

/// A serializer from the event form of a document back to text.
pub trait Renderer {
    /// Write the document's events to text.
    fn render(&self, doc: &EventDocument) -> String;
}

/// The markdown renderer: serializes the event sequence back to
/// markdown.
pub struct MarkdownRenderer;

impl Renderer for MarkdownRenderer {
    fn render(&self, doc: &EventDocument) -> String {
        render_markdown(&doc.content)
    }
}

/// The HTML renderer: serializes the event sequence through the markup
/// collaborator.
pub struct HtmlRenderer;

impl Renderer for HtmlRenderer {
    fn render(&self, doc: &EventDocument) -> String {
        events_to_html(&doc.content)
    }
}

impl HtmlRenderer {
    /// The HTML of a document's events.
    pub fn render_html(&self, doc: &EventDocument) -> (r: String)
        ensures
            r@ == html_of_events(doc@.content),
    {
        events_to_html(&doc.content)
    }
}

/// The notebook renderer: regenerates notebook structure from the event
/// sequence.
pub struct NotebookRenderer;

impl NotebookRenderer {
    /// The regenerated notebook of a document.
    pub fn render(&self, doc: &EventDocument) -> (nb: crate::notebook::Notebook)
        ensures
            nb.cells@.len() == nb_cells_spec(doc@.content).len(),
    {
        render_notebook(&doc.content)
    }
}

/// The renderers available per output extension; the set is closed and
/// known at build time.
pub enum RendererKind {
    Markdown(MarkdownRenderer),
    Notebook(NotebookRenderer),
    Html(HtmlRenderer),
}

/// Maps output extensions to their renderers.
pub struct RenderExtensionConfiguration {
    /// The mapping entries, in insertion order.
    pub mapping: Vec<(String, RendererKind)>,
}

impl RenderExtensionConfiguration {
    /// An empty mapping.
    pub fn new() -> (r: RenderExtensionConfiguration)
        ensures
            r.mapping@.len() == 0,
    {
        RenderExtensionConfiguration { mapping: Vec::new() }
    }

    /// Register a renderer for an extension; a later registration for
    /// the same extension wins.
    pub fn add_mapping(&mut self, extension: &str, parser: RendererKind)
        ensures
            final(self).mapping@.len() == old(self).mapping@.len() + 1,
            final(self).mapping@.last().0@ == extension@,
            final(self).mapping@.last().1 == parser,
            final(self).mapping@.drop_last() == old(self).mapping@,
    {
        self.mapping.push((extension.to_owned(), parser));
    }

    /// Index of the most recently added entry for an extension.
    pub open spec fn lookup_spec(entries: Seq<(String, RendererKind)>, ext: Seq<char>) -> Option<
        int,
    >
        decreases entries.len(),
    {
        if entries.len() == 0 {
            None
        } else if entries.last().0@ == ext {
            Some(entries.len() - 1)
        } else {
            Self::lookup_spec(entries.drop_last(), ext)
        }
    }

    /// The renderer registered for an extension: the most recently added
    /// entry with that extension, if any.
    pub fn get_parser(&self, extension: &str) -> (r: Option<&RendererKind>)
        ensures
            (match Self::lookup_spec(self.mapping@, extension@) {
                Some(idx) => r matches Some(k) && k == &self.mapping@[idx].1,
                None => r is None,
            }),
    {
        let m = self.mapping.len();
        let mut k: usize = m;
        proof {
            assert(self.mapping@.take(m as int) =~= self.mapping@);
        }
        while k > 0
            invariant
                m == self.mapping@.len(),
                k <= m,
                Self::lookup_spec(self.mapping@, extension@) == Self::lookup_spec(
                    self.mapping@.take(k as int),
                    extension@,
                ),
            decreases k,
        {
            proof {
                assert(self.mapping@.take(k as int).last() == self.mapping@[k - 1]);
                assert(self.mapping@.take(k as int).drop_last() =~= self.mapping@.take(
                    k - 1,
                ));
            }
            if str_eq(self.mapping[k - 1].0.as_str(), extension) {
                return Some(&self.mapping[k - 1].1);
            }
            k -= 1;
        }
        proof {
            assert(self.mapping@.take(0) =~= Seq::<(String, RendererKind)>::empty());
        }
        None
    }
}

} // verus!
