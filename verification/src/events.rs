//! The normalized event representation: a document is an ordered sequence
//! of markup events, each carrying the source position it came from.
//!
//! The payload type is generic: executable code holds `String` payloads,
//! contracts speak of the same events with `Seq<char>` payloads.

use vstd::prelude::*;

verus! {

/// A location in the source text, carried for diagnostics only.
#[derive(Debug, Clone, Copy, PartialEq, Eq, Structural)]
pub struct DocPos {
    pub line: usize,
    pub column: usize,
}

impl DocPos {
    /// The position used where no better one is known.
    pub fn zero() -> (r: DocPos)
        ensures
            r.line == 0 && r.column == 0,
    {
        DocPos { line: 0, column: 0 }
    }
}

/// The kind of a block-level markup element.
#[derive(Debug, PartialEq, Eq)]
pub enum BlockKind<S> {
    Paragraph,
    /// A heading with its level, 1 through 6.
    Heading(u32),
    BlockQuote,
    /// A fenced code block with its info string.
    CodeBlock(S),
    /// An indented code block.
    IndentedCode,
    /// A list; an ordered list carries its first number.
    List(Option<u64>),
    Item,
    FootnoteDefinition(S),
    Table,
    TableHead,
    TableRow,
    TableCell,
    Emphasis,
    Strong,
    Strikethrough,
    /// A link with destination and title.
    Link(S, S),
    /// An image with destination and title.
    Image(S, S),
}

/// One markup event.
#[derive(Debug, PartialEq, Eq)]
pub enum SemanticEvent<S> {
    Start(BlockKind<S>),
    End(BlockKind<S>),
    /// A run of text.
    Text(S),
    /// An inline code span.
    Code(S),
    /// Raw markup passed through untouched.
    Html(S),
    FootnoteReference(S),
    SoftBreak,
    HardBreak,
    /// A thematic break.
    Rule,
    TaskListMarker(bool),
}

pub open spec fn kind_model(k: BlockKind<String>) -> BlockKind<Seq<char>> {
    match k {
        BlockKind::Paragraph => BlockKind::Paragraph,
        BlockKind::Heading(l) => BlockKind::Heading(l),
        BlockKind::BlockQuote => BlockKind::BlockQuote,
        BlockKind::CodeBlock(s) => BlockKind::CodeBlock(s@),
        BlockKind::IndentedCode => BlockKind::IndentedCode,
        BlockKind::List(n) => BlockKind::List(n),
        BlockKind::Item => BlockKind::Item,
        BlockKind::FootnoteDefinition(s) => BlockKind::FootnoteDefinition(s@),
        BlockKind::Table => BlockKind::Table,
        BlockKind::TableHead => BlockKind::TableHead,
        BlockKind::TableRow => BlockKind::TableRow,
        BlockKind::TableCell => BlockKind::TableCell,
        BlockKind::Emphasis => BlockKind::Emphasis,
        BlockKind::Strong => BlockKind::Strong,
        BlockKind::Strikethrough => BlockKind::Strikethrough,
        BlockKind::Link(d, t) => BlockKind::Link(d@, t@),
        BlockKind::Image(d, t) => BlockKind::Image(d@, t@),
    }
}

pub open spec fn event_model(e: SemanticEvent<String>) -> SemanticEvent<Seq<char>> {
    match e {
        SemanticEvent::Start(k) => SemanticEvent::Start(kind_model(k)),
        SemanticEvent::End(k) => SemanticEvent::End(kind_model(k)),
        SemanticEvent::Text(s) => SemanticEvent::Text(s@),
        SemanticEvent::Code(s) => SemanticEvent::Code(s@),
        SemanticEvent::Html(s) => SemanticEvent::Html(s@),
        SemanticEvent::FootnoteReference(s) => SemanticEvent::FootnoteReference(s@),
        SemanticEvent::SoftBreak => SemanticEvent::SoftBreak,
        SemanticEvent::HardBreak => SemanticEvent::HardBreak,
        SemanticEvent::Rule => SemanticEvent::Rule,
        SemanticEvent::TaskListMarker(b) => SemanticEvent::TaskListMarker(b),
    }
}

impl View for SemanticEvent<String> {
    type V = SemanticEvent<Seq<char>>;

    open spec fn view(&self) -> SemanticEvent<Seq<char>> {
        event_model(*self)
    }
}

/// An event together with the source position it came from.
#[derive(Debug, PartialEq, Eq)]
pub struct PositionedEvent {
    pub event: SemanticEvent<String>,
    pub pos: DocPos,
}

#[verifier::ext_equal]
pub struct PositionedEventModel {
    pub event: SemanticEvent<Seq<char>>,
    pub pos: DocPos,
}

impl View for PositionedEvent {
    type V = PositionedEventModel;

    open spec fn view(&self) -> PositionedEventModel {
        PositionedEventModel { event: self.event@, pos: self.pos }
    }
}

/// Document-level metadata from the front matter: an optional title and
/// the document type, which is `text` unless the front matter names one.
#[derive(Debug, PartialEq, Eq)]
pub struct FrontMatter {
    pub title: Option<String>,
    pub doc_type: String,
}

#[verifier::ext_equal]
pub struct FrontMatterModel {
    pub title: Option<Seq<char>>,
    pub doc_type: Seq<char>,
}

impl View for FrontMatter {
    type V = FrontMatterModel;

    open spec fn view(&self) -> FrontMatterModel {
        FrontMatterModel {
            title: match self.title {
                Some(ref t) => Some(t@),
                None => None,
            },
            doc_type: self.doc_type@,
        }
    }
}

/// A whole document in normalized form: its metadata and its ordered,
/// positioned events.
#[derive(Debug)]
pub struct EventDocument {
    pub metadata: FrontMatter,
    pub content: Vec<PositionedEvent>,
}

#[verifier::ext_equal]
pub struct EventDocumentModel {
    pub metadata: FrontMatterModel,
    pub content: Seq<PositionedEventModel>,
}

impl View for EventDocument {
    type V = EventDocumentModel;

    open spec fn view(&self) -> EventDocumentModel {
        EventDocumentModel {
            metadata: self.metadata@,
            content: self.content@.map_values(|e: PositionedEvent| e@),
        }
    }
}

impl Clone for BlockKind<String> {
    /// An exact copy.
    fn clone(&self) -> (r: Self)
        ensures
            r == *self,
    {
        match self {
            BlockKind::Paragraph => BlockKind::Paragraph,
            BlockKind::Heading(l) => BlockKind::Heading(*l),
            BlockKind::BlockQuote => BlockKind::BlockQuote,
            BlockKind::CodeBlock(s) => BlockKind::CodeBlock(s.clone()),
            BlockKind::IndentedCode => BlockKind::IndentedCode,
            BlockKind::List(n) => BlockKind::List(*n),
            BlockKind::Item => BlockKind::Item,
            BlockKind::FootnoteDefinition(s) => BlockKind::FootnoteDefinition(s.clone()),
            BlockKind::Table => BlockKind::Table,
            BlockKind::TableHead => BlockKind::TableHead,
            BlockKind::TableRow => BlockKind::TableRow,
            BlockKind::TableCell => BlockKind::TableCell,
            BlockKind::Emphasis => BlockKind::Emphasis,
            BlockKind::Strong => BlockKind::Strong,
            BlockKind::Strikethrough => BlockKind::Strikethrough,
            BlockKind::Link(d, t) => BlockKind::Link(d.clone(), t.clone()),
            BlockKind::Image(d, t) => BlockKind::Image(d.clone(), t.clone()),
        }
    }
}

impl Clone for SemanticEvent<String> {
    /// An exact copy.
    fn clone(&self) -> (r: Self)
        ensures
            r == *self,
    {
        match self {
            SemanticEvent::Start(k) => SemanticEvent::Start(k.clone()),
            SemanticEvent::End(k) => SemanticEvent::End(k.clone()),
            SemanticEvent::Text(s) => SemanticEvent::Text(s.clone()),
            SemanticEvent::Code(s) => SemanticEvent::Code(s.clone()),
            SemanticEvent::Html(s) => SemanticEvent::Html(s.clone()),
            SemanticEvent::FootnoteReference(s) => SemanticEvent::FootnoteReference(s.clone()),
            SemanticEvent::SoftBreak => SemanticEvent::SoftBreak,
            SemanticEvent::HardBreak => SemanticEvent::HardBreak,
            SemanticEvent::Rule => SemanticEvent::Rule,
            SemanticEvent::TaskListMarker(b) => SemanticEvent::TaskListMarker(*b),
        }
    }
}

impl Clone for PositionedEvent {
    /// An exact copy.
    fn clone(&self) -> (r: Self)
        ensures
            r == *self,
    {
        PositionedEvent { event: self.event.clone(), pos: self.pos }
    }
}

impl Clone for FrontMatter {
    /// An exact copy.
    fn clone(&self) -> (r: Self)
        ensures
            r == *self,
    {
        FrontMatter {
            title: match &self.title {
                Some(t) => Some(t.clone()),
                None => None,
            },
            doc_type: self.doc_type.clone(),
        }
    }
}

impl Clone for EventDocument {
    /// An exact copy.
    fn clone(&self) -> (r: Self)
        ensures
            r.metadata == self.metadata,
            r.content@ == self.content@,
    {
        let mut content: Vec<PositionedEvent> = Vec::new();
        let mut i: usize = 0;
        while i < self.content.len()
            invariant
                i <= self.content@.len(),
                content@ == self.content@.subrange(0, i as int),
            decreases self.content@.len() - i,
        {
            content.push(self.content[i].clone());
            proof {
                assert(content@ =~= self.content@.subrange(0, i + 1));
            }
            i += 1;
        }
        proof {
            assert(content@ =~= self.content@);
        }
        EventDocument { metadata: self.metadata.clone(), content }
    }
}

} // verus!
