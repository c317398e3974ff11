//! The notebook structure: cells with sources and outputs, modeled as
//! plain values. Reading and writing the JSON container is the loader's
//! business; the logic here turns cells and outputs into events, derives
//! the placeholder notebook, and decides which cell carries the front
//! matter.

use vstd::prelude::*;
use vstd::string::*;
use crate::events::SemanticEvent;
use crate::events::BlockKind;
use crate::split::CodeParseError;
use crate::split::CodeParseErrorModel;
use crate::split::parse_code_string;
use crate::split::parse_spec;
use crate::split::placeholder_spec;
use crate::text::str_eq;
use crate::text::push_char;

verus! {

broadcast use vstd::string::group_string_axioms;

/// Cell-level metadata, as plain values.
#[derive(Debug, Clone, PartialEq, Eq)]
pub struct CellMeta {
    pub collapsed: Option<bool>,
    pub deletable: Option<bool>,
    pub format: Option<String>,
    pub name: Option<String>,
    pub tags: Option<Vec<String>>,
    /// The editor-integration language tag of the cell, when present.
    pub language_id: Option<String>,
}

/// Notebook-level metadata; the kernel spec is carried as its raw text.
#[derive(Debug, Clone, PartialEq, Eq)]
pub struct NotebookMeta {
    pub kernelspec: Option<String>,
}

/// What every cell has: its metadata and its source text.
#[derive(Debug, Clone, PartialEq, Eq)]
pub struct CellCommon {
    pub metadata: CellMeta,
    pub source: String,
}

/// One output value of a code cell, keyed by its MIME type.
#[derive(Debug, Clone, PartialEq, Eq)]
pub enum OutputValue {
    Plain(String),
    /// A PNG image, base64-encoded.
    Image(String),
    Svg(String),
    /// JSON data, as its serialized text.
    Json(String),
    Html(String),
    Javascript(String),
}

/// One output of a code cell.
#[derive(Debug, Clone, PartialEq, Eq)]
pub enum CellOutput {
    Stream { name: String, text: String },
    Data { execution_count: Option<i64>, data: Vec<OutputValue> },
    Error { ename: String, evalue: String, traceback: Vec<String> },
}

/// One cell of a notebook.
#[derive(Debug, Clone, PartialEq, Eq)]
pub enum Cell {
    Markdown { common: CellCommon },
    Code { common: CellCommon, execution_count: Option<i64>, outputs: Vec<CellOutput> },
    Raw { common: CellCommon },
}

/// A whole notebook.
#[derive(Debug, Clone, PartialEq, Eq)]
pub struct Notebook {
    pub metadata: NotebookMeta,
    pub nbformat: i64,
    pub nbformat_minor: i64,
    pub cells: Vec<Cell>,
}

// ------------------------------------------------------------------
// Events from outputs.
// ------------------------------------------------------------------

/// The events one output value becomes: plain text as a fenced
/// `plaintext` block, images and scripts as raw markup, JSON as text.
pub open spec fn value_events(v: OutputValue) -> Seq<SemanticEvent<Seq<char>>> {
    match v {
        OutputValue::Plain(t) => seq![
            SemanticEvent::Start(BlockKind::CodeBlock("plaintext"@)),
            SemanticEvent::Text(t@),
            SemanticEvent::End(BlockKind::CodeBlock("plaintext"@)),
        ],
        OutputValue::Image(t) => seq![
            SemanticEvent::Html("<img src=\"data:image/png;base64,"@ + t@ + "\"></img>"@),
        ],
        OutputValue::Svg(t) => seq![
            SemanticEvent::Html(
                "<img><svg width=\"640px\" height=\"480px\">"@ + t@ + "</svg></img>"@,
            ),
        ],
        OutputValue::Json(t) => seq![SemanticEvent::Text(t@)],
        OutputValue::Html(t) => seq![SemanticEvent::Html(t@)],
        OutputValue::Javascript(t) => seq![
            SemanticEvent::Html("<script>"@ + t@ + "</script>"@),
        ],
    }
}

pub open spec fn values_events(vs: Seq<OutputValue>) -> Seq<SemanticEvent<Seq<char>>>
    decreases vs.len(),
{
    if vs.len() == 0 {
        Seq::empty()
    } else {
        value_events(vs[0]) + values_events(vs.drop_first())
    }
}

/// The events one cell output becomes: a stream is wrapped in an alert
/// box, data yields its values' events in order, an error a fixed text.
pub open spec fn output_events(o: CellOutput) -> Seq<SemanticEvent<Seq<char>>> {
    match o {
        CellOutput::Stream { name: _, text } => seq![
            SemanticEvent::Html(
                "<div class=\"alert alert-info\"><p>"@ + text@ + "</p></div>"@,
            ),
        ],
        CellOutput::Data { execution_count: _, data } => values_events(data@),
        CellOutput::Error { .. } => seq![SemanticEvent::Text("Error"@)],
    }
}

impl CellOutput {
    /// The events this output displays as.
    pub fn to_events(&self) -> (r: Vec<SemanticEvent<String>>)
        ensures
            r@.map_values(|e: SemanticEvent<String>| e@) == output_events(*self),
    {
        let mut r: Vec<SemanticEvent<String>> = Vec::new();
        match self {
            CellOutput::Stream { name: _, text } => {
                let mut h = String::from_str("<div class=\"alert alert-info\"><p>");
                h.append(text.as_str());
                h.append("</p></div>");
                r.push(SemanticEvent::Html(h));
                proof {
                    assert(r@.map_values(|e: SemanticEvent<String>| e@) =~= output_events(
                        *self,
                    ));
                }
            },
            CellOutput::Data { execution_count: _, data } => {
                let n = data.len();
                let ghost vs = data@;
                let mut i: usize = 0;
                proof {
                    assert(vs.skip(0) =~= vs);
                    assert(r@.map_values(|e: SemanticEvent<String>| e@) + values_events(
                        vs.skip(0),
                    ) =~= values_events(vs));
                }
                while i < n
                    invariant
                        n == data@.len(),
                        vs == data@,
                        i <= n,
                        r@.map_values(|e: SemanticEvent<String>| e@) + values_events(
                            vs.skip(i as int),
                        ) == values_events(vs),
                    decreases n - i,
                {
                    let ghost rem = vs.skip(i as int);
                    let ghost r0 = r@.map_values(|e: SemanticEvent<String>| e@);
                    proof {
                        assert(rem[0] == vs[i as int]);
                        assert(rem.drop_first() =~= vs.skip(i + 1));
                    }
                    match &data[i] {
                        OutputValue::Plain(t) => {
                            r.push(
                                SemanticEvent::Start(
                                    BlockKind::CodeBlock(String::from_str("plaintext")),
                                ),
                            );
                            r.push(SemanticEvent::Text(t.clone()));
                            r.push(
                                SemanticEvent::End(
                                    BlockKind::CodeBlock(String::from_str("plaintext")),
                                ),
                            );
                        },
                        OutputValue::Image(t) => {
                            let mut h = String::from_str("<img src=\"data:image/png;base64,");
                            h.append(t.as_str());
                            h.append("\"></img>");
                            r.push(SemanticEvent::Html(h));
                        },
                        OutputValue::Svg(t) => {
                            let mut h = String::from_str(
                                "<img><svg width=\"640px\" height=\"480px\">",
                            );
                            h.append(t.as_str());
                            h.append("</svg></img>");
                            r.push(SemanticEvent::Html(h));
                        },
                        OutputValue::Json(t) => {
                            r.push(SemanticEvent::Text(t.clone()));
                        },
                        OutputValue::Html(t) => {
                            r.push(SemanticEvent::Html(t.clone()));
                        },
                        OutputValue::Javascript(t) => {
                            let mut h = String::from_str("<script>");
                            h.append(t.as_str());
                            h.append("</script>");
                            r.push(SemanticEvent::Html(h));
                        },
                    }
                    proof {
                        assert(r@.map_values(|e: SemanticEvent<String>| e@) =~= r0
                            + value_events(rem[0]));
                        assert(r@.map_values(|e: SemanticEvent<String>| e@) + values_events(
                            vs.skip(i + 1),
                        ) =~= values_events(vs));
                    }
                    i += 1;
                }
                proof {
                    assert(vs.skip(n as int) =~= Seq::<OutputValue>::empty());
                    assert(r@.map_values(|e: SemanticEvent<String>| e@) =~= values_events(vs));
                }
            },
            CellOutput::Error { .. } => {
                r.push(SemanticEvent::Text(String::from_str("Error")));
                proof {
                    assert(r@.map_values(|e: SemanticEvent<String>| e@) =~= output_events(
                        *self,
                    ));
                }
            },
        }
        r
    }
}

// ------------------------------------------------------------------
// The placeholder notebook.
// ------------------------------------------------------------------

/// A code cell whose source the code-task grammar refuses, taking the
/// cell's index as its block identity.
pub open spec fn cell_fails(c: Cell, idx: int) -> bool {
    match c {
        Cell::Code { common, .. } => parse_spec(common.source@, idx) is Err,
        _ => false,
    }
}

/// How a cell of the placeholder notebook relates to the source cell:
/// a code cell keeps its metadata and execution count, its source
/// becomes the placeholder of its parsed task definition, and its
/// outputs are dropped; any other cell is kept as it is.
pub open spec fn cell_placeholder_rel(a: Cell, b: Cell, idx: int) -> bool {
    match a {
        Cell::Code { common, execution_count, outputs: _ } => {
            &&& parse_spec(common.source@, idx) matches Ok(segs)
            &&& b matches Cell::Code { common: c2, execution_count: ec2, outputs: o2 } && {
                &&& parse_spec(common.source@, idx) == Ok::<_, CodeParseErrorModel>(segs)
                &&& c2.source@ == placeholder_spec(segs)
                &&& c2.metadata == common.metadata
                &&& ec2 == execution_count
                &&& o2@.len() == 0
            }
        },
        _ => b == a,
    }
}

impl Notebook {
    /// The text that carries the document's front matter, if any: the
    /// first cell's source when that cell is raw, or when it is a code
    /// cell explicitly tagged as YAML.
    pub fn front_matter_source(&self) -> (r: Option<&String>)
        requires
            self.cells@.len() >= 1,
        ensures
            (match self.cells@[0] {
                Cell::Raw { common } => r matches Some(s) && s@ == common.source@,
                Cell::Code { common, .. } => {
                    if common.metadata.language_id matches Some(l) && l@ == "yaml"@ {
                        r matches Some(s) && s@ == common.source@
                    } else {
                        r is None
                    }
                },
                _ => r is None,
            }),
    {
        proof {
            reveal_strlit("yaml");
        }
        match &self.cells[0] {
            Cell::Raw { common } => Some(&common.source),
            Cell::Code { common, .. } => {
                match &common.metadata.language_id {
                    Some(l) => {
                        if str_eq(l.as_str(), "yaml") {
                            Some(&common.source)
                        } else {
                            None
                        }
                    },
                    None => None,
                }
            },
            _ => None,
        }
    }
}

/// Some cell of `cells` can answer `f` with exactly this error.
pub open spec fn cell_map_failed<E, F: Fn(&Cell) -> Result<Cell, E>>(
    f: F,
    cells: Seq<Cell>,
    e: E,
) -> bool {
    exists|i: int|
        0 <= i < cells.len() && #[trigger] call_ensures(f, (&cells[i],), Err::<Cell, E>(e))
}

impl Notebook {
    /// Apply `f` to every cell, keeping the notebook's metadata; the
    /// first failure aborts.
    pub fn map_cell<E, F: Fn(&Cell) -> Result<Cell, E>>(self, f: &F) -> (r: Result<
        Notebook,
        E,
    >)
        requires
            forall|c: Cell| #[trigger] call_requires(*f, (&c,)),
        ensures
            r matches Ok(nb) ==> {
                &&& nb.metadata == self.metadata
                &&& nb.nbformat == self.nbformat
                &&& nb.nbformat_minor == self.nbformat_minor
                &&& nb.cells@.len() == self.cells@.len()
                &&& forall|i: int|
                    0 <= i < self.cells@.len() ==> #[trigger] call_ensures(
                        *f,
                        (&self.cells@[i],),
                        Ok(nb.cells@[i]),
                    )
            },
            r matches Err(e) ==> cell_map_failed(*f, self.cells@, e),
    {
        let Notebook { metadata, nbformat, nbformat_minor, cells } = self;
        let mut old_cells = cells;
        let mut cells: Vec<Cell> = Vec::new();
        let n = old_cells.len();
        let mut i: usize = 0;
        while i < n
            invariant
                forall|c: Cell| #[trigger] call_requires(*f, (&c,)),
                n == self.cells@.len(),
                i + old_cells@.len() == n,
                old_cells@ == self.cells@.skip(i as int),
                cells@.len() == i,
                forall|j: int|
                    0 <= j < i ==> #[trigger] call_ensures(*f, (&self.cells@[j],), Ok(cells@[j])),
            decreases n - i,
        {
            let cell = old_cells.remove(0);
            proof {
                assert(old_cells@ =~= self.cells@.skip(i + 1));
                assert(cell == self.cells@[i as int]);
            }
            match f(&cell) {
                Ok(c) => {
                    cells.push(c);
                },
                Err(e) => {
                    proof {
                        assert(call_ensures(*f, (&self.cells@[i as int],), Err::<Cell, E>(e)));
                        assert(cell_map_failed(*f, self.cells@, e));
                    }
                    return Err(e);
                },
            }
            i += 1;
        }
        Ok(Notebook { metadata, nbformat, nbformat_minor, cells })
    }

    /// Derive the student-facing notebook: every code cell's source is
    /// replaced by its placeholder and its outputs are dropped; the
    /// first malformed code cell aborts with its parse error.
    pub fn placeholder_notebook(self) -> (r: Result<Notebook, CodeParseError>)
        ensures
            r matches Ok(nb) ==> {
                &&& nb.metadata == self.metadata
                &&& nb.nbformat == self.nbformat
                &&& nb.nbformat_minor == self.nbformat_minor
                &&& nb.cells@.len() == self.cells@.len()
                &&& forall|i: int|
                    0 <= i < self.cells@.len() ==> #[trigger] cell_placeholder_rel(
                        self.cells@[i],
                        nb.cells@[i],
                        i,
                    )
            },
            r matches Err(e) ==> (exists|i: int|
                0 <= i < self.cells@.len() && #[trigger] cell_fails(self.cells@[i], i)),
    {
        let Notebook { metadata, nbformat, nbformat_minor, cells } = self;
        let mut old_cells = cells;
        let mut cells: Vec<Cell> = Vec::new();
        let n = old_cells.len();
        let mut i: usize = 0;
        while i < n
            invariant
                n == self.cells@.len(),
                i + old_cells@.len() == n,
                old_cells@ == self.cells@.skip(i as int),
                cells@.len() == i,
                forall|j: int|
                    0 <= j < i ==> #[trigger] cell_placeholder_rel(
                        self.cells@[j],
                        cells@[j],
                        j,
                    ),
            decreases n - i,
        {
            let cell = old_cells.remove(0);
            proof {
                assert(old_cells@ =~= self.cells@.skip(i + 1));
                assert(cell == self.cells@[i as int]);
            }
            match cell {
                Cell::Code { common, execution_count, outputs: _ } => {
                    match parse_code_string(common.source.as_str(), i) {
                        Ok(def) => {
                            let placeholder = def.write_string(false);
                            cells.push(
                                Cell::Code {
                                    common: CellCommon {
                                        metadata: common.metadata,
                                        source: placeholder,
                                    },
                                    execution_count: execution_count,
                                    outputs: Vec::new(),
                                },
                            );
                        },
                        Err(e) => {
                            proof {
                                assert(cell_fails(self.cells@[i as int], i as int));
                            }
                            return Err(e);
                        },
                    }
                },
                other => {
                    cells.push(other);
                },
            }
            i += 1;
        }
        Ok(Notebook { metadata, nbformat, nbformat_minor, cells })
    }
}

/// Double every backslash, as notebook sources are escaped on reading.
pub open spec fn escape_backslashes(s: Seq<char>) -> Seq<char>
    decreases s.len(),
{
    if s.len() == 0 {
        Seq::empty()
    } else {
        (if s[0] == '\\' {
            seq!['\\', '\\']
        } else {
            seq![s[0]]
        }) + escape_backslashes(s.drop_first())
    }
}

/// Escape a cell source read from its line array: every backslash is
/// doubled.
pub fn escape_string_deserialize(source: &str) -> (r: String)
    ensures
        r@ == escape_backslashes(source@),
{
    let n = source.unicode_len();
    let mut r = String::new();
    let mut i: usize = 0;
    proof {
        assert(source@.skip(0) =~= source@);
    }
    while i < n
        invariant
            n == source@.len(),
            i <= n,
            escape_backslashes(source@) == r@ + escape_backslashes(source@.skip(i as int)),
        decreases n - i,
    {
        let ghost rem = source@.skip(i as int);
        let ghost r0 = r@;
        proof {
            assert(rem[0] == source@[i as int]);
            assert(rem.drop_first() =~= source@.skip(i + 1));
        }
        let c = source.get_char(i);
        if c == '\\' {
            push_char(&mut r, '\\');
            push_char(&mut r, '\\');
            proof {
                assert(r@ =~= r0 + seq!['\\', '\\']);
            }
        } else {
            push_char(&mut r, c);
            proof {
                assert(r@ =~= r0 + seq![source@[i as int]]);
            }
        }
        i += 1;
    }
    proof {
        assert(source@.skip(n as int) =~= Seq::<char>::empty());
        assert(r@ =~= escape_backslashes(source@));
    }
    r
}

/// The concatenation of a cell's source lines.
pub open spec fn concat_spec(lines: Seq<Seq<char>>) -> Seq<char>
    decreases lines.len(),
{
    if lines.len() == 0 {
        Seq::empty()
    } else {
        lines[0] + concat_spec(lines.drop_first())
    }
}

/// Join a cell's source lines, which carry their own newlines, into one
/// source string.
pub fn concatenate_source(lines: &Vec<String>) -> (r: String)
    ensures
        r@ == concat_spec(lines@.map_values(|l: String| l@)),
{
    let ghost all = lines@.map_values(|l: String| l@);
    let mut r = String::new();
    let n = lines.len();
    let mut i: usize = 0;
    proof {
        assert(all.skip(0) =~= all);
    }
    while i < n
        invariant
            n == lines@.len(),
            all == lines@.map_values(|l: String| l@),
            i <= n,
            concat_spec(all) == r@ + concat_spec(all.skip(i as int)),
        decreases n - i,
    {
        let ghost rem = all.skip(i as int);
        proof {
            assert(rem[0] == all[i as int]);
            assert(rem.drop_first() =~= all.skip(i + 1));
        }
        r.append(lines[i].as_str());
        i += 1;
    }
    proof {
        assert(all.skip(n as int) =~= Seq::<Seq<char>>::empty());
        assert(r@ =~= concat_spec(all));
    }
    r
}

} // verus!
