//! The element form of a document: a flat list of markdown, code and raw
//! segments, as a notebook's cells or a markdown file's body become one.
//! Code and raw elements yield their events here; a markdown element's
//! events come from the markup grammar, an outside collaborator.

use vstd::prelude::*;
use vstd::string::*;
use crate::events::BlockKind;
use crate::events::SemanticEvent;
use crate::notebook::Cell;
use crate::notebook::CellOutput;
use crate::notebook::Notebook;
use crate::notebook::output_events;

verus! {

broadcast use vstd::string::group_string_axioms;

/// One segment of a document.
#[derive(Debug, Clone, PartialEq, Eq)]
pub enum Element {
    /// Markdown text, to be parsed by the markup grammar.
    Markdown { content: String },
    /// Code with its recorded outputs, when any.
    Code { content: String, output: Option<Vec<CellOutput>> },
    /// Raw text that no renderer touches.
    Raw { content: String },
    /// An empty element.
    Blank,
}

/// A document as its elements.
#[derive(Debug, Clone, PartialEq, Eq)]
pub struct Document {
    pub elements: Vec<Element>,
}

/// The element a notebook cell becomes.
pub open spec fn element_of_cell(c: Cell) -> Element {
    match c {
        Cell::Markdown { common } => Element::Markdown { content: common.source },
        Cell::Code { common, execution_count: _, outputs } => Element::Code {
            content: common.source,
            output: Some(outputs),
        },
        Cell::Raw { common } => Element::Raw { content: common.source },
    }
}

impl Document {
    /// A whole markdown text as a one-element document.
    pub fn from_string(s: String) -> (r: Document)
        ensures
            r.elements@.len() == 1,
            r.elements@[0] == (Element::Markdown { content: s }),
    {
        let mut elements: Vec<Element> = Vec::new();
        elements.push(Element::Markdown { content: s });
        Document { elements }
    }

    /// A notebook as a document: one element per cell, in order.
    pub fn from_notebook(n: Notebook) -> (r: Document)
        ensures
            r.elements@.len() == n.cells@.len(),
            forall|i: int|
                0 <= i < n.cells@.len() ==> r.elements@[i] == element_of_cell(
                    #[trigger] n.cells@[i],
                ),
    {
        let Notebook { metadata: _, nbformat: _, nbformat_minor: _, cells } = n;
        let mut old_cells = cells;
        let mut elements: Vec<Element> = Vec::new();
        let count = old_cells.len();
        let mut i: usize = 0;
        while i < count
            invariant
                count == n.cells@.len(),
                i + old_cells@.len() == count,
                old_cells@ == n.cells@.skip(i as int),
                elements@.len() == i,
                forall|j: int|
                    0 <= j < i ==> elements@[j] == element_of_cell(#[trigger] n.cells@[j]),
            decreases count - i,
        {
            let cell = old_cells.remove(0);
            proof {
                assert(old_cells@ =~= n.cells@.skip(i + 1));
                assert(cell == n.cells@[i as int]);
            }
            match cell {
                Cell::Markdown { common } => {
                    elements.push(Element::Markdown { content: common.source });
                },
                Cell::Code { common, execution_count: _, outputs } => {
                    elements.push(
                        Element::Code { content: common.source, output: Some(outputs) },
                    );
                },
                Cell::Raw { common } => {
                    elements.push(Element::Raw { content: common.source });
                },
            }
            i += 1;
        }
        Document { elements }
    }
}

/// What an iteration over a document includes.
#[derive(Debug, Clone, Copy, PartialEq, Eq, Structural)]
pub struct IteratorConfig {
    pub include_output: bool,
    pub include_solutions: bool,
}

impl Default for IteratorConfig {
    /// Outputs and solutions are both left out unless asked for.
    fn default() -> (r: IteratorConfig)
        ensures
            !r.include_output,
            !r.include_solutions,
    {
        IteratorConfig { include_output: false, include_solutions: false }
    }
}

impl IteratorConfig {
    /// The same configuration, with cell outputs included.
    pub fn include_output(self) -> (r: IteratorConfig)
        ensures
            r.include_output,
            r.include_solutions == self.include_solutions,
    {
        IteratorConfig { include_output: true, include_solutions: self.include_solutions }
    }

    /// The same configuration, with solutions included.
    pub fn include_solutions(self) -> (r: IteratorConfig)
        ensures
            r.include_solutions,
            r.include_output == self.include_output,
    {
        IteratorConfig { include_output: self.include_output, include_solutions: true }
    }
}

/// The events of the recorded outputs, concatenated.
pub open spec fn outputs_events(os: Seq<CellOutput>) -> Seq<SemanticEvent<Seq<char>>>
    decreases os.len(),
{
    if os.len() == 0 {
        Seq::empty()
    } else {
        output_events(os[0]) + outputs_events(os.drop_first())
    }
}

/// The events of a code element: a fenced `python` block holding the
/// content, followed by the outputs' events when the configuration
/// includes them.
pub open spec fn code_element_events(
    content: Seq<char>,
    output: Option<Seq<CellOutput>>,
    config: IteratorConfig,
) -> Seq<SemanticEvent<Seq<char>>> {
    seq![
        SemanticEvent::Start(BlockKind::CodeBlock("python"@)),
        SemanticEvent::Text(content),
        SemanticEvent::End(BlockKind::CodeBlock("python"@)),
    ] + (if config.include_output {
        match output {
            Some(os) => outputs_events(os),
            None => Seq::empty(),
        }
    } else {
        Seq::empty()
    })
}

impl Element {
    /// The events of a code, raw or blank element; a markdown element
    /// has none of its own, as the markup grammar supplies them.
    pub fn to_events(&self, config: IteratorConfig) -> (r: Option<Vec<SemanticEvent<String>>>)
        ensures
            (match *self {
                Element::Code { ref content, ref output } => r matches Some(v)
                    && v@.map_values(|e: SemanticEvent<String>| e@) == code_element_events(
                    content@,
                    match output {
                        Some(os) => Some(os@),
                        None => None,
                    },
                    config,
                ),
                Element::Raw { .. } => r matches Some(v) && v@.len() == 0,
                Element::Blank => r matches Some(v) && v@.len() == 0,
                Element::Markdown { .. } => r is None,
            }),
    {
        match self {
            Element::Code { content, output } => {
                let mut v: Vec<SemanticEvent<String>> = Vec::new();
                v.push(SemanticEvent::Start(BlockKind::CodeBlock(String::from_str("python"))));
                v.push(SemanticEvent::Text(content.clone()));
                v.push(SemanticEvent::End(BlockKind::CodeBlock(String::from_str("python"))));
                if config.include_output {
                    match output {
                        Some(os) => {
                            let ghost base = v@.map_values(|e: SemanticEvent<String>| e@);
                            let count = os.len();
                            let ghost osm = os@;
                            let mut i: usize = 0;
                            proof {
                                assert(osm.skip(0) =~= osm);
                            }
                            while i < count
                                invariant
                                    count == os@.len(),
                                    osm == os@,
                                    i <= count,
                                    v@.map_values(|e: SemanticEvent<String>| e@)
                                        + outputs_events(osm.skip(i as int)) == base
                                        + outputs_events(osm),
                                decreases count - i,
                            {
                                let ghost rem = osm.skip(i as int);
                                let ghost v0 = v@.map_values(|e: SemanticEvent<String>| e@);
                                proof {
                                    assert(rem[0] == osm[i as int]);
                                    assert(rem.drop_first() =~= osm.skip(i + 1));
                                }
                                let mut events = os[i].to_events();
                                v.append(&mut events);
                                proof {
                                    assert(v@.map_values(|e: SemanticEvent<String>| e@) =~= v0
                                        + output_events(rem[0]));
                                    assert(v@.map_values(|e: SemanticEvent<String>| e@)
                                        + outputs_events(osm.skip(i + 1)) =~= base
                                        + outputs_events(osm));
                                }
                                i += 1;
                            }
                            proof {
                                assert(osm.skip(count as int) =~= Seq::<CellOutput>::empty());
                                assert(v@.map_values(|e: SemanticEvent<String>| e@)
                                    =~= code_element_events(
                                    content@,
                                    Some(os@),
                                    config,
                                ));
                            }
                        },
                        None => {
                            proof {
                                assert(v@.map_values(|e: SemanticEvent<String>| e@)
                                    =~= code_element_events(content@, None, config));
                            }
                        },
                    }
                } else {
                    proof {
                        assert(v@.map_values(|e: SemanticEvent<String>| e@)
                            =~= code_element_events(
                            content@,
                            match output {
                                Some(os) => Some(os@),
                                None => None,
                            },
                            config,
                        ));
                    }
                }
                Some(v)
            },
            Element::Raw { .. } => Some(Vec::new()),
            Element::Blank => Some(Vec::new()),
            Element::Markdown { .. } => None,
        }
    }
}

} // verus!
