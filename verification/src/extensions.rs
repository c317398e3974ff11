//! Per-event extensions: stateful transforms applied to one event at a
//! time while a document streams by. The code-split extension rewrites
//! the text of fenced code blocks to the placeholder and accumulates the
//! solution text and the task definition across the document.

use vstd::prelude::*;
use vstd::string::*;
use crate::events::BlockKind;
use crate::events::SemanticEvent;
use crate::split::CodeParseError;
use crate::split::CodeTaskDefinition;
use crate::split::SegmentModel;
use crate::split::parse_code_string;
use crate::split::parse_spec;
use crate::split::placeholder_spec;
use crate::split::solution_spec;

verus! {

/// Builds a fresh code-split extension per document.
pub struct CodeSplitFactory {}

/// The code-split extension: event-at-a-time state.
#[derive(Debug)]
pub struct CodeSplit {
    /// Whether the scan stands inside a fenced code block.
    pub code_started: bool,
    /// How many fenced code blocks have been opened so far.
    pub blocks_seen: usize,
    /// The solution text of every block seen so far, concatenated.
    pub solution_string: String,
    /// The segments of every block seen so far, in order.
    pub source_def: CodeTaskDefinition,
}

impl CodeSplit {
    /// Whether the scan stands inside a fenced code block.
    pub open spec fn started(&self) -> bool {
        self.code_started
    }

    /// The number of fenced code blocks opened so far.
    pub open spec fn seen(&self) -> int {
        self.blocks_seen as int
    }

    /// The state counts at least one open block while inside one.
    pub open spec fn wf(&self) -> bool {
        self.code_started ==> self.blocks_seen >= 1
    }

    /// The task definition gathered so far.
    pub fn get_source_def(&self) -> (r: &CodeTaskDefinition)
        ensures
            r == &self.source_def,
    {
        &self.source_def
    }
}

impl Default for CodeSplit {
    /// A fresh extension: outside any block, with nothing gathered.
    fn default() -> (r: CodeSplit)
        ensures
            !r.started(),
            r.seen() == 0,
            r.wf(),
            r.solution_string@ == Seq::<char>::empty(),
            r.source_def@ == Seq::<SegmentModel>::empty(),
    {
        let r = CodeSplit {
            code_started: false,
            blocks_seen: 0,
            solution_string: String::new(),
            source_def: CodeTaskDefinition { blocks: Vec::new() },
        };
        proof {
            assert(r.source_def@ =~= Seq::<SegmentModel>::empty());
        }
        r
    }
}

impl CodeSplitFactory {
    /// Build a fresh code-split extension.
    pub fn build(&self) -> (r: CodeSplit)
        ensures
            !r.started(),
            r.seen() == 0,
            r.wf(),
            r.solution_string@ == Seq::<char>::empty(),
            r.source_def@ == Seq::<SegmentModel>::empty(),
    {
        CodeSplit::default()
    }
}

impl CodeSplit {
    /// Process one event. Starting a fenced block opens it; its text is
    /// parsed with the code-task grammar and replaced by the placeholder,
    /// while the solution text and the segments are accumulated; ending
    /// the block closes it; everything else passes through unchanged.
    pub fn each(&mut self, event: SemanticEvent<String>) -> (r: Result<
        SemanticEvent<String>,
        CodeParseError,
    >)
        requires
            old(self).wf(),
            old(self).seen() + 1 <= usize::MAX,
        ensures
            final(self).wf(),
            (match event@ {
                SemanticEvent::Start(BlockKind::CodeBlock(_)) => {
                    &&& final(self).started()
                    &&& final(self).seen() == old(self).seen() + 1
                    &&& final(self).solution_string == old(self).solution_string
                    &&& final(self).source_def@ == old(self).source_def@
                    &&& r matches Ok(e) && e@ == event@
                },
                SemanticEvent::End(BlockKind::CodeBlock(_)) => {
                    &&& !final(self).started()
                    &&& final(self).seen() == old(self).seen()
                    &&& final(self).solution_string == old(self).solution_string
                    &&& final(self).source_def@ == old(self).source_def@
                    &&& r matches Ok(e) && e@ == event@
                },
                SemanticEvent::Text(t) => {
                    if old(self).started() {
                        match parse_spec(t, old(self).seen() - 1) {
                            Ok(segs) => {
                                &&& final(self).started() == old(self).started()
                                &&& final(self).seen() == old(self).seen()
                                &&& final(self).solution_string@ == old(self).solution_string@
                                    + solution_spec(segs)
                                &&& final(self).source_def@ == old(self).source_def@ + segs
                                &&& r matches Ok(e) && e@ == SemanticEvent::<Seq<char>>::Text(
                                    placeholder_spec(segs),
                                )
                            },
                            Err(pe) => r matches Err(e) && e@ == pe && *final(self) == *old(
                                self,
                            ),
                        }
                    } else {
                        *final(self) == *old(self) && (r matches Ok(e) && e@ == event@)
                    }
                },
                _ => *final(self) == *old(self) && (r matches Ok(e) && e@ == event@),
            }),
    {
        match event {
            SemanticEvent::Start(kind) => {
                let is_code = match &kind {
                    BlockKind::CodeBlock(_) => true,
                    _ => false,
                };
                if is_code {
                    self.code_started = true;
                    self.blocks_seen += 1;
                }
                Ok(SemanticEvent::Start(kind))
            },
            SemanticEvent::End(kind) => {
                let is_code = match &kind {
                    BlockKind::CodeBlock(_) => true,
                    _ => false,
                };
                if is_code {
                    self.code_started = false;
                }
                Ok(SemanticEvent::End(kind))
            },
            SemanticEvent::Text(txt) => {
                if self.code_started {
                    match parse_code_string(txt.as_str(), self.blocks_seen - 1) {
                        Ok(def) => {
                            let (placeholder, solution) = def.split();
                            self.solution_string.append(solution.as_str());
                            let mut def = def;
                            self.source_def.append(&mut def);
                            Ok(SemanticEvent::Text(placeholder))
                        },
                        Err(e) => Err(e),
                    }
                } else {
                    Ok(SemanticEvent::Text(txt))
                }
            },
            other => Ok(other),
        }
    }
}

} // verus!
