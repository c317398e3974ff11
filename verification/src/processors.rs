//! Event processors: transforms over the normalized event sequence. The
//! code-split processor rewrites every fenced code block to its
//! placeholder text and gathers the solution text and the task
//! definition as side artifacts.

use vstd::prelude::*;
use vstd::string::*;
use crate::events::BlockKind;
use crate::events::DocPos;
use crate::events::EventDocument;
use crate::events::PositionedEvent;
use crate::events::PositionedEventModel;
use crate::events::SemanticEvent;
use crate::split::CodeParseError;
use crate::split::CodeParseErrorModel;
use crate::split::CodeTaskDefinition;
use crate::split::SegmentModel;
use crate::split::parse_code_string;
use crate::split::parse_spec;
use crate::split::placeholder_spec;
use crate::split::solution_spec;
use crate::text::trim;
use crate::text::trim_spec;

verus! {

/// A failure of an event-processor stage.
#[derive(Debug, Clone, Copy, PartialEq, Eq)]
pub enum ProcessorError {
    /// A malformed code-task directive; the position is the one of the
    /// offending block's end event.
    CodeParseError(CodeParseError, DocPos),
}

#[verifier::ext_equal]
pub enum ProcessorErrorModel {
    CodeParseError(CodeParseErrorModel, DocPos),
}

impl View for ProcessorError {
    type V = ProcessorErrorModel;

    open spec fn view(&self) -> ProcessorErrorModel {
        match *self {
            ProcessorError::CodeParseError(e, pos) => ProcessorErrorModel::CodeParseError(e@, pos),
        }
    }
}

impl ProcessorError {
    /// A human-readable rendering of the failure, never a raw parser
    /// trace.
    pub fn message(&self) -> (r: String)
        ensures
            (match *self {
                ProcessorError::CodeParseError(e, _) => r@ == crate::split::code_error_message_spec(e@),
            }),
    {
        match self {
            ProcessorError::CodeParseError(e, _) => e.message(),
        }
    }
}

/// What the code-split processor produces: the rewritten document, the
/// accumulated solution text, and the accumulated task definition.
#[derive(Debug)]
pub struct CodeSplitOutput {
    pub doc: EventDocument,
    pub solution: String,
    pub tasks: CodeTaskDefinition,
}

#[verifier::ext_equal]
pub struct CodeSplitFoldOut {
    pub content: Seq<PositionedEventModel>,
    pub solution: Seq<char>,
    pub segments: Seq<SegmentModel>,
}

/// The code-split pass over an event sequence. Between the start and end
/// of a fenced code block the text events are gathered into `source`; at
/// the block's end the source is parsed, the block's text is replaced by
/// the trimmed placeholder, the solution text is appended to the running
/// solution, and the block's segments to the running task definition. A
/// parse failure aborts with the end event's position. Events outside
/// code blocks pass through unchanged.
pub open spec fn code_split_fold(
    events: Seq<PositionedEventModel>,
    in_block: bool,
    source: Seq<char>,
    block_idx: int,
    out: Seq<PositionedEventModel>,
    solution: Seq<char>,
    segments: Seq<SegmentModel>,
) -> Result<CodeSplitFoldOut, ProcessorErrorModel>
    decreases events.len(),
{
    if events.len() == 0 {
        Ok(CodeSplitFoldOut { content: out, solution: solution, segments: segments })
    } else {
        let e = events[0];
        let rest = events.drop_first();
        match e.event {
            SemanticEvent::Start(BlockKind::CodeBlock(_)) => code_split_fold(
                rest,
                true,
                Seq::empty(),
                block_idx,
                out.push(e),
                solution,
                segments,
            ),
            SemanticEvent::End(BlockKind::CodeBlock(_)) => {
                if in_block {
                    match parse_spec(source, block_idx) {
                        Ok(bsegs) => code_split_fold(
                            rest,
                            false,
                            Seq::empty(),
                            block_idx + 1,
                            out.push(
                                PositionedEventModel {
                                    event: SemanticEvent::Text(
                                        trim_spec(placeholder_spec(bsegs)),
                                    ),
                                    pos: e.pos,
                                },
                            ).push(e),
                            solution + solution_spec(bsegs),
                            segments + bsegs,
                        ),
                        Err(pe) => Err(ProcessorErrorModel::CodeParseError(pe, e.pos)),
                    }
                } else {
                    code_split_fold(
                        rest,
                        in_block,
                        source,
                        block_idx,
                        out.push(e),
                        solution,
                        segments,
                    )
                }
            },
            SemanticEvent::Text(t) => {
                if in_block {
                    code_split_fold(rest, true, source + t, block_idx, out, solution, segments)
                } else {
                    code_split_fold(
                        rest,
                        in_block,
                        source,
                        block_idx,
                        out.push(e),
                        solution,
                        segments,
                    )
                }
            },
            _ => code_split_fold(rest, in_block, source, block_idx, out.push(e), solution, segments),
        }
    }
}

/// The code-split pass applied to a whole document.
pub open spec fn code_split_spec(content: Seq<PositionedEventModel>) -> Result<
    CodeSplitFoldOut,
    ProcessorErrorModel,
> {
    code_split_fold(content, false, Seq::empty(), 0, Seq::empty(), Seq::empty(), Seq::empty())
}

/// The code-split event processor.
#[derive(Debug, Clone, Copy, PartialEq, Eq, Structural)]
pub struct CodeSplit;

impl CodeSplit {
    /// Rewrite every fenced code block of `input` to its placeholder
    /// text, and gather the solution text and the task definition. The
    /// metadata is kept. A malformed directive aborts the document with
    /// the offending block's end position.
    pub fn process(&self, input: EventDocument) -> (r: Result<CodeSplitOutput, ProcessorError>)
        ensures
            r matches Ok(o) ==> {
                &&& code_split_spec(input@.content) matches Ok(f)
                &&& o.doc@.content == f.content
                &&& o.doc@.metadata == input@.metadata
                &&& o.solution@ == f.solution
                &&& o.tasks@ == f.segments
            },
            r matches Err(e) ==> code_split_spec(input@.content) == Err::<
                CodeSplitFoldOut,
                ProcessorErrorModel,
            >(e@),
    {
        let EventDocument { metadata, content } = input;
        let ghost all = content@.map_values(|e: PositionedEvent| e@);
        let n = content.len();
        let mut i: usize = 0;
        let mut in_block = false;
        let mut source = String::new();
        let mut block_idx: usize = 0;
        let mut out: Vec<PositionedEvent> = Vec::new();
        let mut solution = String::new();
        let mut tasks = CodeTaskDefinition { blocks: Vec::new() };
        proof {
            assert(all.skip(0) =~= all);
            assert(out@.map_values(|e: PositionedEvent| e@) =~= Seq::<
                PositionedEventModel,
            >::empty());
            assert(tasks@ =~= Seq::<SegmentModel>::empty());
        }
        while i < n
            invariant
                n == content@.len(),
                all == content@.map_values(|e: PositionedEvent| e@),
                all == input@.content,
                metadata == input.metadata,
                i <= n,
                block_idx <= i,
                code_split_spec(all) == code_split_fold(
                    all.skip(i as int),
                    in_block,
                    source@,
                    block_idx as int,
                    out@.map_values(|e: PositionedEvent| e@),
                    solution@,
                    tasks@,
                ),
            decreases n - i,
        {
            let ghost rem = all.skip(i as int);
            let ghost out0 = out@.map_values(|e: PositionedEvent| e@);
            proof {
                assert(rem.len() > 0);
                assert(rem[0] == all[i as int]);
                assert(rem.drop_first() =~= all.skip(i + 1));
            }
            let e = &content[i];
            let is_code_start = match &e.event {
                SemanticEvent::Start(BlockKind::CodeBlock(_)) => true,
                _ => false,
            };
            let is_code_end = match &e.event {
                SemanticEvent::End(BlockKind::CodeBlock(_)) => true,
                _ => false,
            };
            if is_code_start {
                in_block = true;
                source = String::new();
                out.push(e.clone());
                proof {
                    assert(out@.map_values(|ev: PositionedEvent| ev@) =~= out0.push(rem[0]));
                }
            } else if is_code_end && in_block {
                match parse_code_string(source.as_str(), block_idx) {
                    Ok(bsegs) => {
                        let ghost bsegs_m = bsegs@;
                        let (placeholder_raw, bsolution) = bsegs.split();
                        let placeholder = trim(placeholder_raw.as_str()).to_owned();
                        out.push(
                            PositionedEvent {
                                event: SemanticEvent::Text(placeholder),
                                pos: e.pos,
                            },
                        );
                        out.push(e.clone());
                        solution.append(bsolution.as_str());
                        let mut bdef = bsegs;
                        tasks.append(&mut bdef);
                        in_block = false;
                        source = String::new();
                        block_idx += 1;
                        proof {
                            assert(out@.map_values(|ev: PositionedEvent| ev@) =~= out0.push(
                                PositionedEventModel {
                                    event: SemanticEvent::Text(
                                        trim_spec(placeholder_spec(bsegs_m)),
                                    ),
                                    pos: rem[0].pos,
                                },
                            ).push(rem[0]));
                        }
                    },
                    Err(pe) => {
                        proof {
                            assert(rem[0].event matches SemanticEvent::End(
                                BlockKind::CodeBlock(_),
                            ));
                            assert(code_split_fold(
                                rem,
                                in_block,
                                source@,
                                block_idx as int,
                                out0,
                                solution@,
                                tasks@,
                            ) == Err::<CodeSplitFoldOut, ProcessorErrorModel>(
                                ProcessorErrorModel::CodeParseError(pe@, rem[0].pos),
                            ));
                        }
                        return Err(ProcessorError::CodeParseError(pe, e.pos));
                    },
                }
            } else if in_block {
                match &e.event {
                    SemanticEvent::Text(t) => {
                        source.append(t.as_str());
                    },
                    _ => {
                        out.push(e.clone());
                        proof {
                            assert(out@.map_values(|ev: PositionedEvent| ev@) =~= out0.push(
                                rem[0],
                            ));
                        }
                    },
                }
            } else {
                out.push(e.clone());
                proof {
                    assert(out@.map_values(|ev: PositionedEvent| ev@) =~= out0.push(rem[0]));
                }
            }
            i += 1;
        }
        proof {
            assert(all.skip(n as int) =~= Seq::<PositionedEventModel>::empty());
        }
        Ok(
            CodeSplitOutput {
                doc: EventDocument { metadata, content: out },
                solution,
                tasks,
            },
        )
    }
}

} // verus!
