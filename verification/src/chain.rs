//! The processor chain: the ordered sets of text preprocessors and
//! event processors a parse run applies. The sets are closed and known
//! at build time. The first failing stage aborts the chain for the
//! document; no partial output is produced.

use vstd::prelude::*;
use crate::events::EventDocument;
use crate::events::PositionedEventModel;
use crate::math::KaTeXPreprocessor;
use crate::math::KaTeXPreprocessorError;
use crate::math::MathPiece;
use crate::math::assemble_spec;
use crate::math::math_sources;
use crate::math::split_math_spec;
use crate::processors::CodeSplit;
use crate::processors::ProcessorError;
use crate::processors::ProcessorErrorModel;
use crate::processors::code_split_spec;
use crate::shortcodes::ShortCodeProcessError;
use crate::shortcodes::ShortCodeProcessor;
use crate::shortcodes::expanded;
use crate::split::CodeTaskDefinition;
use crate::split::SegmentModel;

verus! {

/// The text preprocessors a chain can hold, applied to raw text before
/// structural parsing.
#[derive(Debug, Clone, Copy, PartialEq, Eq, Structural)]
pub enum PreprocessorConfig {
    /// Shortcode expansion.
    ShortCode,
    /// Math-span typesetting.
    KaTeX,
}

/// The event processors a chain can hold, applied to the event sequence
/// after parsing.
#[derive(Debug, Clone, Copy, PartialEq, Eq, Structural)]
pub enum EventProcessorConfig {
    /// The solution/placeholder code split.
    CodeSplit,
}

/// What a parse run includes.
#[derive(Debug, Clone, Copy, PartialEq, Eq, Structural)]
pub struct ParserSettings {
    pub solutions: bool,
    pub notebook_outputs: bool,
}

/// A parse configuration: the preprocessors, the event processors, and
/// the settings, in application order.
#[derive(Debug, Clone, PartialEq, Eq)]
pub struct Parser {
    pub preprocessors: Vec<PreprocessorConfig>,
    pub event_processors: Vec<EventProcessorConfig>,
    pub settings: ParserSettings,
}

/// The default chain: shortcode expansion, then math typesetting, then
/// the code split, with solutions and notebook outputs left out.
pub fn get_default_parser() -> (r: Parser)
    ensures
        r.preprocessors@.len() == 2,
        r.preprocessors@[0] == PreprocessorConfig::ShortCode,
        r.preprocessors@[1] == PreprocessorConfig::KaTeX,
        r.event_processors@.len() == 1,
        r.event_processors@[0] == EventProcessorConfig::CodeSplit,
        !r.settings.solutions,
        !r.settings.notebook_outputs,
{
    let mut preprocessors: Vec<PreprocessorConfig> = Vec::new();
    preprocessors.push(PreprocessorConfig::ShortCode);
    preprocessors.push(PreprocessorConfig::KaTeX);
    let mut event_processors: Vec<EventProcessorConfig> = Vec::new();
    event_processors.push(EventProcessorConfig::CodeSplit);
    Parser {
        preprocessors,
        event_processors,
        settings: ParserSettings { solutions: false, notebook_outputs: false },
    }
}

/// A failure of a text-preprocessor stage.
#[derive(Debug)]
pub enum PreprocessError {
    /// The shortcode expander failed.
    ShortCode(ShortCodeProcessError),
    /// The math typesetting collaborator failed.
    Math(KaTeXPreprocessorError),
}

/// One rendered expression: a value the caller's typesetter can answer
/// for this source and display mode.
pub open spec fn rendered_entry<F: Fn(String, bool) -> Result<String, KaTeXPreprocessorError>>(
    f: F,
    source: (Seq<char>, bool),
    out: Seq<char>,
) -> bool {
    exists|src: String, os: String|
        {
            &&& #[trigger] call_ensures(
                f,
                (src, source.1),
                Ok::<String, KaTeXPreprocessorError>(os),
            )
            &&& src@ == source.0
            &&& os@ == out
        }
}

/// The math pass applied: the output is the input split at its math
/// spans and reassembled, each expression replaced by a value the
/// caller's typesetter can answer for that source.
pub open spec fn math_applied<F: Fn(String, bool) -> Result<String, KaTeXPreprocessorError>>(
    f: F,
    input: Seq<char>,
    out: Seq<char>,
) -> bool {
    exists|rendered: Seq<Seq<char>>|
        #![trigger rendered.len()]
        {
            &&& rendered.len() == math_sources(split_math_spec(input)).len()
            &&& out == assemble_spec(split_math_spec(input), rendered)
            &&& forall|j: int|
                #![trigger rendered[j]]
                0 <= j < rendered.len() ==> rendered_entry(
                    f,
                    math_sources(split_math_spec(input))[j],
                    rendered[j],
                )
        }
}

/// Run the math pass: split at the math spans and rebuild the text with
/// each expression replaced by what the caller's typesetter returns for
/// it; the first typesetting failure aborts.
pub fn apply_math<F: Fn(String, bool) -> Result<String, KaTeXPreprocessorError>>(
    text: &str,
    render: &F,
) -> (r: Result<String, KaTeXPreprocessorError>)
    requires
        forall|s: String, d: bool| #[trigger] call_requires(*render, (s, d)),
    ensures
        r matches Ok(out) ==> math_applied(*render, text@, out@),
        math_sources(split_math_spec(text@)).len() == 0 ==> r is Ok,
{
    let pre = KaTeXPreprocessor;
    let pieces = pre.split_math(text);
    let ghost pm = pieces@.map_values(|p: MathPiece| p@);
    let mut out = String::new();
    let ghost mut rendered: Seq<Seq<char>> = Seq::empty();
    let count = pieces.len();
    let mut i: usize = 0;
    proof {
        assert(pm.take(0) =~= Seq::<crate::math::MathPieceModel>::empty());
    }
    while i < count
        invariant
            forall|s: String, d: bool| #[trigger] call_requires(*render, (s, d)),
            count == pieces@.len(),
            pm == pieces@.map_values(|p: MathPiece| p@),
            pm == split_math_spec(text@),
            i <= count,
            rendered.len() == math_sources(pm.take(i as int)).len(),
            out@ == assemble_spec(pm.take(i as int), rendered),
            forall|j: int|
                #![trigger rendered[j]]
                0 <= j < rendered.len() ==> rendered_entry(
                    *render,
                    math_sources(pm.take(i as int))[j],
                    rendered[j],
                ),
        decreases count - i,
    {
        let ghost rendered0 = rendered;
        proof {
            lemma_math_sources_take(pm, i as int);
            assert(pm.take(i + 1) =~= pm.take(i as int).push(pm[i as int]));
        }
        match &pieces[i] {
            MathPiece::Literal(t) => {
                out.append(t.as_str());
                proof {
                    lemma_assemble_snoc_lit(pm.take(i as int), rendered, t@);
                    assert(math_sources(pm.take(i + 1)) =~= math_sources(pm.take(i as int)));
                }
            },
            MathPiece::Math { source, display } => {
                let cloned = source.clone();
                let ghost cloned_snapshot: String = cloned;
                match render(cloned, *display) {
                    Ok(os) => {
                        out.append(os.as_str());
                        proof {
                            lemma_assemble_snoc_math(
                                pm.take(i as int),
                                rendered,
                                source@,
                                *display,
                                os@,
                            );
                            rendered = rendered.push(os@);
                            assert(math_sources(pm.take(i + 1)) =~= math_sources(
                                pm.take(i as int),
                            ).push((source@, *display)));
                            assert(call_ensures(
                                *render,
                                (cloned_snapshot, *display),
                                Ok::<String, KaTeXPreprocessorError>(os),
                            ));
                            assert(cloned_snapshot@ == source@);
                            assert(rendered_entry(*render, (source@, *display), os@)) by {
                                assert(call_ensures(
                                    *render,
                                    (cloned_snapshot, ((source@, *display)).1),
                                    Ok::<String, KaTeXPreprocessorError>(os),
                                ));
                            }
                            assert forall|j: int| #![trigger rendered[j]] 0 <= j
                                < rendered.len() implies rendered_entry(
                                *render,
                                math_sources(pm.take(i + 1))[j],
                                rendered[j],
                            ) by {
                                if j < rendered0.len() {
                                    assert(rendered[j] == rendered0[j]);
                                    assert(math_sources(pm.take(i + 1))[j] == math_sources(
                                        pm.take(i as int),
                                    )[j]);
                                } else {
                                    assert(math_sources(pm.take(i + 1))[j] == (
                                        source@,
                                        *display,
                                    ));
                                    assert(rendered[j] == os@);
                                }
                            }
                        }
                    },
                    Err(e) => {
                        proof {
                            lemma_math_sources_mono(pm, i + 1);
                        }
                        return Err(e);
                    },
                }
            },
        }
        i += 1;
    }
    proof {
        assert(pm.take(count as int) =~= pm);
    }
    Ok(out)
}

/// The expressions of a prefix are no more than those of the whole.
proof fn lemma_math_sources_mono(pm: Seq<crate::math::MathPieceModel>, i: int)
    requires
        0 <= i <= pm.len(),
    ensures
        math_sources(pm.take(i)).len() <= math_sources(pm).len(),
    decreases pm.len() - i,
{
    if i < pm.len() {
        lemma_math_sources_take(pm, i);
        lemma_math_sources_mono(pm, i + 1);
    } else {
        assert(pm.take(i) =~= pm);
    }
}

/// Appending one more piece extends the sources and the assembly at the
/// back.
proof fn lemma_math_sources_take(pm: Seq<crate::math::MathPieceModel>, i: int)
    requires
        0 <= i < pm.len(),
    ensures
        math_sources(pm.take(i + 1)) == math_sources(pm.take(i)) + (match pm[i] {
            crate::math::MathPieceModel::Math { source, display } => seq![(source, display)],
            _ => Seq::<(Seq<char>, bool)>::empty(),
        }),
    decreases i,
{
    lemma_math_sources_snoc(pm.take(i), pm[i]);
    assert(pm.take(i + 1) =~= pm.take(i).push(pm[i]));
}

proof fn lemma_math_sources_snoc(pm: Seq<crate::math::MathPieceModel>, p: crate::math::MathPieceModel)
    ensures
        math_sources(pm.push(p)) == math_sources(pm) + (match p {
            crate::math::MathPieceModel::Math { source, display } => seq![(source, display)],
            _ => Seq::<(Seq<char>, bool)>::empty(),
        }),
    decreases pm.len(),
{
    let bit = match p {
        crate::math::MathPieceModel::Math { source, display } => seq![(source, display)],
        _ => Seq::<(Seq<char>, bool)>::empty(),
    };
    if pm.len() == 0 {
        assert(pm.push(p).drop_first() =~= Seq::<crate::math::MathPieceModel>::empty());
        assert(pm.push(p)[0] == p);
        assert(math_sources(Seq::<crate::math::MathPieceModel>::empty()) =~= Seq::<(
            Seq<char>,
            bool,
        )>::empty());
        assert(math_sources(pm.push(p)) =~= math_sources(pm) + bit);
    } else {
        lemma_math_sources_snoc(pm.drop_first(), p);
        assert(pm.push(p).drop_first() =~= pm.drop_first().push(p));
        assert(pm.push(p)[0] == pm[0]);
        let hd = match pm[0] {
            crate::math::MathPieceModel::Math { source, display } => seq![(source, display)],
            _ => Seq::<(Seq<char>, bool)>::empty(),
        };
        assert(hd + (math_sources(pm.drop_first()) + bit) =~= (hd + math_sources(
            pm.drop_first(),
        )) + bit);
        assert(math_sources(pm.push(p)) == hd + math_sources(pm.push(p).drop_first()));
        assert(math_sources(pm.push(p).drop_first()) == math_sources(pm.drop_first().push(p)));
        assert(math_sources(pm) == hd + math_sources(pm.drop_first()));
        assert(math_sources(pm.push(p)) == math_sources(pm) + bit);
    }
}

/// Appending a literal piece appends its text, whatever the rendered
/// values are.
proof fn lemma_assemble_snoc_lit(
    pieces: Seq<crate::math::MathPieceModel>,
    rendered: Seq<Seq<char>>,
    t: Seq<char>,
)
    ensures
        assemble_spec(pieces.push(crate::math::MathPieceModel::Literal(t)), rendered)
            == assemble_spec(pieces, rendered) + t,
    decreases pieces.len(),
{
    let p = crate::math::MathPieceModel::Literal(t);
    if pieces.len() == 0 {
        assert(pieces.push(p).drop_first() =~= Seq::<crate::math::MathPieceModel>::empty());
        assert(pieces.push(p)[0] == p);
        assert(assemble_spec(Seq::<crate::math::MathPieceModel>::empty(), rendered) =~= Seq::<
            char,
        >::empty());
        assert(assemble_spec(pieces.push(p), rendered) =~= assemble_spec(pieces, rendered) + t);
    } else {
        assert(pieces.push(p)[0] == pieces[0]);
        assert(pieces.push(p).drop_first() =~= pieces.drop_first().push(p));
        match pieces[0] {
            crate::math::MathPieceModel::Literal(u) => {
                lemma_assemble_snoc_lit(pieces.drop_first(), rendered, t);
                assert(u + (assemble_spec(pieces.drop_first(), rendered) + t) =~= (u
                    + assemble_spec(pieces.drop_first(), rendered)) + t);
                assert(assemble_spec(pieces.push(p), rendered) == u + assemble_spec(
                    pieces.push(p).drop_first(),
                    rendered,
                ));
                assert(assemble_spec(pieces, rendered) == u + assemble_spec(
                    pieces.drop_first(),
                    rendered,
                ));
            },
            crate::math::MathPieceModel::Math { .. } => {
                lemma_assemble_snoc_lit(pieces.drop_first(), rendered.drop_first(), t);
                let h = if rendered.len() > 0 {
                    rendered[0]
                } else {
                    Seq::<char>::empty()
                };
                assert(h + (assemble_spec(pieces.drop_first(), rendered.drop_first()) + t)
                    =~= (h + assemble_spec(pieces.drop_first(), rendered.drop_first())) + t);
                assert(assemble_spec(pieces.push(p), rendered) == h + assemble_spec(
                    pieces.push(p).drop_first(),
                    rendered.drop_first(),
                ));
                assert(assemble_spec(pieces, rendered) == h + assemble_spec(
                    pieces.drop_first(),
                    rendered.drop_first(),
                ));
            },
        }
        assert(assemble_spec(pieces.push(p), rendered) == assemble_spec(pieces, rendered) + t);
    }
}

/// Appending a math piece together with its rendered value appends that
/// value, provided the rendered values so far cover exactly the math
/// pieces so far.
proof fn lemma_assemble_snoc_math(
    pieces: Seq<crate::math::MathPieceModel>,
    rendered: Seq<Seq<char>>,
    src: Seq<char>,
    display: bool,
    os: Seq<char>,
)
    requires
        math_sources(pieces).len() == rendered.len(),
    ensures
        assemble_spec(
            pieces.push(crate::math::MathPieceModel::Math { source: src, display }),
            rendered.push(os),
        ) == assemble_spec(pieces, rendered) + os,
    decreases pieces.len(),
{
    let p = crate::math::MathPieceModel::Math { source: src, display };
    if pieces.len() == 0 {
        assert(rendered.len() == 0);
        assert(pieces.push(p).drop_first() =~= Seq::<crate::math::MathPieceModel>::empty());
        assert(pieces.push(p)[0] == p);
        assert(rendered.push(os)[0] == os);
        assert(assemble_spec(
            Seq::<crate::math::MathPieceModel>::empty(),
            rendered.push(os).drop_first(),
        ) =~= Seq::<char>::empty());
        assert(assemble_spec(pieces.push(p), rendered.push(os)) =~= assemble_spec(
            pieces,
            rendered,
        ) + os);
    } else {
        assert(pieces.push(p)[0] == pieces[0]);
        assert(pieces.push(p).drop_first() =~= pieces.drop_first().push(p));
        assert(math_sources(pieces)[0] == math_sources(pieces)[0]);
        match pieces[0] {
            crate::math::MathPieceModel::Literal(u) => {
                assert(math_sources(pieces) =~= math_sources(pieces.drop_first()));
                lemma_assemble_snoc_math(pieces.drop_first(), rendered, src, display, os);
                assert(u + (assemble_spec(pieces.drop_first(), rendered) + os) =~= (u
                    + assemble_spec(pieces.drop_first(), rendered)) + os);
                assert(assemble_spec(pieces.push(p), rendered.push(os)) == u + assemble_spec(
                    pieces.push(p).drop_first(),
                    rendered.push(os),
                ));
                assert(assemble_spec(pieces, rendered) == u + assemble_spec(
                    pieces.drop_first(),
                    rendered,
                ));
            },
            crate::math::MathPieceModel::Math { source: s0, display: d0 } => {
                assert(math_sources(pieces) =~= seq![(s0, d0)] + math_sources(
                    pieces.drop_first(),
                ));
                assert(rendered.len() >= 1);
                assert(rendered.push(os).drop_first() =~= rendered.drop_first().push(os));
                assert(rendered.push(os)[0] == rendered[0]);
                lemma_assemble_snoc_math(
                    pieces.drop_first(),
                    rendered.drop_first(),
                    src,
                    display,
                    os,
                );
                assert(rendered[0] + (assemble_spec(pieces.drop_first(), rendered.drop_first())
                    + os) =~= (rendered[0] + assemble_spec(
                    pieces.drop_first(),
                    rendered.drop_first(),
                )) + os);
                assert(assemble_spec(pieces.push(p), rendered.push(os)) == rendered[0]
                    + assemble_spec(pieces.push(p).drop_first(), rendered.push(os).drop_first()));
                assert(assemble_spec(pieces, rendered) == rendered[0] + assemble_spec(
                    pieces.drop_first(),
                    rendered.drop_first(),
                ));
            },
        }
        assert(assemble_spec(pieces.push(p), rendered.push(os)) == assemble_spec(
            pieces,
            rendered,
        ) + os);
    }
}

/// What one preprocessor stage does to text: the shortcode stage
/// expands, the math stage typesets through the caller's function.
pub open spec fn stage_applied<F: Fn(String, bool) -> Result<String, KaTeXPreprocessorError>>(
    stage: PreprocessorConfig,
    f: F,
    t: tera::Tera,
    ext: Seq<char>,
    proj: Map<Seq<char>, Seq<char>>,
    input: Seq<char>,
    out: Seq<char>,
) -> bool {
    match stage {
        PreprocessorConfig::ShortCode => expanded(t, ext, proj, input, out),
        PreprocessorConfig::KaTeX => math_applied(f, input, out),
    }
}

/// The whole preprocessor list applied in order: each stage's output is
/// the next stage's input, and an empty list is the identity.
pub open spec fn preprocessed<F: Fn(String, bool) -> Result<String, KaTeXPreprocessorError>>(
    f: F,
    t: tera::Tera,
    ext: Seq<char>,
    proj: Map<Seq<char>, Seq<char>>,
    procs: Seq<PreprocessorConfig>,
    input: Seq<char>,
    out: Seq<char>,
) -> bool
    decreases procs.len(),
{
    if procs.len() == 0 {
        out == input
    } else {
        exists|mid: Seq<char>|
            {
                &&& #[trigger] stage_applied(procs[0], f, t, ext, proj, input, mid)
                &&& preprocessed(f, t, ext, proj, procs.drop_first(), mid, out)
            }
    }
}

/// Run the stages from `i` on.
fn apply_from<F: Fn(String, bool) -> Result<String, KaTeXPreprocessorError>>(
    procs: &Vec<PreprocessorConfig>,
    i: usize,
    text: String,
    shortcodes: &ShortCodeProcessor,
    render_math: &F,
) -> (r: Result<String, PreprocessError>)
    requires
        i <= procs@.len(),
        forall|s: String, d: bool| #[trigger] call_requires(*render_math, (s, d)),
    ensures
        r matches Ok(out) ==> preprocessed(
            *render_math,
            shortcodes.tera,
            shortcodes.file_ext@,
            shortcodes.project_map(),
            procs@.skip(i as int),
            text@,
            out@,
        ),
        i == procs@.len() ==> (r matches Ok(out) && out@ == text@),
    decreases procs@.len() - i,
{
    if i == procs.len() {
        proof {
            assert(procs@.skip(i as int) =~= Seq::<PreprocessorConfig>::empty());
        }
        return Ok(text);
    }
    let ghost rem = procs@.skip(i as int);
    proof {
        assert(rem[0] == procs@[i as int]);
        assert(rem.drop_first() =~= procs@.skip(i + 1));
    }
    let staged = match procs[i] {
        PreprocessorConfig::ShortCode => match shortcodes.process(text.as_str()) {
            Ok(out) => out,
            Err(e) => {
                return Err(PreprocessError::ShortCode(e));
            },
        },
        PreprocessorConfig::KaTeX => match apply_math(text.as_str(), render_math) {
            Ok(out) => out,
            Err(e) => {
                return Err(PreprocessError::Math(e));
            },
        },
    };
    proof {
        assert(stage_applied(
            rem[0],
            *render_math,
            shortcodes.tera,
            shortcodes.file_ext@,
            shortcodes.project_map(),
            text@,
            staged@,
        ));
    }
    let ghost staged_m = staged@;
    match apply_from(procs, i + 1, staged, shortcodes, render_math) {
        Ok(out) => {
            proof {
                assert(preprocessed(
                    *render_math,
                    shortcodes.tera,
                    shortcodes.file_ext@,
                    shortcodes.project_map(),
                    rem,
                    text@,
                    out@,
                ));
            }
            Ok(out)
        },
        Err(e) => Err(e),
    }
}

/// Run the text preprocessors over raw text, in order: the shortcode
/// stage expands through the given expander, the math stage typesets
/// through the caller's `render_math`; the first failing stage aborts
/// the document and no partial output is produced.
pub fn apply_preprocessors<F: Fn(String, bool) -> Result<String, KaTeXPreprocessorError>>(
    text: String,
    procs: &Vec<PreprocessorConfig>,
    shortcodes: &ShortCodeProcessor,
    render_math: &F,
) -> (r: Result<String, PreprocessError>)
    requires
        forall|s: String, d: bool| #[trigger] call_requires(*render_math, (s, d)),
    ensures
        r matches Ok(out) ==> preprocessed(
            *render_math,
            shortcodes.tera,
            shortcodes.file_ext@,
            shortcodes.project_map(),
            procs@,
            text@,
            out@,
        ),
        procs@.len() == 0 ==> (r matches Ok(out) && out@ == text@),
{
    proof {
        assert(procs@.skip(0) =~= procs@);
    }
    apply_from(procs, 0, text, shortcodes, render_math)
}

/// What a chain run yields: the transformed document, and the artifacts
/// the stages accumulated alongside it.
pub struct ChainOutput {
    pub doc: EventDocument,
    pub solution: String,
    pub tasks: CodeTaskDefinition,
}

/// The event-processor stages applied in order: each transforms the
/// event sequence and extends the accumulated artifacts, and the first
/// failure aborts.
pub open spec fn apply_events_fold(
    procs: Seq<EventProcessorConfig>,
    content: Seq<PositionedEventModel>,
    solution: Seq<char>,
    segments: Seq<SegmentModel>,
) -> Result<(Seq<PositionedEventModel>, Seq<char>, Seq<SegmentModel>), ProcessorErrorModel>
    decreases procs.len(),
{
    if procs.len() == 0 {
        Ok((content, solution, segments))
    } else {
        match procs[0] {
            EventProcessorConfig::CodeSplit => match code_split_spec(content) {
                Ok(f) => apply_events_fold(
                    procs.drop_first(),
                    f.content,
                    solution + f.solution,
                    segments + f.segments,
                ),
                Err(e) => Err(e),
            },
        }
    }
}

/// Run the event processors over a document, in order; the metadata is
/// kept, the artifacts accumulate across stages, and the first failing
/// stage aborts the document.
pub fn apply_event_processors(doc: EventDocument, procs: &Vec<EventProcessorConfig>) -> (r:
    Result<ChainOutput, ProcessorError>)
    ensures
        r matches Ok(o) ==> {
            &&& apply_events_fold(
                procs@,
                doc@.content,
                Seq::empty(),
                Seq::empty(),
            ) matches Ok(f)
            &&& o.doc@.content == f.0
            &&& o.doc@.metadata == doc@.metadata
            &&& o.solution@ == f.1
            &&& o.tasks@ == f.2
        },
        r matches Err(e) ==> apply_events_fold(
            procs@,
            doc@.content,
            Seq::empty(),
            Seq::empty(),
        ) == Err::<(Seq<PositionedEventModel>, Seq<char>, Seq<SegmentModel>), ProcessorErrorModel>(
            e@,
        ),
{
    let n = procs.len();
    let mut i: usize = 0;
    let mut current = doc;
    let mut solution = String::new();
    let mut tasks = CodeTaskDefinition { blocks: Vec::new() };
    proof {
        assert(procs@.skip(0) =~= procs@);
        assert(tasks@ =~= Seq::<SegmentModel>::empty());
    }
    while i < n
        invariant
            n == procs@.len(),
            i <= n,
            current@.metadata == doc@.metadata,
            apply_events_fold(procs@, doc@.content, Seq::empty(), Seq::empty())
                == apply_events_fold(
                procs@.skip(i as int),
                current@.content,
                solution@,
                tasks@,
            ),
        decreases n - i,
    {
        let ghost rem = procs@.skip(i as int);
        proof {
            assert(rem[0] == procs@[i as int]);
            assert(rem.drop_first() =~= procs@.skip(i + 1));
        }
        match procs[i] {
            EventProcessorConfig::CodeSplit => {
                match (CodeSplit).process(current) {
                    Ok(out) => {
                        current = out.doc;
                        solution.append(out.solution.as_str());
                        let mut produced = out.tasks;
                        tasks.append(&mut produced);
                    },
                    Err(e) => {
                        return Err(e);
                    },
                }
            },
        }
        i += 1;
    }
    proof {
        assert(procs@.skip(n as int) =~= Seq::<EventProcessorConfig>::empty());
    }
    Ok(ChainOutput { doc: current, solution, tasks })
}

} // verus!
