//! The code-task grammar: annotated exercise code is split into the
//! instructor ("solution") and student ("placeholder") versions.
//!
//! Inside a fenced code block, a line whose trimmed content is
//! `#| solution` opens a solution-only region, `#| placeholder` opens a
//! placeholder-only region, and `#| end` closes the open region. Regions
//! do not nest; a region left open at the end of the block is an error.
//! All other lines belong to the enclosing region, or are common to both
//! outputs when no region is open.

use vstd::prelude::*;
use vstd::string::*;
use crate::text::str_eq;
use crate::text::trim;
use crate::text::trim_spec;
use crate::text::find_from;
use crate::text::match_at;
use crate::text::substring;
use crate::text::push_char;
use crate::text::u64_to_string;
use crate::text::dec_str;

verus! {

broadcast use vstd::string::group_string_axioms;

/// Which of the two derived outputs a segment belongs to.
#[derive(Debug, Clone, Copy, PartialEq, Eq, Structural)]
pub enum SegmentKind {
    /// Shared by the solution and the placeholder.
    Common,
    /// Only in the solution.
    SolutionOnly,
    /// Only in the placeholder.
    PlaceholderOnly,
}

/// A run of consecutive lines with one tag, together with the fenced
/// block of the document it came from.
#[derive(Debug, Clone)]
pub struct Segment {
    pub kind: SegmentKind,
    pub text: String,
    /// Index of the originating fenced block within its document.
    pub block: usize,
}

#[verifier::ext_equal]
pub struct SegmentModel {
    pub kind: SegmentKind,
    pub text: Seq<char>,
    pub block: int,
}

impl View for Segment {
    type V = SegmentModel;

    open spec fn view(&self) -> SegmentModel {
        SegmentModel { kind: self.kind, text: self.text@, block: self.block as int }
    }
}

/// The ordered segments extracted from a document's code blocks.
#[derive(Debug, Clone)]
pub struct CodeTaskDefinition {
    pub blocks: Vec<Segment>,
}

impl View for CodeTaskDefinition {
    type V = Seq<SegmentModel>;

    open spec fn view(&self) -> Seq<SegmentModel> {
        self.blocks@.map_values(|s: Segment| s@)
    }
}

/// The solution: the common and solution-only texts, concatenated in
/// segment order.
pub open spec fn solution_spec(segs: Seq<SegmentModel>) -> Seq<char>
    decreases segs.len(),
{
    if segs.len() == 0 {
        Seq::empty()
    } else {
        (if segs[0].kind is PlaceholderOnly {
            Seq::empty()
        } else {
            segs[0].text
        }) + solution_spec(segs.drop_first())
    }
}

/// The placeholder: the common and placeholder-only texts, concatenated
/// in segment order.
pub open spec fn placeholder_spec(segs: Seq<SegmentModel>) -> Seq<char>
    decreases segs.len(),
{
    if segs.len() == 0 {
        Seq::empty()
    } else {
        (if segs[0].kind is SolutionOnly {
            Seq::empty()
        } else {
            segs[0].text
        }) + placeholder_spec(segs.drop_first())
    }
}

impl Default for CodeTaskDefinition {
    /// An empty task definition.
    fn default() -> (r: CodeTaskDefinition)
        ensures
            r@ == Seq::<SegmentModel>::empty(),
    {
        let r = CodeTaskDefinition { blocks: Vec::new() };
        proof {
            assert(r@ =~= Seq::<SegmentModel>::empty());
        }
        r
    }
}

impl CodeTaskDefinition {
    /// Write one of the two derived outputs: the solution when
    /// `solution` is set, else the placeholder.
    pub fn write_string(&self, solution: bool) -> (r: String)
        ensures
            solution ==> r@ == solution_spec(self@),
            !solution ==> r@ == placeholder_spec(self@),
    {
        let mut out = String::new();
        let mut i: usize = 0;
        proof {
            lemma_split_take(self@, 0);
        }
        while i < self.blocks.len()
            invariant
                i <= self.blocks@.len(),
                solution ==> out@ == solution_spec(self@.take(i as int)),
                !solution ==> out@ == placeholder_spec(self@.take(i as int)),
            decreases self.blocks@.len() - i,
        {
            let seg = &self.blocks[i];
            let keep = match seg.kind {
                SegmentKind::Common => true,
                SegmentKind::SolutionOnly => solution,
                SegmentKind::PlaceholderOnly => !solution,
            };
            if keep {
                out.append(seg.text.as_str());
            }
            proof {
                lemma_split_take(self@, i + 1);
                assert(self@.take(i + 1).drop_last() =~= self@.take(i as int));
                assert(self@.take(i + 1).last() == self@[i as int]);
            }
            i += 1;
        }
        proof {
            assert(self@.take(self@.len() as int) =~= self@);
        }
        out
    }

    /// Both derived outputs at once: the placeholder and the solution.
    /// For any definition, the solution is the concatenation of the
    /// common and solution-only segment texts in order, and the
    /// placeholder the concatenation of the common and placeholder-only
    /// segment texts in order.
    pub fn split(&self) -> (r: (String, String))
        ensures
            r.0@ == placeholder_spec(self@),
            r.1@ == solution_spec(self@),
    {
        (self.write_string(false), self.write_string(true))
    }

    /// Append another definition's segments after this one's.
    pub fn append(&mut self, other: &mut CodeTaskDefinition)
        ensures
            final(self)@ == old(self)@ + old(other)@,
            final(other)@.len() == 0,
    {
        self.blocks.append(&mut other.blocks);
        proof {
            assert(final(self)@ =~= old(self)@ + old(other)@);
            assert(final(other)@ =~= Seq::<SegmentModel>::empty());
        }
    }
}

/// The texts of a run of segments, concatenated in order.
pub open spec fn concat_texts(segs: Seq<SegmentModel>) -> Seq<char>
    decreases segs.len(),
{
    if segs.len() == 0 {
        Seq::empty()
    } else {
        concat_texts(segs.drop_last()) + segs.last().text
    }
}

/// The split law: for any task definition, the solution is exactly the
/// concatenation, in order, of the segments that are not
/// placeholder-only, and the placeholder exactly the concatenation, in
/// order, of the segments that are not solution-only. Common segments
/// contribute identically to both outputs.
pub proof fn lemma_split_concatenation(segs: Seq<SegmentModel>)
    ensures
        solution_spec(segs) == concat_texts(
            segs.filter(|s: SegmentModel| !(s.kind is PlaceholderOnly)),
        ),
        placeholder_spec(segs) == concat_texts(
            segs.filter(|s: SegmentModel| !(s.kind is SolutionOnly)),
        ),
    decreases segs.len(),
{
    reveal(Seq::filter);
    if segs.len() == 0 {
        assert(segs.filter(|s: SegmentModel| !(s.kind is PlaceholderOnly)) =~= Seq::<
            SegmentModel,
        >::empty());
        assert(segs.filter(|s: SegmentModel| !(s.kind is SolutionOnly)) =~= Seq::<
            SegmentModel,
        >::empty());
    } else {
        lemma_split_concatenation(segs.drop_last());
        lemma_snoc_spec(segs.drop_last(), segs.last());
        assert(segs.drop_last().push(segs.last()) =~= segs);
        let keep_sol = |s: SegmentModel| !(s.kind is PlaceholderOnly);
        let keep_pl = |s: SegmentModel| !(s.kind is SolutionOnly);
        segs.drop_last().lemma_filter_push(segs.last(), keep_sol);
        segs.drop_last().lemma_filter_push(segs.last(), keep_pl);
        if keep_sol(segs.last()) {
            let fs = segs.drop_last().filter(keep_sol);
            assert(fs.push(segs.last()).drop_last() =~= fs);
            assert(fs.push(segs.last()).last() == segs.last());
            assert(concat_texts(segs.filter(keep_sol)) == concat_texts(
                segs.drop_last().filter(keep_sol),
            ) + segs.last().text);
        }
        if keep_pl(segs.last()) {
            let fp = segs.drop_last().filter(keep_pl);
            assert(fp.push(segs.last()).drop_last() =~= fp);
            assert(fp.push(segs.last()).last() == segs.last());
            assert(concat_texts(segs.filter(keep_pl)) == concat_texts(
                segs.drop_last().filter(keep_pl),
            ) + segs.last().text);
        }
    }
}

/// Splitting a prefix one segment longer adds that segment's text to the
/// outputs it belongs to.
proof fn lemma_split_take(segs: Seq<SegmentModel>, i: int)
    requires
        0 <= i <= segs.len(),
    ensures
        solution_spec(segs.take(i)) == (if i == 0 {
            Seq::<char>::empty()
        } else {
            solution_spec(segs.take(i - 1)) + (if segs[i - 1].kind is PlaceholderOnly {
                Seq::<char>::empty()
            } else {
                segs[i - 1].text
            })
        }),
        placeholder_spec(segs.take(i)) == (if i == 0 {
            Seq::<char>::empty()
        } else {
            placeholder_spec(segs.take(i - 1)) + (if segs[i - 1].kind is SolutionOnly {
                Seq::<char>::empty()
            } else {
                segs[i - 1].text
            })
        }),
    decreases i,
{
    if i == 0 {
        assert(segs.take(0) =~= Seq::<SegmentModel>::empty());
        assert(solution_spec(segs.take(0)) =~= Seq::<char>::empty());
        assert(placeholder_spec(segs.take(0)) =~= Seq::<char>::empty());
    } else {
        lemma_snoc_spec(segs.take(i - 1), segs[i - 1]);
        assert(segs.take(i) =~= segs.take(i - 1).push(segs[i - 1]));
    }
}

// ------------------------------------------------------------------
// Lines.
// ------------------------------------------------------------------

/// Index of the first newline of `s`, or its length when it has none.
pub closed spec fn first_nl(s: Seq<char>) -> int
    decreases s.len(),
{
    if s.len() == 0 {
        0
    } else if s[0] == '\n' {
        0
    } else {
        1 + first_nl(s.drop_first())
    }
}

pub proof fn lemma_first_nl(s: Seq<char>)
    ensures
        0 <= first_nl(s) <= s.len(),
        forall|j: int| 0 <= j < first_nl(s) ==> s[j] != '\n',
        first_nl(s) < s.len() ==> s[first_nl(s)] == '\n',
    decreases s.len(),
{
    if s.len() > 0 && s[0] != '\n' {
        lemma_first_nl(s.drop_first());
        assert forall|j: int| 0 <= j < first_nl(s) implies s[j] != '\n' by {
            if j > 0 {
                assert(s.drop_first()[j - 1] == s[j]);
            }
        }
        if first_nl(s) < s.len() {
            assert(s.drop_first()[first_nl(s.drop_first())] == s[first_nl(s)]);
        }
    }
}

/// The lines of `s`: the pieces between newlines, newlines excluded. A
/// trailing newline yields a final empty line.
pub open spec fn lines_spec(s: Seq<char>) -> Seq<Seq<char>>
    decreases s.len(),
    via lines_spec_dec
{
    if first_nl(s) == s.len() {
        seq![s]
    } else {
        seq![s.take(first_nl(s))] + lines_spec(s.subrange(first_nl(s) + 1, s.len() as int))
    }
}

#[via_fn]
proof fn lines_spec_dec(s: Seq<char>) {
    lemma_first_nl(s);
}

/// Split `s` at its newlines.
pub fn split_lines(s: &str) -> (r: Vec<String>)
    ensures
        r@.map_values(|l: String| l@) == lines_spec(s@),
    decreases s@.len(),
{
    proof {
        reveal_strlit("\n");
        assert("\n"@.len() == 1);
        lemma_first_nl(s@);
    }
    let n = s.unicode_len();
    let nl = match find_from(s, "\n", 0) {
        Some(i) => {
            proof {
                assert(s@.subrange(i as int, i + 1)[0] == s@[i as int]);
                assert(s@[i as int] == '\n');
                if first_nl(s@) < i {
                    assert(match_at(s@, "\n"@, first_nl(s@))) by {
                        assert(s@.subrange(first_nl(s@), first_nl(s@) + 1) =~= "\n"@);
                    }
                }
            }
            i
        },
        None => {
            proof {
                if first_nl(s@) < n {
                    assert(match_at(s@, "\n"@, first_nl(s@))) by {
                        assert(s@.subrange(first_nl(s@), first_nl(s@) + 1) =~= "\n"@);
                    }
                }
            }
            n
        },
    };
    if nl == n {
        let mut r: Vec<String> = Vec::new();
        r.push(s.to_owned());
        proof {
            assert(r@.map_values(|l: String| l@) =~= lines_spec(s@));
        }
        r
    } else {
        let head = substring(s, 0, nl);
        let tail = substring(s, nl + 1, n);
        let mut rest = split_lines(tail.as_str());
        let mut r: Vec<String> = Vec::new();
        r.push(head);
        r.append(&mut rest);
        proof {
            assert(head@ =~= s@.take(first_nl(s@)));
            assert(r@.map_values(|l: String| l@) =~= lines_spec(s@));
        }
        r
    }
}

// ------------------------------------------------------------------
// The grammar.
// ------------------------------------------------------------------

/// How a code-task directive can be malformed.
#[derive(Debug, Clone, Copy, PartialEq, Eq, Structural)]
pub enum CodeParseErrorKind {
    /// A region marker inside an open region.
    NestedMarker,
    /// An end marker with no open region.
    UnmatchedEnd,
    /// A region still open at the end of the block.
    UnterminatedMarker,
}

/// A malformed code-task directive, with the offending line of the
/// block's source.
#[derive(Debug, Clone, Copy, PartialEq, Eq, Structural)]
pub struct CodeParseError {
    pub kind: CodeParseErrorKind,
    pub line: usize,
}

#[verifier::ext_equal]
pub struct CodeParseErrorModel {
    pub kind: CodeParseErrorKind,
    pub line: int,
}

impl View for CodeParseError {
    type V = CodeParseErrorModel;

    open spec fn view(&self) -> CodeParseErrorModel {
        CodeParseErrorModel { kind: self.kind, line: self.line as int }
    }
}

pub open spec fn code_error_kind_text(kind: CodeParseErrorKind) -> Seq<char> {
    match kind {
        CodeParseErrorKind::NestedMarker => "markers cannot nest"@,
        CodeParseErrorKind::UnmatchedEnd => "end marker without an open marker"@,
        CodeParseErrorKind::UnterminatedMarker => "unterminated marker"@,
    }
}

pub open spec fn code_error_message_spec(e: CodeParseErrorModel) -> Seq<char> {
    "code task syntax error at line "@ + dec_str(e.line as nat) + ": "@ + code_error_kind_text(
        e.kind,
    )
}

impl CodeParseError {
    /// A human-readable summary of the error, naming the offending line
    /// within the block.
    pub fn message(&self) -> (r: String)
        ensures
            r@ == code_error_message_spec(self@),
    {
        let mut out = String::new();
        out.append("code task syntax error at line ");
        let num = u64_to_string(self.line as u64);
        out.append(num.as_str());
        out.append(": ");
        match self.kind {
            CodeParseErrorKind::NestedMarker => out.append("markers cannot nest"),
            CodeParseErrorKind::UnmatchedEnd => out.append(
                "end marker without an open marker",
            ),
            CodeParseErrorKind::UnterminatedMarker => out.append("unterminated marker"),
        }
        out
    }
}

/// Close the current segment: an empty accumulation adds no segment.
pub open spec fn flush(
    done: Seq<SegmentModel>,
    kind: SegmentKind,
    acc: Seq<char>,
    block: int,
) -> Seq<SegmentModel> {
    if acc.len() == 0 {
        done
    } else {
        done.push(SegmentModel { kind: kind, text: acc, block: block })
    }
}

/// The code-task grammar, one line at a time. `mode` is the open region
/// (`Common` when none is open), `acc` the text of the growing segment,
/// `done` the finished segments and `line_no` the number of lines
/// already consumed.
pub open spec fn parse_fold(
    lines: Seq<Seq<char>>,
    line_no: int,
    mode: SegmentKind,
    acc: Seq<char>,
    done: Seq<SegmentModel>,
    block: int,
) -> Result<Seq<SegmentModel>, CodeParseErrorModel>
    decreases lines.len(),
{
    if lines.len() == 0 {
        if !(mode is Common) {
            Err(
                CodeParseErrorModel {
                    kind: CodeParseErrorKind::UnterminatedMarker,
                    line: line_no,
                },
            )
        } else {
            Ok(flush(done, SegmentKind::Common, acc, block))
        }
    } else {
        let t = trim_spec(lines[0]);
        if t == "#| solution"@ {
            if !(mode is Common) {
                Err(CodeParseErrorModel { kind: CodeParseErrorKind::NestedMarker, line: line_no })
            } else {
                parse_fold(
                    lines.drop_first(),
                    line_no + 1,
                    SegmentKind::SolutionOnly,
                    Seq::empty(),
                    flush(done, SegmentKind::Common, acc, block),
                    block,
                )
            }
        } else if t == "#| placeholder"@ {
            if !(mode is Common) {
                Err(CodeParseErrorModel { kind: CodeParseErrorKind::NestedMarker, line: line_no })
            } else {
                parse_fold(
                    lines.drop_first(),
                    line_no + 1,
                    SegmentKind::PlaceholderOnly,
                    Seq::empty(),
                    flush(done, SegmentKind::Common, acc, block),
                    block,
                )
            }
        } else if t == "#| end"@ {
            if mode is Common {
                Err(CodeParseErrorModel { kind: CodeParseErrorKind::UnmatchedEnd, line: line_no })
            } else {
                parse_fold(
                    lines.drop_first(),
                    line_no + 1,
                    SegmentKind::Common,
                    Seq::empty(),
                    flush(done, mode, acc, block),
                    block,
                )
            }
        } else {
            parse_fold(lines.drop_first(), line_no + 1, mode, acc + lines[0].push('\n'), done, block)
        }
    }
}

/// The whole grammar applied to one block's source: segments, or the
/// first malformed directive.
pub open spec fn parse_spec(source: Seq<char>, block: int) -> Result<
    Seq<SegmentModel>,
    CodeParseErrorModel,
> {
    parse_fold(lines_spec(source), 0, SegmentKind::Common, Seq::empty(), Seq::empty(), block)
}

/// Parse one fenced block's source with the code-task grammar. `block`
/// is the index of the block within its document, recorded on every
/// segment.
pub fn parse_code_string(source: &str, block: usize) -> (r: Result<
    CodeTaskDefinition,
    CodeParseError,
>)
    ensures
        r matches Ok(d) ==> parse_spec(source@, block as int) == Ok::<
            Seq<SegmentModel>,
            CodeParseErrorModel,
        >(d@),
        r matches Err(e) ==> parse_spec(source@, block as int) == Err::<
            Seq<SegmentModel>,
            CodeParseErrorModel,
        >(e@),
{
    let lines = split_lines(source);
    let nlines = lines.len();
    let mut i: usize = 0;
    let mut mode = SegmentKind::Common;
    let mut acc = String::new();
    let mut done: Vec<Segment> = Vec::new();
    proof {
        assert(lines@.map_values(|l: String| l@).skip(0) =~= lines_spec(source@));
        assert(done@.map_values(|s: Segment| s@) =~= Seq::<SegmentModel>::empty());
    }
    while i < nlines
        invariant
            nlines == lines@.len(),
            i <= nlines,
            parse_spec(source@, block as int) == parse_fold(
                lines@.map_values(|l: String| l@).skip(i as int),
                i as int,
                mode,
                acc@,
                done@.map_values(|s: Segment| s@),
                block as int,
            ),
        decreases nlines - i,
    {
        let ghost rem = lines@.map_values(|l: String| l@).skip(i as int);
        let ghost done0 = done@.map_values(|s: Segment| s@);
        proof {
            assert(rem.len() > 0);
            assert(rem[0] == lines@.map_values(|l: String| l@)[i as int]);
            assert(rem.drop_first() =~= lines@.map_values(|l: String| l@).skip(i + 1));
        }
        let line = &lines[i];
        let t = trim(line.as_str());
        if str_eq(t, "#| solution") || str_eq(t, "#| placeholder") {
            let new_mode = if str_eq(t, "#| solution") {
                SegmentKind::SolutionOnly
            } else {
                SegmentKind::PlaceholderOnly
            };
            match mode {
                SegmentKind::Common => {
                    if acc.as_str().unicode_len() > 0 {
                        done.push(Segment { kind: SegmentKind::Common, text: acc, block });
                        proof {
                            assert(done@.map_values(|s: Segment| s@) =~= flush(
                                done0,
                                SegmentKind::Common,
                                acc@,
                                block as int,
                            ));
                        }
                    } else {
                        proof {
                            assert(done@.map_values(|s: Segment| s@) =~= flush(
                                done0,
                                SegmentKind::Common,
                                acc@,
                                block as int,
                            ));
                        }
                    }
                    acc = String::new();
                    mode = new_mode;
                },
                _ => {
                    return Err(
                        CodeParseError { kind: CodeParseErrorKind::NestedMarker, line: i },
                    );
                },
            }
        } else if str_eq(t, "#| end") {
            match mode {
                SegmentKind::Common => {
                    return Err(
                        CodeParseError { kind: CodeParseErrorKind::UnmatchedEnd, line: i },
                    );
                },
                _ => {
                    if acc.as_str().unicode_len() > 0 {
                        done.push(Segment { kind: mode, text: acc, block });
                        proof {
                            assert(done@.map_values(|s: Segment| s@) =~= flush(
                                done0,
                                mode,
                                acc@,
                                block as int,
                            ));
                        }
                    } else {
                        proof {
                            assert(done@.map_values(|s: Segment| s@) =~= flush(
                                done0,
                                mode,
                                acc@,
                                block as int,
                            ));
                        }
                    }
                    acc = String::new();
                    mode = SegmentKind::Common;
                },
            }
        } else {
            let ghost acc0 = acc@;
            acc.append(line.as_str());
            push_char(&mut acc, '\n');
            proof {
                assert(acc@ =~= acc0 + rem[0].push('\n'));
            }
        }
        i += 1;
    }
    proof {
        assert(lines@.map_values(|l: String| l@).skip(i as int) =~= Seq::<Seq<char>>::empty());
    }
    match mode {
        SegmentKind::Common => {
            let ghost done0 = done@.map_values(|s: Segment| s@);
            if acc.as_str().unicode_len() > 0 {
                done.push(Segment { kind: SegmentKind::Common, text: acc, block });
                proof {
                    assert(done@.map_values(|s: Segment| s@) =~= flush(
                        done0,
                        SegmentKind::Common,
                        acc@,
                        block as int,
                    ));
                }
            } else {
                proof {
                    assert(done@.map_values(|s: Segment| s@) =~= flush(
                        done0,
                        SegmentKind::Common,
                        acc@,
                        block as int,
                    ));
                }
            }
            Ok(CodeTaskDefinition { blocks: done })
        },
        _ => Err(CodeParseError { kind: CodeParseErrorKind::UnterminatedMarker, line: nlines }),
    }
}

/// Appending one segment at the back extends the outputs at the back.
proof fn lemma_snoc_spec(segs: Seq<SegmentModel>, seg: SegmentModel)
    ensures
        solution_spec(segs.push(seg)) == solution_spec(segs) + (if seg.kind is PlaceholderOnly {
            Seq::<char>::empty()
        } else {
            seg.text
        }),
        placeholder_spec(segs.push(seg)) == placeholder_spec(segs) + (
        if seg.kind is SolutionOnly {
            Seq::<char>::empty()
        } else {
            seg.text
        }),
    decreases segs.len(),
{
    if segs.len() == 0 {
        assert(segs.push(seg).drop_first() =~= Seq::<SegmentModel>::empty());
        assert(segs.push(seg)[0] == seg);
        assert(solution_spec(Seq::<SegmentModel>::empty()) == Seq::<char>::empty());
        assert(placeholder_spec(Seq::<SegmentModel>::empty()) == Seq::<char>::empty());
        assert(solution_spec(segs.push(seg)) =~= solution_spec(segs) + (
        if seg.kind is PlaceholderOnly {
            Seq::<char>::empty()
        } else {
            seg.text
        }));
        assert(placeholder_spec(segs.push(seg)) =~= placeholder_spec(segs) + (
        if seg.kind is SolutionOnly {
            Seq::<char>::empty()
        } else {
            seg.text
        }));
    } else {
        lemma_snoc_spec(segs.drop_first(), seg);
        assert(segs.push(seg).drop_first() =~= segs.drop_first().push(seg));
        assert(segs.push(seg)[0] == segs[0]);
        assert(solution_spec(segs.push(seg)) =~= solution_spec(segs) + (
        if seg.kind is PlaceholderOnly {
            Seq::<char>::empty()
        } else {
            seg.text
        }));
        assert(placeholder_spec(segs.push(seg)) =~= placeholder_spec(segs) + (
        if seg.kind is SolutionOnly {
            Seq::<char>::empty()
        } else {
            seg.text
        }));
    }
}

} // verus!
