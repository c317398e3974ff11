//! Math-expression scanning for the math preprocessor: `$...$` spans are
//! inline, `$$...$$` spans display math. Splitting the text and putting
//! it back together around rendered expressions is verified; the actual
//! typesetting is an outside collaborator of the caller's choice.

use vstd::prelude::*;
use vstd::string::*;
use crate::shortcodes::find_pat;
use crate::text::find_from;
use crate::text::substring;

verus! {

broadcast use vstd::string::group_string_axioms;

/// A math preprocessor failure; the scanner itself cannot fail.
#[derive(Debug, Clone, Copy, PartialEq, Eq, Structural)]
pub enum KaTeXPreprocessorError {
    /// The collaborator could not typeset an expression.
    RenderFailed,
}

/// The math preprocessor: finds delimited math spans for a typesetting
/// collaborator.
#[derive(Debug, Clone, Copy, PartialEq, Eq, Structural)]
pub struct KaTeXPreprocessor;

/// Where the first math span of `s` lies: `(begin, end, delim_len)`,
/// with the opening delimiter at `begin`, the closing at `end`, and a
/// two-dollar delimiter marking display math. A lone `$` at the very end
/// of the text opens nothing.
pub open spec fn find_block_spec(s: Seq<char>) -> Option<(int, int, int)> {
    match find_pat(s, "$"@, 0) {
        None => None,
        Some(b) => {
            let double = b + 1 < s.len() && s[b + 1] == '$';
            let dlen: int = if double {
                2
            } else {
                1
            };
            let delim = if double {
                "$$"@
            } else {
                "$"@
            };
            match find_pat(s, delim, b + dlen) {
                None => None,
                Some(e) => Some((b, e, dlen)),
            }
        },
    }
}

/// Find the first math span of `input`.
pub fn find_block(input: &str) -> (r: Option<(usize, usize, usize)>)
    ensures
        match r {
            Some(p) => find_block_spec(input@) == Some((p.0 as int, p.1 as int, p.2 as int))
                && p.0 + p.2 <= p.1 && p.1 + p.2 <= input@.len(),
            None => find_block_spec(input@) is None,
        },
{
    proof {
        reveal_strlit("$");
        reveal_strlit("$$");
        assert("$"@.len() == 1);
        assert("$$"@.len() == 2);
        assert("$$"@[0] == '$');
    }
    let n = input.unicode_len();
    let b = match find_from(input, "$", 0) {
        Some(i) => {
            proof {
                crate::shortcodes::lemma_find_agree(input@, "$"@, 0, Some(i as int));
            }
            i
        },
        None => {
            proof {
                crate::shortcodes::lemma_find_agree(input@, "$"@, 0, None);
            }
            return None;
        },
    };
    let double = b + 1 < n && input.get_char(b + 1) == '$';
    if double {
        match find_from(input, "$$", b + 2) {
            Some(e) => {
                proof {
                    crate::shortcodes::lemma_find_agree(input@, "$$"@, b + 2, Some(e as int));
                }
                Some((b, e, 2))
            },
            None => {
                proof {
                    crate::shortcodes::lemma_find_agree(input@, "$$"@, b + 2, None);
                }
                None
            },
        }
    } else {
        match find_from(input, "$", b + 1) {
            Some(e) => {
                proof {
                    crate::shortcodes::lemma_find_agree(input@, "$"@, b + 1, Some(e as int));
                }
                Some((b, e, 1))
            },
            None => {
                proof {
                    crate::shortcodes::lemma_find_agree(input@, "$"@, b + 1, None);
                }
                None
            },
        }
    }
}

/// One piece of a text split at its math spans.
#[derive(Debug, Clone, PartialEq, Eq)]
pub enum MathPiece {
    /// Text outside any math span, kept verbatim.
    Literal(String),
    /// One math span: its source, and whether it is display math.
    Math { source: String, display: bool },
}

#[verifier::ext_equal]
pub enum MathPieceModel {
    Literal(Seq<char>),
    Math { source: Seq<char>, display: bool },
}

impl View for MathPiece {
    type V = MathPieceModel;

    open spec fn view(&self) -> MathPieceModel {
        match self {
            MathPiece::Literal(t) => MathPieceModel::Literal(t@),
            MathPiece::Math { source, display } => MathPieceModel::Math {
                source: source@,
                display: *display,
            },
        }
    }
}

proof fn lemma_math_block_bounds(s: Seq<char>)
    ensures
        match find_block_spec(s) {
            Some(p) => 0 <= p.0 && p.0 + p.2 <= p.1 && p.1 + p.2 <= s.len() && 1 <= p.2 <= 2,
            None => true,
        },
{
    reveal_strlit("$");
    reveal_strlit("$$");
    assert("$"@.len() == 1);
    assert("$$"@.len() == 2);
    crate::shortcodes::lemma_find_pat(s, "$"@, 0);
    match find_pat(s, "$"@, 0) {
        Some(b) => {
            let double = b + 1 < s.len() && s[b + 1] == '$';
            if double {
                crate::shortcodes::lemma_find_pat(s, "$$"@, b + 2);
            } else {
                crate::shortcodes::lemma_find_pat(s, "$"@, b + 1);
            }
        },
        None => {},
    }
}

/// How a text splits at its math spans: the literal text before each
/// span, the span's source without its delimiters, and so on past the
/// span's end; text with no span is one literal piece.
pub open spec fn split_math_spec(s: Seq<char>) -> Seq<MathPieceModel>
    decreases s.len(),
    via split_math_spec_dec
{
    match find_block_spec(s) {
        None => seq![MathPieceModel::Literal(s)],
        Some(p) => seq![
            MathPieceModel::Literal(s.take(p.0)),
            MathPieceModel::Math { source: s.subrange(p.0 + p.2, p.1), display: p.2 == 2 },
        ] + split_math_spec(s.skip(p.1 + p.2)),
    }
}

#[via_fn]
proof fn split_math_spec_dec(s: Seq<char>) {
    lemma_math_block_bounds(s);
}

impl KaTeXPreprocessor {
    /// Split `input` at its math spans, in order: the pieces alternate
    /// between the literal text and the delimited expressions, with the
    /// delimiters consumed.
    pub fn split_math(&self, input: &str) -> (r: Vec<MathPiece>)
        ensures
            r@.map_values(|p: MathPiece| p@) == split_math_spec(input@),
        decreases input@.len(),
    {
        proof {
            lemma_math_block_bounds(input@);
        }
        let n = input.unicode_len();
        let mut r: Vec<MathPiece> = Vec::new();
        match find_block(input) {
            None => {
                r.push(MathPiece::Literal(input.to_owned()));
                proof {
                    assert(r@.map_values(|p: MathPiece| p@) =~= split_math_spec(input@));
                }
                r
            },
            Some((begin, end, dlen)) => {
                let pre = substring(input, 0, begin);
                let source = substring(input, begin + dlen, end);
                let post = substring(input, end + dlen, n);
                r.push(MathPiece::Literal(pre));
                r.push(MathPiece::Math { source, display: dlen == 2 });
                let mut rest = self.split_math(post.as_str());
                r.append(&mut rest);
                proof {
                    assert(pre@ =~= input@.take(begin as int));
                    assert(post@ =~= input@.skip(end + dlen));
                    assert(r@.map_values(|p: MathPiece| p@) =~= split_math_spec(input@));
                }
                r
            },
        }
    }

    /// Put a split text back together, replacing each math piece by the
    /// matching entry of `rendered`, in order; literals are copied. The
    /// caller supplies one rendered text per math piece.
    pub fn assemble(&self, pieces: &Vec<MathPiece>, rendered: &Vec<String>) -> (r: Option<
        String,
    >)
        ensures
            r is Some <==> math_count(pieces@) == rendered@.len(),
            r matches Some(out) ==> out@ == assemble_spec(
                pieces@.map_values(|p: MathPiece| p@),
                rendered@.map_values(|t: String| t@),
            ),
    {
        let ghost pm = pieces@.map_values(|p: MathPiece| p@);
        let ghost rm = rendered@.map_values(|t: String| t@);
        let mut out = String::new();
        let mut used: usize = 0;
        let count = pieces.len();
        let mut i: usize = 0;
        proof {
            assert(pieces@.take(0) =~= Seq::<MathPiece>::empty());
            lemma_math_count_mono(pieces@, 0);
            assert(pm.skip(0) =~= pm);
            assert(rm.skip(0) =~= rm);
        }
        while i < count
            invariant
                count == pieces@.len(),
                pm == pieces@.map_values(|p: MathPiece| p@),
                rm == rendered@.map_values(|t: String| t@),
                i <= count,
                used == math_count(pieces@.take(i as int)),
                used <= rendered@.len(),
                math_count(pieces@.take(i as int)) <= math_count(pieces@),
                assemble_spec(pm, rm) == out@ + assemble_spec(
                    pm.skip(i as int),
                    rm.skip(used as int),
                ),
            decreases count - i,
        {
            let ghost rem = pm.skip(i as int);
            let ghost rrem = rm.skip(used as int);
            proof {
                lemma_math_count_take(pieces@, i as int);
                lemma_math_count_mono(pieces@, i + 1);
                assert(rem[0] == pm[i as int]);
                assert(rem.drop_first() =~= pm.skip(i + 1));
            }
            match &pieces[i] {
                MathPiece::Literal(t) => {
                    out.append(t.as_str());
                    proof {
                        assert(assemble_spec(pm, rm) =~= out@ + assemble_spec(
                            pm.skip(i + 1),
                            rm.skip(used as int),
                        ));
                    }
                },
                MathPiece::Math { .. } => {
                    if used >= rendered.len() {
                        return None;
                    }
                    out.append(rendered[used].as_str());
                    used += 1;
                    proof {
                        assert(rrem[0] == rm[used - 1]);
                        assert(rrem.drop_first() =~= rm.skip(used as int));
                        assert(assemble_spec(pm, rm) =~= out@ + assemble_spec(
                            pm.skip(i + 1),
                            rm.skip(used as int),
                        ));
                    }
                },
            }
            i += 1;
        }
        proof {
            assert(pieces@.take(count as int) =~= pieces@);
            assert(pm.skip(count as int) =~= Seq::<MathPieceModel>::empty());
        }
        if used == rendered.len() {
            proof {
                assert(rm.skip(used as int) =~= Seq::<Seq<char>>::empty());
                assert(out@ =~= assemble_spec(pm, rm));
            }
            Some(out)
        } else {
            None
        }
    }
}

/// The reassembled text: literals are copied and each math piece takes
/// the next rendered entry in order.
pub open spec fn assemble_spec(pieces: Seq<MathPieceModel>, rendered: Seq<Seq<char>>) -> Seq<
    char,
>
    decreases pieces.len(),
{
    if pieces.len() == 0 {
        Seq::empty()
    } else {
        match pieces[0] {
            MathPieceModel::Literal(t) => t + assemble_spec(pieces.drop_first(), rendered),
            MathPieceModel::Math { .. } => (if rendered.len() > 0 {
                rendered[0]
            } else {
                Seq::empty()
            }) + assemble_spec(pieces.drop_first(), rendered.drop_first()),
        }
    }
}

/// The math expressions of a split, in order: each as its source text
/// and whether it is display math.
pub open spec fn math_sources(pieces: Seq<MathPieceModel>) -> Seq<(Seq<char>, bool)>
    decreases pieces.len(),
{
    if pieces.len() == 0 {
        Seq::empty()
    } else {
        (match pieces[0] {
            MathPieceModel::Math { source, display } => seq![(source, display)],
            _ => Seq::empty(),
        }) + math_sources(pieces.drop_first())
    }
}

/// How many math pieces a split has.
pub open spec fn math_count(pieces: Seq<MathPiece>) -> int
    decreases pieces.len(),
{
    if pieces.len() == 0 {
        0int
    } else {
        (match pieces.last() {
            MathPiece::Math { .. } => 1int,
            _ => 0int,
        }) + math_count(pieces.drop_last())
    }
}

proof fn lemma_math_count_take(pieces: Seq<MathPiece>, i: int)
    requires
        0 <= i < pieces.len(),
    ensures
        math_count(pieces.take(i + 1)) == math_count(pieces.take(i)) + (
        match pieces[i] {
            MathPiece::Math { .. } => 1int,
            _ => 0int,
        }),
{
    assert(pieces.take(i + 1).drop_last() =~= pieces.take(i));
    assert(pieces.take(i + 1).last() == pieces[i]);
}

proof fn lemma_math_count_mono(pieces: Seq<MathPiece>, i: int)
    requires
        0 <= i <= pieces.len(),
    ensures
        math_count(pieces.take(i)) <= math_count(pieces),
    decreases pieces.len() - i,
{
    if i < pieces.len() {
        lemma_math_count_take(pieces, i);
        lemma_math_count_mono(pieces, i + 1);
        assert(math_count(pieces.take(i)) <= math_count(pieces.take(i + 1)));
    } else {
        assert(pieces.take(i) =~= pieces);
    }
}

} // verus!
