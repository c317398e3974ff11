//! Shortcode expansion: `{{ name(k=v) }}` inline invocations and
//! `{% name(k=v) %} body {% end %}` block invocations are replaced by
//! rendered template output, while occurrences inside inline or fenced
//! code spans stay untouched. The template engine is an outside
//! collaborator; everything around its calls is verified.

use vstd::prelude::*;
use vstd::string::*;
use crate::text::find_from;
use crate::text::match_at;
use crate::text::no_match_in;
use crate::text::push_char;
use crate::text::repeat_spec;
use crate::text::repeat_str;
use crate::text::str_eq;
use crate::text::substring;
use crate::text::trim;
use crate::text::trim_spec;

verus! {

broadcast use vstd::string::group_string_axioms;

/// Output formats the expander can render for.
#[derive(Debug, Clone, Copy, PartialEq, Eq, Structural)]
pub enum OutputFormat {
    Markdown,
    Html,
}

impl OutputFormat {
    /// The file extension used in template names.
    pub fn extension(&self) -> (r: &str)
        ensures
            r@ == (match *self {
                OutputFormat::Markdown => "md"@,
                OutputFormat::Html => "html"@,
            }),
    {
        match self {
            OutputFormat::Markdown => "md",
            OutputFormat::Html => "html",
        }
    }
}

// ------------------------------------------------------------------
// Finding openers, closers and code spans.
// ------------------------------------------------------------------

/// The first occurrence of `pat` in `s` at or after `from`, as a
/// character index.
pub open spec fn find_pat(s: Seq<char>, pat: Seq<char>, from: int) -> Option<int>
    decreases s.len() - from,
{
    if from < 0 || pat.len() < 1 || from + pat.len() > s.len() {
        None
    } else if match_at(s, pat, from) {
        Some(from)
    } else {
        find_pat(s, pat, from + 1)
    }
}

pub proof fn lemma_find_pat(s: Seq<char>, pat: Seq<char>, from: int)
    requires
        from >= 0,
        pat.len() >= 1,
    ensures
        match find_pat(s, pat, from) {
            Some(i) => from <= i && match_at(s, pat, i) && no_match_in(s, pat, from, i),
            None => no_match_in(s, pat, from, s.len() as int),
        },
    decreases s.len() - from,
{
    if from + pat.len() > s.len() {
        assert forall|j: int| from <= j < s.len() implies !match_at(s, pat, j) by {}
    } else if !match_at(s, pat, from) {
        lemma_find_pat(s, pat, from + 1);
    }
}

/// The result of an exec search agrees with `find_pat` when it has the
/// first-occurrence properties.
pub proof fn lemma_find_agree(s: Seq<char>, pat: Seq<char>, from: int, r: Option<int>)
    requires
        from >= 0,
        pat.len() >= 1,
        match r {
            Some(i) => from <= i && match_at(s, pat, i) && no_match_in(s, pat, from, i),
            None => no_match_in(s, pat, from, s.len() as int),
        },
    ensures
        r == find_pat(s, pat, from),
{
    lemma_find_pat(s, pat, from);
    match r {
        Some(i) => {
            match find_pat(s, pat, from) {
                Some(j) => {
                    if i < j {
                        assert(!match_at(s, pat, i));
                    }
                    if j < i {
                        assert(!match_at(s, pat, j));
                    }
                },
                None => {
                    assert(!match_at(s, pat, i));
                },
            }
        },
        None => {
            match find_pat(s, pat, from) {
                Some(j) => {
                    assert(!match_at(s, pat, j));
                },
                None => {},
            }
        },
    }
}

/// Find the first occurrence of `pat` at or after `from`, pinned to the
/// mathematical search.
fn find_spec_at(s: &str, pat: &str, from: usize) -> (r: Option<usize>)
    requires
        pat@.len() >= 1,
    ensures
        match r {
            Some(i) => find_pat(s@, pat@, from as int) == Some(i as int) && match_at(
                s@,
                pat@,
                i as int,
            ) && i >= from,
            None => find_pat(s@, pat@, from as int) is None,
        },
{
    let r = find_from(s, pat, from);
    proof {
        match r {
            Some(i) => lemma_find_agree(s@, pat@, from as int, Some(i as int)),
            None => lemma_find_agree(s@, pat@, from as int, None),
        }
    }
    r
}

/// A shortcode occurrence: an inline form with the indices of its opener
/// and closer, or a block form with its opening tag span and the index
/// of its end tag.
#[derive(Debug, Clone, Copy, PartialEq, Eq)]
pub enum ShortcodeInfo {
    /// `Inline(start, end)`: `{{` at `start`, `}}` at `end`.
    Inline(usize, usize),
    /// `def` spans the opening tag: `{%` at `def.0`, `%}` at `def.1`;
    /// `end.0` is the index of the closing `{% end %}` tag.
    Block { def: (usize, usize), end: (usize, usize) },
}

#[verifier::ext_equal]
pub enum ShortcodeInfoModel {
    Inline(int, int),
    Block { def: (int, int), end: (int, int) },
}

impl View for ShortcodeInfo {
    type V = ShortcodeInfoModel;

    open spec fn view(&self) -> ShortcodeInfoModel {
        match *self {
            ShortcodeInfo::Inline(s, e) => ShortcodeInfoModel::Inline(s as int, e as int),
            ShortcodeInfo::Block { def, end } => ShortcodeInfoModel::Block {
                def: (def.0 as int, def.1 as int),
                end: (end.0 as int, end.1 as int),
            },
        }
    }
}

/// Where a block form starting at `start` closes: its `%}` is the next
/// one after `start`, and its end tag the next `{% end %}` after that.
pub open spec fn extract_block_spec(start: int, s: Seq<char>) -> Option<ShortcodeInfoModel> {
    match find_pat(s, "%}"@, start) {
        Some(e) => match find_pat(s, "{% end %}"@, e) {
            Some(eb) => Some(ShortcodeInfoModel::Block { def: (start, e), end: (eb, eb + 7) }),
            None => None,
        },
        None => None,
    }
}

/// Where an inline form starting at `start` closes: at the next `}}`
/// after the opener.
pub open spec fn extract_inline_spec(start: int, s: Seq<char>) -> Option<ShortcodeInfoModel> {
    match find_pat(s, "}}"@, start + 2) {
        Some(e) => Some(ShortcodeInfoModel::Inline(start, e)),
        None => None,
    }
}

/// Close a block form that opens at `start`.
pub fn extract_block(start: usize, input: &str) -> (r: Option<ShortcodeInfo>)
    ensures
        match r {
            Some(info) => extract_block_spec(start as int, input@) == Some(info@),
            None => extract_block_spec(start as int, input@) is None,
        },
{
    proof {
        reveal_strlit("%}");
        reveal_strlit("{% end %}");
        assert("%}"@.len() == 2);
        assert("{% end %}"@.len() == 9);
    }
    let n = input.unicode_len();
    let end = match find_spec_at(input, "%}", start) {
        Some(e) => e,
        None => {
            return None;
        },
    };
    let end_block = match find_spec_at(input, "{% end %}", end) {
        Some(e) => e,
        None => {
            return None;
        },
    };
    Some(ShortcodeInfo::Block { def: (start, end), end: (end_block, end_block + 7) })
}

/// Close an inline form that opens at `start`.
pub fn extract_inline(start: usize, input: &str) -> (r: Option<ShortcodeInfo>)
    requires
        start + 2 <= input@.len(),
    ensures
        match r {
            Some(info) => extract_inline_spec(start as int, input@) == Some(info@),
            None => extract_inline_spec(start as int, input@) is None,
        },
{
    proof {
        reveal_strlit("}}");
        assert("}}"@.len() == 2);
    }
    let n = input.unicode_len();
    match find_spec_at(input, "}}", start + 2) {
        Some(e) => Some(ShortcodeInfo::Inline(start, e)),
        None => None,
    }
}

/// The earliest opener decides the form: an inline `{{` before any block
/// `{%` yields the inline form, and the other way round; with no opener
/// there is no shortcode.
pub open spec fn find_shortcode_spec(s: Seq<char>) -> Option<ShortcodeInfoModel> {
    match find_pat(s, "{{"@, 0) {
        None => match find_pat(s, "{%"@, 0) {
            None => None,
            Some(bs) => extract_block_spec(bs, s),
        },
        Some(is) => match find_pat(s, "{%"@, 0) {
            None => extract_inline_spec(is, s),
            Some(bs) => if is < bs {
                extract_inline_spec(is, s)
            } else {
                extract_block_spec(bs, s)
            },
        },
    }
}

/// The precedence law: when both an inline opener and a block opener
/// occur, the lexically earlier one decides which form is matched; only
/// when a form's own closers are missing is nothing matched.
pub proof fn lemma_earliest_opener_wins(s: Seq<char>)
    ensures
        ({
            let i = find_pat(s, "{{"@, 0);
            let b = find_pat(s, "{%"@, 0);
            &&& (i matches Some(ip) && b matches Some(bp) && ip < bp) ==> find_shortcode_spec(s)
                == extract_inline_spec(i->0, s)
            &&& (i matches Some(ip) && b matches Some(bp) && bp <= ip) ==> find_shortcode_spec(
                s,
            ) == extract_block_spec(b->0, s)
            &&& (i is Some && b is None) ==> find_shortcode_spec(s) == extract_inline_spec(
                i->0,
                s,
            )
            &&& (i is None && b is Some) ==> find_shortcode_spec(s) == extract_block_spec(
                b->0,
                s,
            )
            &&& (i is None && b is None) ==> find_shortcode_spec(s) is None
        }),
{
}

/// Find the first shortcode of `input`: the lexically earliest opener
/// wins, whichever form it belongs to.
pub fn find_shortcode(input: &str) -> (r: Option<ShortcodeInfo>)
    ensures
        match r {
            Some(info) => find_shortcode_spec(input@) == Some(info@),
            None => find_shortcode_spec(input@) is None,
        },
{
    proof {
        reveal_strlit("{{");
        reveal_strlit("{%");
        assert("{{"@.len() == 2);
        assert("{%"@.len() == 2);
    }
    let start_inline = find_spec_at(input, "{{", 0);
    let start_block = find_spec_at(input, "{%", 0);
    match start_inline {
        None => match start_block {
            None => None,
            Some(bs) => extract_block(bs, input),
        },
        Some(is) => match start_block {
            None => extract_inline(is, input),
            Some(bs) => {
                if is < bs {
                    extract_inline(is, input)
                } else {
                    extract_block(bs, input)
                }
            },
        },
    }
}

/// The number of consecutive backticks starting at `i`.
pub closed spec fn run_len(s: Seq<char>, i: int) -> int
    decreases s.len() - i,
{
    if i < 0 || i >= s.len() || s[i] != '`' {
        0
    } else {
        1 + run_len(s, i + 1)
    }
}

pub proof fn lemma_run_len(s: Seq<char>, i: int)
    requires
        0 <= i <= s.len(),
    ensures
        0 <= run_len(s, i),
        i + run_len(s, i) <= s.len(),
        forall|j: int| i <= j < i + run_len(s, i) ==> s[j] == '`',
        i + run_len(s, i) < s.len() ==> s[i + run_len(s, i)] != '`',
    decreases s.len() - i,
{
    if i < s.len() && s[i] == '`' {
        lemma_run_len(s, i + 1);
    }
}

/// Where the next code span of `s` lies: a backtick run of three or more
/// opens a fenced span closed by the next run of the same length, a lone
/// backtick opens an inline span closed by the next backtick; the end
/// index lies one past the closing delimiter.
pub open spec fn find_next_block_spec(s: Seq<char>) -> Option<(int, int)> {
    match find_pat(s, "`"@, 0) {
        None => None,
        Some(st) => {
            let run = run_len(s, st);
            if run >= 3 {
                match find_pat(s, repeat_spec("`"@, run as nat), st + run) {
                    None => None,
                    Some(e) => Some((st, e + run)),
                }
            } else {
                match find_pat(s, "`"@, st + 1) {
                    None => None,
                    Some(e) => Some((st, e + 1)),
                }
            }
        },
    }
}

/// Count the backtick run at `i`.
fn backtick_run(s: &str, i: usize) -> (r: usize)
    requires
        i <= s@.len(),
    ensures
        r == run_len(s@, i as int),
{
    let n = s.unicode_len();
    proof {
        lemma_run_len(s@, i as int);
    }
    let mut j: usize = i;
    while j < n && s.get_char(j) == '`'
        invariant
            i <= j <= n,
            n == s@.len(),
            forall|k: int| i <= k < j ==> s@[k] == '`',
            run_len(s@, i as int) >= j - i,
        decreases n - j,
    {
        proof {
            lemma_run_len(s@, i as int);
            if run_len(s@, i as int) < j + 1 - i {
                assert(s@[i + run_len(s@, i as int)] == '`');
            }
        }
        j += 1;
    }
    proof {
        lemma_run_len(s@, i as int);
        if run_len(s@, i as int) > j - i {
            assert(s@[j as int] == '`');
        }
    }
    j - i
}

/// Find the next code span of `input`.
pub fn find_next_block(input: &str) -> (r: Option<(usize, usize)>)
    ensures
        match r {
            Some(p) => find_next_block_spec(input@) == Some((p.0 as int, p.1 as int)) && p.0
                < p.1 <= input@.len(),
            None => find_next_block_spec(input@) is None,
        },
{
    proof {
        reveal_strlit("`");
        assert("`"@.len() == 1);
    }
    let n = input.unicode_len();
    let st = match find_spec_at(input, "`", 0) {
        Some(i) => i,
        None => {
            return None;
        },
    };
    let run = backtick_run(input, st);
    proof {
        lemma_run_len(input@, st as int);
    }
    if run >= 3 {
        let delim = repeat_str("`", run);
        proof {
            crate::text::lemma_repeat_len("`"@, run as nat);
        }
        match find_spec_at(input, delim.as_str(), st + run) {
            Some(e) => Some((st, e + run)),
            None => None,
        }
    } else {
        match find_spec_at(input, "`", st + 1) {
            Some(e) => Some((st, e + 1)),
            None => None,
        }
    }
}

/// All code spans of `s`, as absolute `(start, end)` index pairs: after
/// one span is found the scan continues past its end.
pub open spec fn find_all_blocks_spec(s: Seq<char>, offset: int) -> Seq<(int, int)>
    decreases s.len(),
    via find_all_blocks_spec_dec
{
    match find_next_block_spec(s) {
        None => Seq::empty(),
        Some(p) => seq![(offset + p.0, offset + p.1)] + find_all_blocks_spec(
            s.skip(p.1),
            offset + p.1,
        ),
    }
}

proof fn lemma_next_block_bounds(s: Seq<char>)
    ensures
        match find_next_block_spec(s) {
            Some(p) => 0 <= p.0 < p.1 <= s.len(),
            None => true,
        },
{
    reveal_strlit("`");
    assert("`"@.len() == 1);
    lemma_find_pat(s, "`"@, 0);
    match find_pat(s, "`"@, 0) {
        Some(st) => {
            lemma_run_len(s, st);
            let run = run_len(s, st);
            if run >= 3 {
                crate::text::lemma_repeat_len("`"@, run as nat);
                lemma_find_pat(s, repeat_spec("`"@, run as nat), st + run);
            } else {
                lemma_find_pat(s, "`"@, st + 1);
            }
        },
        None => {},
    }
}

#[via_fn]
proof fn find_all_blocks_spec_dec(s: Seq<char>, offset: int) {
    lemma_next_block_bounds(s);
}

// ------------------------------------------------------------------
// The invocation grammar: `name(key=value, ...)`.
// ------------------------------------------------------------------

/// A malformed invocation.
#[derive(Debug, Clone, Copy, PartialEq, Eq, Structural)]
pub enum InvocationError {
    /// The parameter list does not close with `)`.
    UnterminatedList,
    /// A parameter has no `=`.
    MissingEquals,
}

/// A parsed invocation: the template name and the parameters in their
/// written order.
#[derive(Debug, Clone, PartialEq, Eq)]
pub struct ShortcodeCall {
    pub name: String,
    pub parameters: Vec<(String, String)>,
}

pub open spec fn call_params_model(ps: Seq<(String, String)>) -> Seq<(Seq<char>, Seq<char>)> {
    ps.map_values(|p: (String, String)| (p.0@, p.1@))
}

/// The pieces of `s` between top-level commas.
pub open spec fn split_commas(s: Seq<char>) -> Seq<Seq<char>>
    decreases s.len(),
    via split_commas_dec
{
    match find_pat(s, ","@, 0) {
        None => seq![s],
        Some(i) => seq![s.take(i)] + split_commas(s.skip(i + 1)),
    }
}

#[via_fn]
proof fn split_commas_dec(s: Seq<char>) {
    reveal_strlit(",");
    assert(","@.len() == 1);
    lemma_find_pat(s, ","@, 0);
}

/// Parse `key=value` pieces: the key is the trimmed text before the
/// first `=`, the value the trimmed, unquoted text after it.
pub open spec fn parse_params_spec(pieces: Seq<Seq<char>>) -> Result<
    Seq<(Seq<char>, Seq<char>)>,
    InvocationError,
>
    decreases pieces.len(),
{
    if pieces.len() == 0 {
        Ok(Seq::empty())
    } else {
        match find_pat(pieces[0], "="@, 0) {
            None => Err(InvocationError::MissingEquals),
            Some(i) => {
                let key = trim_spec(pieces[0].take(i));
                let val = crate::parser::unquote_spec(
                    trim_spec(pieces[0].skip(i + 1)),
                );
                match parse_params_spec(pieces.drop_first()) {
                    Ok(rest) => Ok(seq![(key, val)] + rest),
                    Err(e) => Err(e),
                }
            },
        }
    }
}

/// The invocation grammar. The name is the trimmed text before the
/// parameter list; a list must close with `)` and holds comma-separated
/// `key=value` pairs; an invocation without parentheses has no
/// parameters.
pub open spec fn parse_shortcode_spec(s: Seq<char>) -> Result<
    (Seq<char>, Seq<(Seq<char>, Seq<char>)>),
    InvocationError,
> {
    let t = trim_spec(s);
    match find_pat(t, "("@, 0) {
        None => Ok((t, Seq::empty())),
        Some(p) => {
            let name = trim_spec(t.take(p));
            let rest = trim_spec(t.skip(p + 1));
            if rest.len() == 0 || rest[rest.len() - 1] != ')' {
                Err(InvocationError::UnterminatedList)
            } else {
                let inner = trim_spec(rest.take(rest.len() - 1));
                if inner.len() == 0 {
                    Ok((name, Seq::empty()))
                } else {
                    match parse_params_spec(split_commas(inner)) {
                        Ok(ps) => Ok((name, ps)),
                        Err(e) => Err(e),
                    }
                }
            }
        },
    }
}

/// Split `s` at its commas.
fn split_commas_exec(s: &str) -> (r: Vec<String>)
    ensures
        r@.map_values(|l: String| l@) == split_commas(s@),
    decreases s@.len(),
{
    proof {
        reveal_strlit(",");
        assert(","@.len() == 1);
    }
    let n = s.unicode_len();
    match find_spec_at(s, ",", 0) {
        None => {
            let mut r: Vec<String> = Vec::new();
            r.push(s.to_owned());
            proof {
                assert(r@.map_values(|l: String| l@) =~= split_commas(s@));
            }
            r
        },
        Some(i) => {
            proof {
                lemma_find_pat(s@, ","@, 0);
            }
            let head = substring(s, 0, i);
            let tail = substring(s, i + 1, n);
            let mut rest = split_commas_exec(tail.as_str());
            let mut r: Vec<String> = Vec::new();
            r.push(head);
            r.append(&mut rest);
            proof {
                assert(r@.map_values(|l: String| l@) =~= split_commas(s@));
            }
            r
        },
    }
}

/// Parse one invocation with the shortcode grammar.
pub fn parse_shortcode(input: &str) -> (r: Result<ShortcodeCall, InvocationError>)
    ensures
        r matches Ok(c) ==> parse_shortcode_spec(input@) == Ok::<
            (Seq<char>, Seq<(Seq<char>, Seq<char>)>),
            InvocationError,
        >((c.name@, call_params_model(c.parameters@))),
        r matches Err(e) ==> parse_shortcode_spec(input@) == Err::<
            (Seq<char>, Seq<(Seq<char>, Seq<char>)>),
            InvocationError,
        >(e),
{
    proof {
        reveal_strlit("(");
        reveal_strlit("=");
        assert("("@.len() == 1);
        assert("="@.len() == 1);
    }
    let t = trim(input);
    let tn = t.unicode_len();
    let p = match find_spec_at(t, "(", 0) {
        None => {
            let c = ShortcodeCall { name: t.to_owned(), parameters: Vec::new() };
            proof {
                assert(call_params_model(c.parameters@) =~= Seq::<(Seq<char>, Seq<char>)>::empty());
            }
            return Ok(c);
        },
        Some(p) => p,
    };
    proof {
        lemma_find_pat(t@, "("@, 0);
    }
    let name = trim(t.substring_char(0, p)).to_owned();
    let rest = trim(t.substring_char(p + 1, tn));
    let rn = rest.unicode_len();
    if rn == 0 || rest.get_char(rn - 1) != ')' {
        return Err(InvocationError::UnterminatedList);
    }
    let inner = trim(rest.substring_char(0, rn - 1));
    if inner.unicode_len() == 0 {
        let c = ShortcodeCall { name, parameters: Vec::new() };
        proof {
            assert(call_params_model(c.parameters@) =~= Seq::<(Seq<char>, Seq<char>)>::empty());
        }
        return Ok(c);
    }
    let pieces = split_commas_exec(inner);
    let m = pieces.len();
    let mut params: Vec<(String, String)> = Vec::new();
    let mut j: usize = 0;
    proof {
        assert(pieces@.map_values(|l: String| l@).skip(0) =~= split_commas(inner@));
    }
    while j < m
        invariant
            m == pieces@.len(),
            j <= m,
            t@ == trim_spec(input@),
            find_pat(t@, "("@, 0) == Some(p as int),
            name@ == trim_spec(t@.take(p as int)),
            rest@ == trim_spec(t@.skip(p + 1)),
            rn == rest@.len(),
            rn >= 1,
            rest@[rn - 1] == ')',
            inner@ == trim_spec(rest@.take(rn - 1)),
            inner@.len() > 0,
            pieces@.map_values(|l: String| l@) == split_commas(inner@),
            (match parse_params_spec(pieces@.map_values(|l: String| l@).skip(j as int)) {
                Ok(rest_ps) => parse_params_spec(split_commas(inner@)) == Ok::<
                    Seq<(Seq<char>, Seq<char>)>,
                    InvocationError,
                >(call_params_model(params@) + rest_ps),
                Err(e) => parse_params_spec(split_commas(inner@)) == Err::<
                    Seq<(Seq<char>, Seq<char>)>,
                    InvocationError,
                >(e),
            }),
        decreases m - j,
    {
        let ghost rem = pieces@.map_values(|l: String| l@).skip(j as int);
        proof {
            assert(rem[0] == pieces@.map_values(|l: String| l@)[j as int]);
            assert(rem.drop_first() =~= pieces@.map_values(|l: String| l@).skip(j + 1));
        }
        let piece = &pieces[j];
        let pn = piece.as_str().unicode_len();
        proof {
            reveal_strlit("=");
            assert("="@.len() == 1);
        }
        let eq = match find_spec_at(piece.as_str(), "=", 0) {
            None => {
                proof {
                    assert(parse_params_spec(rem) == Err::<
                        Seq<(Seq<char>, Seq<char>)>,
                        InvocationError,
                    >(InvocationError::MissingEquals));
                }
                return Err(InvocationError::MissingEquals);
            },
            Some(eq) => eq,
        };
        let key = trim(piece.as_str().substring_char(0, eq)).to_owned();
        let raw = trim(piece.as_str().substring_char(eq + 1, pn));
        let val = crate::parser::unquote(raw);
        let ghost params0 = call_params_model(params@);
        params.push((key, val));
        proof {
            assert(call_params_model(params@) =~= params0.push((key@, val@)));
            match parse_params_spec(rem.drop_first()) {
                Ok(rest_ps) => {
                    assert(params0.push((key@, val@)) + rest_ps =~= params0 + (seq![
                        (key@, val@),
                    ] + rest_ps));
                },
                Err(_) => {},
            }
        }
        j += 1;
    }
    proof {
        let done = pieces@.map_values(|l: String| l@).skip(m as int);
        assert(done =~= Seq::<Seq<char>>::empty());
        assert(parse_params_spec(done) == Ok::<Seq<(Seq<char>, Seq<char>)>, InvocationError>(
            Seq::empty(),
        ));
        assert(call_params_model(params@) + Seq::<(Seq<char>, Seq<char>)>::empty()
            =~= call_params_model(params@));
    }
    Ok(ShortcodeCall { name, parameters: params })
}

/// Find every code span of `input`, with absolute positions.
pub fn find_all_blocks(input: &str) -> (r: Vec<(usize, usize)>)
    ensures
        r@.map_values(|p: (usize, usize)| (p.0 as int, p.1 as int)) == find_all_blocks_spec(
            input@,
            0,
        ),
{
    let n = input.unicode_len();
    let mut res: Vec<(usize, usize)> = Vec::new();
    let mut offset: usize = 0;
    proof {
        assert(input@.skip(0) =~= input@);
        assert(res@.map_values(|p: (usize, usize)| (p.0 as int, p.1 as int)) + find_all_blocks_spec(
            input@.skip(0),
            0,
        ) =~= find_all_blocks_spec(input@, 0));
    }
    loop
        invariant
            offset <= n,
            n == input@.len(),
            find_all_blocks_spec(input@, 0) == res@.map_values(
                |p: (usize, usize)| (p.0 as int, p.1 as int),
            ) + find_all_blocks_spec(input@.skip(offset as int), offset as int),
        decreases n - offset,
    {
        let rest = input.substring_char(offset, n);
        let next = find_next_block(rest);
        match next {
            None => {
                proof {
                    assert(find_all_blocks_spec(rest@, offset as int) =~= Seq::<(
                        int,
                        int,
                    )>::empty());
                    assert(res@.map_values(|p: (usize, usize)| (p.0 as int, p.1 as int))
                        =~= find_all_blocks_spec(input@, 0));
                }
                return res;
            },
            Some((start, end)) => {
                let ghost res0 = res@.map_values(|p: (usize, usize)| (p.0 as int, p.1 as int));
                res.push((offset + start, offset + end));
                proof {
                    assert(rest@.skip(end as int) =~= input@.skip(offset + end));
                    assert(res@.map_values(|p: (usize, usize)| (p.0 as int, p.1 as int))
                        =~= res0.push(((offset + start) as int, (offset + end) as int)));
                    assert(res@.map_values(|p: (usize, usize)| (p.0 as int, p.1 as int))
                        + find_all_blocks_spec(input@.skip(offset + end), offset + end)
                        =~= find_all_blocks_spec(input@, 0));
                }
                offset = offset + end;
            },
        }
    }
}


// ------------------------------------------------------------------
// The template engine and the markup renderer, as trusted items.
// ------------------------------------------------------------------

/// The template engine, declared so its values can stand in fields and
/// signatures; nothing of its inside is visible here.
#[verifier::external_type_specification]
#[verifier::external_body]
pub struct ExTera(tera::Tera);

/// The engine's key-value rendering context; its contents are spoken of
/// through `ctx_entries`.
#[verifier::external_type_specification]
#[verifier::external_body]
pub struct ExContext(tera::Context);

/// The engine's error value, carried for its message chain.
#[verifier::external_type_specification]
#[verifier::external_body]
pub struct ExTeraError(tera::Error);

/// A value a template context can hold here: a string, or a table of
/// strings (the project-level values under the reserved `project` key).
#[verifier::ext_equal]
pub enum CtxValue {
    Text(Seq<char>),
    Table(Map<Seq<char>, Seq<char>>),
}

/// What a template context holds: its keys and their values.
pub uninterp spec fn ctx_entries(c: tera::Context) -> Map<Seq<char>, CtxValue>;

/// The relation the template engine's outcomes satisfy: it holds of the
/// engine, the template name, the context contents and the rendered
/// text of every successful render.
pub uninterp spec fn rendered_ok(
    t: tera::Tera,
    name: Seq<char>,
    entries: Map<Seq<char>, CtxValue>,
    output: Seq<char>,
) -> bool;

/// The HTML rendering of markdown text, a function of the text alone.
pub uninterp spec fn html_of(s: Seq<char>) -> Seq<char>;

/// Relies on tera::Context::new: a context with no values.
#[verifier::external_body]
fn context_new() -> (r: tera::Context)
    ensures
        forall|k: Seq<char>| !ctx_entries(r).dom().contains(k),
{
    tera::Context::new()
}

/// Relies on tera::Context::insert: binds the key to the string value.
#[verifier::external_body]
fn context_insert(c: &mut tera::Context, key: &str, value: &str)
    ensures
        ctx_entries(*final(c)) == ctx_entries(*old(c)).insert(key@, CtxValue::Text(value@)),
{
    c.insert(key, value)
}

/// Relies on tera::Context::insert: binds the key to a table holding the
/// given string entries, a later entry winning a repeated key.
#[verifier::external_body]
fn context_insert_table(c: &mut tera::Context, key: &str, entries: &Vec<(String, String)>)
    ensures
        ctx_entries(*final(c)) == ctx_entries(*old(c)).insert(
            key@,
            CtxValue::Table(pairs_map(call_params_model(entries@))),
        ),
{
    let mut table = std::collections::BTreeMap::new();
    for (k, v) in entries.iter() {
        table.insert(k.clone(), v.clone());
    }
    c.insert(key, &table)
}

/// Relies on tera::Tera::render: renders the named template with the
/// given context.
#[verifier::external_body]
fn tera_render(t: &tera::Tera, name: &str, ctx: &tera::Context) -> (r: Result<
    String,
    tera::Error,
>)
    ensures
        r matches Ok(s) ==> rendered_ok(*t, name@, ctx_entries(*ctx), s@),
{
    t.render(name, ctx)
}

/// Relies on pulldown_cmark's Parser::new_ext and html::push_html: the
/// HTML rendering of markdown text.
#[verifier::external_body]
fn markdown_to_html(s: &str) -> (r: String)
    ensures
        r@ == html_of(s@),
{
    let parser = pulldown_cmark::Parser::new_ext(s, pulldown_cmark::Options::all());
    let mut out = String::new();
    pulldown_cmark::html::push_html(&mut out, parser);
    out
}

/// Relies on tera::Error's Display impl and std::error::Error::source:
/// the failure text together with its causal chain.
#[verifier::external_body]
fn tera_error_text(e: &tera::Error) -> String {
    let mut text = format!("{}", e);
    let mut source = std::error::Error::source(e);
    while let Some(next) = source {
        text.push_str(": ");
        text.push_str(&format!("{}", next));
        source = next.source();
    }
    text
}

// ------------------------------------------------------------------
// The expander.
// ------------------------------------------------------------------

/// A failed expansion: a template-engine failure, or a malformed
/// invocation.
#[derive(Debug)]
pub enum ShortCodeProcessError {
    /// The engine could not resolve or render a template.
    Tera { source: tera::Error },
    /// The invocation does not follow the shortcode grammar.
    Syntax(InvocationError),
}

impl ShortCodeProcessError {
    /// A human-readable description; an engine failure carries its whole
    /// causal chain.
    pub fn message(&self) -> (r: String)
        ensures
            (match *self {
                ShortCodeProcessError::Syntax(InvocationError::UnterminatedList) => r@
                    == "shortcode syntax error: unterminated parameter list"@,
                ShortCodeProcessError::Syntax(InvocationError::MissingEquals) => r@
                    == "shortcode syntax error: parameter without value"@,
                ShortCodeProcessError::Tera { .. } => true,
            }),
    {
        match self {
            ShortCodeProcessError::Tera { source } => {
                let mut out = String::from_str("shortcode template error: ");
                let chain = tera_error_text(source);
                out.append(chain.as_str());
                out
            },
            ShortCodeProcessError::Syntax(InvocationError::UnterminatedList) => String::from_str(
                "shortcode syntax error: unterminated parameter list",
            ),
            ShortCodeProcessError::Syntax(InvocationError::MissingEquals) => String::from_str(
                "shortcode syntax error: parameter without value",
            ),
        }
    }
}

/// The template name for an invocation: `ext/name.tera.ext`.
pub open spec fn template_name_spec(ext: Seq<char>, name: Seq<char>) -> Seq<char> {
    ext + "/"@ + name + ".tera."@ + ext
}

/// A key-value list as a map, a later entry winning a repeated key.
pub open spec fn pairs_map(ps: Seq<(Seq<char>, Seq<char>)>) -> Map<Seq<char>, Seq<char>>
    decreases ps.len(),
{
    if ps.len() == 0 {
        Map::empty()
    } else {
        pairs_map(ps.drop_last()).insert(ps.last().0, ps.last().1)
    }
}

/// The base context every template sees: the project-level values as a
/// table under the reserved `project` key.
pub open spec fn project_base(proj: Map<Seq<char>, Seq<char>>) -> Map<Seq<char>, CtxValue> {
    Map::empty().insert("project"@, CtxValue::Table(proj))
}

/// A context after the invocation's parameters are inserted onto `base`
/// in written order.
pub open spec fn context_map(
    base: Map<Seq<char>, CtxValue>,
    ps: Seq<(Seq<char>, Seq<char>)>,
) -> Map<Seq<char>, CtxValue>
    decreases ps.len(),
{
    if ps.len() == 0 {
        base
    } else {
        context_map(base, ps.drop_last()).insert(ps.last().0, CtxValue::Text(ps.last().1))
    }
}

/// Every code span lies within the scanned text.
proof fn lemma_all_blocks_bounds(s: Seq<char>, offset: int)
    ensures
        forall|j: int|
            0 <= j < find_all_blocks_spec(s, offset).len() ==> offset <= (
            #[trigger] find_all_blocks_spec(s, offset)[j]).0 < find_all_blocks_spec(
                s,
                offset,
            )[j].1 <= offset + s.len(),
    decreases s.len(),
{
    lemma_next_block_bounds(s);
    match find_next_block_spec(s) {
        None => {},
        Some(p) => {
            lemma_all_blocks_bounds(s.skip(p.1), offset + p.1);
            let whole = find_all_blocks_spec(s, offset);
            let rest = find_all_blocks_spec(s.skip(p.1), offset + p.1);
            assert(whole =~= seq![(offset + p.0, offset + p.1)] + rest);
            assert(s.skip(p.1).len() == s.len() - p.1);
            assert forall|j: int| 0 <= j < whole.len() implies offset <= (#[trigger] whole[j]).0
                < whole[j].1 <= offset + s.len() by {
                if j > 0 {
                    assert(whole[j] == rest[j - 1]);
                }
            }
        },
    }
}

/// A successful inline expansion: the invocation parses, and the output
/// is an engine outcome for the template named after it, rendered with
/// its parameters.
pub open spec fn inline_rendered(
    t: tera::Tera,
    ext: Seq<char>,
    proj: Map<Seq<char>, Seq<char>>,
    shortcode: Seq<char>,
    out: Seq<char>,
) -> bool {
    exists|nm: Seq<char>, ps: Seq<(Seq<char>, Seq<char>)>|
        {
            &&& parse_shortcode_spec(shortcode) == Ok::<
                (Seq<char>, Seq<(Seq<char>, Seq<char>)>),
                InvocationError,
            >((nm, ps))
            &&& #[trigger] rendered_ok(
                t,
                template_name_spec(ext, nm),
                context_map(project_base(proj), ps),
                out,
            )
        }
}

/// A successful block render with a known body value: the invocation
/// parses, and the output is an engine outcome for its template,
/// rendered with its parameters and `body_final` under the reserved
/// `body` key.
pub open spec fn block_rendered_with(
    t: tera::Tera,
    ext: Seq<char>,
    proj: Map<Seq<char>, Seq<char>>,
    shortcode: Seq<char>,
    body_final: Seq<char>,
    out: Seq<char>,
) -> bool {
    exists|nm: Seq<char>, ps: Seq<(Seq<char>, Seq<char>)>|
        {
            &&& parse_shortcode_spec(shortcode) == Ok::<
                (Seq<char>, Seq<(Seq<char>, Seq<char>)>),
                InvocationError,
            >((nm, ps))
            &&& #[trigger] rendered_ok(
                t,
                template_name_spec(ext, nm),
                context_map(project_base(proj), ps).insert("body"@, CtxValue::Text(body_final)),
                out,
            )
        }
}

/// A code span of `blocks` covers the inline match at `start..end` of
/// the suffix beginning at `offset`, and ends inside the text.
pub open spec fn covers_inline(
    blocks: Seq<(int, int)>,
    k: int,
    offset: int,
    start: int,
    end: int,
    limit: int,
) -> bool {
    &&& 0 <= k < blocks.len()
    &&& blocks[k].0 < start + offset
    &&& blocks[k].1 >= end + offset
    &&& offset < blocks[k].1 <= limit
}

/// A code span of `blocks` covers the block match whose opening tag ends
/// at `def1` and whose end tag starts at `end0`.
pub open spec fn covers_block(
    blocks: Seq<(int, int)>,
    k: int,
    offset: int,
    def1: int,
    end0: int,
    limit: int,
) -> bool {
    &&& 0 <= k < blocks.len()
    &&& blocks[k].0 < def1 + offset
    &&& blocks[k].1 > end0 + offset
    &&& offset < blocks[k].1 <= limit
}

/// The name text of an inline match: between the opener and the closer,
/// short of the character before the closer, trimmed.
pub open spec fn inline_name_text(rest: Seq<char>, start: int, end: int) -> Seq<char> {
    trim_spec(
        rest.subrange(
            start + 2,
            if end - 1 > start + 2 {
                end - 1
            } else {
                start + 2
            },
        ),
    )
}

/// The name text of a block match's opening tag.
pub open spec fn block_name_text(rest: Seq<char>, def0: int, def1: int) -> Seq<char> {
    trim_spec(
        rest.subrange(
            def0 + 2,
            if def1 - 1 > def0 + 2 {
                def1 - 1
            } else {
                def0 + 2
            },
        ),
    )
}

/// The raw body of a block match: between the opening tag's closer and
/// the end tag, trimmed.
pub open spec fn block_body_text(rest: Seq<char>, def1: int, end0: int) -> Seq<char> {
    trim_spec(
        rest.subrange(
            def1 + 2,
            if end0 > def1 + 2 {
                end0
            } else {
                def1 + 2
            },
        ),
    )
}

/// The whole expansion relation: `out` is a possible result of expanding
/// `input` with engine `t` for the output extension `ext`. The code
/// spans are fixed once from the whole input; text inside them, and all
/// text between matches, reaches the output verbatim.
pub open spec fn expanded(
    t: tera::Tera,
    ext: Seq<char>,
    proj: Map<Seq<char>, Seq<char>>,
    input: Seq<char>,
    out: Seq<char>,
) -> bool
    decreases input.len(), 1int,
{
    expansion_from(t, ext, proj, input, find_all_blocks_spec(input, 0), 0, out)
}

/// The value handed to a block template under `body`: the raw body,
/// expanded; and, when the output format is HTML, additionally rendered
/// through the markup grammar.
pub open spec fn body_expanded_to(
    t: tera::Tera,
    ext: Seq<char>,
    proj: Map<Seq<char>, Seq<char>>,
    body: Seq<char>,
    body_final: Seq<char>,
) -> bool
    decreases body.len(), 2int,
{
    if ext == "html"@ {
        exists|body_out: Seq<char>|
            #![trigger html_of(body_out)]
            expanded(t, ext, proj, body, body_out) && body_final == html_of(body_out)
    } else {
        expanded(t, ext, proj, body, body_final)
    }
}

/// A block invocation's render: its body is itself expanded first, runs
/// through the markup grammar when the output format is HTML, and is
/// handed to the template under the reserved `body` key.
pub open spec fn block_expansion(
    t: tera::Tera,
    ext: Seq<char>,
    proj: Map<Seq<char>, Seq<char>>,
    shortcode: Seq<char>,
    body: Seq<char>,
    out: Seq<char>,
) -> bool
    decreases body.len(), 3int,
{
    exists|body_final: Seq<char>|
        {
            &&& #[trigger] block_rendered_with(t, ext, proj, shortcode, body_final, out)
            &&& body_expanded_to(t, ext, proj, body, body_final)
        }
}

/// One pass of the expansion from `offset`: no match copies the rest
/// verbatim; a match inside a code span copies the text up to the span's
/// end; an inline match renders its invocation; a block match renders
/// with its expanded body and a trailing newline; the scan continues
/// past what was consumed.
pub open spec fn expansion_from(
    t: tera::Tera,
    ext: Seq<char>,
    proj: Map<Seq<char>, Seq<char>>,
    whole: Seq<char>,
    blocks: Seq<(int, int)>,
    offset: int,
    out: Seq<char>,
) -> bool
    decreases whole.len() - offset, 0int,
    via expansion_from_dec
{
    if !(0 <= offset <= whole.len()) {
        false
    } else {
        let rest = whole.skip(offset);
        match find_shortcode_spec(rest) {
            None => out == rest,
            Some(ShortcodeInfoModel::Inline(start, end)) => {
                if exists|k: int|
                    covers_inline(blocks, k, offset, start, end, whole.len() as int) {
                    exists|k: int|
                        {
                            &&& #[trigger] covers_inline(
                                blocks,
                                k,
                                offset,
                                start,
                                end,
                                whole.len() as int,
                            )
                            &&& out.len() >= blocks[k].1 - offset
                            &&& out.take(blocks[k].1 - offset) == rest.take(
                                blocks[k].1 - offset,
                            )
                            &&& expansion_from(
                                t,
                                ext,
                                proj,
                                whole,
                                blocks,
                                blocks[k].1,
                                out.skip(blocks[k].1 - offset),
                            )
                        }
                } else {
                    exists|rendered: Seq<char>|
                        {
                            &&& #[trigger] inline_rendered(
                                t,
                                ext,
                                proj,
                                inline_name_text(rest, start, end),
                                rendered,
                            )
                            &&& out.len() >= start + rendered.len()
                            &&& out.take(start + rendered.len()) == rest.take(start) + rendered
                            &&& expansion_from(
                                t,
                                ext,
                                proj,
                                whole,
                                blocks,
                                offset + end + 2,
                                out.skip(start + rendered.len()),
                            )
                        }
                }
            },
            Some(ShortcodeInfoModel::Block { def, end }) => {
                if exists|k: int|
                    covers_block(blocks, k, offset, def.1, end.0, whole.len() as int) {
                    exists|k: int|
                        {
                            &&& #[trigger] covers_block(
                                blocks,
                                k,
                                offset,
                                def.1,
                                end.0,
                                whole.len() as int,
                            )
                            &&& out.len() >= blocks[k].1 - offset
                            &&& out.take(blocks[k].1 - offset) == rest.take(
                                blocks[k].1 - offset,
                            )
                            &&& expansion_from(
                                t,
                                ext,
                                proj,
                                whole,
                                blocks,
                                blocks[k].1,
                                out.skip(blocks[k].1 - offset),
                            )
                        }
                } else {
                    exists|rendered: Seq<char>, body_final: Seq<char>|
                        {
                            &&& #[trigger] block_rendered_with(
                                t,
                                ext,
                                proj,
                                block_name_text(rest, def.0, def.1),
                                body_final,
                                rendered,
                            )
                            &&& body_expanded_to(
                                t,
                                ext,
                                proj,
                                block_body_text(rest, def.1, end.0),
                                body_final,
                            )
                            &&& out.len() >= def.0 + rendered.len() + 1
                            &&& out.take(def.0 + rendered.len() + 1) == rest.take(def.0)
                                + rendered + "\n"@
                            &&& expansion_from(
                                t,
                                ext,
                                proj,
                                whole,
                                blocks,
                                offset + end.0 + 9,
                                out.skip(def.0 + rendered.len() + 1),
                            )
                        }
                }
            },
        }
    }
}

#[via_fn]
proof fn expansion_from_dec(
    t: tera::Tera,
    ext: Seq<char>,
    proj: Map<Seq<char>, Seq<char>>,
    whole: Seq<char>,
    blocks: Seq<(int, int)>,
    offset: int,
    out: Seq<char>,
) {
    if 0 <= offset <= whole.len() {
        let rest = whole.skip(offset);
        lemma_shortcode_bounds(rest);
        crate::text::lemma_trim_len(rest.subrange(0, 0));
        match find_shortcode_spec(rest) {
            Some(ShortcodeInfoModel::Block { def, end }) => {
                let lo = def.1 + 2;
                let hi = if end.0 > def.1 + 2 {
                    end.0
                } else {
                    def.1 + 2
                };
                crate::text::lemma_trim_len(rest.subrange(lo, hi));
            },
            _ => {},
        }
    }
}

/// The expander: holds the template engine and the output extension the
/// templates are named for.
pub struct ShortCodeProcessor {
    pub tera: tera::Tera,
    pub file_ext: String,
    /// Project-level values every template sees under the reserved
    /// `project` key.
    pub project: Vec<(String, String)>,
}

impl ShortCodeProcessor {
    /// The project-level values as a map.
    pub open spec fn project_map(&self) -> Map<Seq<char>, Seq<char>> {
        pairs_map(call_params_model(self.project@))
    }

    /// An expander over the given engine, rendering for the format whose
    /// extension is `file_ext`, with the given project-level values.
    pub fn new(tera: tera::Tera, file_ext: String, project: Vec<(String, String)>) -> (r:
        ShortCodeProcessor)
        ensures
            r.tera == tera,
            r.file_ext@ == file_ext@,
            r.project == project,
    {
        ShortCodeProcessor { tera, file_ext, project }
    }

    /// Build the template name `ext/name.tera.ext`.
    fn template_name(&self, name: &str) -> (r: String)
        ensures
            r@ == template_name_spec(self.file_ext@, name@),
    {
        let mut r = self.file_ext.clone();
        r.append("/");
        r.append(name);
        r.append(".tera.");
        r.append(self.file_ext.as_str());
        proof {
            assert(r@ =~= template_name_spec(self.file_ext@, name@));
        }
        r
    }

    /// Parse an invocation and build its context.
    fn build_call(&self, shortcode: &str) -> (r: Result<
        (String, tera::Context, Ghost<Seq<(Seq<char>, Seq<char>)>>),
        ShortCodeProcessError,
    >)
        ensures
            r matches Ok(c) ==> {
                &&& parse_shortcode_spec(shortcode@) == Ok::<
                    (Seq<char>, Seq<(Seq<char>, Seq<char>)>),
                    InvocationError,
                >((c.0@, c.2@))
                &&& ctx_entries(c.1) == context_map(project_base(self.project_map()), c.2@)
            },
            r matches Err(e) ==> (e matches ShortCodeProcessError::Syntax(se)
                && parse_shortcode_spec(shortcode@) == Err::<
                (Seq<char>, Seq<(Seq<char>, Seq<char>)>),
                InvocationError,
            >(se)),
    {
        let call = match parse_shortcode(shortcode) {
            Ok(c) => c,
            Err(e) => {
                return Err(ShortCodeProcessError::Syntax(e));
            },
        };
        let mut ctx = context_new();
        context_insert_table(&mut ctx, "project", &self.project);
        let ghost base = project_base(self.project_map());
        proof {
            assert(ctx_entries(ctx) =~= base);
        }
        let np = call.parameters.len();
        let ghost ps = call_params_model(call.parameters@);
        let mut j: usize = 0;
        proof {
            assert(ps.take(0) =~= Seq::<(Seq<char>, Seq<char>)>::empty());
        }
        while j < np
            invariant
                np == call.parameters@.len(),
                j <= np,
                base == project_base(self.project_map()),
                ps == call_params_model(call.parameters@),
                ctx_entries(ctx) == context_map(base, ps.take(j as int)),
            decreases np - j,
        {
            let pair = &call.parameters[j];
            context_insert(&mut ctx, pair.0.as_str(), pair.1.as_str());
            proof {
                assert(ps.take(j + 1).drop_last() =~= ps.take(j as int));
                assert(ps.take(j + 1).last() == ps[j as int]);
            }
            j += 1;
        }
        proof {
            assert(ps.take(np as int) =~= ps);
        }
        Ok((call.name, ctx, Ghost(ps)))
    }

    /// Render an inline invocation: parse it, put its parameters in a
    /// fresh context, and render the template named after it.
    pub fn render_inline_template(&self, shortcode: &str) -> (r: Result<
        String,
        ShortCodeProcessError,
    >)
        ensures
            r matches Ok(out) ==> inline_rendered(self.tera, self.file_ext@,
                self.project_map(), shortcode@, out@),
            r matches Err(ShortCodeProcessError::Syntax(se)) ==> parse_shortcode_spec(
                shortcode@,
            ) == Err::<(Seq<char>, Seq<(Seq<char>, Seq<char>)>), InvocationError>(se),
            parse_shortcode_spec(shortcode@) matches Err(se) ==> r == Err::<
                String,
                ShortCodeProcessError,
            >(ShortCodeProcessError::Syntax(se)),
    {
        let (name, ctx, ps) = match self.build_call(shortcode) {
            Ok(c) => c,
            Err(e) => {
                return Err(e);
            },
        };
        let tmpl = self.template_name(name.as_str());
        match tera_render(&self.tera, tmpl.as_str(), &ctx) {
            Ok(out) => {
                proof {
                    assert(parse_shortcode_spec(shortcode@) == Ok::<
                        (Seq<char>, Seq<(Seq<char>, Seq<char>)>),
                        InvocationError,
                    >((name@, ps@)));
                    assert(rendered_ok(
                        self.tera,
                        template_name_spec(self.file_ext@, name@),
                        context_map(project_base(self.project_map()), ps@),
                        out@,
                    ));
                    assert(inline_rendered(self.tera, self.file_ext@,
                self.project_map(), shortcode@, out@));
                }
                Ok(out)
            },
            Err(e) => Err(ShortCodeProcessError::Tera { source: e }),
        }
    }

    /// Render a block invocation: the body is expanded first, rendered
    /// to HTML when the output format is HTML, and handed to the
    /// template under the reserved `body` parameter.
    pub fn render_block_template(&self, shortcode: &str, body: &str) -> (r: Result<
        String,
        ShortCodeProcessError,
    >)
        ensures
            r matches Ok(out) ==> block_expansion(
                self.tera,
                self.file_ext@,
                self.project_map(),
                shortcode@,
                body@,
                out@,
            ),
            parse_shortcode_spec(shortcode@) matches Err(se) ==> r == Err::<
                String,
                ShortCodeProcessError,
            >(ShortCodeProcessError::Syntax(se)),
        decreases body@.len(), 1int,
    {
        let (name, mut ctx, ps) = match self.build_call(shortcode) {
            Ok(c) => c,
            Err(e) => {
                return Err(e);
            },
        };
        let processed = match self.process(body) {
            Ok(p) => p,
            Err(e) => {
                return Err(e);
            },
        };
        proof {
            reveal_strlit("html");
        }
        let body_final = if str_eq(self.file_ext.as_str(), "html") {
            markdown_to_html(processed.as_str())
        } else {
            processed
        };
        context_insert(&mut ctx, "body", body_final.as_str());
        let tmpl = self.template_name(name.as_str());
        match tera_render(&self.tera, tmpl.as_str(), &ctx) {
            Ok(out) => {
                proof {
                    assert(parse_shortcode_spec(shortcode@) == Ok::<
                        (Seq<char>, Seq<(Seq<char>, Seq<char>)>),
                        InvocationError,
                    >((name@, ps@)));
                    assert(rendered_ok(
                        self.tera,
                        template_name_spec(self.file_ext@, name@),
                        context_map(project_base(self.project_map()), ps@).insert(
                            "body"@,
                            CtxValue::Text(body_final@),
                        ),
                        out@,
                    ));
                    assert(block_rendered_with(
                        self.tera,
                        self.file_ext@,
                self.project_map(),
                        shortcode@,
                        body_final@,
                        out@,
                    ));
                    assert(block_rendered_with(
                        self.tera,
                        self.file_ext@,
                self.project_map(),
                        shortcode@,
                        body_final@,
                        out@,
                    ));
                    assert(expanded(self.tera, self.file_ext@,
                self.project_map(), body@, processed@));
                    assert(body_expanded_to(
                        self.tera,
                        self.file_ext@,
                self.project_map(),
                        body@,
                        body_final@,
                    ));
                    assert(block_expansion(
                        self.tera,
                        self.file_ext@,
                self.project_map(),
                        shortcode@,
                        body@,
                        out@,
                    ));
                }
                Ok(out)
            },
            Err(e) => Err(ShortCodeProcessError::Tera { source: e }),
        }
    }

    /// Every shortcode match of the scan lies inside a code span, at
    /// every step: the expander then only copies text and never renders,
    /// so it cannot fail.
    pub open spec fn all_covered_from(
        whole: Seq<char>,
        blocks: Seq<(int, int)>,
        offset: int,
    ) -> bool
        decreases whole.len() - offset,
        via Self::all_covered_dec
    {
        if !(0 <= offset <= whole.len()) {
            true
        } else {
            let rest = whole.skip(offset);
            match find_shortcode_spec(rest) {
                None => true,
                Some(ShortcodeInfoModel::Inline(start, end)) => (exists|k: int|
                    covers_inline(blocks, k, offset, start, end, whole.len() as int)) && (
                forall|k: int|
                    #[trigger] covers_inline(blocks, k, offset, start, end, whole.len() as int)
                        ==> Self::all_covered_from(whole, blocks, blocks[k].1)),
                Some(ShortcodeInfoModel::Block { def, end }) => (exists|k: int|
                    covers_block(blocks, k, offset, def.1, end.0, whole.len() as int)) && (
                forall|k: int|
                    #[trigger] covers_block(blocks, k, offset, def.1, end.0, whole.len() as int)
                        ==> Self::all_covered_from(whole, blocks, blocks[k].1)),
            }
        }
    }

    #[via_fn]
    proof fn all_covered_dec(whole: Seq<char>, blocks: Seq<(int, int)>, offset: int) {
    }

    /// Every match of the whole input is protected by a code span.
    pub open spec fn fully_protected(input: Seq<char>) -> bool {
        Self::all_covered_from(input, find_all_blocks_spec(input, 0), 0)
    }

    /// The first match of `input` lies outside every code span and its
    /// invocation text is refused by the grammar with this error; the
    /// expander then fails with exactly that syntax error, before any
    /// engine call.
    pub open spec fn first_match_unprotected_syntax(input: Seq<char>, se: InvocationError) -> bool {
        let blocks = find_all_blocks_spec(input, 0);
        match find_shortcode_spec(input) {
            Some(ShortcodeInfoModel::Inline(start, end)) => !(exists|k: int|
                covers_inline(blocks, k, 0, start, end, input.len() as int))
                && parse_shortcode_spec(inline_name_text(input, start, end)) == Err::<
                (Seq<char>, Seq<(Seq<char>, Seq<char>)>),
                InvocationError,
            >(se),
            Some(ShortcodeInfoModel::Block { def, end }) => !(exists|k: int|
                covers_block(blocks, k, 0, def.1, end.0, input.len() as int))
                && parse_shortcode_spec(block_name_text(input, def.0, def.1)) == Err::<
                (Seq<char>, Seq<(Seq<char>, Seq<char>)>),
                InvocationError,
            >(se),
            None => false,
        }
    }

    /// Expand every shortcode of `input`, left to right: the earliest
    /// opener decides the form, an occurrence inside a code span is
    /// copied untouched together with the span, and everything between
    /// matches is copied verbatim. Inline matches render directly; block
    /// matches have their body expanded recursively before the template
    /// is rendered with it.
    #[verifier::rlimit(100)]
    pub fn process(&self, input: &str) -> (r: Result<String, ShortCodeProcessError>)
        ensures
            r matches Ok(out) ==> expanded(self.tera, self.file_ext@,
                self.project_map(), input@, out@),
            find_shortcode_spec(input@) is None ==> r is Ok,
            Self::fully_protected(input@) ==> r is Ok,
            forall|se: InvocationError|
                #[trigger] Self::first_match_unprotected_syntax(input@, se) ==> r == Err::<
                    String,
                    ShortCodeProcessError,
                >(ShortCodeProcessError::Syntax(se)),
        decreases input@.len(), 0int,
    {
        let n = input.unicode_len();
        let blocks = find_all_blocks(input);
        let ghost blocks_m = find_all_blocks_spec(input@, 0);
        let mut result = String::new();
        let mut offset: usize = 0;
        proof {
            reveal_strlit("{{");
            reveal_strlit("{%");
            reveal_strlit("}}");
            reveal_strlit("%}");
            reveal_strlit("{% end %}");
            assert forall|t_out: Seq<char>|
                expansion_from(self.tera, self.file_ext@,
                self.project_map(), input@, blocks_m, 0, t_out) implies
                expansion_from(
                    self.tera,
                    self.file_ext@,
                self.project_map(),
                    input@,
                    blocks_m,
                    0,
                    result@ + t_out,
                ) by {
                assert(result@ + t_out =~= t_out);
            }
        }
        while offset < n
            invariant
                n == input@.len(),
                offset <= n,
                blocks@.map_values(|p: (usize, usize)| (p.0 as int, p.1 as int)) == blocks_m,
                blocks_m == find_all_blocks_spec(input@, 0),
                find_shortcode_spec(input@) is None ==> offset == 0 || offset == n,
                Self::fully_protected(input@) ==> Self::all_covered_from(
                    input@,
                    blocks_m,
                    offset as int,
                ),
                forall|se: InvocationError|
                    #[trigger] Self::first_match_unprotected_syntax(input@, se) ==> offset == 0,
                forall|t_out: Seq<char>|
                    expansion_from(
                        self.tera,
                        self.file_ext@,
                self.project_map(),
                        input@,
                        blocks_m,
                        offset as int,
                        t_out,
                    ) ==> expansion_from(
                        self.tera,
                        self.file_ext@,
                self.project_map(),
                        input@,
                        blocks_m,
                        0,
                        result@ + t_out,
                    ),
            decreases n - offset,
        {
            proof {
                reveal_strlit("{{");
                reveal_strlit("{%");
                reveal_strlit("}}");
                reveal_strlit("%}");
                reveal_strlit("{% end %}");
                assert("{{"@.len() == 2);
                assert("{%"@.len() == 2);
                assert("}}"@.len() == 2);
                assert("%}"@.len() == 2);
                assert("{% end %}"@.len() == 9);
            }
            let ghost off0 = offset as int;
            let ghost res0 = result@;
            let ghost mut chunk: Seq<char> = Seq::empty();
            let rest = input.substring_char(offset, n);
            let ghost rest_m = rest@;
            proof {
                lemma_shortcode_bounds(rest_m);
                lemma_all_blocks_bounds(input@, 0);
                assert(input@.skip(off0) =~= rest_m);
                if off0 == 0 {
                    assert(input@.skip(0) =~= input@);
                }
            }
            match find_shortcode(rest) {
                None => {
                    result.append(rest);
                    offset = n;
                    proof {
                        chunk = rest_m;
                        assert forall|t_out: Seq<char>|
                            expansion_from(
                                self.tera,
                                self.file_ext@,
                self.project_map(),
                                input@,
                                blocks_m,
                                offset as int,
                                t_out,
                            ) implies expansion_from(
                            self.tera,
                            self.file_ext@,
                self.project_map(),
                            input@,
                            blocks_m,
                            off0,
                            chunk + t_out,
                        ) by {
                            assert(input@.skip(n as int) =~= Seq::<char>::empty());
                            assert(t_out == Seq::<char>::empty());
                            assert(chunk + t_out =~= rest_m);
                        }
                    }
                },
                Some(ShortcodeInfo::Inline(start, end)) => {
                    match find_cover(&blocks, start + offset, end + offset, false) {
                        None => {
                            let pre = rest.substring_char(0, start);
                            let lo = start + 2;
                            let hi = if end >= 1 && end - 1 > lo {
                                end - 1
                            } else {
                                lo
                            };
                            let name_raw = rest.substring_char(lo, hi);
                            let name = trim(name_raw);
                            proof {
                                assert(name@ == inline_name_text(
                                    rest_m,
                                    start as int,
                                    end as int,
                                ));
                            }
                            let res = match self.render_inline_template(name) {
                                Ok(res) => res,
                                Err(e) => {
                                    return Err(e);
                                },
                            };
                            result.append(pre);
                            result.append(res.as_str());
                            offset = offset + (end + 2);
                            proof {
                                chunk = pre@ + res@;
                                assert forall|k: int|
                                    !covers_inline(
                                        blocks_m,
                                        k,
                                        off0,
                                        start as int,
                                        end as int,
                                        n as int,
                                    ) by {
                                    if 0 <= k < blocks_m.len() {
                                        assert(blocks_m[k] == (
                                            blocks@[k].0 as int,
                                            blocks@[k].1 as int,
                                        ));
                                    }
                                }
                                assert forall|t_out: Seq<char>|
                                    expansion_from(
                                        self.tera,
                                        self.file_ext@,
                self.project_map(),
                                        input@,
                                        blocks_m,
                                        offset as int,
                                        t_out,
                                    ) implies expansion_from(
                                    self.tera,
                                    self.file_ext@,
                self.project_map(),
                                    input@,
                                    blocks_m,
                                    off0,
                                    chunk + t_out,
                                ) by {
                                    let out = chunk + t_out;
                                    assert(out.take(start + res@.len()) =~= rest_m.take(
                                        start as int,
                                    ) + res@);
                                    assert(out.skip(start + res@.len()) =~= t_out);
                                    assert(inline_rendered(
                                        self.tera,
                                        self.file_ext@,
                self.project_map(),
                                        inline_name_text(rest_m, start as int, end as int),
                                        res@,
                                    ));
                                }
                            }
                        },
                        Some(be) => {
                            let ghost mut k0: int = 0;
                            proof {
                                let kk = choose|k: int|
                                    0 <= k < blocks@.len() && (#[trigger] blocks@[k]).0 < (
                                    start + offset) && blocks@[k].1 >= (end + offset)
                                        && blocks@[k].1 == be;
                                k0 = kk;
                                assert(blocks_m[kk] == (
                                    blocks@[kk].0 as int,
                                    blocks@[kk].1 as int,
                                ));
                                assert(blocks_m[kk].1 <= input@.len());
                                assert(covers_inline(
                                    blocks_m,
                                    kk,
                                    off0,
                                    start as int,
                                    end as int,
                                    n as int,
                                ));
                            }
                            let relative = be - offset;
                            let pre = rest.substring_char(0, relative);
                            result.append(pre);
                            offset = offset + relative;
                            proof {
                                chunk = rest_m.take(relative as int);
                                assert forall|t_out: Seq<char>|
                                    expansion_from(
                                        self.tera,
                                        self.file_ext@,
                self.project_map(),
                                        input@,
                                        blocks_m,
                                        offset as int,
                                        t_out,
                                    ) implies expansion_from(
                                    self.tera,
                                    self.file_ext@,
                self.project_map(),
                                    input@,
                                    blocks_m,
                                    off0,
                                    chunk + t_out,
                                ) by {
                                    let out = chunk + t_out;
                                    assert(out.take(blocks_m[k0].1 - off0) =~= rest_m.take(
                                        blocks_m[k0].1 - off0,
                                    ));
                                    assert(out.skip(blocks_m[k0].1 - off0) =~= t_out);
                                }
                            }
                        },
                    }
                },
                Some(ShortcodeInfo::Block { def, end }) => {
                    match find_cover(&blocks, def.1 + offset, end.0 + offset, true) {
                        None => {
                            let pre = rest.substring_char(0, def.0);
                            let lo = def.0 + 2;
                            let hi = if def.1 >= 1 && def.1 - 1 > lo {
                                def.1 - 1
                            } else {
                                lo
                            };
                            let name_raw = rest.substring_char(lo, hi);
                            let name = trim(name_raw);
                            let lo_b = def.1 + 2;
                            let hi_b = if end.0 > lo_b {
                                end.0
                            } else {
                                lo_b
                            };
                            let body_raw = rest.substring_char(lo_b, hi_b);
                            let body = trim(body_raw);
                            proof {
                                crate::text::lemma_trim_len(body_raw@);
                                assert(name@ == block_name_text(
                                    rest_m,
                                    def.0 as int,
                                    def.1 as int,
                                ));
                                assert(body@ == block_body_text(
                                    rest_m,
                                    def.1 as int,
                                    end.0 as int,
                                ));
                            }
                            let res = match self.render_block_template(name, body) {
                                Ok(res) => res,
                                Err(e) => {
                                    return Err(e);
                                },
                            };
                            result.append(pre);
                            result.append(res.as_str());
                            push_char(&mut result, '\n');
                            offset = offset + (end.1 + 2);
                            proof {
                                reveal_strlit("\n");
                                assert("\n"@.len() == 1);
                                chunk = pre@ + res@ + "\n"@;
                                assert(result@ == res0 + chunk) by {
                                    assert(res0 + chunk =~= ((res0 + pre@) + res@).push('\n'));
                                }
                                assert forall|k: int|
                                    !covers_block(
                                        blocks_m,
                                        k,
                                        off0,
                                        def.1 as int,
                                        end.0 as int,
                                        n as int,
                                    ) by {
                                    if 0 <= k < blocks_m.len() {
                                        assert(blocks_m[k] == (
                                            blocks@[k].0 as int,
                                            blocks@[k].1 as int,
                                        ));
                                    }
                                }
                                assert forall|t_out: Seq<char>|
                                    expansion_from(
                                        self.tera,
                                        self.file_ext@,
                self.project_map(),
                                        input@,
                                        blocks_m,
                                        offset as int,
                                        t_out,
                                    ) implies expansion_from(
                                    self.tera,
                                    self.file_ext@,
                self.project_map(),
                                    input@,
                                    blocks_m,
                                    off0,
                                    chunk + t_out,
                                ) by {
                                    reveal_with_fuel(expansion_from, 2);
                                    let out = chunk + t_out;
                                    assert(out.take(def.0 + res@.len() + 1) =~= rest_m.take(
                                        def.0 as int,
                                    ) + res@ + "\n"@);
                                    assert(out.skip(def.0 + res@.len() + 1) =~= t_out);
                                    assert(off0 + end.0 + 9 == offset as int);
                                    assert(block_expansion(
                                        self.tera,
                                        self.file_ext@,
                self.project_map(),
                                        block_name_text(rest_m, def.0 as int, def.1 as int),
                                        block_body_text(rest_m, def.1 as int, end.0 as int),
                                        res@,
                                    ));
                                    let bf = choose|bf: Seq<char>|
                                        {
                                            &&& #[trigger] block_rendered_with(
                                                self.tera,
                                                self.file_ext@,
                self.project_map(),
                                                block_name_text(
                                                    rest_m,
                                                    def.0 as int,
                                                    def.1 as int,
                                                ),
                                                bf,
                                                res@,
                                            )
                                            &&& body_expanded_to(
                                                self.tera,
                                                self.file_ext@,
                self.project_map(),
                                                block_body_text(
                                                    rest_m,
                                                    def.1 as int,
                                                    end.0 as int,
                                                ),
                                                bf,
                                            )
                                        };
                                    assert(block_rendered_with(
                                        self.tera,
                                        self.file_ext@,
                self.project_map(),
                                        block_name_text(rest_m, def.0 as int, def.1 as int),
                                        bf,
                                        res@,
                                    ));
                                }
                            }
                        },
                        Some(be) => {
                            let ghost mut k0: int = 0;
                            proof {
                                let kk = choose|k: int|
                                    0 <= k < blocks@.len() && (#[trigger] blocks@[k]).0 < (
                                    def.1 + offset) && blocks@[k].1 > (end.0 + offset)
                                        && blocks@[k].1 == be;
                                k0 = kk;
                                assert(blocks_m[kk] == (
                                    blocks@[kk].0 as int,
                                    blocks@[kk].1 as int,
                                ));
                                assert(blocks_m[kk].1 <= input@.len());
                                assert(covers_block(
                                    blocks_m,
                                    kk,
                                    off0,
                                    def.1 as int,
                                    end.0 as int,
                                    n as int,
                                ));
                            }
                            let relative = be - offset;
                            let pre = rest.substring_char(0, relative);
                            result.append(pre);
                            offset = offset + relative;
                            proof {
                                chunk = rest_m.take(relative as int);
                                assert forall|t_out: Seq<char>|
                                    expansion_from(
                                        self.tera,
                                        self.file_ext@,
                self.project_map(),
                                        input@,
                                        blocks_m,
                                        offset as int,
                                        t_out,
                                    ) implies expansion_from(
                                    self.tera,
                                    self.file_ext@,
                self.project_map(),
                                    input@,
                                    blocks_m,
                                    off0,
                                    chunk + t_out,
                                ) by {
                                    let out = chunk + t_out;
                                    assert(out.take(blocks_m[k0].1 - off0) =~= rest_m.take(
                                        blocks_m[k0].1 - off0,
                                    ));
                                    assert(out.skip(blocks_m[k0].1 - off0) =~= t_out);
                                }
                            }
                        },
                    }
                },
            }
            proof {
                assert(result@ == res0 + chunk);
                assert forall|t_out: Seq<char>|
                    expansion_from(
                        self.tera,
                        self.file_ext@,
                self.project_map(),
                        input@,
                        blocks_m,
                        offset as int,
                        t_out,
                    ) implies expansion_from(
                    self.tera,
                    self.file_ext@,
                self.project_map(),
                    input@,
                    blocks_m,
                    0,
                    result@ + t_out,
                ) by {
                    assert(expansion_from(
                        self.tera,
                        self.file_ext@,
                self.project_map(),
                        input@,
                        blocks_m,
                        off0,
                        chunk + t_out,
                    ));
                    assert(expansion_from(
                        self.tera,
                        self.file_ext@,
                self.project_map(),
                        input@,
                        blocks_m,
                        0,
                        res0 + (chunk + t_out),
                    ));
                    assert(res0 + (chunk + t_out) =~= result@ + t_out);
                }
            }
        }
        proof {
            reveal_strlit("{{");
            reveal_strlit("{%");
            assert("{{"@.len() == 2);
            assert("{%"@.len() == 2);
            assert(input@.skip(n as int) =~= Seq::<char>::empty());
            assert(expansion_from(
                self.tera,
                self.file_ext@,
                self.project_map(),
                input@,
                blocks_m,
                n as int,
                Seq::<char>::empty(),
            ));
            assert(expansion_from(
                self.tera,
                self.file_ext@,
                self.project_map(),
                input@,
                blocks_m,
                0,
                result@ + Seq::<char>::empty(),
            ));
            assert(result@ + Seq::<char>::empty() =~= result@);
        }
        Ok(result)
    }
}

/// Find the first code span that covers the range `[a, b]`: its start
/// lies before `a` and its end at or past `b` (strictly past, for the
/// block form).
fn find_cover(blocks: &Vec<(usize, usize)>, a: usize, b: usize, strict: bool) -> (r: Option<
    usize,
>)
    ensures
        r matches Some(be) ==> (exists|k: int|
            0 <= k < blocks@.len() && (#[trigger] blocks@[k]).0 < a && (if strict {
                blocks@[k].1 > b
            } else {
                blocks@[k].1 >= b
            }) && blocks@[k].1 == be),
        r is None ==> (forall|k: int|
            0 <= k < blocks@.len() ==> !((#[trigger] blocks@[k]).0 < a && (if strict {
                blocks@[k].1 > b
            } else {
                blocks@[k].1 >= b
            }))),
{
    let m = blocks.len();
    let mut k: usize = 0;
    while k < m
        invariant
            m == blocks@.len(),
            k <= m,
            forall|j: int|
                0 <= j < k ==> !((#[trigger] blocks@[j]).0 < a && (if strict {
                    blocks@[j].1 > b
                } else {
                    blocks@[j].1 >= b
                })),
        decreases m - k,
    {
        let (bs, be) = blocks[k];
        let covers = if strict {
            bs < a && be > b
        } else {
            bs < a && be >= b
        };
        if covers {
            return Some(be);
        }
        k += 1;
    }
    None
}

/// Where the first shortcode of `s` lies, every position is in range:
/// the inline closer leaves room for `}}`, and a block's end tag for
/// `{% end %}`.
proof fn lemma_shortcode_bounds(s: Seq<char>)
    ensures
        match find_shortcode_spec(s) {
            Some(ShortcodeInfoModel::Inline(st, e)) => 0 <= st && st + 2 <= e && e + 2
                <= s.len(),
            Some(ShortcodeInfoModel::Block { def, end }) => {
                &&& 0 <= def.0 <= def.1
                &&& def.1 + 2 <= s.len()
                &&& def.1 <= end.0
                &&& end.0 + 9 <= s.len()
                &&& end.1 == end.0 + 7
            },
            None => true,
        },
{
    reveal_strlit("{{");
    reveal_strlit("{%");
    reveal_strlit("}}");
    reveal_strlit("%}");
    reveal_strlit("{% end %}");
    assert("{{"@.len() == 2);
    assert("{%"@.len() == 2);
    assert("}}"@.len() == 2);
    assert("%}"@.len() == 2);
    assert("{% end %}"@.len() == 9);
    lemma_find_pat(s, "{{"@, 0);
    lemma_find_pat(s, "{%"@, 0);
    match find_pat(s, "{{"@, 0) {
        Some(is) => {
            lemma_find_pat(s, "}}"@, is + 2);
        },
        None => {},
    }
    match find_pat(s, "{%"@, 0) {
        Some(bs) => {
            lemma_find_pat(s, "%}"@, bs);
            match find_pat(s, "%}"@, bs) {
                Some(e) => {
                    lemma_find_pat(s, "{% end %}"@, e);
                },
                None => {},
            }
        },
        None => {},
    }
}

} // verus!
