//! The block engine: headings, lists, quotes, fenced code and paragraph
//! lines, each decoded line by line through the inline engine.
use vstd::prelude::*;
use crate::ast::{
    agrees, blocks_view, lines_view, opt_view, step_model, text_view, within, BlockModel,
    ErrorKind, InlineModel, ParseError,
    Markdown, MarkdownText, Outcome, ParseResult, Step,
};
use crate::inline::{lemma_text_bounds, text_at, text_spec};
use crate::scan::{char_is, class_holds, is_white_space, lemma_run_end, run_end, Class, Source};

verus! {

broadcast use vstd::seq::group_seq_axioms;

// ---------------------------------------------------------------------------
// The grammar, over positions of a character sequence.
// ---------------------------------------------------------------------------

/// One or more `#`, then a space; the value is the number of `#`.
pub open spec fn header_tag_spec(s: Seq<char>, p: int) -> Outcome<nat> {
    let e = run_end(s, p, Class::Is('#'));
    if e == p {
        Err((p, ErrorKind::TakeWhile1))
    } else if !char_is(s, e, ' ') {
        Err((e, ErrorKind::Tag))
    } else {
        Ok((e + 1, (e - p) as nat))
    }
}

/// A heading tag, then one decoded line.
pub open spec fn header_spec(s: Seq<char>, p: int) -> Outcome<(nat, Seq<InlineModel>)> {
    match header_tag_spec(s, p) {
        Err(e) => Err(e),
        Ok((q, n)) => match text_spec(s, q) {
            Ok((r, t)) => Ok((r, (n, t))),
            Err(e) => Err(e),
        },
    }
}

/// The kinds of line prefix that a run of lines shares.
#[derive(Clone, Copy)]
pub enum Prefix {
    /// `- `
    Dash,
    /// One or more decimal digits, then `. `
    Number,
    /// `> `
    Quote,
}

/// The marker of one prefixed line, then a space; the value is the marker
/// (the digits, for a numbered line).
pub open spec fn prefix_spec(s: Seq<char>, p: int, k: Prefix) -> Outcome<Seq<char>> {
    match k {
        Prefix::Number => {
            let e = run_end(s, p, Class::Digit);
            if e == p {
                Err((p, ErrorKind::TakeWhile1))
            } else if !char_is(s, e, '.') {
                Err((e, ErrorKind::Tag))
            } else if !char_is(s, e + 1, ' ') {
                Err((e + 1, ErrorKind::Tag))
            } else {
                Ok((e + 2, s.subrange(p, e)))
            }
        },
        _ => {
            let c = if k is Dash { '-' } else { '>' };
            if !char_is(s, p, c) {
                Err((p, ErrorKind::Tag))
            } else if !char_is(s, p + 1, ' ') {
                Err((p + 1, ErrorKind::Tag))
            } else {
                Ok((p + 2, s.subrange(p, p + 1)))
            }
        },
    }
}

/// One prefixed line: the prefix, then one decoded line.
pub open spec fn item_spec(s: Seq<char>, p: int, k: Prefix) -> Outcome<Seq<InlineModel>> {
    match prefix_spec(s, p, k) {
        Err(e) => Err(e),
        Ok((q, _)) => text_spec(s, q),
    }
}

/// As many prefixed lines as follow one another from `p`, and the position
/// after them.
pub open spec fn items(s: Seq<char>, p: int, k: Prefix) -> (int, Seq<Seq<InlineModel>>)
    decreases s.len() - p,
{
    if let Ok((q, x)) = item_spec(s, p, k) {
        if p < q <= s.len() {
            let r = items(s, q, k);
            (r.0, seq![x] + r.1)
        } else {
            (p, seq![])
        }
    } else {
        (p, seq![])
    }
}

/// One or more prefixed lines.
pub open spec fn list_spec(s: Seq<char>, p: int, k: Prefix) -> Outcome<Seq<Seq<InlineModel>>> {
    match item_spec(s, p, k) {
        Err(e) => Err(e),
        Ok(_) => Ok(items(s, p, k)),
    }
}

/// Whether a fence of three backticks starts at `p`.
pub open spec fn fence_at(s: Seq<char>, p: int) -> bool {
    char_is(s, p, '`') && char_is(s, p + 1, '`') && char_is(s, p + 2, '`')
}

/// The first fence at or after `p`; the end of `s` where there is none.
pub open spec fn fence_from(s: Seq<char>, p: int) -> int
    decreases s.len() - p,
{
    if 0 <= p < s.len() && !fence_at(s, p) {
        fence_from(s, p + 1)
    } else {
        p
    }
}

/// A fenced code block: a fence, the rest of that line, a line feed, then
/// the code up to the next fence, which closes it. The value is the rest of
/// the opening line and the code.
pub open spec fn code_block_spec(s: Seq<char>, p: int) -> Outcome<(Seq<char>, Seq<char>)> {
    if !fence_at(s, p) {
        Err((p, ErrorKind::Tag))
    } else {
        let l = run_end(s, p + 3, Class::Not('\n'));
        if l >= s.len() {
            Err((l, ErrorKind::Tag))
        } else {
            let f = fence_from(s, l + 1);
            if !fence_at(s, f) {
                Err((l + 1, ErrorKind::TakeUntil))
            } else {
                Ok((f + 3, (s.subrange(p + 3, l), s.subrange(l + 1, f))))
            }
        }
    }
}

/// The end of the white space that ends `t[..q]`, read backwards.
pub open spec fn trim_back(t: Seq<char>, q: int) -> int
    decreases q,
{
    if 0 < q <= t.len() && is_white_space(t[q - 1]) {
        trim_back(t, q - 1)
    } else {
        q
    }
}

/// `t` without its leading and trailing white space.
pub open spec fn trimmed(t: Seq<char>) -> Seq<char> {
    let a = run_end(t, 0, Class::WhiteSpace);
    let b = trim_back(t, t.len() as int);
    if a < b {
        t.subrange(a, b)
    } else {
        seq![]
    }
}

/// The language that the opening line of a code block names: the line
/// trimmed, absent when nothing is left.
pub open spec fn language_of(line: Seq<char>) -> Option<Seq<char>> {
    if trimmed(line).len() == 0 {
        None
    } else {
        Some(trimmed(line))
    }
}

/// One block: the first of heading, ordered list, unordered list, quote,
/// code block and paragraph line that matches; where none does, the
/// paragraph line's failure.
pub open spec fn block_spec(s: Seq<char>, p: int) -> Outcome<BlockModel> {
    if let Ok((q, (n, t))) = header_spec(s, p) {
        Ok((q, BlockModel::Heading(n, t)))
    } else if let Ok((q, ls)) = list_spec(s, p, Prefix::Number) {
        Ok((q, BlockModel::OrderedList(ls)))
    } else if let Ok((q, ls)) = list_spec(s, p, Prefix::Dash) {
        Ok((q, BlockModel::UnorderedList(ls)))
    } else if let Ok((q, ls)) = list_spec(s, p, Prefix::Quote) {
        Ok((q, BlockModel::Quote(ls)))
    } else if let Ok((q, (line, code))) = code_block_spec(s, p) {
        Ok((q, BlockModel::CodeBlock(code, language_of(line))))
    } else {
        match text_spec(s, p) {
            Ok((q, t)) => Ok((q, BlockModel::Text(t))),
            Err(e) => Err(e),
        }
    }
}

/// As many blocks as follow one another from `p`, and the position after
/// them.
pub open spec fn blocks(s: Seq<char>, p: int) -> (int, Seq<BlockModel>)
    decreases s.len() - p,
{
    if let Ok((q, b)) = block_spec(s, p) {
        if p < q <= s.len() {
            let r = blocks(s, q);
            (r.0, seq![b] + r.1)
        } else {
            (p, seq![])
        }
    } else {
        (p, seq![])
    }
}

/// One or more blocks that use up the rest of `s` from `p`. Where no block
/// matches at `p`, that block's failure; where the blocks stop short of the
/// end, a failure at that point.
pub open spec fn markdown_spec(s: Seq<char>, p: int) -> Outcome<Seq<BlockModel>> {
    match block_spec(s, p) {
        Err(e) => Err(e),
        Ok(_) => {
            let (q, bs) = blocks(s, p);
            if q == s.len() {
                Ok((q, bs))
            } else {
                Err((q, ErrorKind::Eof))
            }
        },
    }
}

/// A whole document: the blocks of `markdown_spec` from its start.
pub open spec fn document_spec(s: Seq<char>) -> Result<Seq<BlockModel>, (int, ErrorKind)> {
    match markdown_spec(s, 0) {
        Err(e) => Err(e),
        Ok((_, bs)) => Ok(bs),
    }
}

} // verus!

verus! {

// ---------------------------------------------------------------------------
// Facts about the grammar.
// ---------------------------------------------------------------------------

pub proof fn lemma_fence_from(s: Seq<char>, p: int)
    requires
        0 <= p <= s.len(),
    ensures
        p <= fence_from(s, p) <= s.len(),
        forall|j: int| p <= j < fence_from(s, p) ==> !#[trigger] fence_at(s, j),
    decreases s.len() - p,
{
    if p < s.len() && !fence_at(s, p) {
        lemma_fence_from(s, p + 1);
    }
}

pub proof fn lemma_item_bounds(s: Seq<char>, p: int, k: Prefix)
    requires
        0 <= p <= s.len(),
    ensures
        item_spec(s, p, k) matches Ok((q, _)) ==> p < q <= s.len(),
        item_spec(s, p, k) matches Err((q, _)) ==> p <= q <= s.len(),
{
    lemma_run_end(s, p, Class::Digit);
    if let Ok((q, _)) = prefix_spec(s, p, k) {
        lemma_text_bounds(s, q);
    }
}

pub proof fn lemma_items_bounds(s: Seq<char>, p: int, k: Prefix)
    requires
        0 <= p <= s.len(),
    ensures
        p <= items(s, p, k).0 <= s.len(),
        item_spec(s, p, k) is Ok ==> p < items(s, p, k).0,
    decreases s.len() - p,
{
    lemma_item_bounds(s, p, k);
    if let Ok((q, _)) = item_spec(s, p, k) {
        lemma_items_bounds(s, q, k);
    }
}

pub proof fn lemma_block_bounds(s: Seq<char>, p: int)
    requires
        0 <= p <= s.len(),
    ensures
        block_spec(s, p) matches Ok((q, _)) ==> p < q <= s.len(),
        block_spec(s, p) matches Err((q, _)) ==> p <= q <= s.len(),
{
    lemma_run_end(s, p, Class::Is('#'));
    let e = run_end(s, p, Class::Is('#'));
    if e < s.len() {
        lemma_text_bounds(s, e + 1);
    }
    lemma_item_bounds(s, p, Prefix::Number);
    lemma_item_bounds(s, p, Prefix::Dash);
    lemma_item_bounds(s, p, Prefix::Quote);
    lemma_items_bounds(s, p, Prefix::Number);
    lemma_items_bounds(s, p, Prefix::Dash);
    lemma_items_bounds(s, p, Prefix::Quote);
    if fence_at(s, p) {
        lemma_run_end(s, p + 3, Class::Not('\n'));
        let l = run_end(s, p + 3, Class::Not('\n'));
        if l < s.len() {
            lemma_fence_from(s, l + 1);
        }
    }
    lemma_text_bounds(s, p);
}

// ---------------------------------------------------------------------------
// The recognizers, at positions of a source.
// ---------------------------------------------------------------------------

pub(crate) fn header_tag_at(src: &Source, p: usize) -> (r: Step<usize>)
    requires
        src.wf(),
        p <= src.chars@.len(),
    ensures
        step_model(r, |n: usize| n as nat) == header_tag_spec(src.chars@, p as int),
        within(r, p as int, src.chars@.len() as int),
{
    let e = src.run(p, Class::Is('#'));
    proof { lemma_run_end(src.chars@, p as int, Class::Is('#')); }
    if e == p {
        Err((p, ErrorKind::TakeWhile1))
    } else if !src.is(e, ' ') {
        Err((e, ErrorKind::Tag))
    } else {
        Ok((e + 1, e - p))
    }
}

pub(crate) fn header_at(src: &Source, p: usize) -> (r: Step<(usize, MarkdownText)>)
    requires
        src.wf(),
        p <= src.chars@.len(),
    ensures
        step_model(r, |h: (usize, MarkdownText)| (h.0 as nat, text_view(h.1@))) == header_spec(
            src.chars@,
            p as int,
        ),
        within(r, p as int, src.chars@.len() as int),
{
    match header_tag_at(src, p) {
        Err(e) => Err(e),
        Ok((q, n)) => match text_at(src, q) {
            Ok((r, t)) => Ok((r, (n, t))),
            Err(e) => Err(e),
        },
    }
}

pub(crate) fn prefix_at<'a>(src: &Source<'a>, p: usize, k: Prefix) -> (r: Step<&'a str>)
    requires
        src.wf(),
        p <= src.chars@.len(),
    ensures
        step_model(r, |t: &'a str| t@) == prefix_spec(src.chars@, p as int, k),
        within(r, p as int, src.chars@.len() as int),
{
    match k {
        Prefix::Number => {
            let e = src.run(p, Class::Digit);
            proof { lemma_run_end(src.chars@, p as int, Class::Digit); }
            if e == p {
                Err((p, ErrorKind::TakeWhile1))
            } else if !src.is(e, '.') {
                Err((e, ErrorKind::Tag))
            } else if !src.is(e + 1, ' ') {
                Err((e + 1, ErrorKind::Tag))
            } else {
                Ok((e + 2, src.slice(p, e)))
            }
        },
        _ => {
            let c = match k {
                Prefix::Dash => '-',
                _ => '>',
            };
            if !src.is(p, c) {
                Err((p, ErrorKind::Tag))
            } else if !src.is(p + 1, ' ') {
                Err((p + 1, ErrorKind::Tag))
            } else {
                Ok((p + 2, src.slice(p, p + 1)))
            }
        },
    }
}

pub(crate) fn item_at(src: &Source, p: usize, k: Prefix) -> (r: Step<MarkdownText>)
    requires
        src.wf(),
        p <= src.chars@.len(),
    ensures
        step_model(r, |v: MarkdownText| text_view(v@)) == item_spec(src.chars@, p as int, k),
        within(r, p as int, src.chars@.len() as int),
        r matches Ok((q, _)) ==> p < q,
{
    proof { lemma_item_bounds(src.chars@, p as int, k); }
    match prefix_at(src, p, k) {
        Err(e) => Err(e),
        Ok((q, _)) => text_at(src, q),
    }
}

pub(crate) fn list_at(src: &Source, p: usize, k: Prefix) -> (r: Step<Vec<MarkdownText>>)
    requires
        src.wf(),
        p <= src.chars@.len(),
    ensures
        step_model(r, |v: Vec<MarkdownText>| lines_view(v@)) == list_spec(
            src.chars@,
            p as int,
            k,
        ),
        within(r, p as int, src.chars@.len() as int),
{
    let ghost s = src.chars@;
    let first = item_at(src, p, k);
    if let Err(e) = first {
        return Err(e);
    }
    let mut lines: Vec<MarkdownText> = Vec::new();
    let mut q = p;
    loop
        invariant
            src.wf(),
            s == src.chars@,
            p <= q <= s.len(),
            items(s, p as int, k) == (items(s, q as int, k).0, lines_view(lines@) + items(
                s,
                q as int,
                k,
            ).1),
        ensures
            p <= q <= s.len(),
            items(s, p as int, k) == (q as int, lines_view(lines@)),
        decreases s.len() - q,
    {
        match item_at(src, q, k) {
            Ok((q2, x)) => {
                proof {
                    assert(lines_view(lines@.push(x)) =~= lines_view(lines@).push(text_view(x@)));
                    assert(lines_view(lines@) + items(s, q as int, k).1 =~= lines_view(
                        lines@.push(x),
                    ) + items(s, q2 as int, k).1);
                }
                lines.push(x);
                q = q2;
            },
            Err(_) => {
                assert(items(s, q as int, k) == (q as int, Seq::<Seq<InlineModel>>::empty()));
                assert(lines_view(lines@) + items(s, q as int, k).1 =~= lines_view(lines@));
                break ;
            },
        }
    }
    Ok((q, lines))
}

pub(crate) fn fence(src: &Source, p: usize) -> (b: bool)
    requires
        src.wf(),
    ensures
        b == fence_at(src.chars@, p as int),
{
    src.is(p, '`') && src.is(p + 1, '`') && src.is(p + 2, '`')
}

pub(crate) fn code_block_at<'a>(src: &Source<'a>, p: usize) -> (r: Step<(&'a str, &'a str)>)
    requires
        src.wf(),
        p <= src.chars@.len(),
    ensures
        step_model(r, |t: (&'a str, &'a str)| (t.0@, t.1@)) == code_block_spec(
            src.chars@,
            p as int,
        ),
        within(r, p as int, src.chars@.len() as int),
{
    if !fence(src, p) {
        return Err((p, ErrorKind::Tag));
    }
    let l = src.run(p + 3, Class::Not('\n'));
    proof { lemma_run_end(src.chars@, p + 3, Class::Not('\n')); }
    if l >= src.len() {
        return Err((l, ErrorKind::Tag));
    }
    let mut f = l + 1;
    while f < src.len() && !fence(src, f)
        invariant
            src.wf(),
            l + 1 <= f <= src.chars@.len(),
            fence_from(src.chars@, f as int) == fence_from(src.chars@, l + 1),
        decreases src.chars@.len() - f,
    {
        f = f + 1;
    }
    if !fence(src, f) {
        Err((l + 1, ErrorKind::TakeUntil))
    } else {
        Ok((f + 3, (src.slice(p + 3, l), src.slice(l + 1, f))))
    }
}

/// The language that the opening line of a code block names.
pub(crate) fn language(line: &str) -> (r: Option<String>)
    ensures
        opt_view(r) == language_of(line@),
{
    let src = Source::new(line);
    let a = src.run(0, Class::WhiteSpace);
    proof { lemma_run_end(src.chars@, 0, Class::WhiteSpace); }
    let mut b = src.len();
    while b > 0 && class_holds(Class::WhiteSpace, src.chars[b - 1])
        invariant
            src.wf(),
            b <= src.chars@.len(),
            trim_back(src.chars@, b as int) == trim_back(src.chars@, src.chars@.len() as int),
        decreases b,
    {
        b = b - 1;
    }
    if a < b {
        Some(src.owned(a, b))
    } else {
        None
    }
}

pub(crate) fn block_at(src: &Source, p: usize) -> (r: Step<Markdown>)
    requires
        src.wf(),
        p <= src.chars@.len(),
    ensures
        step_model(r, |b: Markdown| b@) == block_spec(src.chars@, p as int),
        within(r, p as int, src.chars@.len() as int),
        r matches Ok((q, _)) ==> p < q,
{
    proof { lemma_block_bounds(src.chars@, p as int); }
    if let Ok((q, (n, t))) = header_at(src, p) {
        return Ok((q, Markdown::Heading(n, t)));
    }
    if let Ok((q, ls)) = list_at(src, p, Prefix::Number) {
        return Ok((q, Markdown::OrderedList(ls)));
    }
    if let Ok((q, ls)) = list_at(src, p, Prefix::Dash) {
        return Ok((q, Markdown::UnorderedList(ls)));
    }
    if let Ok((q, ls)) = list_at(src, p, Prefix::Quote) {
        return Ok((q, Markdown::Quote(ls)));
    }
    if let Ok((q, (line, code))) = code_block_at(src, p) {
        return Ok((q, Markdown::CodeBlock(code.to_owned(), language(line))));
    }
    match text_at(src, p) {
        Ok((q, t)) => Ok((q, Markdown::Text(t))),
        Err(e) => Err(e),
    }
}

pub(crate) fn markdown_at(src: &Source, p: usize) -> (r: Step<Vec<Markdown>>)
    requires
        src.wf(),
        p <= src.chars@.len(),
    ensures
        step_model(r, |v: Vec<Markdown>| blocks_view(v@)) == markdown_spec(src.chars@, p as int),
        within(r, p as int, src.chars@.len() as int),
{
    let ghost s = src.chars@;
    let first = block_at(src, p);
    if let Err(e) = first {
        return Err(e);
    }
    let mut out: Vec<Markdown> = Vec::new();
    let mut q = p;
    loop
        invariant
            src.wf(),
            s == src.chars@,
            p <= q <= s.len(),
            blocks(s, p as int) == (blocks(s, q as int).0, blocks_view(out@) + blocks(
                s,
                q as int,
            ).1),
        ensures
            p <= q <= s.len(),
            blocks(s, p as int) == (q as int, blocks_view(out@)),
        decreases s.len() - q,
    {
        match block_at(src, q) {
            Ok((q2, b)) => {
                proof {
                    assert(blocks_view(out@.push(b)) =~= blocks_view(out@).push(b@));
                    assert(blocks_view(out@) + blocks(s, q as int).1 =~= blocks_view(
                        out@.push(b),
                    ) + blocks(s, q2 as int).1);
                }
                out.push(b);
                q = q2;
            },
            Err(_) => {
                assert(blocks(s, q as int) == (q as int, Seq::<BlockModel>::empty()));
                assert(blocks_view(out@) + blocks(s, q as int).1 =~= blocks_view(out@));
                break ;
            },
        }
    }
    if q == src.len() {
        Ok((q, out))
    } else {
        Err((q, ErrorKind::Eof))
    }
}

} // verus!

verus! {

// ---------------------------------------------------------------------------
// The public recognizers, each on the whole of its input.
// ---------------------------------------------------------------------------

/// Reads a heading tag (`#` marks and a space) at the start of `i`; the value
/// is the number of `#`.
pub fn parse_header_tag<'a>(i: &'a str) -> (r: ParseResult<'a, usize>)
    ensures
        agrees(r, i@, header_tag_spec(i@, 0), |n: usize| n as nat),
{
    let src = Source::new(i);
    src.finish(header_tag_at(&src, 0))
}

/// Reads a heading line at the start of `i`: its level and decoded content.
pub fn parse_header<'a>(i: &'a str) -> (r: ParseResult<'a, (usize, MarkdownText)>)
    ensures
        agrees(r, i@, header_spec(i@, 0), |h: (usize, MarkdownText)| (h.0 as nat, text_view(h.1@))),
{
    let src = Source::new(i);
    src.finish(header_at(&src, 0))
}

/// Reads `- ` at the start of `i`; the value is the `-`.
pub fn parse_unordered_list_tag<'a>(i: &'a str) -> (r: ParseResult<'a, &'a str>)
    ensures
        agrees(r, i@, prefix_spec(i@, 0, Prefix::Dash), |t: &'a str| t@),
{
    let src = Source::new(i);
    src.finish(prefix_at(&src, 0, Prefix::Dash))
}

/// Reads one `- ` line at the start of `i`.
pub fn parse_unordered_list_element<'a>(i: &'a str) -> (r: ParseResult<'a, MarkdownText>)
    ensures
        agrees(r, i@, item_spec(i@, 0, Prefix::Dash), |v: MarkdownText| text_view(v@)),
{
    let src = Source::new(i);
    src.finish(item_at(&src, 0, Prefix::Dash))
}

/// Reads one or more `- ` lines at the start of `i`.
pub fn parse_unordered_list<'a>(i: &'a str) -> (r: ParseResult<'a, Vec<MarkdownText>>)
    ensures
        agrees(r, i@, list_spec(i@, 0, Prefix::Dash), |v: Vec<MarkdownText>| lines_view(v@)),
{
    let src = Source::new(i);
    src.finish(list_at(&src, 0, Prefix::Dash))
}

/// Reads digits, `.` and a space at the start of `i`; the value is the
/// digits.
pub fn parse_ordered_list_tag<'a>(i: &'a str) -> (r: ParseResult<'a, &'a str>)
    ensures
        agrees(r, i@, prefix_spec(i@, 0, Prefix::Number), |t: &'a str| t@),
{
    let src = Source::new(i);
    src.finish(prefix_at(&src, 0, Prefix::Number))
}

/// Reads one numbered line at the start of `i`.
pub fn parse_ordered_list_element<'a>(i: &'a str) -> (r: ParseResult<'a, MarkdownText>)
    ensures
        agrees(r, i@, item_spec(i@, 0, Prefix::Number), |v: MarkdownText| text_view(v@)),
{
    let src = Source::new(i);
    src.finish(item_at(&src, 0, Prefix::Number))
}

/// Reads one or more numbered lines at the start of `i`.
pub fn parse_ordered_list<'a>(i: &'a str) -> (r: ParseResult<'a, Vec<MarkdownText>>)
    ensures
        agrees(r, i@, list_spec(i@, 0, Prefix::Number), |v: Vec<MarkdownText>| lines_view(v@)),
{
    let src = Source::new(i);
    src.finish(list_at(&src, 0, Prefix::Number))
}

/// Reads `> ` at the start of `i`; the value is the `>`.
pub fn parse_quote_tag<'a>(i: &'a str) -> (r: ParseResult<'a, &'a str>)
    ensures
        agrees(r, i@, prefix_spec(i@, 0, Prefix::Quote), |t: &'a str| t@),
{
    let src = Source::new(i);
    src.finish(prefix_at(&src, 0, Prefix::Quote))
}

/// Reads one `> ` line at the start of `i`.
pub fn parse_quote_line<'a>(i: &'a str) -> (r: ParseResult<'a, MarkdownText>)
    ensures
        agrees(r, i@, item_spec(i@, 0, Prefix::Quote), |v: MarkdownText| text_view(v@)),
{
    let src = Source::new(i);
    src.finish(item_at(&src, 0, Prefix::Quote))
}

/// Reads one or more `> ` lines at the start of `i`.
pub fn parse_quote<'a>(i: &'a str) -> (r: ParseResult<'a, Vec<MarkdownText>>)
    ensures
        agrees(r, i@, list_spec(i@, 0, Prefix::Quote), |v: Vec<MarkdownText>| lines_view(v@)),
{
    let src = Source::new(i);
    src.finish(list_at(&src, 0, Prefix::Quote))
}

/// Reads a fenced code block at the start of `i`; the value is the rest of
/// the opening line, untrimmed, and the code.
pub fn parse_code_block<'a>(i: &'a str) -> (r: ParseResult<'a, (&'a str, &'a str)>)
    ensures
        agrees(r, i@, code_block_spec(i@, 0), |t: (&'a str, &'a str)| (t.0@, t.1@)),
{
    let src = Source::new(i);
    src.finish(code_block_at(&src, 0))
}

/// Parses `i` as one or more blocks that use it up; where blocks stop before
/// the end, fails with the unparsed remainder.
pub fn parse_markdown<'a>(i: &'a str) -> (r: ParseResult<'a, Vec<Markdown>>)
    ensures
        agrees(r, i@, markdown_spec(i@, 0), |v: Vec<Markdown>| blocks_view(v@)),
{
    let src = Source::new(i);
    src.finish(markdown_at(&src, 0))
}

/// Parses a whole document. It fails where no block matches, and with the
/// unparsed remainder where blocks stop before the end.
pub fn parse_document<'a>(text: &'a str) -> (r: Result<Vec<Markdown>, ParseError<'a>>)
    ensures
        match (document_spec(text@), r) {
            (Ok(bs), Ok(v)) => blocks_view(v@) == bs,
            (Err((q, k)), Err(e)) => e.input@ == text@.subrange(q, text@.len() as int)
                && e.kind == k,
            _ => false,
        },
{
    let src = Source::new(text);
    match markdown_at(&src, 0) {
        Ok((_, bs)) => Ok(bs),
        Err((q, k)) => Err(ParseError { input: src.rest(q), kind: k }),
    }
}

} // verus!
