//! The inline engine: plain runs, emphasis, inline code, images and links
//! within one line.
use vstd::prelude::*;
use crate::ast::{
    agrees, step_model, within, text_view, ErrorKind, InlineModel, MarkdownInLine, MarkdownText,
    Outcome, ParseResult, Step,
};
use crate::scan::{char_is, lemma_run_end, run_end, Class, Source};

verus! {

broadcast use vstd::seq::group_seq_axioms;

// ---------------------------------------------------------------------------
// The grammar, over positions of a character sequence.
// ---------------------------------------------------------------------------

/// Whether a run of one `*` (or two, when `strong`) starts at `p`.
pub open spec fn stars_at(s: Seq<char>, p: int, strong: bool) -> bool {
    char_is(s, p, '*') && (!strong || char_is(s, p + 1, '*'))
}

pub open spec fn width(strong: bool) -> int {
    if strong { 2 } else { 1 }
}

/// The end of the text of a bold run that starts at `p`: the first `**`, line
/// feed or end of `s`.
pub open spec fn strong_end(s: Seq<char>, p: int) -> int
    decreases s.len() - p,
{
    if 0 <= p < s.len() && s[p] != '\n' && !stars_at(s, p, true) {
        strong_end(s, p + 1)
    } else {
        p
    }
}

/// The end of the text of an emphasis run whose text starts at `p`.
pub open spec fn emphasis_end(s: Seq<char>, p: int, strong: bool) -> int {
    if strong {
        strong_end(s, p)
    } else {
        run_end(s, p, Class::LineNot('*'))
    }
}

/// `**text**` (when `strong`) or `*text*`: the text is not empty, holds no
/// line feed, and holds no `**` (when `strong`) or no `*`.
pub open spec fn emphasis_spec(s: Seq<char>, p: int, strong: bool) -> Outcome<Seq<char>> {
    let w = width(strong);
    if !stars_at(s, p, strong) {
        Err((p, ErrorKind::Tag))
    } else {
        let e = emphasis_end(s, p + w, strong);
        if e == p + w {
            Err((e, ErrorKind::IsNot))
        } else if !stars_at(s, e, strong) {
            Err((e, ErrorKind::Tag))
        } else {
            Ok((e + w, s.subrange(p + w, e)))
        }
    }
}

/// `` `code`lang ``: the code is not empty and holds no backtick and no line
/// feed; the
/// language is the run of characters other than space, tab, carriage return
/// and line feed right after the closing backtick, absent when that run is
/// empty.
pub open spec fn code_spec(s: Seq<char>, p: int) -> Outcome<(Seq<char>, Option<Seq<char>>)> {
    if !char_is(s, p, '`') {
        Err((p, ErrorKind::Tag))
    } else {
        let e = run_end(s, p + 1, Class::LineNot('`'));
        if e == p + 1 {
            Err((e, ErrorKind::IsNot))
        } else if !char_is(s, e, '`') {
            Err((e, ErrorKind::Tag))
        } else {
            let l = run_end(s, e + 1, Class::NotSpace);
            let lang = if l == e + 1 { None } else { Some(s.subrange(e + 1, l)) };
            Ok((l, (s.subrange(p + 1, e), lang)))
        }
    }
}

/// `[label](url)`, or `![label](url)` when `image`: the label is not empty
/// and holds no `]`, the url is not empty and holds no `)`, and neither
/// holds a line feed.
pub open spec fn link_spec(s: Seq<char>, p: int, image: bool) -> Outcome<(Seq<char>, Seq<char>)> {
    let opened = if image {
        char_is(s, p, '!') && char_is(s, p + 1, '[')
    } else {
        char_is(s, p, '[')
    };
    let a = if image { p + 2 } else { p + 1 };
    if !opened {
        Err((p, ErrorKind::Tag))
    } else {
        let e1 = run_end(s, a, Class::LineNot(']'));
        if e1 == a {
            Err((e1, ErrorKind::IsNot))
        } else if !char_is(s, e1, ']') {
            Err((e1, ErrorKind::Tag))
        } else if !char_is(s, e1 + 1, '(') {
            Err((e1 + 1, ErrorKind::Tag))
        } else {
            let e2 = run_end(s, e1 + 2, Class::LineNot(')'));
            if e2 == e1 + 2 {
                Err((e2, ErrorKind::IsNot))
            } else if !char_is(s, e2, ')') {
                Err((e2, ErrorKind::Tag))
            } else {
                Ok((e2 + 1, (s.subrange(a, e1), s.subrange(e1 + 2, e2))))
            }
        }
    }
}

/// Whether a marker starts at `p`: `*`, a backtick, `[`, `![` or a line feed.
pub open spec fn marker_at(s: Seq<char>, p: int) -> bool {
    char_is(s, p, '*') || char_is(s, p, '`') || char_is(s, p, '[') || char_is(s, p, '\n')
        || (char_is(s, p, '!') && char_is(s, p + 1, '['))
}

/// The end of the plain run from `p`: the first marker or the end of `s`.
pub open spec fn plain_end(s: Seq<char>, p: int) -> int
    decreases s.len() - p,
{
    if 0 <= p < s.len() && !marker_at(s, p) {
        plain_end(s, p + 1)
    } else {
        p
    }
}

/// A plain run: one or more characters up to the first marker.
pub open spec fn plain_spec(s: Seq<char>, p: int) -> Outcome<Seq<char>> {
    if marker_at(s, p) {
        Err((p, ErrorKind::Not))
    } else if p >= s.len() {
        Err((p, ErrorKind::Eof))
    } else {
        Ok((plain_end(s, p), s.subrange(p, plain_end(s, p))))
    }
}

/// One inline fragment: the first of plain, bold, italic, inline code, image
/// and link that matches; where none does, the link's failure.
pub open spec fn inline_spec(s: Seq<char>, p: int) -> Outcome<InlineModel> {
    if let Ok((q, t)) = plain_spec(s, p) {
        Ok((q, InlineModel::Plain(t)))
    } else if let Ok((q, t)) = emphasis_spec(s, p, true) {
        Ok((q, InlineModel::Bold(t)))
    } else if let Ok((q, t)) = emphasis_spec(s, p, false) {
        Ok((q, InlineModel::Italic(t)))
    } else if let Ok((q, (c, l))) = code_spec(s, p) {
        Ok((q, InlineModel::InlineCode(c, l)))
    } else if let Ok((q, (l, u))) = link_spec(s, p, true) {
        Ok((q, InlineModel::Image(l, u)))
    } else {
        match link_spec(s, p, false) {
            Ok((q, (l, u))) => Ok((q, InlineModel::Link(l, u))),
            Err(e) => Err(e),
        }
    }
}

/// As many inline fragments as match one after another from `p`, and the
/// position after them.
pub open spec fn inlines(s: Seq<char>, p: int) -> (int, Seq<InlineModel>)
    decreases s.len() - p,
{
    if let Ok((q, x)) = inline_spec(s, p) {
        if p < q <= s.len() {
            let r = inlines(s, q);
            (r.0, seq![x] + r.1)
        } else {
            (p, seq![])
        }
    } else {
        (p, seq![])
    }
}

/// One line: inline fragments, then a line feed.
pub open spec fn text_spec(s: Seq<char>, p: int) -> Outcome<Seq<InlineModel>> {
    let r = inlines(s, p);
    if char_is(s, r.0, '\n') {
        Ok((r.0 + 1, r.1))
    } else {
        Err((r.0, ErrorKind::Tag))
    }
}

// ---------------------------------------------------------------------------
// Facts about the grammar.
// ---------------------------------------------------------------------------

pub proof fn lemma_strong_end(s: Seq<char>, p: int)
    requires
        0 <= p <= s.len(),
    ensures
        p <= strong_end(s, p) <= s.len(),
        forall|j: int| p <= j < strong_end(s, p) ==> #[trigger] s[j] != '\n',
        forall|j: int| p <= j < strong_end(s, p) ==> !#[trigger] stars_at(s, j, true),
    decreases s.len() - p,
{
    if p < s.len() && s[p] != '\n' && !stars_at(s, p, true) {
        lemma_strong_end(s, p + 1);
    }
}

pub proof fn lemma_emphasis_end(s: Seq<char>, p: int, strong: bool)
    requires
        0 <= p <= s.len(),
    ensures
        p <= emphasis_end(s, p, strong) <= s.len(),
{
    lemma_strong_end(s, p);
    lemma_run_end(s, p, Class::LineNot('*'));
}

pub proof fn lemma_plain_end(s: Seq<char>, p: int)
    requires
        0 <= p <= s.len(),
    ensures
        p <= plain_end(s, p) <= s.len(),
        forall|j: int| p <= j < plain_end(s, p) ==> !#[trigger] marker_at(s, j),
        plain_end(s, p) < s.len() ==> marker_at(s, plain_end(s, p)),
    decreases s.len() - p,
{
    if p < s.len() && !marker_at(s, p) {
        lemma_plain_end(s, p + 1);
    }
}

/// Every fragment that matches moves forward and stays within the input.
pub proof fn lemma_inline_advances(s: Seq<char>, p: int)
    requires
        0 <= p <= s.len(),
    ensures
        inline_spec(s, p) matches Ok((q, _)) ==> p < q <= s.len(),
        inline_spec(s, p) matches Err((q, _)) ==> p <= q <= s.len(),
{
    lemma_plain_end(s, p);
    if p + 2 <= s.len() {
        lemma_emphasis_end(s, p + 2, true);
        lemma_run_end(s, p + 2, Class::LineNot(']'));
    }
    if p + 1 <= s.len() {
        lemma_run_end(s, p + 1, Class::LineNot('*'));
        lemma_run_end(s, p + 1, Class::LineNot('`'));
        lemma_run_end(s, p + 1, Class::LineNot(']'));
    }
    lemma_link_bounds(s, p, true);
    lemma_link_bounds(s, p, false);
    lemma_code_bounds(s, p);
}

proof fn lemma_code_bounds(s: Seq<char>, p: int)
    requires
        0 <= p <= s.len(),
    ensures
        code_spec(s, p) matches Ok((q, _)) ==> p < q <= s.len(),
        code_spec(s, p) matches Err((q, _)) ==> p <= q <= s.len(),
{
    if char_is(s, p, '`') {
        lemma_run_end(s, p + 1, Class::LineNot('`'));
        let e = run_end(s, p + 1, Class::LineNot('`'));
        if e + 1 <= s.len() {
            lemma_run_end(s, e + 1, Class::NotSpace);
        }
    }
}

proof fn lemma_link_bounds(s: Seq<char>, p: int, image: bool)
    requires
        0 <= p <= s.len(),
    ensures
        link_spec(s, p, image) matches Ok((q, _)) ==> p < q <= s.len(),
        link_spec(s, p, image) matches Err((q, _)) ==> p <= q <= s.len(),
{
    let a = if image { p + 2 } else { p + 1 };
    if a <= s.len() {
        lemma_run_end(s, a, Class::LineNot(']'));
        let e1 = run_end(s, a, Class::LineNot(']'));
        if e1 + 2 <= s.len() {
            lemma_run_end(s, e1 + 2, Class::LineNot(')'));
        }
    }
}

pub proof fn lemma_inlines_bounds(s: Seq<char>, p: int)
    requires
        0 <= p <= s.len(),
    ensures
        p <= inlines(s, p).0 <= s.len(),
    decreases s.len() - p,
{
    lemma_inline_advances(s, p);
    if let Ok((q, x)) = inline_spec(s, p) {
        lemma_inlines_bounds(s, q);
    }
}

pub proof fn lemma_text_bounds(s: Seq<char>, p: int)
    requires
        0 <= p <= s.len(),
    ensures
        text_spec(s, p) matches Ok((q, _)) ==> p < q <= s.len(),
        text_spec(s, p) matches Err((q, _)) ==> p <= q <= s.len(),
{
    lemma_inlines_bounds(s, p);
}

} // verus!

verus! {

// ---------------------------------------------------------------------------
// The recognizers, at positions of a source.
// ---------------------------------------------------------------------------

pub(crate) fn stars(src: &Source, p: usize, strong: bool) -> (b: bool)
    requires
        src.wf(),
    ensures
        b == stars_at(src.chars@, p as int, strong),
{
    src.is(p, '*') && (!strong || src.is(p + 1, '*'))
}

/// The end of the text of a bold run whose text starts at `p`.
pub(crate) fn strong_text_end(src: &Source, p: usize) -> (e: usize)
    requires
        src.wf(),
        p <= src.chars@.len(),
    ensures
        e == strong_end(src.chars@, p as int),
{
    let mut e = p;
    while e < src.len() && !src.is(e, '\n') && !stars(src, e, true)
        invariant
            src.wf(),
            p <= e <= src.chars@.len(),
            strong_end(src.chars@, e as int) == strong_end(src.chars@, p as int),
        decreases src.chars@.len() - e,
    {
        e = e + 1;
    }
    e
}

pub(crate) fn emphasis_at<'a>(src: &Source<'a>, p: usize, strong: bool) -> (r: Step<&'a str>)
    requires
        src.wf(),
        p <= src.chars@.len(),
    ensures
        step_model(r, |t: &'a str| t@) == emphasis_spec(src.chars@, p as int, strong),
        within(r, p as int, src.chars@.len() as int),
{
    let w: usize = if strong { 2 } else { 1 };
    if !stars(src, p, strong) {
        return Err((p, ErrorKind::Tag));
    }
    let e = if strong {
        strong_text_end(src, p + w)
    } else {
        src.run(p + w, Class::LineNot('*'))
    };
    proof { lemma_emphasis_end(src.chars@, p + w, strong); }
    if e == p + w {
        Err((e, ErrorKind::IsNot))
    } else if !stars(src, e, strong) {
        Err((e, ErrorKind::Tag))
    } else {
        Ok((e + w, src.slice(p + w, e)))
    }
}

pub(crate) fn code_at<'a>(src: &Source<'a>, p: usize) -> (r: Step<(&'a str, Option<&'a str>)>)
    requires
        src.wf(),
        p <= src.chars@.len(),
    ensures
        step_model(r, |t: (&'a str, Option<&'a str>)| (t.0@, opt_str(t.1)))
            == code_spec(src.chars@, p as int),
        within(r, p as int, src.chars@.len() as int),
{
    if !src.is(p, '`') {
        return Err((p, ErrorKind::Tag));
    }
    let e = src.run(p + 1, Class::LineNot('`'));
    proof { lemma_run_end(src.chars@, p + 1, Class::LineNot('`')); }
    if e == p + 1 {
        Err((e, ErrorKind::IsNot))
    } else if !src.is(e, '`') {
        Err((e, ErrorKind::Tag))
    } else {
        let l = src.run(e + 1, Class::NotSpace);
        proof { lemma_run_end(src.chars@, e + 1, Class::NotSpace); }
        let lang = if l == e + 1 { None } else { Some(src.slice(e + 1, l)) };
        Ok((l, (src.slice(p + 1, e), lang)))
    }
}

pub open spec fn opt_str(o: Option<&str>) -> Option<Seq<char>> {
    match o {
        Some(t) => Some(t@),
        None => None,
    }
}

pub(crate) fn link_at<'a>(src: &Source<'a>, p: usize, image: bool) -> (r: Step<(&'a str, &'a str)>)
    requires
        src.wf(),
        p <= src.chars@.len(),
    ensures
        step_model(r, |t: (&'a str, &'a str)| (t.0@, t.1@)) == link_spec(
            src.chars@,
            p as int,
            image,
        ),
        within(r, p as int, src.chars@.len() as int),
{
    let opened = if image {
        src.is(p, '!') && src.is(p + 1, '[')
    } else {
        src.is(p, '[')
    };
    if !opened {
        return Err((p, ErrorKind::Tag));
    }
    let a: usize = if image { p + 2 } else { p + 1 };
    let e1 = src.run(a, Class::LineNot(']'));
    proof { lemma_run_end(src.chars@, a as int, Class::LineNot(']')); }
    if e1 == a {
        return Err((e1, ErrorKind::IsNot));
    } else if !src.is(e1, ']') {
        return Err((e1, ErrorKind::Tag));
    } else if !src.is(e1 + 1, '(') {
        return Err((e1 + 1, ErrorKind::Tag));
    }
    let e2 = src.run(e1 + 2, Class::LineNot(')'));
    proof { lemma_run_end(src.chars@, e1 + 2, Class::LineNot(')')); }
    if e2 == e1 + 2 {
        Err((e2, ErrorKind::IsNot))
    } else if !src.is(e2, ')') {
        Err((e2, ErrorKind::Tag))
    } else {
        Ok((e2 + 1, (src.slice(a, e1), src.slice(e1 + 2, e2))))
    }
}

pub(crate) fn marker(src: &Source, p: usize) -> (b: bool)
    requires
        src.wf(),
    ensures
        b == marker_at(src.chars@, p as int),
{
    src.is(p, '*') || src.is(p, '`') || src.is(p, '[') || src.is(p, '\n') || (src.is(p, '!')
        && src.is(p + 1, '['))
}

pub(crate) fn plain_at<'a>(src: &Source<'a>, p: usize) -> (r: Step<&'a str>)
    requires
        src.wf(),
        p <= src.chars@.len(),
    ensures
        step_model(r, |t: &'a str| t@) == plain_spec(src.chars@, p as int),
        within(r, p as int, src.chars@.len() as int),
{
    if marker(src, p) {
        return Err((p, ErrorKind::Not));
    }
    if p >= src.len() {
        return Err((p, ErrorKind::Eof));
    }
    let mut e = p;
    while e < src.len() && !marker(src, e)
        invariant
            src.wf(),
            p <= e <= src.chars@.len(),
            plain_end(src.chars@, e as int) == plain_end(src.chars@, p as int),
        decreases src.chars@.len() - e,
    {
        e = e + 1;
    }
    Ok((e, src.slice(p, e)))
}

pub(crate) fn inline_at(src: &Source, p: usize) -> (r: Step<MarkdownInLine>)
    requires
        src.wf(),
        p <= src.chars@.len(),
    ensures
        step_model(r, |x: MarkdownInLine| x@) == inline_spec(src.chars@, p as int),
        r matches Ok((q, _)) ==> p < q,
        within(r, p as int, src.chars@.len() as int),
{
    proof { lemma_inline_advances(src.chars@, p as int); }
    if let Ok((q, t)) = plain_at(src, p) {
        return Ok((q, MarkdownInLine::Plain(t.to_owned())));
    }
    if let Ok((q, t)) = emphasis_at(src, p, true) {
        return Ok((q, MarkdownInLine::Bold(t.to_owned())));
    }
    if let Ok((q, t)) = emphasis_at(src, p, false) {
        return Ok((q, MarkdownInLine::Italic(t.to_owned())));
    }
    if let Ok((q, (c, l))) = code_at(src, p) {
        let lang = match l {
            Some(l) => Some(l.to_owned()),
            None => None,
        };
        return Ok((q, MarkdownInLine::InlineCode(c.to_owned(), lang)));
    }
    if let Ok((q, (l, u))) = link_at(src, p, true) {
        return Ok((q, MarkdownInLine::Image(l.to_owned(), u.to_owned())));
    }
    match link_at(src, p, false) {
        Ok((q, (l, u))) => Ok((q, MarkdownInLine::Link(l.to_owned(), u.to_owned()))),
        Err(e) => Err(e),
    }
}

pub(crate) fn text_at(src: &Source, p: usize) -> (r: Step<MarkdownText>)
    requires
        src.wf(),
        p <= src.chars@.len(),
    ensures
        step_model(r, |v: MarkdownText| text_view(v@)) == text_spec(src.chars@, p as int),
        within(r, p as int, src.chars@.len() as int),
        r matches Ok((q, _)) ==> p < q,
{
    let ghost s = src.chars@;
    let mut items: MarkdownText = Vec::new();
    let mut q = p;
    proof { lemma_text_bounds(s, p as int); }
    loop
        invariant
            src.wf(),
            s == src.chars@,
            p <= q <= s.len(),
            inlines(s, p as int) == (inlines(s, q as int).0, text_view(items@) + inlines(
                s,
                q as int,
            ).1),
        ensures
            p <= q <= s.len(),
            inlines(s, p as int) == (q as int, text_view(items@)),
        decreases s.len() - q,
    {
        proof { lemma_inline_advances(s, q as int); }
        match inline_at(src, q) {
            Ok((q2, x)) => {
                proof {
                    assert(text_view(items@.push(x)) =~= text_view(items@).push(x@));
                    assert(text_view(items@) + inlines(s, q as int).1 =~= text_view(
                        items@.push(x),
                    ) + inlines(s, q2 as int).1);
                }
                items.push(x);
                q = q2;
            },
            Err(_) => {
                assert(inlines(s, q as int) == (q as int, Seq::<InlineModel>::empty()));
                assert(text_view(items@) + inlines(s, q as int).1 =~= text_view(items@));
                break ;
            },
        }
    }
    if src.is(q, '\n') {
        Ok((q + 1, items))
    } else {
        Err((q, ErrorKind::Tag))
    }
}

} // verus!

verus! {

// ---------------------------------------------------------------------------
// The public recognizers, each on the whole of its input.
// ---------------------------------------------------------------------------

/// Reads `[label](url)` at the start of `i`.
pub fn parse_link<'a>(i: &'a str) -> (r: ParseResult<'a, (&'a str, &'a str)>)
    ensures
        agrees(r, i@, link_spec(i@, 0, false), |t: (&'a str, &'a str)| (t.0@, t.1@)),
{
    let src = Source::new(i);
    src.finish(link_at(&src, 0, false))
}

/// Reads `![label](url)` at the start of `i`.
pub fn parse_image<'a>(i: &'a str) -> (r: ParseResult<'a, (&'a str, &'a str)>)
    ensures
        agrees(r, i@, link_spec(i@, 0, true), |t: (&'a str, &'a str)| (t.0@, t.1@)),
{
    let src = Source::new(i);
    src.finish(link_at(&src, 0, true))
}

/// Reads inline code with its optional language at the start of `i`.
pub fn parse_inline<'a>(i: &'a str) -> (r: ParseResult<'a, (&'a str, Option<&'a str>)>)
    ensures
        agrees(r, i@, code_spec(i@, 0), |t: (&'a str, Option<&'a str>)| (t.0@, opt_str(t.1))),
{
    let src = Source::new(i);
    src.finish(code_at(&src, 0))
}

/// Reads `**text**` at the start of `i`.
pub fn parse_bold<'a>(i: &'a str) -> (r: ParseResult<'a, &'a str>)
    ensures
        agrees(r, i@, emphasis_spec(i@, 0, true), |t: &'a str| t@),
{
    let src = Source::new(i);
    src.finish(emphasis_at(&src, 0, true))
}

/// Reads `*text*` at the start of `i`.
pub fn parse_italic<'a>(i: &'a str) -> (r: ParseResult<'a, &'a str>)
    ensures
        agrees(r, i@, emphasis_spec(i@, 0, false), |t: &'a str| t@),
{
    let src = Source::new(i);
    src.finish(emphasis_at(&src, 0, false))
}

/// Reads a plain run at the start of `i`.
pub fn parse_plain<'a>(i: &'a str) -> (r: ParseResult<'a, String>)
    ensures
        agrees(r, i@, plain_spec(i@, 0), |t: String| t@),
{
    let src = Source::new(i);
    let step = match plain_at(&src, 0) {
        Ok((q, t)) => Ok((q, t.to_owned())),
        Err(e) => Err(e),
    };
    src.finish(step)
}

/// Reads one inline fragment at the start of `i`.
pub fn parse_markdown_inline<'a>(i: &'a str) -> (r: ParseResult<'a, MarkdownInLine>)
    ensures
        agrees(r, i@, inline_spec(i@, 0), |x: MarkdownInLine| x@),
{
    let src = Source::new(i);
    src.finish(inline_at(&src, 0))
}

/// Decodes one line, up to and including its line feed, at the start of `i`.
pub fn parse_markdown_text<'a>(i: &'a str) -> (r: ParseResult<'a, MarkdownText>)
    ensures
        agrees(r, i@, text_spec(i@, 0), |v: MarkdownText| text_view(v@)),
{
    let src = Source::new(i);
    src.finish(text_at(&src, 0))
}

} // verus!
