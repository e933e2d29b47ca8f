use vstd::prelude::*;

verus! {

/// One decoded inline fragment of a line.
#[derive(Clone, Debug, PartialEq)]
pub enum MarkdownInLine {
    /// (label, url)
    Link(String, String),
    /// (label, url)
    Image(String, String),
    /// (code, language)
    InlineCode(String, Option<String>),
    Bold(String),
    Italic(String),
    Plain(String),
}

/// One line's decoded content, in rendering order.
pub type MarkdownText = Vec<MarkdownInLine>;

/// A block of the document.
#[derive(Clone, Debug, PartialEq)]
pub enum Markdown {
    /// (number of `#`, content)
    Heading(usize, MarkdownText),
    OrderedList(Vec<MarkdownText>),
    UnorderedList(Vec<MarkdownText>),
    Quote(Vec<MarkdownText>),
    /// (code, language)
    CodeBlock(String, Option<String>),
    Text(MarkdownText),
}

/// Mathematical model of an inline fragment.
pub enum InlineModel {
    Link(Seq<char>, Seq<char>),
    Image(Seq<char>, Seq<char>),
    InlineCode(Seq<char>, Option<Seq<char>>),
    Bold(Seq<char>),
    Italic(Seq<char>),
    Plain(Seq<char>),
}

/// Mathematical model of a block.
pub enum BlockModel {
    Heading(nat, Seq<InlineModel>),
    OrderedList(Seq<Seq<InlineModel>>),
    UnorderedList(Seq<Seq<InlineModel>>),
    Quote(Seq<Seq<InlineModel>>),
    CodeBlock(Seq<char>, Option<Seq<char>>),
    Text(Seq<InlineModel>),
}

pub open spec fn opt_view(o: Option<String>) -> Option<Seq<char>> {
    match o {
        Some(s) => Some(s@),
        None => None,
    }
}

impl View for MarkdownInLine {
    type V = InlineModel;

    open spec fn view(&self) -> InlineModel {
        match self {
            MarkdownInLine::Link(l, u) => InlineModel::Link(l@, u@),
            MarkdownInLine::Image(l, u) => InlineModel::Image(l@, u@),
            MarkdownInLine::InlineCode(c, lang) => InlineModel::InlineCode(c@, opt_view(*lang)),
            MarkdownInLine::Bold(t) => InlineModel::Bold(t@),
            MarkdownInLine::Italic(t) => InlineModel::Italic(t@),
            MarkdownInLine::Plain(t) => InlineModel::Plain(t@),
        }
    }
}

/// The model of a decoded line.
pub open spec fn text_view(t: Seq<MarkdownInLine>) -> Seq<InlineModel> {
    t.map_values(|x: MarkdownInLine| x@)
}

/// The model of a sequence of decoded lines.
pub open spec fn lines_view(ls: Seq<MarkdownText>) -> Seq<Seq<InlineModel>> {
    ls.map_values(|l: MarkdownText| text_view(l@))
}

impl View for Markdown {
    type V = BlockModel;

    open spec fn view(&self) -> BlockModel {
        match self {
            Markdown::Heading(n, t) => BlockModel::Heading(*n as nat, text_view(t@)),
            Markdown::OrderedList(ls) => BlockModel::OrderedList(lines_view(ls@)),
            Markdown::UnorderedList(ls) => BlockModel::UnorderedList(lines_view(ls@)),
            Markdown::Quote(ls) => BlockModel::Quote(lines_view(ls@)),
            Markdown::CodeBlock(c, lang) => BlockModel::CodeBlock(c@, opt_view(*lang)),
            Markdown::Text(t) => BlockModel::Text(text_view(t@)),
        }
    }
}

/// The model of a document.
pub open spec fn blocks_view(bs: Seq<Markdown>) -> Seq<BlockModel> {
    bs.map_values(|b: Markdown| b@)
}

/// Why a recognizer failed.
#[derive(Clone, Copy, Debug, PartialEq, Eq)]
pub enum ErrorKind {
    /// A literal marker was expected and is absent.
    Tag,
    /// A run of characters outside a stop set was expected and is empty.
    IsNot,
    /// A run of characters of a class was expected and is empty.
    TakeWhile1,
    /// A marker stands where plain text was expected.
    Not,
    /// The input ended, or did not end where it had to.
    Eof,
    /// No closing fence follows.
    TakeUntil,
}

/// A failure, with the input that remained where it happened.
#[derive(Clone, Debug, PartialEq)]
pub struct ParseError<'a> {
    pub input: &'a str,
    pub kind: ErrorKind,
}

/// The model of a recognizer's outcome at a position of a character sequence:
/// the position where it stopped and the value read, or the position where it
/// failed and why.
pub type Outcome<V> = Result<(int, V), (int, ErrorKind)>;

/// An outcome as the recognizers compute it, with positions as `usize`.
pub type Step<T> = Result<(usize, T), (usize, ErrorKind)>;

/// The model of a computed outcome, with `f` giving the model of its value.
pub open spec fn step_model<T, V>(r: Step<T>, f: spec_fn(T) -> V) -> Outcome<V> {
    match r {
        Ok((q, t)) => Ok((q as int, f(t))),
        Err((q, k)) => Err((q as int, k)),
    }
}

/// Whether the position where `r` stopped or failed lies in `[lo, hi]`.
pub open spec fn within<T>(r: Step<T>, lo: int, hi: int) -> bool {
    match r {
        Ok((q, _)) => lo <= q <= hi,
        Err((q, _)) => lo <= q <= hi,
    }
}

/// Whether the public result `r` of a recognizer run on the whole of `s`
/// matches the modelled outcome `o`: the same value, and what remains of `s`
/// after the position where it stopped or failed.
pub open spec fn agrees<'a, T, V>(
    r: ParseResult<'a, T>,
    s: Seq<char>,
    o: Outcome<V>,
    f: spec_fn(T) -> V,
) -> bool {
    match (o, r) {
        (Ok((q, v)), Ok((rest, t))) => rest@ == s.subrange(q, s.len() as int) && f(t) == v,
        (Err((q, k)), Err(e)) => e.input@ == s.subrange(q, s.len() as int) && e.kind == k,
        _ => false,
    }
}

/// The outcome of a recognizer: what remains of the input and the value read.
pub type ParseResult<'a, T> = Result<(&'a str, T), ParseError<'a>>;

} // verus!
