//! Laws of the grammar, proved over its model.
use vstd::prelude::*;
use crate::ast::{BlockModel, InlineModel};
use crate::block::{
    block_spec, blocks, item_spec, items, lemma_item_bounds, list_spec, markdown_spec, Prefix,
};
use crate::inline::{
    emphasis_spec, inline_spec, inlines, marker_at, plain_end, stars_at, strong_end, text_spec,
};
use crate::scan::{in_class, run_end, Class};

verus! {

broadcast use vstd::seq::group_seq_axioms;

/// A run of class `k` from `p` ends at `e` when all of `[p, e)` is in the
/// class and `e` is the end or out of it.
pub proof fn lemma_run_to(s: Seq<char>, p: int, e: int, k: Class)
    requires
        0 <= p <= e <= s.len(),
        forall|j: int| p <= j < e ==> in_class(k, #[trigger] s[j]),
        e == s.len() || !in_class(k, s[e]),
    ensures
        run_end(s, p, k) == e,
    decreases e - p,
{
    if p < e {
        lemma_run_to(s, p + 1, e, k);
    }
}

/// The text of a bold run from `p` ends at `e` when no `**` and no line feed
/// start in `[p, e)` and `**` starts at `e`.
pub proof fn lemma_strong_to(s: Seq<char>, p: int, e: int)
    requires
        0 <= p <= e,
        stars_at(s, e, true),
        forall|j: int| p <= j < e ==> #[trigger] s[j] != '\n',
        forall|j: int| p <= j < e ==> !#[trigger] stars_at(s, j, true),
    ensures
        strong_end(s, p) == e,
    decreases e - p,
{
    if p < e {
        lemma_strong_to(s, p + 1, e);
    }
}

/// A plain run from `p` ends at `e` when no marker starts in `[p, e)` and one
/// starts at `e`.
pub proof fn lemma_plain_to(s: Seq<char>, p: int, e: int)
    requires
        0 <= p <= e < s.len(),
        forall|j: int| p <= j < e ==> !#[trigger] marker_at(s, j),
        marker_at(s, e),
    ensures
        plain_end(s, p) == e,
    decreases e - p,
{
    if p < e {
        lemma_plain_to(s, p + 1, e);
    }
}

/// Whether `c` may stand in a line that decodes as one plain run.
pub open spec fn plain_safe(c: char) -> bool {
    c != '*' && c != '`' && c != '[' && c != '\n'
}

/// No inline fragment starts at a line feed.
pub proof fn lemma_nothing_at_line_feed(s: Seq<char>, p: int)
    requires
        0 <= p < s.len(),
        s[p] == '\n',
    ensures
        inline_spec(s, p) is Err,
        inlines(s, p) == (p, Seq::<InlineModel>::empty()),
{
}

/// A line of plain-safe characters at `p`, ended by a line feed, decodes as
/// one plain run.
pub proof fn lemma_plain_line_at(s: Seq<char>, p: int, n: int)
    requires
        0 <= p,
        0 < n,
        p + n < s.len(),
        forall|j: int| p <= j < p + n ==> plain_safe(#[trigger] s[j]),
        s[p + n] == '\n',
    ensures
        text_spec(s, p) == Ok::<(int, Seq<InlineModel>), (int, crate::ast::ErrorKind)>(
            (p + n + 1, seq![InlineModel::Plain(s.subrange(p, p + n))]),
        ),
{
    assert forall|j: int| p <= j < p + n implies !#[trigger] marker_at(s, j) by {
        assert(plain_safe(s[j]));
        if j + 1 < p + n {
            assert(plain_safe(s[j + 1]));
        }
    }
    lemma_plain_to(s, p, p + n);
    lemma_nothing_at_line_feed(s, p + n);
    let r = inlines(s, p + n);
    assert(seq![InlineModel::Plain(s.subrange(p, p + n))] + r.1 =~= seq![
        InlineModel::Plain(s.subrange(p, p + n)),
    ]);
}

/// Decoding a non-empty line with no marker characters (`*`, backtick, `[`,
/// line feed), followed by a line feed, gives one plain run equal to the
/// line.
pub proof fn law_plain_line_round_trip(line: Seq<char>)
    requires
        line.len() > 0,
        forall|j: int| 0 <= j < line.len() ==> plain_safe(#[trigger] line[j]),
    ensures
        text_spec(line.push('\n'), 0) == Ok::<(int, Seq<InlineModel>), (int, crate::ast::ErrorKind)>(
            (line.len() + 1 as int, seq![InlineModel::Plain(line)]),
        ),
{
    let s = line.push('\n');
    assert forall|j: int| 0 <= j < line.len() implies plain_safe(#[trigger] s[j]) by {
        assert(s[j] == line[j]);
    }
    lemma_plain_line_at(s, 0, line.len() as int);
    assert(s.subrange(0, line.len() as int) =~= line);
}

/// `**t**` followed by a line feed decodes as one bold run, never as italic
/// runs, for any non-empty `t` without `*` or line feed.
pub proof fn law_bold_before_italic(t: Seq<char>)
    requires
        t.len() > 0,
        forall|j: int| 0 <= j < t.len() ==> #[trigger] t[j] != '*' && t[j] != '\n',
    ensures
        text_spec(seq!['*', '*'] + t + seq!['*', '*', '\n'], 0) == Ok::<
            (int, Seq<InlineModel>),
            (int, crate::ast::ErrorKind),
        >((t.len() + 5 as int, seq![InlineModel::Bold(t)])),
{
    let s = seq!['*', '*'] + t + seq!['*', '*', '\n'];
    let n = t.len() as int;
    assert forall|j: int| 2 <= j < 2 + n implies in_class(Class::LineNot('*'), #[trigger] s[j]) by {
        assert(s[j] == t[j - 2]);
    }
    assert forall|j: int| 2 <= j < 2 + n implies #[trigger] s[j] != '\n' && !stars_at(s, j, true) by {
        assert(s[j] == t[j - 2]);
    }
    lemma_strong_to(s, 2, 2 + n);
    assert(s.subrange(2, 2 + n) =~= t);
    assert(emphasis_spec(s, 0, true) == Ok::<(int, Seq<char>), (int, crate::ast::ErrorKind)>(
        (n + 4, t),
    ));
    lemma_nothing_at_line_feed(s, n + 4);
    assert(seq![InlineModel::Bold(t)] + inlines(s, n + 4).1 =~= seq![InlineModel::Bold(t)]);
}

/// An opening `*` with no closing `*` before the end of the line makes the
/// whole line fail to decode.
pub proof fn law_unterminated_emphasis_fails(t: Seq<char>)
    requires
        forall|j: int| 0 <= j < t.len() ==> #[trigger] t[j] != '*' && t[j] != '\n',
    ensures
        text_spec(seq!['*'] + t + seq!['\n'], 0) is Err,
{
    let s = seq!['*'] + t + seq!['\n'];
    assert forall|j: int| 1 <= j < s.len() - 1 implies in_class(
        Class::LineNot('*'),
        #[trigger] s[j],
    ) by {
        assert(s[j] == t[j - 1]);
    }
    lemma_run_to(s, 1, s.len() - 1, Class::LineNot('*'));
    assert(inline_spec(s, 0) is Err);
}

/// The heading title used by the heading law.
pub open spec fn title() -> Seq<char> {
    seq!['t', 'i', 't', 'l', 'e']
}

/// `k` marks `#`, a space and `title`, ended by a line feed, parse as one
/// heading of level `k` whose content is the plain run `title`.
pub proof fn law_heading_level(k: int)
    requires
        1 <= k <= 6,
    ensures
        ({
            let s = Seq::new(k as nat, |j: int| '#') + seq![' '] + title() + seq!['\n'];
            markdown_spec(s, 0) == Ok::<(int, Seq<BlockModel>), (int, crate::ast::ErrorKind)>(
                (s.len() as int, seq![BlockModel::Heading(k as nat, seq![InlineModel::Plain(title())])]),
            )
        }),
{
    let s = Seq::new(k as nat, |j: int| '#') + seq![' '] + title() + seq!['\n'];
    assert forall|j: int| 0 <= j < k implies in_class(Class::Is('#'), #[trigger] s[j]) by {}
    lemma_run_to(s, 0, k, Class::Is('#'));
    assert forall|j: int| k + 1 <= j < k + 6 implies plain_safe(#[trigger] s[j]) by {}
    lemma_plain_line_at(s, k + 1, 5);
    assert(s.subrange(k + 1, k + 6) =~= title());
    let n = s.len() as int;
    assert(run_end(s, n, Class::Is('#')) == n);
    assert(run_end(s, n, Class::Digit) == n);
    assert(inline_spec(s, n) is Err);
    assert(inlines(s, n) == (n, Seq::<InlineModel>::empty()));
    assert(block_spec(s, n) is Err);
    assert(blocks(s, n) == (n, Seq::<BlockModel>::empty()));
    let h = BlockModel::Heading(k as nat, seq![InlineModel::Plain(title())]);
    assert(block_spec(s, 0) == Ok::<(int, BlockModel), (int, crate::ast::ErrorKind)>((n, h)));
    assert(seq![h] + blocks(s, n).1 =~= seq![h]);
    assert(blocks(s, 0) == (n, seq![h]));
}

proof fn lemma_items_stop(s: Seq<char>, p: int, k: Prefix)
    requires
        0 <= p <= s.len(),
    ensures
        !(item_spec(s, items(s, p, k).0, k) is Ok),
    decreases s.len() - p,
{
    lemma_item_bounds(s, p, k);
    if let Ok((q, _)) = item_spec(s, p, k) {
        lemma_items_stop(s, q, k);
    }
}

/// A list (or quote) holds at least one line, and ends at the first line
/// that does not carry its prefix.
pub proof fn law_list_stops_at_unprefixed_line(s: Seq<char>, p: int, k: Prefix)
    requires
        0 <= p <= s.len(),
    ensures
        list_spec(s, p, k) matches Ok((q, ls)) ==> ls.len() >= 1 && !(item_spec(s, q, k) is Ok),
{
    lemma_item_bounds(s, p, k);
    lemma_items_stop(s, p, k);
}

} // verus!

verus! {

/// `- l` and a line feed for each line `l` of `ls`, in order.
pub open spec fn dash_lines(ls: Seq<Seq<char>>) -> Seq<char>
    decreases ls.len(),
{
    if ls.len() == 0 {
        seq![]
    } else {
        seq!['-', ' '] + ls[0] + seq!['\n'] + dash_lines(ls.drop_first())
    }
}

/// Each line of `ls` as one plain run.
pub open spec fn plain_lines(ls: Seq<Seq<char>>) -> Seq<Seq<InlineModel>> {
    ls.map_values(|l: Seq<char>| seq![InlineModel::Plain(l)])
}

/// A non-empty line of plain-safe characters.
pub open spec fn safe_line(l: Seq<char>) -> bool {
    l.len() > 0 && forall|j: int| 0 <= j < l.len() ==> plain_safe(#[trigger] l[j])
}

/// Whether `t` starts with the prefix `- `.
pub open spec fn starts_with_dash(t: Seq<char>) -> bool {
    t.len() >= 2 && t[0] == '-' && t[1] == ' '
}

proof fn lemma_dash_items(pre: Seq<char>, ls: Seq<Seq<char>>, rest: Seq<char>)
    requires
        forall|i: int| 0 <= i < ls.len() ==> safe_line(#[trigger] ls[i]),
        !starts_with_dash(rest),
    ensures
        items(pre + dash_lines(ls) + rest, pre.len() as int, Prefix::Dash) == (
            (pre + dash_lines(ls)).len() as int,
            plain_lines(ls),
        ),
    decreases ls.len(),
{
    let s = pre + dash_lines(ls) + rest;
    let p = pre.len() as int;
    if ls.len() == 0 {
        assert(dash_lines(ls) =~= Seq::<char>::empty());
        assert(p < s.len() ==> s[p] == rest[0]);
        assert(p + 1 < s.len() ==> s[p + 1] == rest[1]);
        assert(!(item_spec(s, p, Prefix::Dash) is Ok));
        assert(plain_lines(ls) =~= Seq::<Seq<InlineModel>>::empty());
    } else {
        let l = ls[0];
        let tail = ls.drop_first();
        let pre2 = pre + seq!['-', ' '] + l + seq!['\n'];
        assert(s =~= pre2 + dash_lines(tail) + rest);
        assert forall|i: int| 0 <= i < tail.len() implies safe_line(#[trigger] tail[i]) by {
            assert(tail[i] == ls[i + 1]);
        }
        lemma_dash_items(pre2, tail, rest);
        let n = l.len() as int;
        assert(safe_line(ls[0]));
        assert forall|j: int| p + 2 <= j < p + 2 + n implies plain_safe(#[trigger] s[j]) by {
            assert(s[j] == l[j - p - 2]);
        }
        assert(s[p + 2 + n] == '\n');
        lemma_plain_line_at(s, p + 2, n);
        assert(s.subrange(p + 2, p + 2 + n) =~= l);
        assert(s[p] == '-' && s[p + 1] == ' ');
        assert(item_spec(s, p, Prefix::Dash) == Ok::<
            (int, Seq<InlineModel>),
            (int, crate::ast::ErrorKind),
        >((p + n + 3, seq![InlineModel::Plain(l)])));
        assert(plain_lines(ls) =~= seq![seq![InlineModel::Plain(l)]] + plain_lines(tail));
        assert((pre + dash_lines(ls)).len() == (pre2 + dash_lines(tail)).len());
    }
}

/// A run of `- ` lines of plain-safe text, followed by text that does not
/// start with `- `, parses as a list of one plain item per line, in order,
/// and stops where that text begins.
pub proof fn law_list_lines_in_order(ls: Seq<Seq<char>>, rest: Seq<char>)
    requires
        ls.len() >= 1,
        forall|i: int| 0 <= i < ls.len() ==> safe_line(#[trigger] ls[i]),
        !starts_with_dash(rest),
    ensures
        list_spec(dash_lines(ls) + rest, 0, Prefix::Dash) == Ok::<
            (int, Seq<Seq<InlineModel>>),
            (int, crate::ast::ErrorKind),
        >((dash_lines(ls).len() as int, plain_lines(ls))),
{
    let s = dash_lines(ls) + rest;
    assert(s =~= Seq::<char>::empty() + dash_lines(ls) + rest);
    assert(dash_lines(ls) =~= Seq::<char>::empty() + dash_lines(ls));
    lemma_dash_items(Seq::<char>::empty(), ls, rest);
    lemma_item_bounds(s, 0, Prefix::Dash);
    assert(items(s, 0, Prefix::Dash).1.len() == ls.len());
    assert(item_spec(s, 0, Prefix::Dash) is Ok);
}

} // verus!
