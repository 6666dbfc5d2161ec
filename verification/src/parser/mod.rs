//! The text/gemini reader: each line of a page becomes a styled line, and
//! link lines (`=> URL label`) are numbered so that one of them can be the
//! selected link.
use vstd::prelude::*;
use crate::text::{
    chars_of, join, join_chars, split_chars, split_on, string_of, sub_chars,
    trim, trim_chars, views, words, words_chars,
};

verus! {

/// How a line of a text/gemini page is shown.
#[derive(PartialEq, Eq, Structural, Clone, Copy, Debug)]
pub enum LineKind {
    /// An ordinary line, shown as it stands.
    Text,
    /// A line that began with `#`.
    Heading,
    /// A line that began with `##`.
    SubHeading,
    /// A line that began with `=>`.
    Link,
    /// The link line that the link cursor is on.
    SelectedLink,
}

/// One displayed line: its kind and the text shown for it.
pub struct StyledLine {
    pub kind: LineKind,
    pub text: String,
}

/// A line that begins with `=>`.
pub open spec fn is_link_line(x: Seq<char>) -> bool {
    x.len() > 1 && x[0] == '=' && x[1] == '>'
}

/// What follows `=>` on a link line, trimmed.
pub open spec fn link_body(x: Seq<char>) -> Seq<char> {
    trim(x.skip(2))
}

/// The address a link line points to: its first word when the line has a
/// label after the address, else the whole trimmed body.
pub open spec fn link_target(x: Seq<char>) -> Seq<char> {
    let t = link_body(x);
    if words(t).len() > 1 {
        words(t)[0]
    } else {
        t
    }
}

/// The text shown for a link line: its label words joined by single spaces,
/// or the address itself when there is no label.
pub open spec fn link_label(x: Seq<char>) -> Seq<char> {
    let t = link_body(x);
    if words(t).len() > 1 {
        join(words(t).skip(1), seq![' '])
    } else {
        t
    }
}

/// The kind and text of one line; `selected` says whether the link cursor is
/// on it, should it be a link line.
pub open spec fn style_of(x: Seq<char>, selected: bool) -> (LineKind, Seq<char>) {
    if x.len() > 0 && x[0] == '#' {
        if x.len() > 1 && x[1] == '#' {
            (LineKind::SubHeading, trim(x.skip(2)))
        } else {
            (LineKind::Heading, trim(x.skip(1)))
        }
    } else if is_link_line(x) {
        (if selected { LineKind::SelectedLink } else { LineKind::Link }, link_label(x))
    } else {
        (LineKind::Text, x)
    }
}

/// The lines of a page.
pub open spec fn page_lines(content: Seq<char>) -> Seq<Seq<char>> {
    split_on(content, '\n')
}

/// How many of `lines` are link lines.
pub open spec fn link_count(lines: Seq<Seq<char>>) -> nat
    decreases lines.len(),
{
    if lines.len() == 0 {
        0
    } else {
        link_count(lines.drop_last()) + if is_link_line(lines.last()) {
            1nat
        } else {
            0nat
        }
    }
}

/// The addresses of the link lines among `lines`, in order.
pub open spec fn link_targets(lines: Seq<Seq<char>>) -> Seq<Seq<char>>
    decreases lines.len(),
{
    if lines.len() == 0 {
        Seq::empty()
    } else if is_link_line(lines.last()) {
        link_targets(lines.drop_last()).push(link_target(lines.last()))
    } else {
        link_targets(lines.drop_last())
    }
}

/// The displayed page: line `i` is styled as selected when it is the link
/// numbered `link_scroll` (counting from zero).
pub open spec fn styled_page(content: Seq<char>, link_scroll: int) -> Seq<(LineKind, Seq<char>)> {
    let lines = page_lines(content);
    Seq::new(
        lines.len(),
        |i: int| style_of(lines[i], link_count(lines.take(i)) == link_scroll),
    )
}

/// The page as `parse` shows it, given the link cursor and the scroll
/// position: the scroll position plays no part in which lines are shown.
pub open spec fn shown_page(content: Seq<char>, link_scroll: int, scroll: int) -> Seq<
    (LineKind, Seq<char>),
> {
    styled_page(content, link_scroll)
}

/// The kind and text of a displayed line.
pub open spec fn line_view(l: StyledLine) -> (LineKind, Seq<char>) {
    (l.kind, l.text@)
}

/// Counting links over one more line adds one exactly when it is a link line.
pub proof fn lemma_link_count_step(lines: Seq<Seq<char>>, i: int)
    requires
        0 <= i < lines.len(),
    ensures
        link_count(lines.take(i + 1)) == link_count(lines.take(i)) + if is_link_line(lines[i]) {
            1nat
        } else {
            0nat
        },
{
    assert(lines.take(i + 1).drop_last() =~= lines.take(i));
}

/// Counting links over a prefix never gives more than over the whole.
pub proof fn lemma_link_count_prefix(lines: Seq<Seq<char>>, i: int)
    requires
        0 <= i <= lines.len(),
    ensures
        link_count(lines.take(i)) <= link_count(lines),
    decreases lines.len() - i,
{
    if i < lines.len() {
        lemma_link_count_step(lines, i);
        lemma_link_count_prefix(lines, i + 1);
    } else {
        assert(lines.take(i) =~= lines);
    }
}

/// There are as many link addresses as link lines.
pub proof fn lemma_link_targets_len(lines: Seq<Seq<char>>)
    ensures
        link_targets(lines).len() == link_count(lines),
    decreases lines.len(),
{
    if lines.len() > 0 {
        lemma_link_targets_len(lines.drop_last());
    }
}

/// The address on a link line.
fn link_target_chars(x: &[char]) -> (r: Vec<char>)
    requires
        is_link_line(x@),
    ensures
        r@ == link_target(x@),
{
    let rest = sub_chars(x, 2, x.len());
    assert(rest@ =~= x@.skip(2));
    let t = trim_chars(&rest);
    let ws = words_chars(&t);
    if ws.len() > 1 {
        sub_chars(&ws[0], 0, ws[0].len())
    } else {
        t
    }
}

/// The styled form of one line.
fn style_line(x: &[char], selected: bool) -> (r: StyledLine)
    ensures
        line_view(r) == style_of(x@, selected),
{
    if x.len() > 0 && x[0] == '#' {
        if x.len() > 1 && x[1] == '#' {
            let rest = sub_chars(x, 2, x.len());
            assert(rest@ =~= x@.skip(2));
            let t = trim_chars(&rest);
            StyledLine { kind: LineKind::SubHeading, text: string_of(&t) }
        } else {
            let rest = sub_chars(x, 1, x.len());
            assert(rest@ =~= x@.skip(1));
            let t = trim_chars(&rest);
            StyledLine { kind: LineKind::Heading, text: string_of(&t) }
        }
    } else if x.len() > 1 && x[0] == '=' && x[1] == '>' {
        let rest = sub_chars(x, 2, x.len());
        assert(rest@ =~= x@.skip(2));
        let t = trim_chars(&rest);
        let ws = words_chars(&t);
        let label = if ws.len() > 1 {
            let sep = vec![' '];
            assert(sep@ =~= seq![' ']);
            join_chars(&ws, 1, &sep)
        } else {
            t
        };
        let kind = if selected {
            LineKind::SelectedLink
        } else {
            LineKind::Link
        };
        StyledLine { kind, text: string_of(&label) }
    } else {
        StyledLine { kind: LineKind::Text, text: string_of(x) }
    }
}

/// Styles every line of a text/gemini page. Lines that begin with `##`,
/// `#` or `=>` become sub-headings, headings and links; the link numbered
/// `link_scroll` (from zero) is the selected one; every other line is shown
/// as it stands. The scroll position does not change the lines.
pub fn parse(link_scroll: u16, scroll: u16, content: &str) -> (r: Vec<StyledLine>)
    requires
        link_count(page_lines(content@)) <= u16::MAX,
        link_count(page_lines(content@)) > 0 ==> link_scroll < u16::MAX,
    ensures
        r@.len() == shown_page(content@, link_scroll as int, scroll as int).len(),
        forall|i: int|
            0 <= i < r@.len() ==> line_view(#[trigger] r@[i]) == shown_page(
                content@,
                link_scroll as int,
                scroll as int,
            )[i],
{
    let chars = chars_of(content);
    let lines = split_chars(&chars, '\n');
    let ghost ls = page_lines(content@);
    assert(views(lines@) == ls);
    let mut out: Vec<StyledLine> = Vec::new();
    let mut link_counter: u16 = 0;
    let mut i: usize = 0;
    while i < lines.len()
        invariant
            i <= lines.len(),
            views(lines@) == ls,
            ls == page_lines(content@),
            link_count(ls) <= u16::MAX,
            link_count(ls) > 0 ==> link_scroll < u16::MAX,
            link_counter == link_count(ls.take(i as int)),
            out@.len() == i,
            forall|k: int|
                0 <= k < i ==> line_view(#[trigger] out@[k]) == style_of(
                    ls[k],
                    link_count(ls.take(k)) == link_scroll,
                ),
        decreases lines.len() - i,
    {
        let line = &lines[i];
        assert(line@ == ls[i as int]);
        proof {
            lemma_link_count_step(ls, i as int);
            lemma_link_count_prefix(ls, i + 1);
        }
        let styled = if line.len() > 1 && line[0] == '=' && line[1] == '>' {
            link_counter = link_counter + 1;
            style_line(line, link_counter == link_scroll + 1)
        } else {
            style_line(line, false)
        };
        out.push(styled);
        i = i + 1;
    }
    out
}

/// The number of link lines on a page.
pub fn count_links(content: &str) -> (n: usize)
    ensures
        n == link_count(page_lines(content@)),
{
    let chars = chars_of(content);
    let lines = split_chars(&chars, '\n');
    let ghost ls = page_lines(content@);
    let mut n: usize = 0;
    let mut i: usize = 0;
    while i < lines.len()
        invariant
            i <= lines.len(),
            views(lines@) == ls,
            n == link_count(ls.take(i as int)),
            n <= i,
        decreases lines.len() - i,
    {
        let line = &lines[i];
        assert(line@ == ls[i as int]);
        proof {
            lemma_link_count_step(ls, i as int);
        }
        if line.len() > 1 && line[0] == '=' && line[1] == '>' {
            n = n + 1;
        }
        i = i + 1;
    }
    assert(ls.take(lines.len() as int) =~= ls);
    n
}

/// The address of the link numbered `link_scroll` (from zero) on the page,
/// or `None` when the page has no such link.
pub fn extract_link(content: &str, link_scroll: u16) -> (r: Option<String>)
    ensures
        r is Some <==> (link_scroll as int) < link_targets(page_lines(content@)).len(),
        r matches Some(u) ==> u@ == link_targets(page_lines(content@))[link_scroll as int],
{
    let chars = chars_of(content);
    let lines = split_chars(&chars, '\n');
    let ghost ls = page_lines(content@);
    let mut i: usize = 0;
    let mut seen: usize = 0;
    assert(ls.take(0) =~= Seq::<Seq<char>>::empty());
    while i < lines.len()
        invariant
            i <= lines.len(),
            views(lines@) == ls,
            ls == page_lines(content@),
            seen == link_targets(ls.take(i as int)).len(),
            seen <= i,
            seen <= link_scroll,
        decreases lines.len() - i,
    {
        let line = &lines[i];
        assert(line@ == ls[i as int]);
        assert(ls.take(i + 1).drop_last() =~= ls.take(i as int));
        assert(ls.take(i + 1).last() == ls[i as int]);
        assert(link_targets(ls.take(i + 1)) == if is_link_line(ls[i as int]) {
            link_targets(ls.take(i as int)).push(link_target(ls[i as int]))
        } else {
            link_targets(ls.take(i as int))
        });
        if line.len() > 1 && line[0] == '=' && line[1] == '>' {
            if seen == link_scroll as usize {
                let t = link_target_chars(line);
                proof {
                    lemma_targets_prefix(ls, i as int + 1);
                }
                return Some(string_of(&t));
            }
            seen = seen + 1;
        }
        i = i + 1;
    }
    assert(ls.take(lines.len() as int) =~= ls);
    None
}

/// The addresses of the link lines in a prefix of the page are a prefix of
/// the page's addresses.
proof fn lemma_targets_prefix(lines: Seq<Seq<char>>, i: int)
    requires
        0 <= i <= lines.len(),
    ensures
        link_targets(lines.take(i)).len() <= link_targets(lines).len(),
        forall|k: int|
            0 <= k < link_targets(lines.take(i)).len() ==> link_targets(lines)[k]
                == link_targets(lines.take(i))[k],
    decreases lines.len() - i,
{
    if i < lines.len() {
        lemma_targets_prefix(lines, i + 1);
        assert(lines.take(i + 1).drop_last() =~= lines.take(i));
    } else {
        assert(lines.take(i) =~= lines);
    }
}

} // verus!
