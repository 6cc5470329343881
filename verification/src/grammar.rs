//! The Creole grammar as spec functions.
//!
//! Every parser reads the window `s[lo..hi]` of the whole input `s` and, on
//! success, gives the position where it stopped and the node it built. The
//! rest of the input after a parser is `s[p..hi]`.
use vstd::prelude::*;
use crate::creole::Creole;

verus! {

/// Node payloads are always slices of the input.
pub open spec fn part(s: Seq<char>, a: int, b: int) -> Seq<char> {
    s.subrange(a, b)
}

pub open spec fn at(s: Seq<char>, i: int, hi: int, c: char) -> bool {
    0 <= i < hi && s[i] == c
}

pub open spec fn at2(s: Seq<char>, i: int, hi: int, a: char, b: char) -> bool {
    at(s, i, hi, a) && at(s, i + 1, hi, b)
}

pub open spec fn at4(s: Seq<char>, i: int, hi: int, a: char, b: char, c: char, d: char) -> bool {
    at2(s, i, hi, a, b) && at2(s, i + 2, hi, c, d)
}

pub open spec fn is_marker(c: char) -> bool {
    c == '*' || c == '#'
}

/// The characters at which a run of text stops.
#[derive(Clone, Copy, PartialEq, Eq, Structural)]
pub enum Stop {
    /// `[`, `]`, `|` or a newline: end of a link target
    LinkTarget,
    /// `[`, `]` or a newline: end of a link label
    LinkLabel,
    /// `{`, `}`, `|` or a newline: end of an image source
    ImageSource,
    /// `{`, `}` or a newline: end of an image label
    ImageLabel,
    /// a newline
    Newline,
    /// anything but a list marker
    NonMarker,
    /// anything but `=`
    NonEquals,
}

pub open spec fn stops(k: Stop, c: char) -> bool {
    match k {
        Stop::LinkTarget => c == '[' || c == ']' || c == '|' || c == '\n',
        Stop::LinkLabel => c == '[' || c == ']' || c == '\n',
        Stop::ImageSource => c == '{' || c == '}' || c == '|' || c == '\n',
        Stop::ImageLabel => c == '{' || c == '}' || c == '\n',
        Stop::Newline => c == '\n',
        Stop::NonMarker => !is_marker(c),
        Stop::NonEquals => c != '=',
    }
}

/// The first position from `i` on (below `hi`) whose character stops `k`, or `hi`.
pub open spec fn span(s: Seq<char>, i: int, hi: int, k: Stop) -> int
    decreases hi - i,
{
    if i < hi && !stops(k, s[i]) {
        span(s, i + 1, hi, k)
    } else {
        i
    }
}

pub proof fn lemma_span(s: Seq<char>, i: int, hi: int, k: Stop)
    requires
        i <= hi,
    ensures
        i <= span(s, i, hi, k) <= hi,
        forall|j: int| i <= j < span(s, i, hi, k) ==> !stops(k, #[trigger] s[j]),
        span(s, i, hi, k) < hi ==> stops(k, s[span(s, i, hi, k)]),
    decreases hi - i,
{
    if i < hi && !stops(k, s[i]) {
        lemma_span(s, i + 1, hi, k);
    }
}

/// The run of characters that do not stop `k` from `i` ends at `e` when the
/// character at `e` stops it, or `e` is the end of the window.
pub proof fn lemma_span_exact(s: Seq<char>, i: int, e: int, hi: int, k: Stop)
    requires
        i <= e <= hi,
        forall|j: int| i <= j < e ==> !stops(k, #[trigger] s[j]),
        e == hi || stops(k, s[e]),
    ensures
        span(s, i, hi, k) == e,
    decreases e - i,
{
    if i < e {
        assert(!stops(k, s[i]));
        lemma_span_exact(s, i + 1, e, hi, k);
    }
}

/// A text node over `s[lo..hi]`, if that is not empty.
pub open spec fn spec_text(s: Seq<char>, lo: int, hi: int) -> Option<(int, Creole)> {
    if lo < hi {
        Some((hi, Creole::Text(part(s, lo, hi))))
    } else {
        None
    }
}

/// `[[target|label]]` or `[[target]]`.
pub open spec fn spec_link(s: Seq<char>, lo: int, hi: int) -> Option<(int, Creole)> {
    if !at2(s, lo, hi, '[', '[') {
        None
    } else {
        let a = lo + 2;
        let e = span(s, a, hi, Stop::LinkTarget);
        let t = span(s, e + 1, hi, Stop::LinkLabel);
        if e > a && at(s, e, hi, '|') && t > e + 1 {
            if at2(s, t, hi, ']', ']') {
                Some((t + 2, Creole::Link(part(s, a, e), part(s, e + 1, t))))
            } else {
                None
            }
        } else {
            let c = span(s, a, hi, Stop::LinkLabel);
            if c > a && at2(s, c, hi, ']', ']') {
                Some((c + 2, Creole::Link(part(s, a, c), part(s, a, c))))
            } else {
                None
            }
        }
    }
}

/// `{{source|label}}` or `{{source}}` (with an empty label).
pub open spec fn spec_image(s: Seq<char>, lo: int, hi: int) -> Option<(int, Creole)> {
    if !at2(s, lo, hi, '{', '{') {
        None
    } else {
        let a = lo + 2;
        let e = span(s, a, hi, Stop::ImageSource);
        let t = span(s, e + 1, hi, Stop::ImageLabel);
        if e > a && at(s, e, hi, '|') && t > e + 1 {
            if at2(s, t, hi, '}', '}') {
                Some((t + 2, Creole::Image(part(s, a, e), part(s, e + 1, t))))
            } else {
                None
            }
        } else {
            let c = span(s, a, hi, Stop::ImageLabel);
            if c > a && at2(s, c, hi, '}', '}') {
                Some((c + 2, Creole::Image(part(s, a, c), Seq::empty())))
            } else {
                None
            }
        }
    }
}

/// What a run of inline content is part of; it decides where the run ends
/// and which markup it looks for.
#[derive(Clone, Copy, PartialEq, Eq, Structural)]
pub enum Ctx {
    /// inside `**...**`: ends at `**` or a newline, looks for italics
    Bold,
    /// inside `//...//`: ends at `//` or a newline, looks for bold
    Italic,
    /// a heading's text: ends at a newline
    Heading,
    /// a table cell: ends at `|`
    Cell,
    /// a list item's text: runs to its end
    Item,
}

/// Whether the inline run of `ctx` ends at position `k` (nothing is consumed).
pub open spec fn spec_term(ctx: Ctx, s: Seq<char>, k: int, hi: int) -> bool {
    match ctx {
        Ctx::Bold => at2(s, k, hi, '*', '*') || at(s, k, hi, '\n'),
        Ctx::Italic => at2(s, k, hi, '/', '/') || at(s, k, hi, '\n'),
        Ctx::Heading => at(s, k, hi, '\n'),
        Ctx::Cell => at(s, k, hi, '|'),
        Ctx::Item => false,
    }
}

/// Text from `lo` to `k`, if that is not empty.
pub open spec fn spec_opt_text(s: Seq<char>, lo: int, k: int) -> Option<Creole> {
    match spec_text(s, lo, k) {
        Some((_, t)) => Some(t),
        None => None,
    }
}

pub open spec fn push_opt(acc: Seq<Creole>, a: Option<Creole>) -> Seq<Creole> {
    match a {
        Some(v) => acc.push(v),
        None => acc,
    }
}

/// `**...**`
pub open spec fn spec_bold(s: Seq<char>, lo: int, hi: int) -> Option<(int, Creole)>
    decreases hi - lo, 1int,
{
    if at2(s, lo, hi, '*', '*') {
        let (p, items) = spec_collect(Ctx::Bold, s, lo + 2, hi, Seq::empty());
        if at2(s, p, hi, '*', '*') {
            Some((p + 2, Creole::Bold(items)))
        } else {
            None
        }
    } else {
        None
    }
}

/// `//...//`
pub open spec fn spec_italic(s: Seq<char>, lo: int, hi: int) -> Option<(int, Creole)>
    decreases hi - lo, 1int,
{
    if at2(s, lo, hi, '/', '/') {
        let (p, items) = spec_collect(Ctx::Italic, s, lo + 2, hi, Seq::empty());
        if at2(s, p, hi, '/', '/') {
            Some((p + 2, Creole::Italic(items)))
        } else {
            None
        }
    } else {
        None
    }
}

/// A forced line break `\\`, bold, or italic, tried in that order.
pub open spec fn spec_text_style(s: Seq<char>, lo: int, hi: int) -> Option<(int, Creole)>
    decreases hi - lo, 2int,
{
    if at2(s, lo, hi, '\\', '\\') {
        Some((lo + 2, Creole::ForceLinebreak))
    } else {
        match spec_bold(s, lo, hi) {
            Some(r) => Some(r),
            None => spec_italic(s, lo, hi),
        }
    }
}

/// Inline markup: a link, an image, or a text style, tried in that order.
pub open spec fn spec_lit(s: Seq<char>, lo: int, hi: int) -> Option<(int, Creole)>
    decreases hi - lo, 3int,
{
    match spec_link(s, lo, hi) {
        Some(r) => Some(r),
        None => match spec_image(s, lo, hi) {
            Some(r) => Some(r),
            None => spec_text_style(s, lo, hi),
        },
    }
}

/// The markup that an inline run of `ctx` looks for.
pub open spec fn spec_inner(ctx: Ctx, s: Seq<char>, lo: int, hi: int) -> Option<(int, Creole)>
    decreases hi - lo, 4int,
{
    match ctx {
        Ctx::Bold => spec_italic(s, lo, hi),
        Ctx::Italic => spec_bold(s, lo, hi),
        _ => spec_lit(s, lo, hi),
    }
}

/// One step of an inline run that started at `lo`, looking at position `k`:
/// the first position where the run ends or markup starts. Gives the stop
/// position, the plain text before it, and the markup found there.
pub open spec fn spec_scan(ctx: Ctx, s: Seq<char>, lo: int, k: int, hi: int) -> Option<
    (int, Option<Creole>, Option<Creole>),
>
    decreases hi - k, 5int,
{
    if k >= hi {
        match spec_text(s, lo, hi) {
            Some((p, t)) => Some((p, Some(t), None)),
            None => None,
        }
    } else if spec_term(ctx, s, k, hi) {
        Some((k, spec_opt_text(s, lo, k), None))
    } else {
        match spec_inner(ctx, s, k, hi) {
            Some((p, v)) => Some((p, spec_opt_text(s, lo, k), Some(v))),
            None => spec_scan(ctx, s, lo, k + 1, hi),
        }
    }
}

/// An inline run from `i`, appended to `acc`: steps are taken while they
/// find markup. A step that finds markup always moves forward within the
/// window (`laws::lemma_scan_within`), so the progress check never ends a run.
pub open spec fn spec_collect(ctx: Ctx, s: Seq<char>, i: int, hi: int, acc: Seq<Creole>) -> (
    int,
    Seq<Creole>,
)
    decreases hi - i, 6int,
{
    match spec_scan(ctx, s, i, i, hi) {
        None => (i, acc),
        Some((p, a, b)) => match b {
            Some(v) => if i < p <= hi {
                spec_collect(ctx, s, p, hi, push_opt(acc, a).push(v))
            } else {
                (p, push_opt(acc, a).push(v))
            },
            None => (p, push_opt(acc, a)),
        },
    }
}

/// `=` to `======`, a space, then inline text up to the end of the line.
pub open spec fn heading_level(s: Seq<char>, lo: int, hi: int) -> int {
    let e = span(s, lo, hi, Stop::NonEquals) - lo;
    if e > 6 {
        6
    } else {
        e
    }
}

pub open spec fn spec_heading(s: Seq<char>, lo: int, hi: int) -> Option<(int, Creole)> {
    let n = heading_level(s, lo, hi);
    if n >= 1 && at(s, lo + n, hi, ' ') {
        let (p, items) = spec_collect(Ctx::Heading, s, lo + n + 1, hi, Seq::empty());
        Some((p, Creole::Heading(n as u8, items)))
    } else {
        None
    }
}

/// The first position from `j` on where `\n}}}` starts within `s[..hi]`.
pub open spec fn find_close(s: Seq<char>, j: int, hi: int) -> Option<int>
    decreases hi - j,
{
    if j + 4 > hi {
        None
    } else if at4(s, j, hi, '\n', '}', '}', '}') {
        Some(j)
    } else {
        find_close(s, j + 1, hi)
    }
}

/// `{{{` and a newline, verbatim text, then a newline and `}}}`.
pub open spec fn spec_dont_format(s: Seq<char>, lo: int, hi: int) -> Option<(int, Creole)> {
    if at4(s, lo, hi, '{', '{', '{', '\n') {
        match find_close(s, lo + 4, hi) {
            Some(j) => Some((j + 4, Creole::DontFormat(part(s, lo + 4, j)))),
            None => None,
        }
    } else {
        None
    }
}

/// The extent of a table row starting at `lo` (`|=` for a header row, `|`
/// otherwise): where the parse goes on, and the window of the row's cells
/// (without the final `|`). A header row takes its line break with it.
pub open spec fn spec_row_line(s: Seq<char>, lo: int, hi: int, header: bool) -> Option<
    (int, int, int),
> {
    let start = if header {
        lo + 2
    } else {
        lo + 1
    };
    let opened = if header {
        at2(s, lo, hi, '|', '=')
    } else {
        at(s, lo, hi, '|')
    };
    if !opened {
        None
    } else {
        let e = span(s, start, hi, Stop::Newline);
        if e > start && s[e - 1] == '|' && (!header || at(s, e, hi, '\n')) {
            Some(
                (
                    if header {
                        e + 1
                    } else {
                        e
                    },
                    start,
                    e - 1,
                ),
            )
        } else if hi - start > 1 && s[hi - 1] == '|' {
            Some((hi, start, hi - 1))
        } else {
            None
        }
    }
}

pub open spec fn cell_node(header: bool, items: Seq<Creole>) -> Creole {
    if header {
        Creole::TableHeaderCell(items)
    } else {
        Creole::TableCell(items)
    }
}

/// The cells of a row whose cell text lies in `s[i..hi]`, separated by `|=`
/// in a header row and by `|` otherwise, appended to `acc`.
pub open spec fn spec_cells(s: Seq<char>, i: int, hi: int, header: bool, acc: Seq<Creole>) -> Seq<
    Creole,
>
    decreases hi - i,
{
    let (p, items) = spec_collect(Ctx::Cell, s, i, hi, Seq::empty());
    let acc1 = acc.push(cell_node(header, items));
    let sep = if header {
        at2(s, p, hi, '|', '=')
    } else {
        at(s, p, hi, '|')
    };
    let next = if header {
        p + 2
    } else {
        p + 1
    };
    if sep && i < next {
        spec_cells(s, next, hi, header, acc1)
    } else {
        acc1
    }
}

pub open spec fn spec_table_row(s: Seq<char>, lo: int, hi: int, header: bool) -> Option<
    (int, Creole),
> {
    match spec_row_line(s, lo, hi, header) {
        Some((next, a, b)) => {
            let cells = spec_cells(s, a, b, header, Seq::empty());
            Some(
                (
                    next,
                    if header {
                        Creole::TableHeaderRow(cells)
                    } else {
                        Creole::TableRow(cells)
                    },
                ),
            )
        },
        None => None,
    }
}

/// Further rows, each after a line break, appended to `acc`.
pub open spec fn spec_rows(s: Seq<char>, i: int, hi: int, acc: Seq<Creole>) -> (int, Seq<Creole>)
    decreases hi - i,
{
    if at(s, i, hi, '\n') {
        match spec_table_row(s, i + 1, hi, false) {
            Some((p, r)) => if i < p <= hi {
                spec_rows(s, p, hi, acc.push(r))
            } else {
                (i, acc)
            },
            None => (i, acc),
        }
    } else {
        (i, acc)
    }
}

/// A table: an optional header row, then rows separated by line breaks;
/// at least one row of either kind.
pub open spec fn spec_table(s: Seq<char>, lo: int, hi: int) -> Option<(int, Creole)> {
    match spec_table_row(s, lo, hi, true) {
        Some((p, h)) => match spec_table_row(s, p, hi, false) {
            Some((q, r)) => {
                let (e, rows) = spec_rows(s, q, hi, seq![h, r]);
                Some((e, Creole::Table(rows)))
            },
            None => Some((p, Creole::Table(seq![h]))),
        },
        None => match spec_table_row(s, lo, hi, false) {
            Some((q, r)) => {
                let (e, rows) = spec_rows(s, q, hi, seq![r]);
                Some((e, Creole::Table(rows)))
            },
            None => None,
        },
    }
}

/// A list line at `i` led by `head`: markers, a space, then text up to the
/// end of the line. Gives where the line ends.
pub open spec fn spec_list_line(s: Seq<char>, i: int, hi: int, head: char) -> Option<int> {
    if at(s, i, hi, head) {
        let j = span(s, i + 1, hi, Stop::NonMarker);
        if at(s, j, hi, ' ') {
            Some(span(s, j + 1, hi, Stop::Newline))
        } else {
            None
        }
    } else {
        None
    }
}

/// Further list lines led by `head`, each after a line break, appended to `acc`
/// as windows of `s`.
pub open spec fn spec_list_lines(
    s: Seq<char>,
    i: int,
    hi: int,
    head: char,
    acc: Seq<(int, int)>,
) -> (int, Seq<(int, int)>)
    decreases hi - i,
{
    if at(s, i, hi, '\n') {
        match spec_list_line(s, i + 1, hi, head) {
            Some(e) => if i < e <= hi {
                spec_list_lines(s, e, hi, head, acc.push((i + 1, e)))
            } else {
                (i, acc)
            },
            None => (i, acc),
        }
    } else {
        (i, acc)
    }
}

/// Whether the line `s[a..b]` starts with `tag`.
pub open spec fn starts_with_at(s: Seq<char>, a: int, b: int, tag: Seq<char>) -> bool {
    0 <= a && a + tag.len() <= b && b <= s.len() && s.subrange(a, a + tag.len()) == tag
}

/// Whether the line `s[a..b]` starts with `tag` and a space: an item at the
/// level of `tag`.
pub open spec fn is_item_at(s: Seq<char>, a: int, b: int, tag: Seq<char>) -> bool {
    starts_with_at(s, a, b, tag) && a + tag.len() < b && s[a + tag.len()] == ' '
}

/// The end of the group of lines from `j` on that start with `tag`.
pub open spec fn spec_group_end(s: Seq<char>, lines: Seq<(int, int)>, tag: Seq<char>, j: int) -> int
    decreases lines.len() - j,
{
    if 0 <= j < lines.len() && starts_with_at(s, lines[j].0, lines[j].1, tag) {
        spec_group_end(s, lines, tag, j + 1)
    } else {
        j
    }
}

pub proof fn lemma_group_end(s: Seq<char>, lines: Seq<(int, int)>, tag: Seq<char>, j: int)
    requires
        0 <= j <= lines.len(),
    ensures
        j <= spec_group_end(s, lines, tag, j) <= lines.len(),
        forall|k: int|
            j <= k < spec_group_end(s, lines, tag, j) ==> starts_with_at(
                s,
                #[trigger] lines[k].0,
                lines[k].1,
                tag,
            ),
        spec_group_end(s, lines, tag, j) < lines.len() ==> !starts_with_at(
            s,
            lines[spec_group_end(s, lines, tag, j)].0,
            lines[spec_group_end(s, lines, tag, j)].1,
            tag,
        ),
    decreases lines.len() - j,
{
    if 0 <= j < lines.len() && starts_with_at(s, lines[j].0, lines[j].1, tag) {
        lemma_group_end(s, lines, tag, j + 1);
    }
}

/// The list whose lines are `lines` and whose markers are `tag`: bulleted when
/// `tag` ends with `*`, numbered otherwise.
pub open spec fn spec_list_tree(s: Seq<char>, lines: Seq<(int, int)>, tag: Seq<char>) -> Creole
    decreases s.len() - tag.len(), lines.len() + 1,
{
    let items = spec_list_items(s, lines, tag, 0, Seq::empty());
    if tag.len() > 0 && tag[tag.len() - 1] == '*' {
        Creole::BulletList(items)
    } else {
        Creole::NumberedList(items)
    }
}

/// The entries of a list from line `i` on, appended to `acc`. A line that
/// starts with `tag` and a space is an item; any other line opens a nested
/// list, marked by its first `tag.len() + 1` characters, that takes it and
/// the lines right after it that start with the same markers. (A line too
/// short for that ends the list; list lines never are, which the parser
/// proves where it builds lists.)
pub open spec fn spec_list_items(
    s: Seq<char>,
    lines: Seq<(int, int)>,
    tag: Seq<char>,
    i: int,
    acc: Seq<Creole>,
) -> Seq<Creole>
    decreases s.len() - tag.len(), lines.len() - i,
{
    if i < 0 || i >= lines.len() {
        acc
    } else {
        let a = lines[i].0;
        let b = lines[i].1;
        let h = tag.len();
        if is_item_at(s, a, b, tag) {
            let (_, items) = spec_collect(Ctx::Item, s, a + h + 1, b, Seq::empty());
            spec_list_items(s, lines, tag, i + 1, acc.push(Creole::ListItem(items)))
        } else if 0 <= a && a + h + 1 <= b && b <= s.len() {
            let child_tag = s.subrange(a, a + h + 1);
            let j = spec_group_end(s, lines, child_tag, i + 1);
            proof {
                lemma_group_end(s, lines, child_tag, i + 1);
            }
            let child = spec_list_tree(s, lines.subrange(i, j), child_tag);
            spec_list_items(s, lines, tag, j, acc.push(child))
        } else {
            acc
        }
    }
}

/// A list: consecutive lines led by the same marker as the first one.
pub open spec fn spec_list(s: Seq<char>, lo: int, hi: int) -> Option<(int, Creole)> {
    if 0 <= lo < hi && is_marker(s[lo]) {
        let head = s[lo];
        match spec_list_line(s, lo, hi, head) {
            Some(e) => {
                let (q, lines) = spec_list_lines(s, e, hi, head, seq![(lo, e)]);
                Some((q, spec_list_tree(s, lines, s.subrange(lo, lo + 1))))
            },
            None => None,
        }
    } else {
        None
    }
}

/// A block other than a paragraph line: a horizontal rule `----`, a heading,
/// unformatted text, a table, or a list, tried in that order.
pub open spec fn spec_creole_inner(s: Seq<char>, lo: int, hi: int) -> Option<(int, Creole)> {
    if at4(s, lo, hi, '-', '-', '-', '-') {
        Some((lo + 4, Creole::HorizontalLine))
    } else {
        match spec_heading(s, lo, hi) {
            Some(r) => Some(r),
            None => match spec_dont_format(s, lo, hi) {
                Some(r) => Some(r),
                None => match spec_table(s, lo, hi) {
                    Some(r) => Some(r),
                    None => spec_list(s, lo, hi),
                },
            },
        }
    }
}

/// One step of a run of text in which blocks are looked for, started at `lo`
/// and looking at position `k`: the plain text up to the first position where
/// a block other than a paragraph line starts, and that block; at the end of
/// the window, the rest as text.
pub open spec fn spec_block_scan(s: Seq<char>, lo: int, k: int, hi: int) -> Option<
    (int, Option<Creole>, Option<Creole>),
>
    decreases hi - k,
{
    if k >= hi {
        match spec_text(s, lo, hi) {
            Some((p, t)) => Some((p, Some(t), None)),
            None => None,
        }
    } else {
        match spec_creole_inner(s, k, hi) {
            Some((p, v)) => Some((p, spec_opt_text(s, lo, k), Some(v))),
            None => spec_block_scan(s, lo, k + 1, hi),
        }
    }
}

/// The items of such a run from `i`, appended to `acc`, as `spec_collect`.
pub open spec fn spec_block_collect(s: Seq<char>, i: int, hi: int, acc: Seq<Creole>) -> (
    int,
    Seq<Creole>,
)
    decreases hi - i,
{
    match spec_block_scan(s, i, i, hi) {
        None => (i, acc),
        Some((p, a, b)) => match b {
            Some(v) => if i < p <= hi {
                spec_block_collect(s, p, hi, push_opt(acc, a).push(v))
            } else {
                (p, push_opt(acc, a).push(v))
            },
            None => (p, push_opt(acc, a)),
        },
    }
}

/// The markup that the steps of a run of text look for; what lies between
/// two finds is plain text.
#[derive(Clone, Copy, PartialEq, Eq, Structural)]
pub enum Markup {
    /// inline markup: a link, an image or a text style
    Lit,
    /// a block other than a paragraph line
    CreoleInner,
}

/// One step over `s[lo..hi]` that looks for `m`.
pub open spec fn spec_step(m: Markup, s: Seq<char>, lo: int, hi: int) -> Option<
    (int, Option<Creole>, Option<Creole>),
> {
    match m {
        Markup::Lit => spec_scan(Ctx::Item, s, lo, lo, hi),
        Markup::CreoleInner => spec_block_scan(s, lo, lo, hi),
    }
}

/// The items of the steps over `s[lo..hi]` that look for `m`, and where
/// they stop.
pub open spec fn spec_steps(m: Markup, s: Seq<char>, lo: int, hi: int) -> (int, Seq<Creole>) {
    match m {
        Markup::Lit => spec_collect(Ctx::Item, s, lo, hi, Seq::empty()),
        Markup::CreoleInner => spec_block_collect(s, lo, hi, Seq::empty()),
    }
}

/// Where a paragraph line ends at `k`: at a blank line (the first line break
/// is taken), or before a line break that is followed by another block.
pub open spec fn spec_line_term(s: Seq<char>, k: int, hi: int) -> Option<int> {
    if at(s, k, hi, '\n') && at(s, k + 1, hi, '\n') {
        Some(k + 1)
    } else if at(s, k, hi, '\n') && spec_creole_inner(s, k + 1, hi) is Some {
        Some(k)
    } else {
        None
    }
}

/// One step of a paragraph line, as `spec_scan`.
pub open spec fn spec_line_scan(s: Seq<char>, lo: int, k: int, hi: int) -> Option<
    (int, Option<Creole>, Option<Creole>),
>
    decreases hi - k,
{
    if k >= hi {
        match spec_text(s, lo, hi) {
            Some((p, t)) => Some((p, Some(t), None)),
            None => None,
        }
    } else {
        match spec_line_term(s, k, hi) {
            Some(p) => Some((p, spec_opt_text(s, lo, k), None)),
            None => match spec_lit(s, k, hi) {
                Some((p, v)) => Some((p, spec_opt_text(s, lo, k), Some(v))),
                None => spec_line_scan(s, lo, k + 1, hi),
            },
        }
    }
}

/// The items of a paragraph line from `i`, appended to `acc`, as `spec_collect`
/// (the progress check never fires: `laws::lemma_line_scan_within`).
pub open spec fn spec_line_collect(s: Seq<char>, i: int, hi: int, acc: Seq<Creole>) -> (
    int,
    Seq<Creole>,
)
    decreases hi - i,
{
    match spec_line_scan(s, i, i, hi) {
        None => (i, acc),
        Some((p, a, b)) => match b {
            Some(v) => if i < p <= hi {
                spec_line_collect(s, p, hi, push_opt(acc, a).push(v))
            } else {
                (p, push_opt(acc, a).push(v))
            },
            None => (p, push_opt(acc, a)),
        },
    }
}

/// A paragraph line; it always succeeds, possibly empty.
pub open spec fn spec_line(s: Seq<char>, lo: int, hi: int) -> (int, Creole) {
    let (p, items) = spec_line_collect(s, lo, hi, Seq::empty());
    (p, Creole::Line(items))
}

/// A block: one of `spec_creole_inner`, or else a paragraph line.
pub open spec fn spec_block(s: Seq<char>, lo: int, hi: int) -> (int, Creole) {
    match spec_creole_inner(s, lo, hi) {
        Some(r) => r,
        None => spec_line(s, lo, hi),
    }
}

/// Further blocks, each after a line break, appended to `acc`.
pub open spec fn spec_blocks(s: Seq<char>, i: int, hi: int, acc: Seq<Creole>) -> (
    int,
    Seq<Creole>,
)
    decreases hi - i,
{
    if at(s, i, hi, '\n') {
        let (p, b) = spec_block(s, i + 1, hi);
        if i < p <= hi {
            spec_blocks(s, p, hi, acc.push(b))
        } else {
            (i, acc)
        }
    } else {
        (i, acc)
    }
}

/// A document: blocks separated by line breaks. Gives where the parse stopped
/// and the blocks.
pub open spec fn spec_document(s: Seq<char>) -> (int, Seq<Creole>) {
    let (p, b) = spec_block(s, 0, s.len() as int);
    spec_blocks(s, p, s.len() as int, seq![b])
}

/// The kinds of parse failure that the parsers report, named as nom names them.
#[derive(Clone, Copy, PartialEq, Eq, Structural)]
pub enum ErrKind {
    Tag,
    Char,
    IsNot,
    Verify,
    OneOf,
    Eof,
}

/// Where a failed link at `lo` fails, and how: the opening `[[` is missing,
/// the closing `]]` is missing after the target (and label), or the target is empty.
pub open spec fn spec_link_error(s: Seq<char>, lo: int, hi: int) -> (int, ErrKind) {
    if !at2(s, lo, hi, '[', '[') {
        (lo, ErrKind::Tag)
    } else {
        let a = lo + 2;
        let e = span(s, a, hi, Stop::LinkTarget);
        let t = span(s, e + 1, hi, Stop::LinkLabel);
        if e > a && at(s, e, hi, '|') && t > e + 1 {
            (t, ErrKind::Tag)
        } else {
            let c = span(s, a, hi, Stop::LinkLabel);
            if c > a {
                (c, ErrKind::Tag)
            } else {
                (a, ErrKind::IsNot)
            }
        }
    }
}

/// Where a failed image at `lo` fails, and how, as `spec_link_error`.
pub open spec fn spec_image_error(s: Seq<char>, lo: int, hi: int) -> (int, ErrKind) {
    if !at2(s, lo, hi, '{', '{') {
        (lo, ErrKind::Tag)
    } else {
        let a = lo + 2;
        let e = span(s, a, hi, Stop::ImageSource);
        let t = span(s, e + 1, hi, Stop::ImageLabel);
        if e > a && at(s, e, hi, '|') && t > e + 1 {
            (t, ErrKind::Tag)
        } else {
            let c = span(s, a, hi, Stop::ImageLabel);
            if c > a {
                (c, ErrKind::Tag)
            } else {
                (a, ErrKind::IsNot)
            }
        }
    }
}

/// A failed heading fails at the character after its `=` signs (at `lo` when
/// there are none): a `=` or a space was expected there.
pub open spec fn spec_heading_error(s: Seq<char>, lo: int, hi: int) -> (int, ErrKind) {
    (lo + heading_level(s, lo, hi), ErrKind::Char)
}

/// A failed header row fails at `lo` when `|=` is missing, else after it,
/// where its line does not end with `|`.
pub open spec fn spec_header_row_error(s: Seq<char>, lo: int, hi: int) -> (int, ErrKind) {
    if !at2(s, lo, hi, '|', '=') {
        (lo, ErrKind::Tag)
    } else {
        (lo + 2, ErrKind::Verify)
    }
}

/// A failed list fails at `lo`: for want of a marker, or of a list line there.
pub open spec fn spec_list_error(s: Seq<char>, lo: int, hi: int) -> (int, ErrKind) {
    if 0 <= lo < hi && is_marker(s[lo]) {
        (lo, ErrKind::Tag)
    } else {
        (lo, ErrKind::OneOf)
    }
}

} // verus!
