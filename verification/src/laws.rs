//! Properties of the grammar that hold for every input.
use vstd::prelude::*;
use crate::creole::Creole;
use crate::grammar::{
    at, at2, Ctx, spec_link, spec_image, spec_bold, spec_italic, spec_text_style, spec_lit,
    spec_inner, spec_scan, spec_collect, at4, span, lemma_span, Stop, spec_heading, find_close,
    spec_dont_format, spec_table_row, spec_rows, spec_table, spec_list_line,
    spec_list_lines, spec_list, spec_creole_inner, spec_line_term, spec_line_scan,
    spec_line_collect, spec_block, spec_blocks, spec_document, push_opt, heading_level,
    part, stops, lemma_span_exact, spec_term, is_item_at, spec_list_items,
    is_marker, spec_cells, spec_row_line, spec_opt_text,
};

verus! {

/// A parse of the window `lo..hi` that succeeds stops at `p` with `lo < p <= hi`.
pub open spec fn advances(r: Option<(int, Creole)>, lo: int, hi: int) -> bool {
    r matches Some((p, _)) ==> lo < p <= hi
}

/// Links and images are at least four characters long and end within their window.
pub proof fn lemma_link_image_advance(s: Seq<char>, lo: int, hi: int)
    requires
        0 <= lo <= hi,
    ensures
        advances(spec_link(s, lo, hi), lo, hi),
        advances(spec_image(s, lo, hi), lo, hi),
{
}

/// Bold text consumes its delimiters and stays within its window.
pub proof fn lemma_bold_advance(s: Seq<char>, lo: int, hi: int)
    requires
        0 <= lo <= hi,
    ensures
        advances(spec_bold(s, lo, hi), lo, hi),
    decreases hi - lo, 1int,
{
    if at2(s, lo, hi, '*', '*') {
        lemma_collect_within(Ctx::Bold, s, lo + 2, hi, Seq::empty());
    }
}

/// Italic text consumes its delimiters and stays within its window.
pub proof fn lemma_italic_advance(s: Seq<char>, lo: int, hi: int)
    requires
        0 <= lo <= hi,
    ensures
        advances(spec_italic(s, lo, hi), lo, hi),
    decreases hi - lo, 1int,
{
    if at2(s, lo, hi, '/', '/') {
        lemma_collect_within(Ctx::Italic, s, lo + 2, hi, Seq::empty());
    }
}

pub proof fn lemma_text_style_advance(s: Seq<char>, lo: int, hi: int)
    requires
        0 <= lo <= hi,
    ensures
        advances(spec_text_style(s, lo, hi), lo, hi),
    decreases hi - lo, 2int,
{
    lemma_bold_advance(s, lo, hi);
    lemma_italic_advance(s, lo, hi);
}

/// Any inline markup that is found consumes at least one character and
/// stays within its window.
pub proof fn lemma_lit_advance(s: Seq<char>, lo: int, hi: int)
    requires
        0 <= lo <= hi,
    ensures
        advances(spec_lit(s, lo, hi), lo, hi),
    decreases hi - lo, 3int,
{
    lemma_link_image_advance(s, lo, hi);
    lemma_text_style_advance(s, lo, hi);
}

pub proof fn lemma_inner_advance(ctx: Ctx, s: Seq<char>, lo: int, hi: int)
    requires
        0 <= lo <= hi,
    ensures
        advances(spec_inner(ctx, s, lo, hi), lo, hi),
    decreases hi - lo, 4int,
{
    match ctx {
        Ctx::Bold => lemma_italic_advance(s, lo, hi),
        Ctx::Italic => lemma_bold_advance(s, lo, hi),
        _ => lemma_lit_advance(s, lo, hi),
    }
}

/// A step of an inline run stops within its window, and past its start
/// when it found markup.
pub proof fn lemma_scan_within(ctx: Ctx, s: Seq<char>, lo: int, k: int, hi: int)
    requires
        0 <= lo <= k <= hi,
    ensures
        spec_scan(ctx, s, lo, k, hi) matches Some((p, _, b)) ==> k <= p <= hi && (b is Some ==> k
            < p),
    decreases hi - k, 5int,
{
    if k < hi && !crate::grammar::spec_term(ctx, s, k, hi) {
        lemma_inner_advance(ctx, s, k, hi);
        if spec_inner(ctx, s, k, hi) is None {
            lemma_scan_within(ctx, s, lo, k + 1, hi);
        }
    }
}

/// An inline run stops within its window.
pub proof fn lemma_collect_within(ctx: Ctx, s: Seq<char>, i: int, hi: int, acc: Seq<Creole>)
    requires
        0 <= i <= hi,
    ensures
        i <= spec_collect(ctx, s, i, hi, acc).0 <= hi,
    decreases hi - i, 6int,
{
    lemma_scan_within(ctx, s, i, i, hi);
    match spec_scan(ctx, s, i, i, hi) {
        None => {},
        Some((p, a, b)) => match b {
            Some(v) => {
                lemma_collect_within(ctx, s, p, hi, crate::grammar::push_opt(acc, a).push(v));
            },
            None => {},
        },
    }
}

/// A heading is led by one to six `=` and stays within its window.
pub proof fn lemma_heading_advance(s: Seq<char>, lo: int, hi: int)
    requires
        0 <= lo <= hi,
    ensures
        advances(spec_heading(s, lo, hi), lo, hi),
        spec_heading(s, lo, hi) matches Some((_, Creole::Heading(n, _))) ==> 1 <= n <= 6,
{
    lemma_span(s, lo, hi, Stop::NonEquals);
    let n = heading_level(s, lo, hi);
    if n >= 1 && at(s, lo + n, hi, ' ') {
        lemma_collect_within(Ctx::Heading, s, lo + n + 1, hi, Seq::empty());
    }
}

pub proof fn lemma_find_close(s: Seq<char>, j: int, hi: int)
    requires
        j <= hi,
    ensures
        find_close(s, j, hi) matches Some(k) ==> j <= k && k + 4 <= hi,
    decreases hi - j,
{
    if j + 4 <= hi && !at4(s, j, hi, '\n', '}', '}', '}') {
        lemma_find_close(s, j + 1, hi);
    }
}

pub proof fn lemma_dont_format_advance(s: Seq<char>, lo: int, hi: int)
    requires
        0 <= lo <= hi,
    ensures
        advances(spec_dont_format(s, lo, hi), lo, hi),
{
    if at4(s, lo, hi, '{', '{', '{', '\n') {
        lemma_find_close(s, lo + 4, hi);
    }
}

pub proof fn lemma_table_row_advance(s: Seq<char>, lo: int, hi: int, header: bool)
    requires
        0 <= lo <= hi,
    ensures
        advances(spec_table_row(s, lo, hi, header), lo, hi),
{
    let start = if header {
        lo + 2
    } else {
        lo + 1
    };
    if start <= hi {
        lemma_span(s, start, hi, Stop::Newline);
    }
}

pub proof fn lemma_rows_within(s: Seq<char>, i: int, hi: int, acc: Seq<Creole>)
    requires
        0 <= i <= hi,
    ensures
        i <= spec_rows(s, i, hi, acc).0 <= hi,
    decreases hi - i,
{
    if at(s, i, hi, '\n') {
        lemma_table_row_advance(s, i + 1, hi, false);
        match spec_table_row(s, i + 1, hi, false) {
            Some((p, r)) => lemma_rows_within(s, p, hi, acc.push(r)),
            None => {},
        }
    }
}

pub proof fn lemma_table_advance(s: Seq<char>, lo: int, hi: int)
    requires
        0 <= lo <= hi,
    ensures
        advances(spec_table(s, lo, hi), lo, hi),
{
    lemma_table_row_advance(s, lo, hi, true);
    lemma_table_row_advance(s, lo, hi, false);
    match spec_table_row(s, lo, hi, true) {
        Some((p, h)) => {
            lemma_table_row_advance(s, p, hi, false);
            match spec_table_row(s, p, hi, false) {
                Some((q, r)) => lemma_rows_within(s, q, hi, seq![h, r]),
                None => {},
            }
        },
        None => match spec_table_row(s, lo, hi, false) {
            Some((q, r)) => lemma_rows_within(s, q, hi, seq![r]),
            None => {},
        },
    }
}

pub proof fn lemma_list_line_within(s: Seq<char>, i: int, hi: int, head: char)
    requires
        0 <= i <= hi,
    ensures
        spec_list_line(s, i, hi, head) matches Some(e) ==> i < e <= hi,
{
    if at(s, i, hi, head) {
        lemma_span(s, i + 1, hi, Stop::NonMarker);
        let j = span(s, i + 1, hi, Stop::NonMarker);
        if at(s, j, hi, ' ') {
            lemma_span(s, j + 1, hi, Stop::Newline);
        }
    }
}

pub proof fn lemma_list_lines_within(
    s: Seq<char>,
    i: int,
    hi: int,
    head: char,
    acc: Seq<(int, int)>,
)
    requires
        0 <= i <= hi,
    ensures
        i <= spec_list_lines(s, i, hi, head, acc).0 <= hi,
    decreases hi - i,
{
    if at(s, i, hi, '\n') {
        lemma_list_line_within(s, i + 1, hi, head);
        match spec_list_line(s, i + 1, hi, head) {
            Some(e) => lemma_list_lines_within(s, e, hi, head, acc.push((i + 1, e))),
            None => {},
        }
    }
}

pub proof fn lemma_list_advance(s: Seq<char>, lo: int, hi: int)
    requires
        0 <= lo <= hi,
    ensures
        advances(spec_list(s, lo, hi), lo, hi),
{
    if 0 <= lo < hi {
        lemma_list_line_within(s, lo, hi, s[lo]);
        match spec_list_line(s, lo, hi, s[lo]) {
            Some(e) => lemma_list_lines_within(s, e, hi, s[lo], seq![(lo, e)]),
            None => {},
        }
    }
}

/// Every block other than a paragraph line consumes at least one character
/// and stays within its window.
pub proof fn lemma_creole_inner_advance(s: Seq<char>, lo: int, hi: int)
    requires
        0 <= lo <= hi,
    ensures
        advances(spec_creole_inner(s, lo, hi), lo, hi),
{
    lemma_heading_advance(s, lo, hi);
    lemma_dont_format_advance(s, lo, hi);
    lemma_table_advance(s, lo, hi);
    lemma_list_advance(s, lo, hi);
}

pub proof fn lemma_line_scan_within(s: Seq<char>, lo: int, k: int, hi: int)
    requires
        0 <= lo <= k <= hi,
    ensures
        spec_line_scan(s, lo, k, hi) matches Some((p, _, b)) ==> k <= p <= hi && (b is Some ==> k
            < p),
    decreases hi - k,
{
    if k < hi && spec_line_term(s, k, hi) is None {
        lemma_lit_advance(s, k, hi);
        if spec_lit(s, k, hi) is None {
            lemma_line_scan_within(s, lo, k + 1, hi);
        }
    }
}

pub proof fn lemma_line_collect_within(s: Seq<char>, i: int, hi: int, acc: Seq<Creole>)
    requires
        0 <= i <= hi,
    ensures
        i <= spec_line_collect(s, i, hi, acc).0 <= hi,
    decreases hi - i,
{
    lemma_line_scan_within(s, i, i, hi);
    match spec_line_scan(s, i, i, hi) {
        None => {},
        Some((p, a, b)) => match b {
            Some(v) => {
                lemma_line_collect_within(s, p, hi, push_opt(acc, a).push(v));
            },
            None => {},
        },
    }
}

/// A block stays within its window; a paragraph line may be empty.
pub proof fn lemma_block_within(s: Seq<char>, lo: int, hi: int)
    requires
        0 <= lo <= hi,
    ensures
        lo <= spec_block(s, lo, hi).0 <= hi,
{
    lemma_creole_inner_advance(s, lo, hi);
    lemma_line_collect_within(s, lo, hi, Seq::empty());
}

pub proof fn lemma_blocks_within(s: Seq<char>, i: int, hi: int, acc: Seq<Creole>)
    requires
        0 <= i <= hi,
    ensures
        i <= spec_blocks(s, i, hi, acc).0 <= hi,
        spec_blocks(s, i, hi, acc).1.len() >= acc.len(),
    decreases hi - i,
{
    if at(s, i, hi, '\n') {
        lemma_block_within(s, i + 1, hi);
        let (p, b) = spec_block(s, i + 1, hi);
        lemma_blocks_within(s, p, hi, acc.push(b));
    }
}

/// A document has at least one block, and the parse stops within the input.
pub proof fn lemma_document_within(s: Seq<char>)
    ensures
        spec_document(s).0 <= s.len(),
        spec_document(s).1.len() >= 1,
{
    lemma_block_within(s, 0, s.len() as int);
    let (p, b) = spec_block(s, 0, s.len() as int);
    lemma_blocks_within(s, p, s.len() as int, seq![b]);
}

/// Characters that neither start inline markup nor break a line.
pub open spec fn is_plain(c: char) -> bool {
    c != '\n' && c != '[' && c != '{' && c != '\\' && c != '*' && c != '/'
}

/// Characters that may open a block other than a paragraph line.
pub open spec fn opens_block(c: char) -> bool {
    c == '-' || c == '=' || c == '{' || c == '|' || c == '*' || c == '#'
}

/// Plain text: not empty, only plain characters, not opening a block.
pub open spec fn plain(t: Seq<char>) -> bool {
    &&& t.len() > 0
    &&& forall|i: int| 0 <= i < t.len() ==> is_plain(#[trigger] t[i])
    &&& !opens_block(t[0])
}

/// No block other than a paragraph line starts at a character that cannot open one.
pub proof fn lemma_no_block(s: Seq<char>, lo: int, hi: int)
    requires
        0 <= lo < hi,
        !opens_block(s[lo]),
    ensures
        spec_creole_inner(s, lo, hi) is None,
{
    lemma_span(s, lo, hi, Stop::NonEquals);
}

/// A paragraph line passes over plain characters from `k` to `m`.
pub proof fn lemma_line_scan_plain(s: Seq<char>, lo: int, k: int, m: int, hi: int)
    requires
        0 <= lo <= k <= m <= hi,
        forall|j: int| k <= j < m ==> is_plain(#[trigger] s[j]),
    ensures
        spec_line_scan(s, lo, k, hi) == spec_line_scan(s, lo, m, hi),
    decreases m - k,
{
    if k < m {
        assert(is_plain(s[k]));
        assert(spec_line_term(s, k, hi) is None);
        assert(spec_lit(s, k, hi) is None);
        lemma_line_scan_plain(s, lo, k + 1, m, hi);
    }
}

/// The paragraph line of plain text `t`, the whole window.
pub proof fn lemma_plain_to_end(s: Seq<char>, lo: int, hi: int, t: Seq<char>)
    requires
        0 <= lo < hi <= s.len(),
        s.subrange(lo, hi) == t,
        plain(t),
    ensures
        spec_block(s, lo, hi) == (hi, Creole::Line(seq![Creole::Text(t)])),
{
    assert(s[lo] == t[0]);
    lemma_no_block(s, lo, hi);
    assert forall|j: int| lo <= j < hi implies is_plain(#[trigger] s[j]) by {
        assert(s[j] == t[j - lo]);
    }
    lemma_line_scan_plain(s, lo, lo, hi, hi);
    assert(part(s, lo, hi) == t);
    assert(spec_line_collect(s, lo, hi, Seq::empty()) == (hi, seq![Creole::Text(t)]));
}

/// A line of plain text that does not open a block is a document of one
/// paragraph line holding exactly that text.
pub proof fn law_plain_line(t: Seq<char>)
    requires
        plain(t),
    ensures
        spec_document(t) == (t.len() as int, seq![Creole::Line(seq![Creole::Text(t)])]),
{
    assert(t.subrange(0, t.len() as int) =~= t);
    lemma_plain_to_end(t, 0, t.len() as int, t);
}

/// A single line break between two lines of plain text continues the
/// paragraph: the document is one paragraph line holding all of the text.
pub proof fn law_line_break_continues(a: Seq<char>, b: Seq<char>)
    requires
        plain(a),
        plain(b),
    ensures
        spec_document(a + seq!['\n'] + b) == (
            (a.len() + 1 + b.len()) as int,
            seq![Creole::Line(seq![Creole::Text(a + seq!['\n'] + b)])],
        ),
{
    let s = a + seq!['\n'] + b;
    let la = a.len() as int;
    let n = s.len() as int;
    assert(s[0] == a[0]);
    assert(s[la] == '\n');
    assert(s[la + 1] == b[0]);
    lemma_no_block(s, 0, n);
    lemma_no_block(s, la + 1, n);
    assert forall|j: int| 0 <= j < la implies is_plain(#[trigger] s[j]) by {
        assert(s[j] == a[j]);
    }
    assert forall|j: int| la + 1 <= j < n implies is_plain(#[trigger] s[j]) by {
        assert(s[j] == b[j - la - 1]);
    }
    lemma_line_scan_plain(s, 0, 0, la, n);
    assert(spec_line_term(s, la, n) is None);
    assert(spec_lit(s, la, n) is None);
    lemma_line_scan_plain(s, 0, la + 1, n, n);
    assert(spec_line_scan(s, 0, 0, n) == spec_line_scan(s, 0, n, n));
    assert(part(s, 0, n) =~= s);
    assert(spec_line_collect(s, 0, n, Seq::empty()) == (n, seq![Creole::Text(s)]));
}

/// A blank line between two lines of plain text separates them into two
/// paragraph lines.
pub proof fn law_blank_line_separates(a: Seq<char>, b: Seq<char>)
    requires
        plain(a),
        plain(b),
    ensures
        spec_document(a + seq!['\n', '\n'] + b) == (
            (a.len() + 2 + b.len()) as int,
            seq![Creole::Line(seq![Creole::Text(a)]), Creole::Line(seq![Creole::Text(b)])],
        ),
{
    let s = a + seq!['\n', '\n'] + b;
    let la = a.len() as int;
    let n = s.len() as int;
    assert(s[0] == a[0]);
    assert(s[la] == '\n');
    assert(s[la + 1] == '\n');
    lemma_no_block(s, 0, n);
    assert forall|j: int| 0 <= j < la implies is_plain(#[trigger] s[j]) by {
        assert(s[j] == a[j]);
    }
    lemma_line_scan_plain(s, 0, 0, la, n);
    assert(part(s, 0, la) =~= a);
    assert(spec_line_scan(s, 0, 0, n) == Some((la + 1, Some(Creole::Text(a)), None::<Creole>)));
    assert(spec_line_collect(s, 0, n, Seq::empty()) == (la + 1, seq![Creole::Text(a)]));
    assert(s.subrange(la + 2, n) =~= b);
    lemma_plain_to_end(s, la + 2, n, b);
    let l1 = Creole::Line(seq![Creole::Text(a)]);
    let l2 = Creole::Line(seq![Creole::Text(b)]);
    assert(spec_blocks(s, n, n, seq![l1, l2]) == (n, seq![l1, l2]));
    assert(seq![l1].push(l2) =~= seq![l1, l2]);
}

/// An inline run (other than a table cell's) passes over plain characters
/// from `k` to `m`.
pub proof fn lemma_scan_plain(ctx: Ctx, s: Seq<char>, lo: int, k: int, m: int, hi: int)
    requires
        ctx != Ctx::Cell,
        0 <= lo <= k <= m <= hi,
        forall|j: int| k <= j < m ==> is_plain(#[trigger] s[j]),
    ensures
        spec_scan(ctx, s, lo, k, hi) == spec_scan(ctx, s, lo, m, hi),
    decreases m - k,
{
    if k < m {
        assert(is_plain(s[k]));
        assert(!spec_term(ctx, s, k, hi));
        assert(spec_lit(s, k, hi) is None);
        assert(spec_inner(ctx, s, k, hi) is None);
        lemma_scan_plain(ctx, s, lo, k + 1, m, hi);
    }
}

/// An inline run (other than a table cell's) over plain characters to the end
/// of its window is one text node.
pub proof fn lemma_collect_plain(ctx: Ctx, s: Seq<char>, lo: int, hi: int)
    requires
        ctx != Ctx::Cell,
        0 <= lo < hi,
        forall|j: int| lo <= j < hi ==> is_plain(#[trigger] s[j]),
    ensures
        spec_collect(ctx, s, lo, hi, Seq::empty()) == (hi, seq![Creole::Text(part(s, lo, hi))]),
{
    lemma_scan_plain(ctx, s, lo, lo, hi, hi);
}

pub open spec fn equals_signs(n: nat) -> Seq<char> {
    Seq::new(n, |i: int| '=')
}

/// One to six `=`, a space and plain text make a heading of that level
/// holding the text.
pub proof fn law_heading_line(n: nat, t: Seq<char>)
    requires
        1 <= n <= 6,
        t.len() > 0,
        forall|i: int| 0 <= i < t.len() ==> is_plain(#[trigger] t[i]),
    ensures
        spec_document(equals_signs(n) + seq![' '] + t) == (
            (n + 1 + t.len()) as int,
            seq![Creole::Heading(n as u8, seq![Creole::Text(t)])],
        ),
{
    let s = equals_signs(n) + seq![' '] + t;
    let len = s.len() as int;
    assert forall|j: int| 0 <= j < n implies !stops(Stop::NonEquals, #[trigger] s[j]) by {
        assert(s[j] == '=');
    }
    assert(s[n as int] == ' ');
    lemma_span_exact(s, 0, n as int, len, Stop::NonEquals);
    assert(heading_level(s, 0, len) == n);
    assert forall|j: int| n + 1 <= j < len implies is_plain(#[trigger] s[j]) by {
        assert(s[j] == t[j - n - 1]);
    }
    lemma_collect_plain(Ctx::Heading, s, n + 1int, len);
    assert(part(s, n + 1int, len) =~= t);
    assert(spec_creole_inner(s, 0, len) == Some((len, Creole::Heading(n as u8, seq![Creole::Text(t)]))));
}

/// `**`, plain text that does not start with a space, and `**` make a
/// paragraph line holding that text in bold.
pub proof fn law_bold_line(t: Seq<char>)
    requires
        plain(t),
        t[0] != ' ',
    ensures
        spec_document(seq!['*', '*'] + t + seq!['*', '*']) == (
            (t.len() + 4) as int,
            seq![Creole::Line(seq![Creole::Bold(seq![Creole::Text(t)])])],
        ),
{
    let s = seq!['*', '*'] + t + seq!['*', '*'];
    let len = s.len() as int;
    let e = len - 2;
    assert(s[0] == '*' && s[1] == '*' && s[2] == t[0]);
    assert(s[e] == '*' && s[e + 1] == '*');
    assert forall|j: int| 2 <= j < e implies is_plain(#[trigger] s[j]) by {
        assert(s[j] == t[j - 2]);
    }
    lemma_span_exact(s, 1, 2, len, Stop::NonMarker);
    assert(spec_creole_inner(s, 0, len) is None);
    lemma_scan_plain(Ctx::Bold, s, 2, 2, e, len);
    assert(part(s, 2, e) =~= t);
    assert(spec_collect(Ctx::Bold, s, 2, len, Seq::empty()) == (e, seq![Creole::Text(t)]));
    let b = Creole::Bold(seq![Creole::Text(t)]);
    assert(spec_lit(s, 0, len) == Some((len, b)));
    assert(spec_line_term(s, 0, len) is None);
    assert(spec_line_scan(s, 0, 0, len) == Some((len, None::<Creole>, Some(b))));
    assert(push_opt(Seq::empty(), None).push(b) =~= seq![b]);
    assert(spec_line_collect(s, len, len, seq![b]) == (len, seq![b]));
    assert(spec_line_collect(s, 0, len, Seq::empty()) == (len, seq![b]));
}

/// `[[target]]` is a link whose label is its target.
pub proof fn law_link(x: Seq<char>)
    requires
        x.len() > 0,
        forall|i: int|
            #![trigger x[i]]
            0 <= i < x.len() ==> x[i] != '[' && x[i] != ']' && x[i] != '|' && x[i] != '\n',
    ensures
        spec_link(seq!['[', '['] + x + seq![']', ']'], 0, (x.len() + 4) as int) == Some(
            ((x.len() + 4) as int, Creole::Link(x, x)),
        ),
{
    let s = seq!['[', '['] + x + seq![']', ']'];
    let len = s.len() as int;
    let e = len - 2;
    assert(s[0] == '[' && s[1] == '[' && s[e] == ']' && s[e + 1] == ']');
    assert forall|j: int| 2 <= j < e implies !stops(Stop::LinkTarget, #[trigger] s[j]) && !stops(
        Stop::LinkLabel,
        s[j],
    ) by {
        assert(s[j] == x[j - 2]);
    }
    lemma_span_exact(s, 2, e, len, Stop::LinkTarget);
    lemma_span_exact(s, 2, e, len, Stop::LinkLabel);
    assert(part(s, 2, e) =~= x);
}

/// `[[target|label]]` is a link with that target and label.
pub proof fn law_link_labelled(x: Seq<char>, y: Seq<char>)
    requires
        x.len() > 0,
        y.len() > 0,
        forall|i: int|
            #![trigger x[i]]
            0 <= i < x.len() ==> x[i] != '[' && x[i] != ']' && x[i] != '|' && x[i] != '\n',
        forall|i: int|
            #![trigger y[i]]
            0 <= i < y.len() ==> y[i] != '[' && y[i] != ']' && y[i] != '\n',
    ensures
        spec_link(
            seq!['[', '['] + x + seq!['|'] + y + seq![']', ']'],
            0,
            (x.len() + y.len() + 5) as int,
        ) == Some(((x.len() + y.len() + 5) as int, Creole::Link(x, y))),
{
    let s = seq!['[', '['] + x + seq!['|'] + y + seq![']', ']'];
    let len = s.len() as int;
    let e = 2 + x.len() as int;
    let t = len - 2;
    assert(s[0] == '[' && s[1] == '[' && s[e] == '|' && s[t] == ']' && s[t + 1] == ']');
    assert forall|j: int| 2 <= j < e implies !stops(Stop::LinkTarget, #[trigger] s[j]) by {
        assert(s[j] == x[j - 2]);
    }
    assert forall|j: int| e + 1 <= j < t implies !stops(Stop::LinkLabel, #[trigger] s[j]) by {
        assert(s[j] == y[j - e - 1]);
    }
    lemma_span_exact(s, 2, e, len, Stop::LinkTarget);
    lemma_span_exact(s, e + 1, t, len, Stop::LinkLabel);
    assert(part(s, 2, e) =~= x);
    assert(part(s, e + 1, t) =~= y);
}

/// A marker, a space and plain text make a list of one item holding the
/// text: bulleted for `*`, numbered for `#`.
pub proof fn law_list_item(m: char, t: Seq<char>)
    requires
        m == '*' || m == '#',
        t.len() > 0,
        forall|i: int| 0 <= i < t.len() ==> is_plain(#[trigger] t[i]),
    ensures
        spec_list(seq![m, ' '] + t, 0, (t.len() + 2) as int) == Some(
            (
                (t.len() + 2) as int,
                if m == '*' {
                    Creole::BulletList(seq![Creole::ListItem(seq![Creole::Text(t)])])
                } else {
                    Creole::NumberedList(seq![Creole::ListItem(seq![Creole::Text(t)])])
                },
            ),
        ),
{
    let s = seq![m, ' '] + t;
    let len = s.len() as int;
    assert(s[0] == m && s[1] == ' ');
    assert forall|j: int| 2 <= j < len implies is_plain(#[trigger] s[j]) && !stops(
        Stop::Newline,
        s[j],
    ) by {
        assert(s[j] == t[j - 2]);
    }
    lemma_span_exact(s, 1, 1, len, Stop::NonMarker);
    lemma_span_exact(s, 2, len, len, Stop::Newline);
    let tag = s.subrange(0, 1);
    assert(tag =~= seq![m]);
    let lines = seq![(0int, len)];
    assert(is_item_at(s, 0, len, tag));
    lemma_collect_plain(Ctx::Item, s, 2, len);
    assert(part(s, 2, len) =~= t);
    let item = Creole::ListItem(seq![Creole::Text(t)]);
    assert(spec_list_items(s, lines, tag, 1, seq![item]) == seq![item]);
    assert(spec_list_items(s, lines, tag, 0, Seq::empty()) == seq![item]);
}

/// A table cell's inline run passes over plain characters other than `|`
/// from `k` to `m`.
pub proof fn lemma_scan_plain_cell(s: Seq<char>, lo: int, k: int, m: int, hi: int)
    requires
        0 <= lo <= k <= m <= hi,
        forall|j: int| k <= j < m ==> is_plain(#[trigger] s[j]) && s[j] != '|',
    ensures
        spec_scan(Ctx::Cell, s, lo, k, hi) == spec_scan(Ctx::Cell, s, lo, m, hi),
    decreases m - k,
{
    if k < m {
        assert(is_plain(s[k]) && s[k] != '|');
        assert(!spec_term(Ctx::Cell, s, k, hi));
        assert(spec_lit(s, k, hi) is None);
        assert(spec_inner(Ctx::Cell, s, k, hi) is None);
        lemma_scan_plain_cell(s, lo, k + 1, m, hi);
    }
}

/// Every character of `t` is plain.
pub open spec fn all_plain(t: Seq<char>) -> bool {
    forall|i: int| 0 <= i < t.len() ==> is_plain(#[trigger] t[i])
}

/// The list of one item `m t` at the end of `s`, from `lo`.
pub proof fn lemma_list_item_window(s: Seq<char>, lo: int, m: char, t: Seq<char>)
    requires
        0 <= lo,
        lo + 2 + t.len() == s.len(),
        s.subrange(lo, s.len() as int) == seq![m, ' '] + t,
        m == '*' || m == '#',
        t.len() > 0,
        all_plain(t),
    ensures
        spec_list(s, lo, s.len() as int) == Some(
            (
                s.len() as int,
                if m == '*' {
                    Creole::BulletList(seq![Creole::ListItem(seq![Creole::Text(t)])])
                } else {
                    Creole::NumberedList(seq![Creole::ListItem(seq![Creole::Text(t)])])
                },
            ),
        ),
{
    let hi = s.len() as int;
    let u = seq![m, ' '] + t;
    assert(s[lo] == s.subrange(lo, hi)[0]);
    assert(s[lo + 1] == s.subrange(lo, hi)[1]);
    assert(u[0] == m && u[1] == ' ');
    assert forall|j: int| lo + 2 <= j < hi implies is_plain(#[trigger] s[j]) && !stops(
        Stop::Newline,
        s[j],
    ) by {
        assert(s[j] == s.subrange(lo, hi)[j - lo]);
        assert(u[j - lo] == t[j - lo - 2]);
    }
    lemma_span_exact(s, lo + 1, lo + 1, hi, Stop::NonMarker);
    lemma_span_exact(s, lo + 2, hi, hi, Stop::Newline);
    let tag = s.subrange(lo, lo + 1);
    assert(tag =~= seq![m]);
    let lines = seq![(lo, hi)];
    assert(spec_list_lines(s, hi, hi, m, lines) == (hi, lines));
    assert(is_item_at(s, lo, hi, tag));
    lemma_collect_plain(Ctx::Item, s, lo + 2, hi);
    assert(part(s, lo + 2, hi) =~= t) by {
        assert forall|j: int| 0 <= j < t.len() implies part(s, lo + 2, hi)[j] == t[j] by {
            assert(s[lo + 2 + j] == s.subrange(lo, hi)[j + 2]);
        }
    }
    let item = Creole::ListItem(seq![Creole::Text(t)]);
    assert(spec_list_items(s, lines, tag, 1, seq![item]) == seq![item]);
    assert(spec_list_items(s, lines, tag, 0, Seq::empty()) == seq![item]);
}

/// A paragraph line ends before a line break that is followed by a block,
/// a list included: plain text, a line break, a list marker, a space and
/// plain text make a paragraph line holding the first text, then a list of
/// one item holding the second.
pub proof fn law_line_ends_before_list(a: Seq<char>, m: char, t: Seq<char>)
    requires
        plain(a),
        m == '*' || m == '#',
        t.len() > 0,
        all_plain(t),
    ensures
        spec_document(a + seq!['\n', m, ' '] + t) == (
            (a.len() + 3 + t.len()) as int,
            seq![
                Creole::Line(seq![Creole::Text(a)]),
                if m == '*' {
                    Creole::BulletList(seq![Creole::ListItem(seq![Creole::Text(t)])])
                } else {
                    Creole::NumberedList(seq![Creole::ListItem(seq![Creole::Text(t)])])
                },
            ],
        ),
{
    let s = a + seq!['\n', m, ' '] + t;
    let la = a.len() as int;
    let n = s.len() as int;
    let list = if m == '*' {
        Creole::BulletList(seq![Creole::ListItem(seq![Creole::Text(t)])])
    } else {
        Creole::NumberedList(seq![Creole::ListItem(seq![Creole::Text(t)])])
    };
    assert(s[0] == a[0]);
    assert(s[la] == '\n' && s[la + 1] == m && s[la + 2] == ' ');
    lemma_no_block(s, 0, n);
    assert forall|j: int| 0 <= j < la implies is_plain(#[trigger] s[j]) by {
        assert(s[j] == a[j]);
    }
    assert(s.subrange(la + 1, n) =~= seq![m, ' '] + t);
    lemma_list_item_window(s, la + 1, m, t);
    lemma_span_exact(s, la + 1, la + 1, n, Stop::NonEquals);
    assert(spec_heading(s, la + 1, n) is None);
    assert(spec_table(s, la + 1, n) is None);
    assert(spec_creole_inner(s, la + 1, n) == Some((n, list)));
    lemma_line_scan_plain(s, 0, 0, la, n);
    assert(spec_line_term(s, la, n) == Some(la));
    assert(part(s, 0, la) =~= a);
    assert(spec_line_scan(s, 0, 0, n) == Some((la, Some(Creole::Text(a)), None::<Creole>)));
    assert(spec_line_collect(s, 0, n, Seq::empty()) == (la, seq![Creole::Text(a)]));
    let l1 = Creole::Line(seq![Creole::Text(a)]);
    assert(spec_block(s, 0, n) == (la, l1));
    assert(spec_block(s, la + 1, n) == (n, list));
    assert(spec_blocks(s, n, n, seq![l1, list]) == (n, seq![l1, list]));
    assert(seq![l1].push(list) =~= seq![l1, list]);
}

/// No `\n}}}` occurs in `t`.
pub open spec fn no_close(t: Seq<char>) -> bool {
    forall|i: int|
        #![trigger t[i]]
        0 <= i && i + 4 <= t.len() ==> !(t[i] == '\n' && t[i + 1] == '}' && t[i + 2] == '}' && t[i
            + 3] == '}')
}

/// `find_close` stops at the first `\n}}}` from `j` on.
pub proof fn lemma_find_close_at(s: Seq<char>, j: int, e: int, hi: int)
    requires
        j <= e,
        at4(s, e, hi, '\n', '}', '}', '}'),
        forall|k: int| j <= k < e ==> !#[trigger] at4(s, k, hi, '\n', '}', '}', '}'),
    ensures
        find_close(s, j, hi) == Some(e),
    decreases e - j,
{
    if j < e {
        assert(!at4(s, j, hi, '\n', '}', '}', '}'));
        lemma_find_close_at(s, j + 1, e, hi);
    }
}

/// `{{{`, a line break, any text without `\n}}}` (line breaks and markup
/// included), a line break and `}}}` make a document of one unformatted
/// block holding exactly that text; the whole input is consumed.
pub proof fn law_dont_format(t: Seq<char>)
    requires
        no_close(t),
    ensures
        spec_document(seq!['{', '{', '{', '\n'] + t + seq!['\n', '}', '}', '}']) == (
            (t.len() + 8) as int,
            seq![Creole::DontFormat(t)],
        ),
{
    let s = seq!['{', '{', '{', '\n'] + t + seq!['\n', '}', '}', '}'];
    let n = s.len() as int;
    let lt = t.len() as int;
    let e = 4 + lt;
    assert(s[0] == '{' && s[1] == '{' && s[2] == '{' && s[3] == '\n');
    assert(s[e] == '\n' && s[e + 1] == '}' && s[e + 2] == '}' && s[e + 3] == '}');
    assert forall|k: int| 4 <= k < e implies !#[trigger] at4(s, k, n, '\n', '}', '}', '}') by {
        if k + 4 <= e {
            assert(s[k] == t[k - 4]);
            assert(s[k + 1] == t[k - 3]);
            assert(s[k + 2] == t[k - 2]);
            assert(s[k + 3] == t[k - 1]);
        } else {
            assert(s[e] == '\n');
        }
    }
    lemma_find_close_at(s, 4, e, n);
    assert(part(s, 4, e) =~= t);
    let d = Creole::DontFormat(t);
    assert(spec_dont_format(s, 0, n) == Some((n, d)));
    assert(spec_creole_inner(s, 0, n) == Some((n, d)));
    assert(spec_blocks(s, n, n, seq![d]) == (n, seq![d]));
}

/// The characters that end an image's source.
pub open spec fn image_source_char(c: char) -> bool {
    c != '{' && c != '}' && c != '|' && c != '\n'
}

/// `{{source|label}}` is an image with that source and label; the label may
/// hold spaces, `|` and anything but `{`, `}` and a line break.
pub proof fn law_image_labelled(x: Seq<char>, y: Seq<char>)
    requires
        x.len() > 0,
        y.len() > 0,
        forall|i: int| 0 <= i < x.len() ==> image_source_char(#[trigger] x[i]),
        forall|i: int|
            #![trigger y[i]]
            0 <= i < y.len() ==> y[i] != '{' && y[i] != '}' && y[i] != '\n',
    ensures
        spec_image(
            seq!['{', '{'] + x + seq!['|'] + y + seq!['}', '}'],
            0,
            (x.len() + y.len() + 5) as int,
        ) == Some(((x.len() + y.len() + 5) as int, Creole::Image(x, y))),
{
    let s = seq!['{', '{'] + x + seq!['|'] + y + seq!['}', '}'];
    let len = s.len() as int;
    let e = 2 + x.len() as int;
    let t = len - 2;
    assert(s[0] == '{' && s[1] == '{' && s[e] == '|' && s[t] == '}' && s[t + 1] == '}');
    assert forall|j: int| 2 <= j < e implies !stops(Stop::ImageSource, #[trigger] s[j]) by {
        assert(s[j] == x[j - 2]);
        assert(image_source_char(x[j - 2]));
    }
    assert forall|j: int| e + 1 <= j < t implies !stops(Stop::ImageLabel, #[trigger] s[j]) by {
        assert(s[j] == y[j - e - 1]);
    }
    lemma_span_exact(s, 2, e, len, Stop::ImageSource);
    lemma_span_exact(s, e + 1, t, len, Stop::ImageLabel);
    assert(part(s, 2, e) =~= x);
    assert(part(s, e + 1, t) =~= y);
}

/// `{{source}}` is an image with that source and an empty label.
pub proof fn law_image(x: Seq<char>)
    requires
        x.len() > 0,
        forall|i: int| 0 <= i < x.len() ==> image_source_char(#[trigger] x[i]),
    ensures
        spec_image(seq!['{', '{'] + x + seq!['}', '}'], 0, (x.len() + 4) as int) == Some(
            ((x.len() + 4) as int, Creole::Image(x, Seq::empty())),
        ),
{
    let s = seq!['{', '{'] + x + seq!['}', '}'];
    let len = s.len() as int;
    let e = len - 2;
    assert(s[0] == '{' && s[1] == '{' && s[e] == '}' && s[e + 1] == '}');
    assert forall|j: int| 2 <= j < e implies !stops(Stop::ImageSource, #[trigger] s[j]) && !stops(
        Stop::ImageLabel,
        s[j],
    ) by {
        assert(s[j] == x[j - 2]);
        assert(image_source_char(x[j - 2]));
    }
    lemma_span_exact(s, 2, e, len, Stop::ImageSource);
    lemma_span_exact(s, 2, e, len, Stop::ImageLabel);
    assert(part(s, 2, e) =~= x);
}

/// Table cells hold inline markup: `|**b**|x|`, with plain `b` and plain `x`
/// without `|`, is a table of one row whose first cell holds `b` in bold
/// and whose second cell holds `x`.
pub proof fn law_table_cell_bold(b: Seq<char>, x: Seq<char>)
    requires
        b.len() > 0,
        all_plain(b),
        x.len() > 0,
        forall|i: int| 0 <= i < x.len() ==> is_plain(#[trigger] x[i]) && x[i] != '|',
    ensures
        spec_table(
            seq!['|', '*', '*'] + b + seq!['*', '*', '|'] + x + seq!['|'],
            0,
            (b.len() + x.len() + 7) as int,
        ) == Some(
            (
                (b.len() + x.len() + 7) as int,
                Creole::Table(
                    seq![
                        Creole::TableRow(
                            seq![
                                Creole::TableCell(seq![Creole::Bold(seq![Creole::Text(b)])]),
                                Creole::TableCell(seq![Creole::Text(x)]),
                            ],
                        ),
                    ],
                ),
            ),
        ),
{
    let s = seq!['|', '*', '*'] + b + seq!['*', '*', '|'] + x + seq!['|'];
    let n = s.len() as int;
    let lb = b.len() as int;
    let hi = n - 1;
    let q = 5 + lb;
    assert(s[0] == '|' && s[1] == '*' && s[2] == '*');
    assert(s[3 + lb] == '*' && s[4 + lb] == '*' && s[q] == '|' && s[hi] == '|');
    assert forall|j: int| 3 <= j < 3 + lb implies is_plain(#[trigger] s[j]) by {
        assert(s[j] == b[j - 3]);
    }
    assert forall|j: int| q + 1 <= j < hi implies is_plain(#[trigger] s[j]) && s[j] != '|' by {
        assert(s[j] == x[j - q - 1]);
    }
    assert forall|j: int| 1 <= j < n implies !stops(Stop::Newline, #[trigger] s[j]) by {
        if 3 <= j < 3 + lb {
            assert(s[j] == b[j - 3]);
        } else if q + 1 <= j < hi {
            assert(s[j] == x[j - q - 1]);
        }
    }
    lemma_span_exact(s, 1, n, n, Stop::Newline);
    assert(spec_row_line(s, 0, n, true) is None);
    assert(spec_row_line(s, 0, n, false) == Some((n, 1int, hi)));
    // the first cell: bold text up to the `|`
    lemma_scan_plain(Ctx::Bold, s, 3, 3, 3 + lb, hi);
    assert(part(s, 3, 3 + lb) =~= b);
    assert(spec_collect(Ctx::Bold, s, 3, hi, Seq::empty()) == (3 + lb, seq![Creole::Text(b)]));
    let bold = Creole::Bold(seq![Creole::Text(b)]);
    assert(spec_lit(s, 1, hi) == Some((q, bold)));
    assert(!spec_term(Ctx::Cell, s, 1, hi));
    assert(spec_inner(Ctx::Cell, s, 1, hi) == Some((q, bold)));
    assert(spec_opt_text(s, 1, 1) is None);
    assert(spec_scan(Ctx::Cell, s, 1, 1, hi) == Some((q, None::<Creole>, Some(bold))));
    assert(spec_term(Ctx::Cell, s, q, hi));
    assert(spec_opt_text(s, q, q) is None);
    assert(spec_scan(Ctx::Cell, s, q, q, hi) == Some((q, None::<Creole>, None::<Creole>)));
    assert(push_opt(seq![bold], None) == seq![bold]);
    assert(spec_collect(Ctx::Cell, s, q, hi, seq![bold]) == (q, seq![bold]));
    assert(push_opt(Seq::empty(), None).push(bold) =~= seq![bold]);
    assert(spec_collect(Ctx::Cell, s, 1, hi, Seq::empty()) == (q, seq![bold]));
    // the second cell: plain text to the end of the row
    lemma_scan_plain_cell(s, q + 1, q + 1, hi, hi);
    assert(part(s, q + 1, hi) =~= x);
    assert(spec_collect(Ctx::Cell, s, q + 1, hi, Seq::empty()) == (hi, seq![Creole::Text(x)]));
    let c1 = Creole::TableCell(seq![bold]);
    let c2 = Creole::TableCell(seq![Creole::Text(x)]);
    assert(spec_cells(s, q + 1, hi, false, seq![c1]) == seq![c1].push(c2));
    assert(spec_cells(s, 1, hi, false, Seq::empty()) == seq![c1].push(c2));
    assert(seq![c1].push(c2) =~= seq![c1, c2]);
    let row = Creole::TableRow(seq![c1, c2]);
    assert(spec_rows(s, n, n, seq![row]) == (n, seq![row]));
}

/// A table cell may hold a link: `|[[target|label]]|` is a table of one row
/// of one cell holding that link.
pub proof fn law_table_cell_link(x: Seq<char>, y: Seq<char>)
    requires
        x.len() > 0,
        y.len() > 0,
        forall|i: int|
            #![trigger x[i]]
            0 <= i < x.len() ==> x[i] != '[' && x[i] != ']' && x[i] != '|' && x[i] != '\n',
        forall|i: int|
            #![trigger y[i]]
            0 <= i < y.len() ==> y[i] != '[' && y[i] != ']' && y[i] != '\n',
    ensures
        spec_table(
            seq!['|', '[', '['] + x + seq!['|'] + y + seq![']', ']', '|'],
            0,
            (x.len() + y.len() + 7) as int,
        ) == Some(
            (
                (x.len() + y.len() + 7) as int,
                Creole::Table(
                    seq![Creole::TableRow(seq![Creole::TableCell(seq![Creole::Link(x, y)])])],
                ),
            ),
        ),
{
    let s = seq!['|', '[', '['] + x + seq!['|'] + y + seq![']', ']', '|'];
    let n = s.len() as int;
    let hi = n - 1;
    let e = 3 + x.len() as int;
    let t = hi - 2;
    assert(s[0] == '|' && s[1] == '[' && s[2] == '[' && s[e] == '|');
    assert(s[t] == ']' && s[t + 1] == ']' && s[hi] == '|');
    assert forall|j: int| 3 <= j < e implies !stops(Stop::LinkTarget, #[trigger] s[j]) by {
        assert(s[j] == x[j - 3]);
    }
    assert forall|j: int| e + 1 <= j < t implies !stops(Stop::LinkLabel, #[trigger] s[j]) by {
        assert(s[j] == y[j - e - 1]);
    }
    assert forall|j: int| 1 <= j < n implies !stops(Stop::Newline, #[trigger] s[j]) by {
        if 3 <= j < e {
            assert(s[j] == x[j - 3]);
        } else if e + 1 <= j < t {
            assert(s[j] == y[j - e - 1]);
        }
    }
    lemma_span_exact(s, 1, n, n, Stop::Newline);
    assert(spec_row_line(s, 0, n, true) is None);
    assert(spec_row_line(s, 0, n, false) == Some((n, 1int, hi)));
    lemma_span_exact(s, 3, e, hi, Stop::LinkTarget);
    lemma_span_exact(s, e + 1, t, hi, Stop::LinkLabel);
    assert(part(s, 3, e) =~= x);
    assert(part(s, e + 1, t) =~= y);
    let link = Creole::Link(x, y);
    assert(spec_link(s, 1, hi) == Some((hi, link)));
    assert(spec_lit(s, 1, hi) == Some((hi, link)));
    assert(!spec_term(Ctx::Cell, s, 1, hi));
    assert(spec_inner(Ctx::Cell, s, 1, hi) == Some((hi, link)));
    assert(spec_opt_text(s, 1, 1) is None);
    assert(spec_scan(Ctx::Cell, s, 1, 1, hi) == Some((hi, None::<Creole>, Some(link))));
    assert(push_opt(Seq::empty(), None).push(link) =~= seq![link]);
    assert(spec_scan(Ctx::Cell, s, hi, hi, hi) is None);
    assert(spec_collect(Ctx::Cell, s, hi, hi, seq![link]) == (hi, seq![link]));
    assert(spec_collect(Ctx::Cell, s, 1, hi, Seq::empty()) == (hi, seq![link]));
    let c = Creole::TableCell(seq![link]);
    assert(spec_cells(s, 1, hi, false, Seq::empty()) == seq![c]);
    let row = Creole::TableRow(seq![c]);
    assert(spec_rows(s, n, n, seq![row]) == (n, seq![row]));
}

/// Inside italics, bold markup is parsed: `//a**b**c//` with plain `a`, `b`
/// and `c` is a paragraph line holding `a`, `b` in bold and `c`, in italics.
pub proof fn law_italic_holds_bold(a: Seq<char>, b: Seq<char>, c: Seq<char>)
    requires
        a.len() > 0,
        b.len() > 0,
        c.len() > 0,
        all_plain(a),
        all_plain(b),
        all_plain(c),
    ensures
        spec_document(seq!['/', '/'] + a + seq!['*', '*'] + b + seq!['*', '*'] + c + seq!['/', '/'])
            == (
            (a.len() + b.len() + c.len() + 8) as int,
            seq![
                Creole::Line(
                    seq![
                        Creole::Italic(
                            seq![
                                Creole::Text(a),
                                Creole::Bold(seq![Creole::Text(b)]),
                                Creole::Text(c),
                            ],
                        ),
                    ],
                ),
            ],
        ),
{
    let s = seq!['/', '/'] + a + seq!['*', '*'] + b + seq!['*', '*'] + c + seq!['/', '/'];
    let n = s.len() as int;
    let la = a.len() as int;
    let lb = b.len() as int;
    let p0 = 2 + la;
    let pb = p0 + 2;
    let p1 = pb + lb;
    let pc = p1 + 2;
    let p2 = n - 2;
    assert(s[0] == '/' && s[1] == '/' && s[p0] == '*' && s[p0 + 1] == '*');
    assert(s[p1] == '*' && s[p1 + 1] == '*' && s[p2] == '/' && s[p2 + 1] == '/');
    assert forall|j: int| 2 <= j < p0 implies is_plain(#[trigger] s[j]) by {
        assert(s[j] == a[j - 2]);
    }
    assert forall|j: int| pb <= j < p1 implies is_plain(#[trigger] s[j]) by {
        assert(s[j] == b[j - pb]);
    }
    assert forall|j: int| pc <= j < p2 implies is_plain(#[trigger] s[j]) by {
        assert(s[j] == c[j - pc]);
    }
    // the bold part
    lemma_scan_plain(Ctx::Bold, s, pb, pb, p1, n);
    assert(part(s, pb, p1) =~= b);
    assert(spec_collect(Ctx::Bold, s, pb, n, Seq::empty()) == (p1, seq![Creole::Text(b)]));
    let bold = Creole::Bold(seq![Creole::Text(b)]);
    assert(spec_bold(s, p0, n) == Some((pc, bold)));
    // the italic run
    lemma_scan_plain(Ctx::Italic, s, 2, 2, p0, n);
    assert(part(s, 2, p0) =~= a);
    assert(!spec_term(Ctx::Italic, s, p0, n));
    assert(spec_inner(Ctx::Italic, s, p0, n) == Some((pc, bold)));
    assert(spec_opt_text(s, 2, p0) == Some(Creole::Text(a)));
    assert(spec_scan(Ctx::Italic, s, 2, p0, n) == Some((pc, Some(Creole::Text(a)), Some(bold))));
    assert(spec_scan(Ctx::Italic, s, 2, 2, n) == Some((pc, Some(Creole::Text(a)), Some(bold))));
    lemma_scan_plain(Ctx::Italic, s, pc, pc, p2, n);
    assert(part(s, pc, p2) =~= c);
    assert(spec_scan(Ctx::Italic, s, pc, pc, n) == Some((p2, Some(Creole::Text(c)), None::<Creole>)));
    let items = seq![Creole::Text(a), bold, Creole::Text(c)];
    assert(push_opt(seq![Creole::Text(a), bold], Some(Creole::Text(c))) =~= items);
    assert(spec_collect(Ctx::Italic, s, pc, n, seq![Creole::Text(a), bold]) == (p2, items));
    assert(push_opt(Seq::empty(), Some(Creole::Text(a))).push(bold) =~= seq![Creole::Text(a), bold]);
    assert(spec_collect(Ctx::Italic, s, 2, n, Seq::empty()) == (p2, items));
    let it = Creole::Italic(items);
    assert(spec_lit(s, 0, n) == Some((n, it)));
    // the paragraph line
    lemma_no_block(s, 0, n);
    assert(spec_line_term(s, 0, n) is None);
    assert(spec_line_scan(s, 0, 0, n) == Some((n, None::<Creole>, Some(it))));
    assert(push_opt(Seq::empty(), None).push(it) =~= seq![it]);
    assert(spec_line_collect(s, n, n, seq![it]) == (n, seq![it]));
    assert(spec_line_collect(s, 0, n, Seq::empty()) == (n, seq![it]));
    let l = Creole::Line(seq![it]);
    assert(spec_blocks(s, n, n, seq![l]) == (n, seq![l]));
}

/// Inside bold text, italic markup is parsed: `**a//b//c**` with plain `a`,
/// `b` and `c` (`a` not starting with a space, so that the line is no list)
/// is a paragraph line holding `a`, `b` in italics and `c`, in bold.
pub proof fn law_bold_holds_italic(a: Seq<char>, b: Seq<char>, c: Seq<char>)
    requires
        plain(a),
        a[0] != ' ',
        b.len() > 0,
        c.len() > 0,
        all_plain(b),
        all_plain(c),
    ensures
        spec_document(seq!['*', '*'] + a + seq!['/', '/'] + b + seq!['/', '/'] + c + seq!['*', '*'])
            == (
            (a.len() + b.len() + c.len() + 8) as int,
            seq![
                Creole::Line(
                    seq![
                        Creole::Bold(
                            seq![
                                Creole::Text(a),
                                Creole::Italic(seq![Creole::Text(b)]),
                                Creole::Text(c),
                            ],
                        ),
                    ],
                ),
            ],
        ),
{
    let s = seq!['*', '*'] + a + seq!['/', '/'] + b + seq!['/', '/'] + c + seq!['*', '*'];
    let n = s.len() as int;
    let la = a.len() as int;
    let lb = b.len() as int;
    let p0 = 2 + la;
    let pb = p0 + 2;
    let p1 = pb + lb;
    let pc = p1 + 2;
    let p2 = n - 2;
    assert(s[0] == '*' && s[1] == '*' && s[2] == a[0] && s[p0] == '/' && s[p0 + 1] == '/');
    assert(s[p1] == '/' && s[p1 + 1] == '/' && s[p2] == '*' && s[p2 + 1] == '*');
    assert forall|j: int| 2 <= j < p0 implies is_plain(#[trigger] s[j]) by {
        assert(s[j] == a[j - 2]);
    }
    assert forall|j: int| pb <= j < p1 implies is_plain(#[trigger] s[j]) by {
        assert(s[j] == b[j - pb]);
    }
    assert forall|j: int| pc <= j < p2 implies is_plain(#[trigger] s[j]) by {
        assert(s[j] == c[j - pc]);
    }
    // no block: the markers are not followed by a space
    lemma_span_exact(s, 1, 2, n, Stop::NonMarker);
    assert(spec_creole_inner(s, 0, n) is None);
    // the italic part
    lemma_scan_plain(Ctx::Italic, s, pb, pb, p1, n);
    assert(part(s, pb, p1) =~= b);
    assert(spec_collect(Ctx::Italic, s, pb, n, Seq::empty()) == (p1, seq![Creole::Text(b)]));
    let italic = Creole::Italic(seq![Creole::Text(b)]);
    assert(spec_italic(s, p0, n) == Some((pc, italic)));
    // the bold run
    lemma_scan_plain(Ctx::Bold, s, 2, 2, p0, n);
    assert(part(s, 2, p0) =~= a);
    assert(!spec_term(Ctx::Bold, s, p0, n));
    assert(spec_inner(Ctx::Bold, s, p0, n) == Some((pc, italic)));
    assert(spec_opt_text(s, 2, p0) == Some(Creole::Text(a)));
    assert(spec_scan(Ctx::Bold, s, 2, p0, n) == Some((pc, Some(Creole::Text(a)), Some(italic))));
    assert(spec_scan(Ctx::Bold, s, 2, 2, n) == Some((pc, Some(Creole::Text(a)), Some(italic))));
    lemma_scan_plain(Ctx::Bold, s, pc, pc, p2, n);
    assert(part(s, pc, p2) =~= c);
    assert(spec_scan(Ctx::Bold, s, pc, pc, n) == Some((p2, Some(Creole::Text(c)), None::<Creole>)));
    let items = seq![Creole::Text(a), italic, Creole::Text(c)];
    assert(push_opt(seq![Creole::Text(a), italic], Some(Creole::Text(c))) =~= items);
    assert(spec_collect(Ctx::Bold, s, pc, n, seq![Creole::Text(a), italic]) == (p2, items));
    assert(push_opt(Seq::empty(), Some(Creole::Text(a))).push(italic) =~= seq![
        Creole::Text(a),
        italic,
    ]);
    assert(spec_collect(Ctx::Bold, s, 2, n, Seq::empty()) == (p2, items));
    let bo = Creole::Bold(items);
    assert(spec_lit(s, 0, n) == Some((n, bo)));
    // the paragraph line
    assert(spec_line_term(s, 0, n) is None);
    assert(spec_line_scan(s, 0, 0, n) == Some((n, None::<Creole>, Some(bo))));
    assert(push_opt(Seq::empty(), None).push(bo) =~= seq![bo]);
    assert(spec_line_collect(s, n, n, seq![bo]) == (n, seq![bo]));
    assert(spec_line_collect(s, 0, n, Seq::empty()) == (n, seq![bo]));
    let l = Creole::Line(seq![bo]);
    assert(spec_blocks(s, n, n, seq![l]) == (n, seq![l]));
}

} // verus!
