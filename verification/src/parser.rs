use vstd::prelude::*;
use crate::creole::{ICreole, Creole, models, push_node, new_nodes};
use crate::grammar::{
    at, at2, at4, part, span, stops, Stop, Ctx, is_marker, lemma_span, lemma_span_exact,
    heading_level, spec_heading, find_close, spec_dont_format, spec_row_line, spec_cells,
    cell_node, spec_table_row, spec_rows, spec_table, spec_list_line, spec_list_lines,
    starts_with_at, is_item_at, spec_group_end, spec_list_tree, spec_list_items, spec_list,
    spec_creole_inner, spec_line_term, spec_line_scan, spec_line_collect, spec_line, spec_block,
    spec_blocks, spec_document, push_opt, spec_link, spec_image, spec_collect, ErrKind,
    spec_link_error, spec_image_error, spec_heading_error, spec_header_row_error,
    spec_list_error, spec_scan, spec_block_scan, spec_block_collect, Markup, spec_step,
    spec_steps,
};
use crate::inline::{
    Input, res_model, moves, window, collect_opt_pair0, take_while_parser_fail_or, lit, opt_text, text, step_model, opt_model, link_at,
    image_at,
};
use crate::shape::{all_well_formed, law_document_well_formed};
use nom::IResult;

verus! {

/// `nom::Err`, the error side of `nom::IResult`; opaque here, only carried.
#[verifier::external_type_specification]
#[verifier::external_body]
#[verifier::reject_recursive_types(E)]
pub struct ExNomErr<E>(nom::Err<E>);

/// `nom::error::Error`, the error value inside `nom::Err`; opaque here, only carried.
#[verifier::external_type_specification]
#[verifier::external_body]
#[verifier::reject_recursive_types(I)]
pub struct ExNomError<I>(nom::error::Error<I>);

/// A heading at `lo`: one to six `=`, a space, and inline text to the end of the line.
fn heading_at<'a>(inp: &Input<'a>, lo: usize, hi: usize) -> (r: Option<(usize, ICreole<'a>)>)
    requires
        window(inp, lo, hi),
    ensures
        res_model(r) == spec_heading(inp.s(), lo as int, hi as int),
        moves(r, lo, hi),
{
    let e = inp.span(lo, hi, Stop::NonEquals) - lo;
    let n = if e > 6 {
        6
    } else {
        e
    };
    assert(n == heading_level(inp.s(), lo as int, hi as int));
    if n >= 1 && inp.at(lo + n, hi, ' ') {
        let (p, items) = collect_opt_pair0(inp, Ctx::Heading, lo + n + 1, hi);
        Some((p, ICreole::Heading(n as u8, items)))
    } else {
        None
    }
}

/// Unformatted text at `lo`: `{{{` and a newline, the text, a newline and `}}}`.
fn dont_format_at<'a>(inp: &Input<'a>, lo: usize, hi: usize) -> (r: Option<(usize, ICreole<'a>)>)
    requires
        window(inp, lo, hi),
    ensures
        res_model(r) == spec_dont_format(inp.s(), lo as int, hi as int),
        moves(r, lo, hi),
{
    if !inp.at4(lo, hi, '{', '{', '{', '\n') {
        return None;
    }
    let start = lo + 4;
    let mut j = start;
    while hi - j >= 4 && !inp.at4(j, hi, '\n', '}', '}', '}')
        invariant
            window(inp, lo, hi),
            start <= j <= hi,
            start == lo + 4,
            find_close(inp.s(), start as int, hi as int) == find_close(inp.s(), j as int, hi as int),
        decreases hi - j,
    {
        j += 1;
    }
    if hi - j >= 4 {
        Some((j + 4, ICreole::DontFormat(inp.part(start, j))))
    } else {
        None
    }
}

pub open spec fn line_model(r: Option<(usize, usize, usize)>) -> Option<(int, int, int)> {
    match r {
        Some((n, a, b)) => Some((n as int, a as int, b as int)),
        None => None,
    }
}

/// The extent of a table row at `lo` (a header row when `header`).
fn row_line<'a>(inp: &Input<'a>, lo: usize, hi: usize, header: bool) -> (r: Option<
    (usize, usize, usize),
>)
    requires
        window(inp, lo, hi),
    ensures
        line_model(r) == spec_row_line(inp.s(), lo as int, hi as int, header),
        r matches Some((n, a, b)) ==> lo < n <= hi && lo < a <= b <= hi,
{
    let opened = if header {
        inp.at2(lo, hi, '|', '=')
    } else {
        inp.at(lo, hi, '|')
    };
    if !opened {
        return None;
    }
    let start = if header {
        lo + 2
    } else {
        lo + 1
    };
    let e = inp.span(start, hi, Stop::Newline);
    if e > start && inp.chars[e - 1] == '|' && (!header || inp.at(e, hi, '\n')) {
        Some(
            (
                if header {
                    e + 1
                } else {
                    e
                },
                start,
                e - 1,
            ),
        )
    } else if hi - start > 1 && inp.chars[hi - 1] == '|' {
        Some((hi, start, hi - 1))
    } else {
        None
    }
}

/// The cells of a row whose cell text is `lo..hi`.
fn table_cells<'a>(inp: &Input<'a>, lo: usize, hi: usize, header: bool) -> (v: Vec<ICreole<'a>>)
    requires
        window(inp, lo, hi),
    ensures
        models(v@) == spec_cells(inp.s(), lo as int, hi as int, header, Seq::empty()),
{
    let mut rst = new_nodes();
    let mut i = lo;
    loop
        invariant
            window(inp, lo, hi),
            lo <= i <= hi,
            spec_cells(inp.s(), lo as int, hi as int, header, Seq::empty()) == spec_cells(
                inp.s(),
                i as int,
                hi as int,
                header,
                models(rst@),
            ),
        decreases hi - i,
    {
        let (p, items) = collect_opt_pair0(inp, Ctx::Cell, i, hi);
        let cell = if header {
            ICreole::TableHeaderCell(items)
        } else {
            ICreole::TableCell(items)
        };
        assert(cell.model() == cell_node(header, models(items@)));
        push_node(&mut rst, cell);
        if header && inp.at2(p, hi, '|', '=') {
            i = p + 2;
        } else if !header && inp.at(p, hi, '|') {
            i = p + 1;
        } else {
            return rst;
        }
    }
}

/// A table row at `lo`: a header row `|=a|=b|` when `header`, else `|a|b|`.
fn table_row<'a>(inp: &Input<'a>, lo: usize, hi: usize, header: bool) -> (r: Option<
    (usize, ICreole<'a>),
>)
    requires
        window(inp, lo, hi),
    ensures
        res_model(r) == spec_table_row(inp.s(), lo as int, hi as int, header),
        moves(r, lo, hi),
{
    match row_line(inp, lo, hi, header) {
        Some((next, a, b)) => {
            let cells = table_cells(inp, a, b, header);
            Some(
                (
                    next,
                    if header {
                        ICreole::TableHeaderRow(cells)
                    } else {
                        ICreole::TableRow(cells)
                    },
                ),
            )
        },
        None => None,
    }
}

/// Rows after the one that ended at `i0`, each after a line break, appended to `acc`.
fn table_rows<'a>(inp: &Input<'a>, i0: usize, hi: usize, acc: Vec<ICreole<'a>>) -> (r: (
    usize,
    Vec<ICreole<'a>>,
))
    requires
        window(inp, i0, hi),
    ensures
        spec_rows(inp.s(), i0 as int, hi as int, models(acc@)) == (r.0 as int, models(r.1@)),
        i0 <= r.0 <= hi,
{
    let mut rst = acc;
    let mut i = i0;
    loop
        invariant
            window(inp, i0, hi),
            i0 <= i <= hi,
            spec_rows(inp.s(), i0 as int, hi as int, models(acc@)) == spec_rows(
                inp.s(),
                i as int,
                hi as int,
                models(rst@),
            ),
        decreases hi - i,
    {
        if !inp.at(i, hi, '\n') {
            return (i, rst);
        }
        match table_row(inp, i + 1, hi, false) {
            Some((p, row)) => {
                push_node(&mut rst, row);
                i = p;
            },
            None => {
                return (i, rst);
            },
        }
    }
}

/// A table at `lo`: an optional header row, then rows; at least one row.
fn table_at<'a>(inp: &Input<'a>, lo: usize, hi: usize) -> (r: Option<(usize, ICreole<'a>)>)
    requires
        window(inp, lo, hi),
    ensures
        res_model(r) == spec_table(inp.s(), lo as int, hi as int),
        moves(r, lo, hi),
{
    let mut rst = new_nodes();
    match table_row(inp, lo, hi, true) {
        Some((p, head)) => {
            let ghost hm = head.model();
            push_node(&mut rst, head);
            match table_row(inp, p, hi, false) {
                Some((q, row)) => {
                    let ghost rm = row.model();
                    push_node(&mut rst, row);
                    assert(models(rst@) =~= seq![hm, rm]);
                    let (e, rows) = table_rows(inp, q, hi, rst);
                    Some((e, ICreole::Table(rows)))
                },
                None => {
                    assert(models(rst@) =~= seq![hm]);
                    Some((p, ICreole::Table(rst)))
                },
            }
        },
        None => match table_row(inp, lo, hi, false) {
            Some((q, row)) => {
                let ghost rm = row.model();
                push_node(&mut rst, row);
                assert(models(rst@) =~= seq![rm]);
                let (e, rows) = table_rows(inp, q, hi, rst);
                Some((e, ICreole::Table(rows)))
            },
            None => None,
        },
    }
}

pub open spec fn lines_model(v: Seq<(usize, usize)>) -> Seq<(int, int)> {
    v.map_values(|p: (usize, usize)| (p.0 as int, p.1 as int))
}

/// Whether all lines lie within the input.
pub open spec fn lines_within(v: Seq<(usize, usize)>, n: int) -> bool {
    forall|k: int| 0 <= k < v.len() ==> #[trigger] v[k].0 <= v[k].1 <= n
}

/// The line `a..b` is shaped as a list line: a run of markers from `a`,
/// followed by a space within the line.
pub open spec fn list_shaped(s: Seq<char>, a: int, b: int) -> bool {
    let j = span(s, a, b, Stop::NonMarker);
    a < j < b && s[j] == ' '
}

/// The `tlen` characters at `ta` are all list markers.
pub open spec fn all_markers(s: Seq<char>, ta: int, tlen: int) -> bool {
    forall|q: int| ta <= q < ta + tlen ==> is_marker(#[trigger] s[q])
}

/// Every line is shaped as a list line and starts with the `tlen` characters at `ta`.
pub open spec fn lines_led_by(s: Seq<char>, v: Seq<(usize, usize)>, ta: int, tlen: int) -> bool {
    forall|k: int|
        0 <= k < v.len() ==> list_shaped(s, #[trigger] v[k].0 as int, v[k].1 as int)
            && starts_with_at(s, v[k].0 as int, v[k].1 as int, s.subrange(ta, ta + tlen))
}

/// A list line at `i` led by `head`; gives where it ends.
fn list_line<'a>(inp: &Input<'a>, i: usize, hi: usize, head: char) -> (r: Option<usize>)
    requires
        window(inp, i, hi),
        is_marker(head),
    ensures
        r matches Some(e) ==> list_shaped(inp.s(), i as int, e as int) && inp.s()[i as int] == head,
        match r {
            Some(e) => spec_list_line(inp.s(), i as int, hi as int, head) == Some(e as int),
            None => spec_list_line(inp.s(), i as int, hi as int, head) is None,
        },
        r matches Some(e) ==> i < e <= hi,
{
    if !inp.at(i, hi, head) {
        return None;
    }
    let j = inp.span(i + 1, hi, Stop::NonMarker);
    if inp.at(j, hi, ' ') {
        let e = inp.span(j + 1, hi, Stop::Newline);
        proof {
            let s = inp.s();
            lemma_span(s, i + 1, hi as int, Stop::NonMarker);
            assert forall|q: int| i <= q < j implies !stops(Stop::NonMarker, #[trigger] s[q]) by {
                if q > i {
                    assert(!stops(Stop::NonMarker, s[q]));
                }
            }
            lemma_span_exact(s, i as int, j as int, e as int, Stop::NonMarker);
        }
        Some(e)
    } else {
        None
    }
}

/// Whether the line `a..b` starts with the `tlen` characters at `ta`.
fn starts_with_tag<'a>(inp: &Input<'a>, a: usize, b: usize, ta: usize, tlen: usize) -> (r: bool)
    requires
        window(inp, a, b),
        ta + tlen <= inp.s().len(),
    ensures
        r == starts_with_at(inp.s(), a as int, b as int, inp.s().subrange(ta as int, ta + tlen)),
{
    let ghost s = inp.s();
    let ghost tag = s.subrange(ta as int, ta + tlen);
    if tlen > b - a {
        return false;
    }
    let mut q: usize = 0;
    while q < tlen
        invariant
            window(inp, a, b),
            ta + tlen <= s.len(),
            a + tlen <= b,
            s == inp.s(),
            tag == s.subrange(ta as int, ta + tlen),
            q <= tlen,
            forall|x: int| 0 <= x < q ==> #[trigger] s.subrange(a as int, a + tlen)[x] == tag[x],
        decreases tlen - q,
    {
        if inp.chars[a + q] != inp.chars[ta + q] {
            assert(s.subrange(a as int, a + tlen)[q as int] != tag[q as int]);
            return false;
        }
        q += 1;
    }
    assert(s.subrange(a as int, a + tlen) =~= tag);
    true
}

/// A list node over `items`: bulleted when the marker before `ta + tlen` is `*`.
fn list_node<'a>(inp: &Input<'a>, ta: usize, tlen: usize, items: Vec<ICreole<'a>>) -> (r: ICreole<'a>)
    requires
        inp.wf(),
        ta + tlen <= inp.s().len(),
    ensures
        r.model() == (if tlen > 0 && inp.s()[ta + tlen - 1] == '*' {
            Creole::BulletList(models(items@))
        } else {
            Creole::NumberedList(models(items@))
        }),
{
    if tlen > 0 && inp.chars[ta + tlen - 1] == '*' {
        ICreole::BulletList(items)
    } else {
        ICreole::NumberedList(items)
    }
}

/// The list whose lines are `lines` and whose markers are the `tlen`
/// characters at `ta`.
pub fn list_tree<'a>(inp: &Input<'a>, lines: &Vec<(usize, usize)>, ta: usize, tlen: usize) -> (r:
    ICreole<'a>)
    requires
        inp.wf(),
        ta + tlen <= inp.s().len(),
        lines_within(lines@, inp.s().len() as int),
        tlen >= 1,
        all_markers(inp.s(), ta as int, tlen as int),
        lines_led_by(inp.s(), lines@, ta as int, tlen as int),
    ensures
        r.model() == spec_list_tree(
            inp.s(),
            lines_model(lines@),
            inp.s().subrange(ta as int, ta + tlen),
        ),
    decreases inp.s().len() - tlen, lines.len() + 1,
{
    let ghost s = inp.s();
    let ghost tag = s.subrange(ta as int, ta + tlen);
    let ghost ls = lines_model(lines@);
    let mut rst = new_nodes();
    let mut i: usize = 0;
    loop
        invariant
            inp.wf(),
            s == inp.s(),
            ta + tlen <= s.len(),
            tag == s.subrange(ta as int, ta + tlen),
            ls == lines_model(lines@),
            lines_within(lines@, s.len() as int),
            tlen >= 1,
            all_markers(s, ta as int, tlen as int),
            lines_led_by(s, lines@, ta as int, tlen as int),
            i <= lines.len(),
            spec_list_items(s, ls, tag, 0, Seq::empty()) == spec_list_items(
                s,
                ls,
                tag,
                i as int,
                models(rst@),
            ),
        decreases lines.len() - i,
    {
        if i >= lines.len() {
            return list_node(inp, ta, tlen, rst);
        }
        let (a, b) = lines[i];
        assert(ls[i as int] == (a as int, b as int));
        if starts_with_tag(inp, a, b, ta, tlen) && a + tlen < b && inp.chars[a + tlen] == ' ' {
            let items = match crate::inline::collect_opt_pair1(inp, Ctx::Item, a + tlen + 1, b) {
                Some((_, v)) => v,
                None => {
                    proof {
                        assert(spec_collect(Ctx::Item, s, a + tlen + 1, b as int, Seq::empty()).1
                            =~= Seq::<Creole>::empty());
                    }
                    new_nodes()
                },
            };
            push_node(&mut rst, ICreole::ListItem(items));
            i += 1;
        } else {
            // A list line that is not an item at this level has a marker run
            // longer than the tag, so its first `tlen + 1` markers lead a nested list.
            proof {
                let j = span(s, a as int, b as int, Stop::NonMarker);
                assert(list_shaped(s, ls[i as int].0, ls[i as int].1));
                lemma_span(s, a as int, b as int, Stop::NonMarker);
                assert(starts_with_at(s, a as int, b as int, tag));
                if a + tlen > j {
                    assert(s.subrange(a as int, a + tlen)[j - a] == tag[j - a]);
                    assert(is_marker(s[ta + (j - a)]));
                }
                if a + tlen == j {
                    assert(is_item_at(s, a as int, b as int, tag));
                }
                assert forall|q: int| a <= q < a + tlen + 1 implies is_marker(#[trigger] s[q]) by {
                    assert(!stops(Stop::NonMarker, s[q]));
                }
            }
            let ghost ctag = s.subrange(a as int, a + tlen + 1);
            let mut j = i + 1;
            while j < lines.len() && starts_with_tag(inp, lines[j].0, lines[j].1, a, tlen + 1)
                invariant
                    inp.wf(),
                    s == inp.s(),
                    ls == lines_model(lines@),
                    lines_within(lines@, s.len() as int),
                    a + tlen + 1 <= b <= s.len(),
                    ctag == s.subrange(a as int, a + tlen + 1),
                    i + 1 <= j <= lines.len(),
                    spec_group_end(s, ls, ctag, i + 1) == spec_group_end(s, ls, ctag, j as int),
                    forall|x: int|
                        i + 1 <= x < j ==> starts_with_at(
                            s,
                            #[trigger] lines@[x].0 as int,
                            lines@[x].1 as int,
                            ctag,
                        ),
                decreases lines.len() - j,
            {
                assert(ls[j as int] == (lines[j as int].0 as int, lines[j as int].1 as int));
                j += 1;
            }
            proof {
                if j < lines.len() {
                    assert(ls[j as int] == (lines[j as int].0 as int, lines[j as int].1 as int));
                }
            }
            let mut child: Vec<(usize, usize)> = Vec::new();
            let mut k = i;
            while k < j
                invariant
                    i <= k <= j <= lines.len(),
                    child@ == lines@.subrange(i as int, k as int),
                    lines_within(lines@, s.len() as int),
                decreases j - k,
            {
                child.push(lines[k]);
                k += 1;
            }
            assert(lines_model(child@) =~= ls.subrange(i as int, j as int));
            assert(lines_within(child@, s.len() as int)) by {
                assert forall|x: int| 0 <= x < child@.len() implies #[trigger] child@[x].0
                    <= child@[x].1 <= s.len() by {
                    assert(child@[x] == lines@[i + x]);
                    assert(lines@[i + x].0 <= lines@[i + x].1 <= s.len());
                }
            }
            assert(s.subrange(a as int, a + tlen + 1) =~= ctag);
            assert(lines_led_by(s, child@, a as int, tlen + 1)) by {
                assert forall|x: int| 0 <= x < child@.len() implies list_shaped(
                    s,
                    #[trigger] child@[x].0 as int,
                    child@[x].1 as int,
                ) && starts_with_at(
                    s,
                    child@[x].0 as int,
                    child@[x].1 as int,
                    s.subrange(a as int, a + tlen + 1),
                ) by {
                    assert(child@[x] == lines@[i + x]);
                }
            }
            let node = list_tree(inp, &child, a, tlen + 1);
            push_node(&mut rst, node);
            i = j;
        }
    }
}

/// Lines that each begin with the marker at `lo` are led by the one-character tag there.
proof fn lemma_led_by_head(s: Seq<char>, v: Seq<(usize, usize)>, lo: int, head: char)
    requires
        0 <= lo < s.len(),
        s[lo] == head,
        forall|k: int|
            0 <= k < v.len() ==> list_shaped(s, #[trigger] v[k].0 as int, v[k].1 as int)
                && s[v[k].0 as int] == head && v[k].1 <= s.len(),
    ensures
        lines_led_by(s, v, lo, 1),
{
    assert forall|k: int| 0 <= k < v.len() implies list_shaped(
        s,
        #[trigger] v[k].0 as int,
        v[k].1 as int,
    ) && starts_with_at(s, v[k].0 as int, v[k].1 as int, s.subrange(lo, lo + 1)) by {
        assert(list_shaped(s, v[k].0 as int, v[k].1 as int));
        assert(s.subrange(v[k].0 as int, v[k].0 + 1) =~= s.subrange(lo, lo + 1));
    }
}

/// A list at `lo`: consecutive lines led by the marker found at `lo`.
fn list_at<'a>(inp: &Input<'a>, lo: usize, hi: usize) -> (r: Option<(usize, ICreole<'a>)>)
    requires
        window(inp, lo, hi),
    ensures
        res_model(r) == spec_list(inp.s(), lo as int, hi as int),
        moves(r, lo, hi),
{
    let ghost s = inp.s();
    if lo >= hi {
        return None;
    }
    let head = inp.chars[lo];
    if !(head == '*' || head == '#') {
        return None;
    }
    match list_line(inp, lo, hi, head) {
        None => None,
        Some(e) => {
            let mut lines: Vec<(usize, usize)> = Vec::new();
            lines.push((lo, e));
            assert(lines_model(lines@) =~= seq![(lo as int, e as int)]);
            let mut i = e;
            loop
                invariant
                    window(inp, lo, hi),
                    s == inp.s(),
                    lo < i <= hi,
                    lo < e,
                    head == s[lo as int],
                    is_marker(head),
                    spec_list_line(s, lo as int, hi as int, head) == Some(e as int),
                    lines_within(lines@, hi as int),
                    forall|k: int|
                        0 <= k < lines@.len() ==> list_shaped(
                            s,
                            #[trigger] lines@[k].0 as int,
                            lines@[k].1 as int,
                        ) && s[lines@[k].0 as int] == head && lines@[k].1 <= s.len(),
                    spec_list_lines(s, e as int, hi as int, head, seq![(lo as int, e as int)])
                        == spec_list_lines(s, i as int, hi as int, head, lines_model(lines@)),
                decreases hi - i,
            {
                if !inp.at(i, hi, '\n') {
                    proof {
                        lemma_led_by_head(s, lines@, lo as int, head);
                    }
                    return Some((i, list_tree(inp, &lines, lo, 1)));
                }
                match list_line(inp, i + 1, hi, head) {
                    Some(e2) => {
                        let ghost before = lines@;
                        lines.push((i + 1, e2));
                        assert(lines_model(lines@) =~= lines_model(before).push(
                            ((i + 1) as int, e2 as int),
                        ));
                        i = e2;
                    },
                    None => {
                        proof {
                            lemma_led_by_head(s, lines@, lo as int, head);
                        }
                        return Some((i, list_tree(inp, &lines, lo, 1)));
                    },
                }
            }
        },
    }
}

/// A block other than a paragraph line at `lo`: a horizontal rule, a heading,
/// unformatted text, a table or a list.
fn creole_inner_at<'a>(inp: &Input<'a>, lo: usize, hi: usize) -> (r: Option<(usize, ICreole<'a>)>)
    requires
        window(inp, lo, hi),
    ensures
        res_model(r) == spec_creole_inner(inp.s(), lo as int, hi as int),
        moves(r, lo, hi),
{
    if inp.at4(lo, hi, '-', '-', '-', '-') {
        return Some((lo + 4, ICreole::HorizontalLine));
    }
    match heading_at(inp, lo, hi) {
        Some(r) => Some(r),
        None => match dont_format_at(inp, lo, hi) {
            Some(r) => Some(r),
            None => match table_at(inp, lo, hi) {
                Some(r) => Some(r),
                None => list_at(inp, lo, hi),
            },
        },
    }
}

/// One step of a run of text from `lo` that looks for blocks: the plain text
/// up to the first block other than a paragraph line, and that block.
fn block_step<'a>(inp: &Input<'a>, lo: usize, hi: usize) -> (r: Option<
    (usize, Option<ICreole<'a>>, Option<ICreole<'a>>),
>)
    requires
        window(inp, lo, hi),
    ensures
        step_model(r) == spec_block_scan(inp.s(), lo as int, lo as int, hi as int),
        r matches Some((p, _, b)) ==> lo <= p <= hi && (b is Some ==> lo < p),
{
    let mut k = lo;
    while k < hi
        invariant
            window(inp, lo, hi),
            lo <= k <= hi,
            spec_block_scan(inp.s(), lo as int, lo as int, hi as int) == spec_block_scan(
                inp.s(),
                lo as int,
                k as int,
                hi as int,
            ),
        decreases hi - k,
    {
        match creole_inner_at(inp, k, hi) {
            Some((p, v)) => {
                return Some((p, opt_text(inp, lo, k), Some(v)));
            },
            None => {},
        }
        k += 1;
    }
    match text(inp, lo, hi) {
        Some((p, t)) => Some((p, Some(t), None)),
        None => None,
    }
}

/// The items of a run of text from `lo` that looks for blocks, taken step
/// by step as `block_step`, and where the steps stop.
fn block_collect<'a>(inp: &Input<'a>, lo: usize, hi: usize) -> (r: (usize, Vec<ICreole<'a>>))
    requires
        window(inp, lo, hi),
    ensures
        spec_block_collect(inp.s(), lo as int, hi as int, Seq::empty()) == (
            r.0 as int,
            models(r.1@),
        ),
        lo <= r.0 <= hi,
{
    let mut rst = new_nodes();
    let mut i = lo;
    loop
        invariant
            window(inp, lo, hi),
            lo <= i <= hi,
            spec_block_collect(inp.s(), lo as int, hi as int, Seq::empty()) == spec_block_collect(
                inp.s(),
                i as int,
                hi as int,
                models(rst@),
            ),
        decreases hi - i,
    {
        match block_step(inp, i, hi) {
            None => {
                return (i, rst);
            },
            Some((p, a, b)) => {
                let ghost acc = models(rst@);
                match a {
                    Some(x) => push_node(&mut rst, x),
                    None => {},
                }
                assert(models(rst@) == push_opt(acc, opt_model(a)));
                match b {
                    Some(v) => {
                        push_node(&mut rst, v);
                        i = p;
                    },
                    None => {
                        return (p, rst);
                    },
                }
            },
        }
    }
}

/// Where a paragraph line ends at `k`, if it does.
fn line_term<'a>(inp: &Input<'a>, k: usize, hi: usize) -> (r: Option<usize>)
    requires
        window(inp, k, hi),
    ensures
        match r {
            Some(p) => spec_line_term(inp.s(), k as int, hi as int) == Some(p as int),
            None => spec_line_term(inp.s(), k as int, hi as int) is None,
        },
        r matches Some(p) ==> k <= p <= hi,
{
    if inp.at(k, hi, '\n') && inp.at(k + 1, hi, '\n') {
        Some(k + 1)
    } else if inp.at(k, hi, '\n') && creole_inner_at(inp, k + 1, hi).is_some() {
        Some(k)
    } else {
        None
    }
}

/// One step of a paragraph line from `lo`, as `take_while_parser_fail_or`.
fn line_step<'a>(inp: &Input<'a>, lo: usize, hi: usize) -> (r: Option<
    (usize, Option<ICreole<'a>>, Option<ICreole<'a>>),
>)
    requires
        window(inp, lo, hi),
    ensures
        step_model(r) == spec_line_scan(inp.s(), lo as int, lo as int, hi as int),
        r matches Some((p, _, b)) ==> lo <= p <= hi && (b is Some ==> lo < p),
{
    let mut k = lo;
    while k < hi
        invariant
            window(inp, lo, hi),
            lo <= k <= hi,
            spec_line_scan(inp.s(), lo as int, lo as int, hi as int) == spec_line_scan(
                inp.s(),
                lo as int,
                k as int,
                hi as int,
            ),
        decreases hi - k,
    {
        match line_term(inp, k, hi) {
            Some(p) => {
                return Some((p, opt_text(inp, lo, k), None));
            },
            None => {},
        }
        match lit(inp, k, hi) {
            Some((p, v)) => {
                return Some((p, opt_text(inp, lo, k), Some(v)));
            },
            None => {},
        }
        k += 1;
    }
    match text(inp, lo, hi) {
        Some((p, t)) => Some((p, Some(t), None)),
        None => None,
    }
}

/// A paragraph line at `lo`; it always succeeds.
fn line<'a>(inp: &Input<'a>, lo: usize, hi: usize) -> (r: (usize, ICreole<'a>))
    requires
        window(inp, lo, hi),
    ensures
        spec_line(inp.s(), lo as int, hi as int) == (r.0 as int, r.1.model()),
        lo <= r.0 <= hi,
{
    let mut rst = new_nodes();
    let mut i = lo;
    loop
        invariant
            window(inp, lo, hi),
            lo <= i <= hi,
            spec_line_collect(inp.s(), lo as int, hi as int, Seq::empty()) == spec_line_collect(
                inp.s(),
                i as int,
                hi as int,
                models(rst@),
            ),
        decreases hi - i,
    {
        match line_step(inp, i, hi) {
            None => {
                return (i, ICreole::Line(rst));
            },
            Some((p, a, b)) => {
                let ghost acc = models(rst@);
                match a {
                    Some(x) => push_node(&mut rst, x),
                    None => {},
                }
                assert(models(rst@) == push_opt(acc, opt_model(a)));
                match b {
                    Some(v) => {
                        push_node(&mut rst, v);
                        i = p;
                    },
                    None => {
                        return (p, ICreole::Line(rst));
                    },
                }
            },
        }
    }
}

/// A block at `lo`: a non-paragraph block if there is one, else a paragraph line.
fn block<'a>(inp: &Input<'a>, lo: usize, hi: usize) -> (r: (usize, ICreole<'a>))
    requires
        window(inp, lo, hi),
    ensures
        spec_block(inp.s(), lo as int, hi as int) == (r.0 as int, r.1.model()),
        lo <= r.0 <= hi,
{
    match creole_inner_at(inp, lo, hi) {
        Some(r) => r,
        None => line(inp, lo, hi),
    }
}

/// The blocks of the whole input, separated by line breaks, and where they end.
fn document<'a>(inp: &Input<'a>) -> (r: (usize, Vec<ICreole<'a>>))
    requires
        inp.wf(),
    ensures
        spec_document(inp.s()) == (r.0 as int, models(r.1@)),
        r.0 <= inp.s().len(),
{
    let hi = inp.len();
    let (p0, b0) = block(inp, 0, hi);
    let mut rst = new_nodes();
    push_node(&mut rst, b0);
    assert(models(rst@) =~= seq![b0.model()]);
    let mut i = p0;
    loop
        invariant
            window(inp, 0, hi),
            hi == inp.s().len(),
            i <= hi,
            spec_document(inp.s()) == spec_blocks(inp.s(), i as int, hi as int, models(rst@)),
        decreases hi - i,
    {
        if !inp.at(i, hi, '\n') {
            return (i, rst);
        }
        let (p, b) = block(inp, i + 1, hi);
        push_node(&mut rst, b);
        i = p;
    }
}

/// nom's error for a failure of kind `kind` where `rest` is the input left:
/// `nom::Err::Error(nom::error::Error::new(rest, code))`, with `code` the
/// `nom::error::ErrorKind` of the same name as `kind`. Nothing about the value
/// is claimed.
#[verifier::external_body]
fn parse_error<'a>(rest: &'a str, kind: ErrKind) -> nom::Err<nom::error::Error<&'a str>> {
    let code = match kind {
        ErrKind::Tag => nom::error::ErrorKind::Tag,
        ErrKind::Char => nom::error::ErrorKind::Char,
        ErrKind::IsNot => nom::error::ErrorKind::IsNot,
        ErrKind::Verify => nom::error::ErrorKind::Verify,
        ErrKind::OneOf => nom::error::ErrorKind::OneOf,
        ErrKind::Eof => nom::error::ErrorKind::Eof,
    };
    nom::Err::Error(nom::error::Error::new(rest, code))
}

/// How a parser's `IResult` over all of `input` reflects the grammar's
/// outcome `expect`: on success the node and the unparsed rest of `input`,
/// and an error exactly when the grammar fails.
pub open spec fn parsed<'a>(
    input: &'a str,
    r: IResult<&'a str, ICreole<'a>>,
    expect: Option<(int, Creole)>,
) -> bool {
    match expect {
        Some((p, c)) => r matches Ok((rest, v)) && rest@ == input@.subrange(p, input@.len() as int)
            && v.model() == c,
        None => r is Err,
    }
}

fn succeed<'a, T>(inp: &Input<'a>, p: usize, v: T) -> (res: IResult<&'a str, T>)
    requires
        inp.wf(),
        p <= inp.s().len(),
    ensures
        res matches Ok((rest, w)) && rest@ == inp.s().subrange(p as int, inp.s().len() as int)
            && w == v,
{
    Ok((inp.part(p, inp.len()), v))
}

/// The error for a failure of kind `kind` at position `p` of the input.
fn fail<'a, T>(inp: &Input<'a>, p: usize, kind: ErrKind) -> (res: IResult<&'a str, T>)
    requires
        inp.wf(),
        p <= inp.s().len(),
    ensures
        res is Err,
{
    Err(parse_error(inp.part(p, inp.len()), kind))
}

/// Where and how a link at `lo` fails.
fn link_error_at<'a>(inp: &Input<'a>, lo: usize, hi: usize) -> (r: (usize, ErrKind))
    requires
        window(inp, lo, hi),
    ensures
        (r.0 as int, r.1) == spec_link_error(inp.s(), lo as int, hi as int),
        lo <= r.0 <= hi,
{
    if !inp.at2(lo, hi, '[', '[') {
        return (lo, ErrKind::Tag);
    }
    let a = lo + 2;
    let e = inp.span(a, hi, Stop::LinkTarget);
    if e > a && inp.at(e, hi, '|') {
        let t = inp.span(e + 1, hi, Stop::LinkLabel);
        if t > e + 1 {
            return (t, ErrKind::Tag);
        }
    }
    let c = inp.span(a, hi, Stop::LinkLabel);
    if c > a {
        (c, ErrKind::Tag)
    } else {
        (a, ErrKind::IsNot)
    }
}

/// Where and how an image at `lo` fails.
fn image_error_at<'a>(inp: &Input<'a>, lo: usize, hi: usize) -> (r: (usize, ErrKind))
    requires
        window(inp, lo, hi),
    ensures
        (r.0 as int, r.1) == spec_image_error(inp.s(), lo as int, hi as int),
        lo <= r.0 <= hi,
{
    if !inp.at2(lo, hi, '{', '{') {
        return (lo, ErrKind::Tag);
    }
    let a = lo + 2;
    let e = inp.span(a, hi, Stop::ImageSource);
    if e > a && inp.at(e, hi, '|') {
        let t = inp.span(e + 1, hi, Stop::ImageLabel);
        if t > e + 1 {
            return (t, ErrKind::Tag);
        }
    }
    let c = inp.span(a, hi, Stop::ImageLabel);
    if c > a {
        (c, ErrKind::Tag)
    } else {
        (a, ErrKind::IsNot)
    }
}

/// Where and how a heading at `lo` fails.
fn heading_error_at<'a>(inp: &Input<'a>, lo: usize, hi: usize) -> (r: (usize, ErrKind))
    requires
        window(inp, lo, hi),
    ensures
        (r.0 as int, r.1) == spec_heading_error(inp.s(), lo as int, hi as int),
        lo <= r.0 <= hi,
{
    let e = inp.span(lo, hi, Stop::NonEquals) - lo;
    let n = if e > 6 {
        6
    } else {
        e
    };
    assert(n == heading_level(inp.s(), lo as int, hi as int));
    (lo + n, ErrKind::Char)
}

/// Where and how a header row at `lo` fails.
fn header_row_error_at<'a>(inp: &Input<'a>, lo: usize, hi: usize) -> (r: (usize, ErrKind))
    requires
        window(inp, lo, hi),
    ensures
        (r.0 as int, r.1) == spec_header_row_error(inp.s(), lo as int, hi as int),
        lo <= r.0 <= hi,
{
    if !inp.at2(lo, hi, '|', '=') {
        (lo, ErrKind::Tag)
    } else {
        (lo + 2, ErrKind::Verify)
    }
}

/// Where and how a list at `lo` fails.
fn list_error_at<'a>(inp: &Input<'a>, lo: usize, hi: usize) -> (r: (usize, ErrKind))
    requires
        window(inp, lo, hi),
    ensures
        (r.0 as int, r.1) == spec_list_error(inp.s(), lo as int, hi as int),
        lo <= r.0 <= hi,
{
    if lo < hi && (inp.chars[lo] == '*' || inp.chars[lo] == '#') {
        (lo, ErrKind::Tag)
    } else {
        (lo, ErrKind::OneOf)
    }
}

/// A list at the start of `input`.
pub fn list<'a>(input: &'a str) -> (r: IResult<&'a str, ICreole<'a>>)
    ensures
        parsed(input, r, spec_list(input@, 0, input@.len() as int)),
{
    let inp = Input::new(input);
    let n = inp.len();
    match list_at(&inp, 0, n) {
        Some((p, v)) => succeed(&inp, p, v),
        None => {
            let (p, kind) = list_error_at(&inp, 0, n);
            fail(&inp, p, kind)
        },
    }
}

/// A heading at the start of `input`.
pub fn heading<'a>(input: &'a str) -> (r: IResult<&'a str, ICreole<'a>>)
    ensures
        parsed(input, r, spec_heading(input@, 0, input@.len() as int)),
{
    let inp = Input::new(input);
    let n = inp.len();
    match heading_at(&inp, 0, n) {
        Some((p, v)) => succeed(&inp, p, v),
        None => {
            let (p, kind) = heading_error_at(&inp, 0, n);
            fail(&inp, p, kind)
        },
    }
}

/// A link at the start of `input`.
pub fn link<'a>(input: &'a str) -> (r: IResult<&'a str, ICreole<'a>>)
    ensures
        parsed(input, r, spec_link(input@, 0, input@.len() as int)),
{
    let inp = Input::new(input);
    let n = inp.len();
    match link_at(&inp, 0, n) {
        Some((p, v)) => succeed(&inp, p, v),
        None => {
            let (p, kind) = link_error_at(&inp, 0, n);
            fail(&inp, p, kind)
        },
    }
}

/// An image at the start of `input`.
pub fn image<'a>(input: &'a str) -> (r: IResult<&'a str, ICreole<'a>>)
    ensures
        parsed(input, r, spec_image(input@, 0, input@.len() as int)),
{
    let inp = Input::new(input);
    let n = inp.len();
    match image_at(&inp, 0, n) {
        Some((p, v)) => succeed(&inp, p, v),
        None => {
            let (p, kind) = image_error_at(&inp, 0, n);
            fail(&inp, p, kind)
        },
    }
}

/// A table at the start of `input`.
pub fn table<'a>(input: &'a str) -> (r: IResult<&'a str, ICreole<'a>>)
    ensures
        parsed(input, r, spec_table(input@, 0, input@.len() as int)),
{
    let inp = Input::new(input);
    let n = inp.len();
    match table_at(&inp, 0, n) {
        Some((p, v)) => succeed(&inp, p, v),
        None => {
            let (p, kind) = (0, ErrKind::Tag);
            fail(&inp, p, kind)
        },
    }
}

/// A table header row at the start of `input`.
pub fn table_header_row<'a>(input: &'a str) -> (r: IResult<&'a str, ICreole<'a>>)
    ensures
        parsed(input, r, spec_table_row(input@, 0, input@.len() as int, true)),
{
    let inp = Input::new(input);
    let n = inp.len();
    match table_row(&inp, 0, n, true) {
        Some((p, v)) => succeed(&inp, p, v),
        None => {
            let (p, kind) = header_row_error_at(&inp, 0, n);
            fail(&inp, p, kind)
        },
    }
}

/// A block other than a paragraph line at the start of `input`.
pub fn creole_inner<'a>(input: &'a str) -> (r: IResult<&'a str, ICreole<'a>>)
    ensures
        parsed(input, r, spec_creole_inner(input@, 0, input@.len() as int)),
{
    let inp = Input::new(input);
    let n = inp.len();
    match creole_inner_at(&inp, 0, n) {
        Some((p, v)) => succeed(&inp, p, v),
        None => {
            let (p, kind) = list_error_at(&inp, 0, n);
            fail(&inp, p, kind)
        },
    }
}

/// One step over all of `input` that looks for `markup`: the plain text up
/// to the first place where `markup` is found, and what was found there; at
/// the end of the input, the rest as text. An error (`Eof`) when `input` is
/// empty.
pub fn take_while_parser_fail<'a>(markup: Markup, input: &'a str) -> (r: IResult<
    &'a str,
    (Option<ICreole<'a>>, Option<ICreole<'a>>),
>)
    ensures
        match spec_step(markup, input@, 0, input@.len() as int) {
            Some((p, a, b)) => r matches Ok((rest, (x, y))) && rest@ == input@.subrange(
                p,
                input@.len() as int,
            ) && opt_model(x) == a && opt_model(y) == b,
            None => r is Err,
        },
{
    let inp = Input::new(input);
    let n = inp.len();
    let step = match markup {
        Markup::Lit => take_while_parser_fail_or(&inp, Ctx::Item, 0, n),
        Markup::CreoleInner => block_step(&inp, 0, n),
    };
    match step {
        Some((p, a, b)) => succeed(&inp, p, (a, b)),
        None => fail(&inp, 0, ErrKind::Eof),
    }
}

/// The items over all of `input`, taken step by step as
/// `take_while_parser_fail` with `markup` while a step finds it. An error
/// (`Eof`) when there are none.
pub fn collect_opt_pair1<'a>(markup: Markup, input: &'a str) -> (r: IResult<
    &'a str,
    Vec<ICreole<'a>>,
>)
    ensures
        spec_steps(markup, input@, 0, input@.len() as int).1.len() > 0 ==> (r matches Ok((rest, v))
            && rest@ == input@.subrange(
            spec_steps(markup, input@, 0, input@.len() as int).0,
            input@.len() as int,
        ) && models(v@) == spec_steps(markup, input@, 0, input@.len() as int).1),
        spec_steps(markup, input@, 0, input@.len() as int).1.len() == 0 ==> r is Err,
{
    let inp = Input::new(input);
    let n = inp.len();
    let (p, v) = match markup {
        Markup::Lit => collect_opt_pair0(&inp, Ctx::Item, 0, n),
        Markup::CreoleInner => block_collect(&inp, 0, n),
    };
    if v.len() == 0 {
        proof {
            assert(models(v@).len() == 0);
        }
        fail(&inp, 0, ErrKind::Eof)
    } else {
        succeed(&inp, p, v)
    }
}

/// Parses a whole document: blocks separated by line breaks. It always
/// succeeds; the rest is what follows the last block.
pub fn try_creoles<'a>(input: &'a str) -> (r: IResult<&'a str, Vec<ICreole<'a>>>)
    ensures
        r matches Ok((rest, v)) && rest@ == input@.subrange(
            spec_document(input@).0,
            input@.len() as int,
        ) && models(v@) == spec_document(input@).1 && all_well_formed(models(v@)),
{
    let inp = Input::new(input);
    let (p, v) = document(&inp);
    proof {
        law_document_well_formed(input@);
    }
    Ok((inp.part(p, inp.len()), v))
}

/// The blocks of a document.
pub fn creoles<'a>(input: &'a str) -> (r: Vec<ICreole<'a>>)
    ensures
        models(r@) == spec_document(input@).1,
        all_well_formed(models(r@)),
{
    proof {
        law_document_well_formed(input@);
    }
    if let Ok((_, v)) = try_creoles(input) {
        v
    } else {
        vec![]
    }
}

/// Whether `s` starts with `hello`.
pub open spec fn starts_with_hello(s: Seq<char>) -> bool {
    s.len() >= 5 && s.subrange(0, 5) == seq!['h', 'e', 'l', 'l', 'o']
}

/// The word `hello` at the start of `input`: gives it and the rest of the
/// input, or an error when `input` does not start with it.
pub fn hello_parser<'a>(input: &'a str) -> (r: IResult<&'a str, &'a str>)
    ensures
        starts_with_hello(input@) ==> (r matches Ok((rest, word)) && word@ == input@.subrange(0, 5)
            && rest@ == input@.subrange(5, input@.len() as int)),
        !starts_with_hello(input@) ==> r is Err,
{
    let inp = Input::new(input);
    let n = inp.len();
    if inp.at2(0, n, 'h', 'e') && inp.at2(2, n, 'l', 'l') && inp.at(4, n, 'o') {
        assert(input@.subrange(0, 5) =~= seq!['h', 'e', 'l', 'l', 'o']);
        Ok((inp.part(5, n), inp.part(0, 5)))
    } else {
        proof {
            if starts_with_hello(input@) {
                assert(input@.subrange(0, 5)[0] == 'h');
                assert(input@.subrange(0, 5)[1] == 'e');
                assert(input@.subrange(0, 5)[2] == 'l');
                assert(input@.subrange(0, 5)[3] == 'l');
                assert(input@.subrange(0, 5)[4] == 'o');
            }
        }
        Err(parse_error(input, ErrKind::Tag))
    }
}

} // verus!
