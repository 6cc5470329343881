//! The shape of every tree the parser builds.
use vstd::prelude::*;
use crate::creole::Creole;
use crate::grammar::{
    at, at2, Ctx, Stop, lemma_span, spec_bold, spec_italic, spec_text_style, spec_lit, spec_inner, spec_scan, spec_collect, spec_heading, heading_level, spec_row_line, spec_cells, spec_table_row, spec_rows, spec_table, spec_list_line, spec_list_lines, spec_list_tree, spec_list_items, spec_list, spec_creole_inner, spec_line_scan, spec_line_collect, spec_block, spec_blocks, spec_document, push_opt, is_item_at, spec_group_end, lemma_group_end,
};

verus! {

/// What a list holds: items and nested lists.
pub open spec fn list_entry(c: Creole) -> bool {
    c is ListItem || c is BulletList || c is NumberedList
}

/// What a table holds: header rows and rows.
pub open spec fn row_entry(c: Creole) -> bool {
    c is TableHeaderRow || c is TableRow
}

/// A cell of the given kind: a header cell in a header row, a cell otherwise.
pub open spec fn cell_entry(c: Creole, header: bool) -> bool {
    if header {
        c is TableHeaderCell
    } else {
        c is TableCell
    }
}

/// A node is well formed when its text is not empty, a heading's level is
/// from 1 to 6, lists hold items and lists, tables hold rows, rows hold cells
/// of their kind, and all its children are well formed.
pub open spec fn well_formed(c: Creole) -> bool
    decreases c,
{
    match c {
        Creole::Text(t) => t.len() > 0,
        Creole::Line(v) => all_well_formed(v),
        Creole::Bold(v) => all_well_formed(v),
        Creole::Italic(v) => all_well_formed(v),
        Creole::BulletList(v) => all_well_formed(v) && forall|i: int|
            0 <= i < v.len() ==> list_entry(#[trigger] v[i]),
        Creole::NumberedList(v) => all_well_formed(v) && forall|i: int|
            0 <= i < v.len() ==> list_entry(#[trigger] v[i]),
        Creole::ListItem(v) => all_well_formed(v),
        Creole::Heading(n, v) => 1 <= n <= 6 && all_well_formed(v),
        Creole::Table(v) => all_well_formed(v) && forall|i: int|
            0 <= i < v.len() ==> row_entry(#[trigger] v[i]),
        Creole::TableHeaderRow(v) => all_well_formed(v) && forall|i: int|
            0 <= i < v.len() ==> cell_entry(#[trigger] v[i], true),
        Creole::TableRow(v) => all_well_formed(v) && forall|i: int|
            0 <= i < v.len() ==> cell_entry(#[trigger] v[i], false),
        Creole::TableHeaderCell(v) => all_well_formed(v),
        Creole::TableCell(v) => all_well_formed(v),
        _ => true,
    }
}

/// Every node of the sequence is well formed.
pub open spec fn all_well_formed(v: Seq<Creole>) -> bool
    decreases v,
{
    if v.len() == 0 {
        true
    } else {
        all_well_formed(v.subrange(0, v.len() - 1)) && well_formed(v[v.len() - 1])
    }
}

pub open spec fn opt_well_formed(o: Option<Creole>) -> bool {
    o matches Some(c) ==> well_formed(c)
}

pub proof fn lemma_all_push(v: Seq<Creole>, x: Creole)
    ensures
        all_well_formed(v.push(x)) == (all_well_formed(v) && well_formed(x)),
{
    assert(v.push(x).subrange(0, v.len() as int) =~= v);
}

pub proof fn lemma_all_empty()
    ensures
        all_well_formed(Seq::empty()),
{
}

pub proof fn lemma_push_opt(v: Seq<Creole>, a: Option<Creole>)
    requires
        all_well_formed(v),
        opt_well_formed(a),
    ensures
        all_well_formed(push_opt(v, a)),
{
    if let Some(x) = a {
        lemma_all_push(v, x);
    }
}

/// Every node of a well-formed sequence is well formed.
pub proof fn lemma_all_index(v: Seq<Creole>)
    requires
        all_well_formed(v),
    ensures
        forall|i: int| 0 <= i < v.len() ==> well_formed(#[trigger] v[i]),
    decreases v.len(),
{
    if v.len() > 0 {
        let w = v.subrange(0, v.len() - 1);
        lemma_all_index(w);
        assert forall|i: int| 0 <= i < v.len() implies well_formed(#[trigger] v[i]) by {
            if i < v.len() - 1 {
                assert(v[i] == w[i]);
            }
        }
    }
}

pub open spec fn window(s: Seq<char>, lo: int, hi: int) -> bool {
    0 <= lo <= hi <= s.len()
}

pub proof fn lemma_bold_wf(s: Seq<char>, lo: int, hi: int)
    requires
        window(s, lo, hi),
    ensures
        spec_bold(s, lo, hi) matches Some((_, c)) ==> well_formed(c),
    decreases hi - lo, 1int,
{
    if at2(s, lo, hi, '*', '*') {
        lemma_collect_wf(Ctx::Bold, s, lo + 2, hi, Seq::empty());
    }
}

pub proof fn lemma_italic_wf(s: Seq<char>, lo: int, hi: int)
    requires
        window(s, lo, hi),
    ensures
        spec_italic(s, lo, hi) matches Some((_, c)) ==> well_formed(c),
    decreases hi - lo, 1int,
{
    if at2(s, lo, hi, '/', '/') {
        lemma_collect_wf(Ctx::Italic, s, lo + 2, hi, Seq::empty());
    }
}

pub proof fn lemma_text_style_wf(s: Seq<char>, lo: int, hi: int)
    requires
        window(s, lo, hi),
    ensures
        spec_text_style(s, lo, hi) matches Some((_, c)) ==> well_formed(c),
    decreases hi - lo, 2int,
{
    lemma_bold_wf(s, lo, hi);
    lemma_italic_wf(s, lo, hi);
}

pub proof fn lemma_lit_wf(s: Seq<char>, lo: int, hi: int)
    requires
        window(s, lo, hi),
    ensures
        spec_lit(s, lo, hi) matches Some((_, c)) ==> well_formed(c),
    decreases hi - lo, 3int,
{
    lemma_text_style_wf(s, lo, hi);
}

pub proof fn lemma_inner_wf(ctx: Ctx, s: Seq<char>, lo: int, hi: int)
    requires
        window(s, lo, hi),
    ensures
        spec_inner(ctx, s, lo, hi) matches Some((_, c)) ==> well_formed(c),
    decreases hi - lo, 4int,
{
    match ctx {
        Ctx::Bold => lemma_italic_wf(s, lo, hi),
        Ctx::Italic => lemma_bold_wf(s, lo, hi),
        _ => lemma_lit_wf(s, lo, hi),
    }
}

pub proof fn lemma_scan_wf(ctx: Ctx, s: Seq<char>, lo: int, k: int, hi: int)
    requires
        0 <= lo <= k <= hi <= s.len(),
    ensures
        spec_scan(ctx, s, lo, k, hi) matches Some((_, a, b)) ==> opt_well_formed(a)
            && opt_well_formed(b),
    decreases hi - k, 5int,
{
    if k < hi && !crate::grammar::spec_term(ctx, s, k, hi) {
        lemma_inner_wf(ctx, s, k, hi);
        if spec_inner(ctx, s, k, hi) is None {
            lemma_scan_wf(ctx, s, lo, k + 1, hi);
        }
    }
}

pub proof fn lemma_collect_wf(ctx: Ctx, s: Seq<char>, i: int, hi: int, acc: Seq<Creole>)
    requires
        window(s, i, hi),
        all_well_formed(acc),
    ensures
        all_well_formed(spec_collect(ctx, s, i, hi, acc).1),
    decreases hi - i, 6int,
{
    lemma_scan_wf(ctx, s, i, i, hi);
    match spec_scan(ctx, s, i, i, hi) {
        None => {},
        Some((p, a, b)) => {
            lemma_push_opt(acc, a);
            match b {
                Some(v) => {
                    lemma_all_push(push_opt(acc, a), v);
                    if i < p <= hi {
                        lemma_collect_wf(ctx, s, p, hi, push_opt(acc, a).push(v));
                    }
                },
                None => {},
            }
        },
    }
}

pub proof fn lemma_heading_wf(s: Seq<char>, lo: int, hi: int)
    requires
        window(s, lo, hi),
    ensures
        spec_heading(s, lo, hi) matches Some((_, c)) ==> well_formed(c),
{
    let n = heading_level(s, lo, hi);
    if n >= 1 && at(s, lo + n, hi, ' ') {
        lemma_collect_wf(Ctx::Heading, s, lo + n + 1, hi, Seq::empty());
    }
}

pub open spec fn cells_of(v: Seq<Creole>, header: bool) -> bool {
    forall|k: int| 0 <= k < v.len() ==> cell_entry(#[trigger] v[k], header)
}

pub proof fn lemma_cells_wf(s: Seq<char>, i: int, hi: int, header: bool, acc: Seq<Creole>)
    requires
        window(s, i, hi),
        all_well_formed(acc),
        cells_of(acc, header),
    ensures
        all_well_formed(spec_cells(s, i, hi, header, acc)),
        cells_of(spec_cells(s, i, hi, header, acc), header),
    decreases hi - i,
{
    let (p, items) = spec_collect(Ctx::Cell, s, i, hi, Seq::empty());
    lemma_collect_wf(Ctx::Cell, s, i, hi, Seq::empty());
    crate::laws::lemma_collect_within(Ctx::Cell, s, i, hi, Seq::empty());
    let cell = crate::grammar::cell_node(header, items);
    lemma_all_push(acc, cell);
    let acc1 = acc.push(cell);
    assert(cells_of(acc1, header)) by {
        assert forall|k: int| 0 <= k < acc1.len() implies cell_entry(#[trigger] acc1[k], header) by {
            if k < acc.len() {
                assert(acc1[k] == acc[k]);
            }
        }
    }
    let sep = if header {
        at2(s, p, hi, '|', '=')
    } else {
        at(s, p, hi, '|')
    };
    let next = if header {
        p + 2
    } else {
        p + 1
    };
    if sep && i < next {
        lemma_cells_wf(s, next, hi, header, acc1);
    }
}

pub proof fn lemma_table_row_wf(s: Seq<char>, lo: int, hi: int, header: bool)
    requires
        window(s, lo, hi),
    ensures
        spec_table_row(s, lo, hi, header) matches Some((_, c)) ==> well_formed(c) && (if header {
            c is TableHeaderRow
        } else {
            c is TableRow
        }),
{
    match spec_row_line(s, lo, hi, header) {
        Some((next, a, b)) => {
            let start = if header {
                lo + 2
            } else {
                lo + 1
            };
            lemma_span(s, start, hi, Stop::Newline);
            lemma_all_empty();
            lemma_cells_wf(s, a, b, header, Seq::empty());
        },
        None => {},
    }
}

pub open spec fn rows_of(v: Seq<Creole>) -> bool {
    forall|k: int| 0 <= k < v.len() ==> row_entry(#[trigger] v[k])
}

pub proof fn lemma_rows_wf(s: Seq<char>, i: int, hi: int, acc: Seq<Creole>)
    requires
        window(s, i, hi),
        all_well_formed(acc),
        rows_of(acc),
    ensures
        all_well_formed(spec_rows(s, i, hi, acc).1),
        rows_of(spec_rows(s, i, hi, acc).1),
    decreases hi - i,
{
    if at(s, i, hi, '\n') {
        lemma_table_row_wf(s, i + 1, hi, false);
        match spec_table_row(s, i + 1, hi, false) {
            Some((p, r)) => {
                if i < p <= hi {
                    lemma_all_push(acc, r);
                    let acc1 = acc.push(r);
                    assert(rows_of(acc1)) by {
                        assert forall|k: int| 0 <= k < acc1.len() implies row_entry(
                            #[trigger] acc1[k],
                        ) by {
                            if k < acc.len() {
                                assert(acc1[k] == acc[k]);
                            }
                        }
                    }
                    lemma_rows_wf(s, p, hi, acc1);
                }
            },
            None => {},
        }
    }
}

pub proof fn lemma_table_wf(s: Seq<char>, lo: int, hi: int)
    requires
        window(s, lo, hi),
    ensures
        spec_table(s, lo, hi) matches Some((_, c)) ==> well_formed(c),
{
    lemma_table_row_wf(s, lo, hi, true);
    lemma_table_row_wf(s, lo, hi, false);
    crate::laws::lemma_table_row_advance(s, lo, hi, true);
    match spec_table_row(s, lo, hi, true) {
        Some((p, h)) => {
            lemma_table_row_wf(s, p, hi, false);
            crate::laws::lemma_table_row_advance(s, p, hi, false);
            lemma_all_push(Seq::empty(), h);
            assert(seq![h] =~= Seq::<Creole>::empty().push(h));
            match spec_table_row(s, p, hi, false) {
                Some((q, r)) => {
                    lemma_all_push(seq![h], r);
                    assert(seq![h, r] =~= seq![h].push(r));
                    lemma_rows_wf(s, q, hi, seq![h, r]);
                },
                None => {},
            }
        },
        None => {
            crate::laws::lemma_table_row_advance(s, lo, hi, false);
            match spec_table_row(s, lo, hi, false) {
                Some((q, r)) => {
                    lemma_all_push(Seq::empty(), r);
                    assert(seq![r] =~= Seq::<Creole>::empty().push(r));
                    lemma_rows_wf(s, q, hi, seq![r]);
                },
                None => {},
            }
        },
    }
}

pub open spec fn entries_of(v: Seq<Creole>) -> bool {
    forall|k: int| 0 <= k < v.len() ==> list_entry(#[trigger] v[k])
}

pub proof fn lemma_entries_push(v: Seq<Creole>, x: Creole)
    requires
        entries_of(v),
        list_entry(x),
    ensures
        entries_of(v.push(x)),
{
    assert forall|k: int| 0 <= k < v.push(x).len() implies list_entry(#[trigger] v.push(x)[k]) by {
        if k < v.len() {
            assert(v.push(x)[k] == v[k]);
        }
    }
}

pub proof fn lemma_list_tree_wf(s: Seq<char>, lines: Seq<(int, int)>, tag: Seq<char>)
    requires
        tag.len() <= s.len(),
    ensures
        well_formed(spec_list_tree(s, lines, tag)),
        list_entry(spec_list_tree(s, lines, tag)),
    decreases s.len() - tag.len(), lines.len() + 1,
{
    lemma_list_items_wf(s, lines, tag, 0, Seq::empty());
}

pub proof fn lemma_list_items_wf(
    s: Seq<char>,
    lines: Seq<(int, int)>,
    tag: Seq<char>,
    i: int,
    acc: Seq<Creole>,
)
    requires
        tag.len() <= s.len(),
        0 <= i,
        all_well_formed(acc),
        entries_of(acc),
    ensures
        all_well_formed(spec_list_items(s, lines, tag, i, acc)),
        entries_of(spec_list_items(s, lines, tag, i, acc)),
    decreases s.len() - tag.len(), lines.len() - i,
{
    if i < lines.len() {
        let a = lines[i].0;
        let b = lines[i].1;
        let h = tag.len();
        if is_item_at(s, a, b, tag) {
            let items = spec_collect(Ctx::Item, s, a + h + 1, b, Seq::empty()).1;
            lemma_collect_wf(Ctx::Item, s, a + h + 1, b, Seq::empty());
            let item = Creole::ListItem(items);
            lemma_all_push(acc, item);
            lemma_entries_push(acc, item);
            lemma_list_items_wf(s, lines, tag, i + 1, acc.push(item));
        } else if 0 <= a && a + h + 1 <= b && b <= s.len() {
            let child_tag = s.subrange(a, a + h + 1);
            let j = spec_group_end(s, lines, child_tag, i + 1);
            lemma_group_end(s, lines, child_tag, i + 1);
            let child = spec_list_tree(s, lines.subrange(i, j), child_tag);
            lemma_list_tree_wf(s, lines.subrange(i, j), child_tag);
            lemma_all_push(acc, child);
            lemma_entries_push(acc, child);
            lemma_list_items_wf(s, lines, tag, j, acc.push(child));
        }
    }
}

pub proof fn lemma_list_wf(s: Seq<char>, lo: int, hi: int)
    requires
        window(s, lo, hi),
    ensures
        spec_list(s, lo, hi) matches Some((_, c)) ==> well_formed(c),
{
    if 0 <= lo < hi {
        match spec_list_line(s, lo, hi, s[lo]) {
            Some(e) => {
                let lines = spec_list_lines(s, e, hi, s[lo], seq![(lo, e)]).1;
                lemma_list_tree_wf(s, lines, s.subrange(lo, lo + 1));
            },
            None => {},
        }
    }
}

/// Every block other than a paragraph line is well formed.
pub proof fn lemma_creole_inner_wf(s: Seq<char>, lo: int, hi: int)
    requires
        window(s, lo, hi),
    ensures
        spec_creole_inner(s, lo, hi) matches Some((_, c)) ==> well_formed(c),
{
    lemma_heading_wf(s, lo, hi);
    lemma_table_wf(s, lo, hi);
    lemma_list_wf(s, lo, hi);
}

pub proof fn lemma_line_scan_wf(s: Seq<char>, lo: int, k: int, hi: int)
    requires
        0 <= lo <= k <= hi <= s.len(),
    ensures
        spec_line_scan(s, lo, k, hi) matches Some((_, a, b)) ==> opt_well_formed(a)
            && opt_well_formed(b),
    decreases hi - k,
{
    if k < hi && crate::grammar::spec_line_term(s, k, hi) is None {
        lemma_lit_wf(s, k, hi);
        if spec_lit(s, k, hi) is None {
            lemma_line_scan_wf(s, lo, k + 1, hi);
        }
    }
}

pub proof fn lemma_line_collect_wf(s: Seq<char>, i: int, hi: int, acc: Seq<Creole>)
    requires
        window(s, i, hi),
        all_well_formed(acc),
    ensures
        all_well_formed(spec_line_collect(s, i, hi, acc).1),
    decreases hi - i,
{
    lemma_line_scan_wf(s, i, i, hi);
    match spec_line_scan(s, i, i, hi) {
        None => {},
        Some((p, a, b)) => {
            lemma_push_opt(acc, a);
            match b {
                Some(v) => {
                    lemma_all_push(push_opt(acc, a), v);
                    if i < p <= hi {
                        lemma_line_collect_wf(s, p, hi, push_opt(acc, a).push(v));
                    }
                },
                None => {},
            }
        },
    }
}

/// Every block is well formed.
pub proof fn lemma_block_wf(s: Seq<char>, lo: int, hi: int)
    requires
        window(s, lo, hi),
    ensures
        well_formed(spec_block(s, lo, hi).1),
{
    lemma_creole_inner_wf(s, lo, hi);
    lemma_line_collect_wf(s, lo, hi, Seq::empty());
}

pub proof fn lemma_blocks_wf(s: Seq<char>, i: int, hi: int, acc: Seq<Creole>)
    requires
        window(s, i, hi),
        all_well_formed(acc),
    ensures
        all_well_formed(spec_blocks(s, i, hi, acc).1),
    decreases hi - i,
{
    if at(s, i, hi, '\n') {
        lemma_block_wf(s, i + 1, hi);
        let (p, b) = spec_block(s, i + 1, hi);
        lemma_all_push(acc, b);
        if i < p <= hi {
            lemma_blocks_wf(s, p, hi, acc.push(b));
        }
    }
}

/// Every node of every document is well formed: texts are not empty,
/// headings have levels 1 to 6, lists hold items and lists, tables hold rows,
/// and rows hold cells of their kind.
pub proof fn law_document_well_formed(s: Seq<char>)
    ensures
        all_well_formed(spec_document(s).1),
{
    let n = s.len() as int;
    lemma_block_wf(s, 0, n);
    crate::laws::lemma_block_within(s, 0, n);
    let (p, b) = spec_block(s, 0, n);
    lemma_all_push(Seq::empty(), b);
    assert(seq![b] =~= Seq::<Creole>::empty().push(b));
    lemma_blocks_wf(s, p, n, seq![b]);
}

} // verus!
