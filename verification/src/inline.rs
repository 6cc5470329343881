use vstd::prelude::*;
use crate::creole::{ICreole, Creole, models, push_node, new_nodes};
use crate::grammar::{
    at, at2, at4, part, span, stops, Stop, Ctx, spec_text, spec_link, spec_image, spec_opt_text,
    spec_bold, spec_italic, spec_text_style, spec_lit, spec_inner, spec_scan, spec_collect,
    spec_term, push_opt,
};

verus! {

/// The text being parsed, with its characters laid out for indexing.
pub struct Input<'a> {
    pub text: &'a str,
    pub chars: Vec<char>,
}

impl<'a> Input<'a> {
    pub open spec fn s(&self) -> Seq<char> {
        self.chars@
    }

    pub open spec fn wf(&self) -> bool {
        &&& self.text@ == self.chars@
        &&& self.chars@.len() <= usize::MAX
    }

    pub fn new(text: &'a str) -> (r: Input<'a>)
        ensures
            r.wf(),
            r.text == text,
            r.s() == text@,
    {
        let chars = to_chars(text);
        let count = chars.len();
        assert(chars@.len() == count);
        Input { text, chars }
    }

    pub fn len(&self) -> (r: usize)
        ensures
            r == self.s().len(),
    {
        self.chars.len()
    }

    /// The input between character positions `a` and `b`.
    pub fn part(&self, a: usize, b: usize) -> (r: &'a str)
        requires
            self.wf(),
            a <= b <= self.s().len(),
        ensures
            r@ == part(self.s(), a as int, b as int),
    {
        self.text.substring_char(a, b)
    }

    pub fn at(&self, i: usize, hi: usize, c: char) -> (r: bool)
        requires
            hi <= self.s().len(),
        ensures
            r == at(self.s(), i as int, hi as int, c),
    {
        i < hi && self.chars[i] == c
    }

    pub fn at2(&self, i: usize, hi: usize, a: char, b: char) -> (r: bool)
        requires
            hi <= self.s().len(),
        ensures
            r == at2(self.s(), i as int, hi as int, a, b),
    {
        i < hi && self.chars[i] == a && i + 1 < hi && self.chars[i + 1] == b
    }

    pub fn at4(&self, i: usize, hi: usize, a: char, b: char, c: char, d: char) -> (r: bool)
        requires
            hi <= self.s().len(),
        ensures
            r == at4(self.s(), i as int, hi as int, a, b, c, d),
    {
        self.at2(i, hi, a, b) && i + 2 < hi && self.at2(i + 2, hi, c, d)
    }

    pub fn span(&self, i: usize, hi: usize, k: Stop) -> (r: usize)
        requires
            i <= hi <= self.s().len(),
        ensures
            r == span(self.s(), i as int, hi as int, k),
            i <= r <= hi,
    {
        let mut j = i;
        while j < hi && !stops_exec(k, self.chars[j])
            invariant
                i <= j <= hi <= self.s().len(),
                span(self.s(), i as int, hi as int, k) == span(self.s(), j as int, hi as int, k),
            decreases hi - j,
        {
            j += 1;
        }
        j
    }
}

pub fn to_chars(text: &str) -> (v: Vec<char>)
    ensures
        v@ == text@,
{
    let mut v: Vec<char> = Vec::new();
    for c in it: text.chars()
        invariant
            v@ == it.seq().take(it.index() as int),
    {
        v.push(c);
    }
    v
}

pub fn stops_exec(k: Stop, c: char) -> (r: bool)
    ensures
        r == stops(k, c),
{
    match k {
        Stop::LinkTarget => c == '[' || c == ']' || c == '|' || c == '\n',
        Stop::LinkLabel => c == '[' || c == ']' || c == '\n',
        Stop::ImageSource => c == '{' || c == '}' || c == '|' || c == '\n',
        Stop::ImageLabel => c == '{' || c == '}' || c == '\n',
        Stop::Newline => c == '\n',
        Stop::NonMarker => !(c == '*' || c == '#'),
        Stop::NonEquals => c != '=',
    }
}

pub open spec fn res_model<'a>(r: Option<(usize, ICreole<'a>)>) -> Option<(int, Creole)> {
    match r {
        Some((p, v)) => Some((p as int, v.model())),
        None => None,
    }
}

pub open spec fn opt_model<'a>(r: Option<ICreole<'a>>) -> Option<Creole> {
    match r {
        Some(v) => Some(v.model()),
        None => None,
    }
}

pub open spec fn step_model<'a>(r: Option<(usize, Option<ICreole<'a>>, Option<ICreole<'a>>)>) -> Option<
    (int, Option<Creole>, Option<Creole>),
> {
    match r {
        Some((p, a, b)) => Some((p as int, opt_model(a), opt_model(b))),
        None => None,
    }
}

/// Within the window `lo..hi`, a successful parse stops at `p` with `lo < p <= hi`.
pub open spec fn moves<'a>(r: Option<(usize, ICreole<'a>)>, lo: usize, hi: usize) -> bool {
    r matches Some((p, _)) ==> lo < p <= hi
}

pub open spec fn window<'a>(inp: &Input<'a>, lo: usize, hi: usize) -> bool {
    inp.wf() && lo <= hi <= inp.s().len()
}

pub fn text<'a>(inp: &Input<'a>, lo: usize, hi: usize) -> (r: Option<(usize, ICreole<'a>)>)
    requires
        window(inp, lo, hi),
    ensures
        res_model(r) == spec_text(inp.s(), lo as int, hi as int),
        moves(r, lo, hi),
{
    if lo < hi {
        Some((hi, ICreole::Text(inp.part(lo, hi))))
    } else {
        None
    }
}

pub fn opt_text<'a>(inp: &Input<'a>, lo: usize, k: usize) -> (r: Option<ICreole<'a>>)
    requires
        window(inp, lo, k),
    ensures
        opt_model(r) == spec_opt_text(inp.s(), lo as int, k as int),
{
    match text(inp, lo, k) {
        Some((_, t)) => Some(t),
        None => None,
    }
}

/// `[[target|label]]` or `[[target]]` at `lo`.
pub fn link_at<'a>(inp: &Input<'a>, lo: usize, hi: usize) -> (r: Option<(usize, ICreole<'a>)>)
    requires
        window(inp, lo, hi),
    ensures
        res_model(r) == spec_link(inp.s(), lo as int, hi as int),
        moves(r, lo, hi),
{
    if !inp.at2(lo, hi, '[', '[') {
        return None;
    }
    let a = lo + 2;
    let e = inp.span(a, hi, Stop::LinkTarget);
    if e > a && inp.at(e, hi, '|') {
        let t = inp.span(e + 1, hi, Stop::LinkLabel);
        if t > e + 1 {
            if inp.at2(t, hi, ']', ']') {
                return Some((t + 2, ICreole::Link(inp.part(a, e), inp.part(e + 1, t))));
            } else {
                return None;
            }
        }
    }
    let c = inp.span(a, hi, Stop::LinkLabel);
    if c > a && inp.at2(c, hi, ']', ']') {
        let target = inp.part(a, c);
        Some((c + 2, ICreole::Link(target, target)))
    } else {
        None
    }
}

/// `{{source|label}}` or `{{source}}` at `lo`.
pub fn image_at<'a>(inp: &Input<'a>, lo: usize, hi: usize) -> (r: Option<(usize, ICreole<'a>)>)
    requires
        window(inp, lo, hi),
    ensures
        res_model(r) == spec_image(inp.s(), lo as int, hi as int),
        moves(r, lo, hi),
{
    if !inp.at2(lo, hi, '{', '{') {
        return None;
    }
    let a = lo + 2;
    let e = inp.span(a, hi, Stop::ImageSource);
    if e > a && inp.at(e, hi, '|') {
        let t = inp.span(e + 1, hi, Stop::ImageLabel);
        if t > e + 1 {
            if inp.at2(t, hi, '}', '}') {
                return Some((t + 2, ICreole::Image(inp.part(a, e), inp.part(e + 1, t))));
            } else {
                return None;
            }
        }
    }
    let c = inp.span(a, hi, Stop::ImageLabel);
    if c > a && inp.at2(c, hi, '}', '}') {
        let label = inp.part(c, c);
        assert(label@ =~= Seq::<char>::empty());
        Some((c + 2, ICreole::Image(inp.part(a, c), label)))
    } else {
        None
    }
}

/// `**...**` at `lo`.
pub fn bold<'a>(inp: &Input<'a>, lo: usize, hi: usize) -> (r: Option<(usize, ICreole<'a>)>)
    requires
        window(inp, lo, hi),
    ensures
        res_model(r) == spec_bold(inp.s(), lo as int, hi as int),
        moves(r, lo, hi),
    decreases hi - lo, 1int,
{
    if inp.at2(lo, hi, '*', '*') {
        let (p, items) = collect_opt_pair0(inp, Ctx::Bold, lo + 2, hi);
        if inp.at2(p, hi, '*', '*') {
            Some((p + 2, ICreole::Bold(items)))
        } else {
            None
        }
    } else {
        None
    }
}

/// `//...//` at `lo`.
pub fn italic<'a>(inp: &Input<'a>, lo: usize, hi: usize) -> (r: Option<(usize, ICreole<'a>)>)
    requires
        window(inp, lo, hi),
    ensures
        res_model(r) == spec_italic(inp.s(), lo as int, hi as int),
        moves(r, lo, hi),
    decreases hi - lo, 1int,
{
    if inp.at2(lo, hi, '/', '/') {
        let (p, items) = collect_opt_pair0(inp, Ctx::Italic, lo + 2, hi);
        if inp.at2(p, hi, '/', '/') {
            Some((p + 2, ICreole::Italic(items)))
        } else {
            None
        }
    } else {
        None
    }
}

/// A forced line break, bold or italic at `lo`.
pub fn text_style<'a>(inp: &Input<'a>, lo: usize, hi: usize) -> (r: Option<(usize, ICreole<'a>)>)
    requires
        window(inp, lo, hi),
    ensures
        res_model(r) == spec_text_style(inp.s(), lo as int, hi as int),
        moves(r, lo, hi),
    decreases hi - lo, 2int,
{
    if inp.at2(lo, hi, '\\', '\\') {
        return Some((lo + 2, ICreole::ForceLinebreak));
    }
    match bold(inp, lo, hi) {
        Some(r) => Some(r),
        None => italic(inp, lo, hi),
    }
}

/// A link, an image or a text style at `lo`.
pub fn lit<'a>(inp: &Input<'a>, lo: usize, hi: usize) -> (r: Option<(usize, ICreole<'a>)>)
    requires
        window(inp, lo, hi),
    ensures
        res_model(r) == spec_lit(inp.s(), lo as int, hi as int),
        moves(r, lo, hi),
    decreases hi - lo, 3int,
{
    match link_at(inp, lo, hi) {
        Some(r) => Some(r),
        None => match image_at(inp, lo, hi) {
            Some(r) => Some(r),
            None => text_style(inp, lo, hi),
        },
    }
}

/// The markup that an inline run of `ctx` looks for, at `lo`.
pub fn inner<'a>(inp: &Input<'a>, ctx: Ctx, lo: usize, hi: usize) -> (r: Option<(usize, ICreole<'a>)>)
    requires
        window(inp, lo, hi),
    ensures
        res_model(r) == spec_inner(ctx, inp.s(), lo as int, hi as int),
        moves(r, lo, hi),
    decreases hi - lo, 4int,
{
    match ctx {
        Ctx::Bold => italic(inp, lo, hi),
        Ctx::Italic => bold(inp, lo, hi),
        _ => lit(inp, lo, hi),
    }
}

/// Whether the inline run of `ctx` ends at `k`.
pub fn term<'a>(inp: &Input<'a>, ctx: Ctx, k: usize, hi: usize) -> (r: bool)
    requires
        window(inp, k, hi),
    ensures
        r == spec_term(ctx, inp.s(), k as int, hi as int),
{
    match ctx {
        Ctx::Bold => inp.at2(k, hi, '*', '*') || inp.at(k, hi, '\n'),
        Ctx::Italic => inp.at2(k, hi, '/', '/') || inp.at(k, hi, '\n'),
        Ctx::Heading => inp.at(k, hi, '\n'),
        Ctx::Cell => inp.at(k, hi, '|'),
        Ctx::Item => false,
    }
}

/// One step of an inline run of `ctx` from `lo`: goes forward until the run
/// ends or markup is found, and gives the stop position, the plain text
/// passed over, and the markup.
pub fn take_while_parser_fail_or<'a>(inp: &Input<'a>, ctx: Ctx, lo: usize, hi: usize) -> (r: Option<
    (usize, Option<ICreole<'a>>, Option<ICreole<'a>>),
>)
    requires
        window(inp, lo, hi),
    ensures
        step_model(r) == spec_scan(ctx, inp.s(), lo as int, lo as int, hi as int),
        r matches Some((p, _, b)) ==> lo <= p <= hi && (b is Some ==> lo < p),
    decreases hi - lo, 5int,
{
    let mut k = lo;
    while k < hi
        invariant
            window(inp, lo, hi),
            lo <= k <= hi,
            spec_scan(ctx, inp.s(), lo as int, lo as int, hi as int) == spec_scan(
                ctx,
                inp.s(),
                lo as int,
                k as int,
                hi as int,
            ),
        decreases hi - k,
    {
        if term(inp, ctx, k, hi) {
            return Some((k, opt_text(inp, lo, k), None));
        }
        match inner(inp, ctx, k, hi) {
            Some((p, v)) => {
                return Some((p, opt_text(inp, lo, k), Some(v)));
            },
            None => {},
        }
        k += 1;
    }
    match text(inp, lo, hi) {
        Some((p, t)) => Some((p, Some(t), None)),
        None => None,
    }
}

/// An inline run of `ctx` from `lo`: the items found and where the run stopped.
pub fn collect_opt_pair0<'a>(inp: &Input<'a>, ctx: Ctx, lo: usize, hi: usize) -> (r: (
    usize,
    Vec<ICreole<'a>>,
))
    requires
        window(inp, lo, hi),
    ensures
        spec_collect(ctx, inp.s(), lo as int, hi as int, Seq::empty()) == (r.0 as int, models(r.1@)),
        lo <= r.0 <= hi,
    decreases hi - lo, 6int,
{
    let mut rst = new_nodes();
    let mut i = lo;
    loop
        invariant
            window(inp, lo, hi),
            lo <= i <= hi,
            spec_collect(ctx, inp.s(), lo as int, hi as int, Seq::empty()) == spec_collect(
                ctx,
                inp.s(),
                i as int,
                hi as int,
                models(rst@),
            ),
        decreases hi - i,
    {
        match take_while_parser_fail_or(inp, ctx, i, hi) {
            None => {
                return (i, rst);
            },
            Some((p, a, b)) => {
                let ghost acc = models(rst@);
                match a {
                    Some(x) => push_node(&mut rst, x),
                    None => {},
                }
                assert(models(rst@) == push_opt(acc, opt_model(a)));
                match b {
                    Some(v) => {
                        push_node(&mut rst, v);
                        i = p;
                    },
                    None => {
                        return (p, rst);
                    },
                }
            },
        }
    }
}

/// An inline run of `ctx` from `lo` that must find something: fails when the
/// run is empty.
pub fn collect_opt_pair1<'a>(inp: &Input<'a>, ctx: Ctx, lo: usize, hi: usize) -> (r: Option<
    (usize, Vec<ICreole<'a>>),
>)
    requires
        window(inp, lo, hi),
    ensures
        match r {
            Some((p, v)) => spec_collect(ctx, inp.s(), lo as int, hi as int, Seq::empty()) == (
                p as int,
                models(v@),
            ) && v.len() > 0,
            None => spec_collect(ctx, inp.s(), lo as int, hi as int, Seq::empty()).1.len() == 0,
        },
        r matches Some((p, _)) ==> lo <= p <= hi,
{
    let (p, v) = collect_opt_pair0(inp, ctx, lo, hi);
    if v.len() == 0 {
        proof {
            assert(v@ =~= Seq::<ICreole<'a>>::empty());
        }
        None
    } else {
        Some((p, v))
    }
}

} // verus!
