use vstd::prelude::*;

verus! {

/// One node of a parsed Creole document.
///
/// Leaf payloads (`Text`, link targets and labels, image sources, ...) are
/// slices of the parsed input.
#[derive(Debug, PartialEq, Eq)]
pub enum ICreole<'a> {
    Text(&'a str),
    Line(Vec<ICreole<'a>>),
    Bold(Vec<ICreole<'a>>),
    Italic(Vec<ICreole<'a>>),
    BulletList(Vec<ICreole<'a>>),
    NumberedList(Vec<ICreole<'a>>),
    ListItem(Vec<ICreole<'a>>),
    Link(&'a str, &'a str),
    Heading(u8, Vec<ICreole<'a>>),
    Silentbreak,
    ForceLinebreak,
    HorizontalLine,
    Image(&'a str, &'a str),
    DontFormat(&'a str),
    Table(Vec<ICreole<'a>>),
    TableHeaderRow(Vec<ICreole<'a>>),
    TableHeaderCell(Vec<ICreole<'a>>),
    TableRow(Vec<ICreole<'a>>),
    TableCell(Vec<ICreole<'a>>),
}

/// The mathematical value of an `ICreole`: string payloads become character
/// sequences and child vectors become sequences.
pub enum Creole {
    Text(Seq<char>),
    Line(Seq<Creole>),
    Bold(Seq<Creole>),
    Italic(Seq<Creole>),
    BulletList(Seq<Creole>),
    NumberedList(Seq<Creole>),
    ListItem(Seq<Creole>),
    Link(Seq<char>, Seq<char>),
    Heading(u8, Seq<Creole>),
    Silentbreak,
    ForceLinebreak,
    HorizontalLine,
    Image(Seq<char>, Seq<char>),
    DontFormat(Seq<char>),
    Table(Seq<Creole>),
    TableHeaderRow(Seq<Creole>),
    TableHeaderCell(Seq<Creole>),
    TableRow(Seq<Creole>),
    TableCell(Seq<Creole>),
}

impl<'a> ICreole<'a> {
    pub open spec fn model(self) -> Creole
        decreases self,
    {
        match self {
            ICreole::Text(s) => Creole::Text(s@),
            ICreole::Line(v) => Creole::Line(models(v@)),
            ICreole::Bold(v) => Creole::Bold(models(v@)),
            ICreole::Italic(v) => Creole::Italic(models(v@)),
            ICreole::BulletList(v) => Creole::BulletList(models(v@)),
            ICreole::NumberedList(v) => Creole::NumberedList(models(v@)),
            ICreole::ListItem(v) => Creole::ListItem(models(v@)),
            ICreole::Link(a, b) => Creole::Link(a@, b@),
            ICreole::Heading(n, v) => Creole::Heading(n, models(v@)),
            ICreole::Silentbreak => Creole::Silentbreak,
            ICreole::ForceLinebreak => Creole::ForceLinebreak,
            ICreole::HorizontalLine => Creole::HorizontalLine,
            ICreole::Image(a, b) => Creole::Image(a@, b@),
            ICreole::DontFormat(s) => Creole::DontFormat(s@),
            ICreole::Table(v) => Creole::Table(models(v@)),
            ICreole::TableHeaderRow(v) => Creole::TableHeaderRow(models(v@)),
            ICreole::TableHeaderCell(v) => Creole::TableHeaderCell(models(v@)),
            ICreole::TableRow(v) => Creole::TableRow(models(v@)),
            ICreole::TableCell(v) => Creole::TableCell(models(v@)),
        }
    }
}

/// The models of a sequence of nodes, element by element.
pub open spec fn models<'a>(s: Seq<ICreole<'a>>) -> Seq<Creole>
    decreases s,
{
    if s.len() == 0 {
        Seq::empty()
    } else {
        models(s.subrange(0, s.len() - 1)).push(s[s.len() - 1].model())
    }
}

pub proof fn lemma_models_push<'a>(s: Seq<ICreole<'a>>, x: ICreole<'a>)
    ensures
        models(s.push(x)) == models(s).push(x.model()),
{
    assert(s.push(x).subrange(0, s.len() as int) =~= s);
}

/// Appends `x` to `v`, keeping the models in step.
pub fn push_node<'a>(v: &mut Vec<ICreole<'a>>, x: ICreole<'a>)
    ensures
        models(final(v)@) == models(old(v)@).push(x.model()),
{
    proof {
        lemma_models_push(v@, x);
    }
    v.push(x);
}

/// An empty vector of nodes, whose model is the empty sequence.
pub fn new_nodes<'a>() -> (v: Vec<ICreole<'a>>)
    ensures
        models(v@) == Seq::<Creole>::empty(),
{
    let v: Vec<ICreole<'a>> = Vec::new();
    proof {
        assert(v@ =~= Seq::<ICreole<'a>>::empty());
    }
    v
}

/// A copy of `v` and, recursively, of its nodes.
pub fn clone_nodes<'a>(v: &Vec<ICreole<'a>>) -> (r: Vec<ICreole<'a>>)
    ensures
        models(r@) == models(v@),
    decreases v,
{
    let mut r = new_nodes();
    let mut i: usize = 0;
    while i < v.len()
        invariant
            i <= v.len(),
            models(r@) == models(v@.subrange(0, i as int)),
        decreases v.len() - i,
    {
        proof {
            assert(v@.subrange(0, i + 1).subrange(0, i as int) =~= v@.subrange(0, i as int));
        }
        let c = clone_node(&v[i]);
        push_node(&mut r, c);
        i += 1;
    }
    assert(v@.subrange(0, v.len() as int) =~= v@);
    r
}

/// A copy of `c` whose model is that of `c`.
pub fn clone_node<'a>(c: &ICreole<'a>) -> (r: ICreole<'a>)
    ensures
        r.model() == c.model(),
    decreases c,
{
    match c {
        ICreole::Text(s) => ICreole::Text(s),
        ICreole::Line(v) => ICreole::Line(clone_nodes(v)),
        ICreole::Bold(v) => ICreole::Bold(clone_nodes(v)),
        ICreole::Italic(v) => ICreole::Italic(clone_nodes(v)),
        ICreole::BulletList(v) => ICreole::BulletList(clone_nodes(v)),
        ICreole::NumberedList(v) => ICreole::NumberedList(clone_nodes(v)),
        ICreole::ListItem(v) => ICreole::ListItem(clone_nodes(v)),
        ICreole::Link(a, b) => ICreole::Link(a, b),
        ICreole::Heading(n, v) => ICreole::Heading(*n, clone_nodes(v)),
        ICreole::Silentbreak => ICreole::Silentbreak,
        ICreole::ForceLinebreak => ICreole::ForceLinebreak,
        ICreole::HorizontalLine => ICreole::HorizontalLine,
        ICreole::Image(a, b) => ICreole::Image(a, b),
        ICreole::DontFormat(s) => ICreole::DontFormat(s),
        ICreole::Table(v) => ICreole::Table(clone_nodes(v)),
        ICreole::TableHeaderRow(v) => ICreole::TableHeaderRow(clone_nodes(v)),
        ICreole::TableHeaderCell(v) => ICreole::TableHeaderCell(clone_nodes(v)),
        ICreole::TableRow(v) => ICreole::TableRow(clone_nodes(v)),
        ICreole::TableCell(v) => ICreole::TableCell(clone_nodes(v)),
    }
}

impl<'a> Clone for ICreole<'a> {
    fn clone(&self) -> (r: Self)
        ensures
            r.model() == self.model(),
    {
        clone_node(self)
    }
}

} // verus!
