use vstd::prelude::*;

use crate::secrets::hex_digit;
use crate::text::{chars_of, push_all, push_char};

verus! {

/// How a facet compares its field with its value.
#[derive(Debug, PartialEq, Eq, Structural, Clone, Copy)]
pub enum FacetOperation {
    Eq,
    NotEq,
    Gt,
    Gte,
    Lt,
    Lte,
}

/// The text of an operation in a facet.
pub open spec fn operation_text(op: FacetOperation) -> Seq<char> {
    match op {
        FacetOperation::Eq => seq![':'],
        FacetOperation::NotEq => seq!['!', '='],
        FacetOperation::Gt => seq!['>'],
        FacetOperation::Gte => seq!['>', '='],
        FacetOperation::Lt => seq!['<'],
        FacetOperation::Lte => seq!['<', '='],
    }
}

/// A search facet: a field, an operation and a value.
pub struct Facet(pub String, pub FacetOperation, pub String);

/// A facet as plain values.
pub type FacetView = (Seq<char>, FacetOperation, Seq<char>);

impl View for Facet {
    type V = FacetView;

    open spec fn view(&self) -> FacetView {
        (self.0@, self.1, self.2@)
    }
}

/// The text of a facet, such as `categories:fabric`.
pub open spec fn facet_text(f: FacetView) -> Seq<char> {
    f.0 + operation_text(f.1) + f.2
}

/// One character as it stands inside a JSON string.
pub open spec fn json_char(c: char) -> Seq<char> {
    if c == '"' {
        seq!['\\', '"']
    } else if c == '\\' {
        seq!['\\', '\\']
    } else if (c as u32) < 0x20 {
        seq!['\\', 'u', '0', '0', hex_digit((c as u32 / 16) as int), hex_digit((c as u32 % 16) as int)]
    } else {
        seq![c]
    }
}

/// The escaped characters of a JSON string.
pub open spec fn json_escape(s: Seq<char>) -> Seq<char>
    decreases s.len(),
{
    if s.len() == 0 {
        seq![]
    } else {
        json_escape(s.drop_last()) + json_char(s.last())
    }
}

/// A JSON string literal.
pub open spec fn json_string(s: Seq<char>) -> Seq<char> {
    seq!['"'] + json_escape(s) + seq!['"']
}

/// Items separated by commas.
pub open spec fn join_commas(items: Seq<Seq<char>>) -> Seq<char>
    decreases items.len(),
{
    if items.len() == 0 {
        seq![]
    } else if items.len() == 1 {
        items[0]
    } else {
        join_commas(items.drop_last()) + seq![','] + items.last()
    }
}

/// A group of facets (any of which may hold) as a JSON array of strings.
pub open spec fn group_json(g: Seq<FacetView>) -> Seq<char> {
    seq!['['] + join_commas(g.map_values(|f: FacetView| json_string(facet_text(f)))) + seq![']']
}

/// All groups (each of which must hold) as a JSON array of arrays.
pub open spec fn facets_json(groups: Seq<Seq<FacetView>>) -> Seq<char> {
    seq!['['] + join_commas(groups.map_values(|g: Seq<FacetView>| group_json(g))) + seq![']']
}

/// Builds the `facets` parameter of a search.
pub struct FacetBuilder {
    facets: Vec<Vec<Facet>>,
}

impl View for FacetBuilder {
    type V = Seq<Seq<FacetView>>;

    closed spec fn view(&self) -> Seq<Seq<FacetView>> {
        self.facets@.map_values(|g: Vec<Facet>| g@.map_values(|f: Facet| f@))
    }
}

fn push_json_char(out: &mut String, c: char)
    ensures
        final(out)@ == old(out)@ + json_char(c),
{
    if c == '"' {
        push_char(out, '\\');
        push_char(out, '"');
    } else if c == '\\' {
        push_char(out, '\\');
        push_char(out, '\\');
    } else if (c as u32) < 0x20 {
        let v = c as u32;
        let digits: [char; 16] = [
            '0', '1', '2', '3', '4', '5', '6', '7', '8', '9', 'a', 'b', 'c', 'd', 'e', 'f',
        ];
        assert(digits@ =~= seq![
            '0', '1', '2', '3', '4', '5', '6', '7', '8', '9', 'a', 'b', 'c', 'd', 'e', 'f',
        ]);
        push_char(out, '\\');
        push_char(out, 'u');
        push_char(out, '0');
        push_char(out, '0');
        push_char(out, digits[(v / 16) as usize]);
        push_char(out, digits[(v % 16) as usize]);
    } else {
        push_char(out, c);
    }
    assert(out@ =~= old(out)@ + json_char(c));
}

fn push_json_string(out: &mut String, s: &str)
    ensures
        final(out)@ == old(out)@ + json_string(s@),
{
    let cs = chars_of(s);
    push_char(out, '"');
    let ghost start = out@;
    let mut i: usize = 0;
    assert(cs@.take(0) =~= Seq::<char>::empty());
    while i < cs.len()
        invariant
            i <= cs.len(),
            out@ == start + json_escape(cs@.take(i as int)),
        decreases cs.len() - i,
    {
        push_json_char(out, cs[i]);
        assert(cs@.take(i + 1).drop_last() =~= cs@.take(i as int));
        i = i + 1;
    }
    assert(cs@.take(cs.len() as int) =~= cs@);
    push_char(out, '"');
    assert(out@ =~= old(out)@ + json_string(s@));
}

fn push_facet(out: &mut String, f: &Facet)
    ensures
        final(out)@ == old(out)@ + json_string(facet_text(f@)),
{
    let mut text = String::new();
    let a = chars_of(f.0.as_str());
    push_all(&mut text, &a);
    match f.1 {
        FacetOperation::Eq => {
            push_char(&mut text, ':');
        },
        FacetOperation::NotEq => {
            push_char(&mut text, '!');
            push_char(&mut text, '=');
        },
        FacetOperation::Gt => {
            push_char(&mut text, '>');
        },
        FacetOperation::Gte => {
            push_char(&mut text, '>');
            push_char(&mut text, '=');
        },
        FacetOperation::Lt => {
            push_char(&mut text, '<');
        },
        FacetOperation::Lte => {
            push_char(&mut text, '<');
            push_char(&mut text, '=');
        },
    }
    let b = chars_of(f.2.as_str());
    push_all(&mut text, &b);
    assert(text@ =~= facet_text(f@));
    push_json_string(out, text.as_str());
}

fn push_group(out: &mut String, g: &Vec<Facet>)
    ensures
        final(out)@ == old(out)@ + group_json(g@.map_values(|f: Facet| f@)),
{
    let ghost gv = g@.map_values(|f: Facet| f@);
    let ghost items = gv.map_values(|f: FacetView| json_string(facet_text(f)));
    push_char(out, '[');
    let ghost start = out@;
    let mut i: usize = 0;
    assert(items.take(0) =~= Seq::<Seq<char>>::empty());
    while i < g.len()
        invariant
            i <= g.len(),
            gv == g@.map_values(|f: Facet| f@),
            items == gv.map_values(|f: FacetView| json_string(facet_text(f))),
            out@ == start + join_commas(items.take(i as int)),
        decreases g.len() - i,
    {
        if i > 0 {
            push_char(out, ',');
        }
        push_facet(out, &g[i]);
        assert(items.take(i + 1).drop_last() =~= items.take(i as int));
        assert(items[i as int] == json_string(facet_text(g@[i as int]@)));
        if i == 0 {
            assert(out@ =~= start + join_commas(items.take(1)));
        } else {
            assert(out@ =~= start + join_commas(items.take(i + 1)));
        }
        i = i + 1;
    }
    assert(items.take(g.len() as int) =~= items);
    push_char(out, ']');
    assert(out@ =~= old(out)@ + group_json(gv));
}

impl FacetBuilder {
    /// A builder without facets.
    pub fn new() -> (res: Self)
        ensures
            res@ == Seq::<Seq<FacetView>>::empty(),
    {
        let res = FacetBuilder { facets: Vec::new() };
        assert(res@ =~= Seq::<Seq<FacetView>>::empty());
        res
    }

    /// Adds a facet that must hold together with all the others: a group
    /// of its own.
    pub fn and(&mut self, facet: Facet)
        ensures
            final(self)@ == old(self)@.push(seq![facet@]),
    {
        let mut group: Vec<Facet> = Vec::new();
        let ghost fv = facet@;
        group.push(facet);
        assert(group@.map_values(|f: Facet| f@) =~= seq![fv]);
        self.facets.push(group);
        assert(self@ =~= old(self)@.push(seq![fv]));
    }

    /// The facets as the JSON array of arrays that a search takes.
    pub fn build(&self) -> (res: String)
        ensures
            res@ == facets_json(self@),
    {
        let mut out = String::new();
        let ghost groups = self@;
        let ghost items = groups.map_values(|g: Seq<FacetView>| group_json(g));
        push_char(&mut out, '[');
        let mut i: usize = 0;
        assert(items.take(0) =~= Seq::<Seq<char>>::empty());
        while i < self.facets.len()
            invariant
                i <= self.facets.len(),
                groups == self@,
                items == groups.map_values(|g: Seq<FacetView>| group_json(g)),
                out@ == seq!['['] + join_commas(items.take(i as int)),
            decreases self.facets.len() - i,
        {
            if i > 0 {
                push_char(&mut out, ',');
            }
            push_group(&mut out, &self.facets[i]);
            assert(items.take(i + 1).drop_last() =~= items.take(i as int));
            if i == 0 {
                assert(out@ =~= seq!['['] + join_commas(items.take(1)));
            } else {
                assert(out@ =~= seq!['['] + join_commas(items.take(i + 1)));
            }
            i = i + 1;
        }
        assert(items.take(self.facets.len() as int) =~= items);
        push_char(&mut out, ']');
        out
    }
}

} // verus!
