//! The executable parse tree, one closed variant type per grammar
//! rule, with its mapping to the specification model.

use vstd::prelude::*;

use crate::model::{
    AttrStx, ElemStx, ExprStx, MultStx, OpStx, PropStx, TermStx, ValueStx,
};

verus! {

/// A value token: identifier, number (kept as source text), string
/// content, or binding path segments.
#[derive(Debug, PartialEq)]
pub enum ValueSyntax {
    Ident(String),
    Number(String),
    Str(String),
    Binding(Vec<String>),
}

impl ValueSyntax {
    /// The token as a model value.
    pub open spec fn dv(self) -> ValueStx {
        match self {
            ValueSyntax::Ident(s) => ValueStx::Ident(s@),
            ValueSyntax::Number(s) => ValueStx::Number(s@),
            ValueSyntax::Str(s) => ValueStx::Str(s@),
            ValueSyntax::Binding(ss) => ValueStx::Binding(ss.deep_view()),
        }
    }
}

pub open spec fn values_stx_dv(s: Seq<ValueSyntax>) -> Seq<ValueStx> {
    s.map(|i: int, v: ValueSyntax| v.dv())
}

/// One attribute of a bracketed list; `value` is absent when written
/// without `=`.
#[derive(Debug, PartialEq)]
pub struct AttrSyntax {
    pub name: String,
    pub value: Option<ValueSyntax>,
}

impl AttrSyntax {
    /// The attribute as a model value.
    pub open spec fn dv(self) -> AttrStx {
        AttrStx {
            name: self.name@,
            value: match self.value {
                Some(v) => Some(v.dv()),
                None => None,
            },
        }
    }
}

pub open spec fn attrs_stx_dv(s: Seq<AttrSyntax>) -> Seq<AttrStx> {
    s.map(|i: int, a: AttrSyntax| a.dv())
}

/// A node suffix: `#id`, `.class`, or a bracketed attribute list.
#[derive(Debug, PartialEq)]
pub enum PropSyntax {
    Id(String),
    Class(String),
    Attrs(Vec<AttrSyntax>),
}

impl PropSyntax {
    /// The suffix as a model value.
    pub open spec fn dv(self) -> PropStx {
        match self {
            PropSyntax::Id(s) => PropStx::Id(s@),
            PropSyntax::Class(s) => PropStx::Class(s@),
            PropSyntax::Attrs(list) => PropStx::Attrs(attrs_stx_dv(list@)),
        }
    }
}

pub open spec fn props_stx_dv(s: Seq<PropSyntax>) -> Seq<PropStx> {
    s.map(|i: int, p: PropSyntax| p.dv())
}

/// A multiplier: a number token or a binding path.
#[derive(Debug, PartialEq)]
pub enum MultiplierSyntax {
    Count(String),
    Binding(Vec<String>),
}

impl MultiplierSyntax {
    /// The multiplier as a model value.
    pub open spec fn dv(self) -> MultStx {
        match self {
            MultiplierSyntax::Count(s) => MultStx::Count(s@),
            MultiplierSyntax::Binding(ss) => MultStx::Binding(ss.deep_view()),
        }
    }
}

/// The operator between two consecutive expression elements.
#[derive(Debug, Clone, Copy, PartialEq, Eq, Structural)]
pub enum OpSyntax {
    Child,
    Sibling,
}

impl OpSyntax {
    /// The operator as a model value.
    pub open spec fn dv(self) -> OpStx {
        match self {
            OpSyntax::Child => OpStx::Child,
            OpSyntax::Sibling => OpStx::Sibling,
        }
    }
}

/// A term: node, text node, node binding, or parenthesized group.
#[derive(Debug)]
pub enum TermSyntax {
    Node { name: String, props: Vec<PropSyntax> },
    Text(Vec<ValueSyntax>),
    NodeBinding(Vec<String>),
    Group(ExprSyntax),
}

/// A term with its optional multiplier.
#[derive(Debug)]
pub struct ElementSyntax {
    pub term: TermSyntax,
    pub mult: Option<MultiplierSyntax>,
}

/// An expression: elements chained by exactly one operator between
/// consecutive elements.
#[derive(Debug)]
pub struct ExprSyntax {
    pub elems: Vec<ElementSyntax>,
    pub ops: Vec<OpSyntax>,
}

impl TermSyntax {
    /// The term as a model value.
    pub open spec fn dv(self) -> TermStx
        decreases self,
    {
        match self {
            TermSyntax::Node { name, props } => TermStx::Node {
                name: name@,
                props: props_stx_dv(props@),
            },
            TermSyntax::Text(vals) => TermStx::Text(values_stx_dv(vals@)),
            TermSyntax::NodeBinding(ss) => TermStx::NodeBinding(ss.deep_view()),
            TermSyntax::Group(e) => TermStx::Group(e.dv()),
        }
    }
}

impl ElementSyntax {
    /// The element as a model value.
    pub open spec fn dv(self) -> ElemStx
        decreases self,
    {
        ElemStx {
            term: self.term.dv(),
            mult: match self.mult {
                Some(m) => Some(m.dv()),
                None => None,
            },
        }
    }
}

pub open spec fn elems_dv(s: Seq<ElementSyntax>) -> Seq<ElemStx>
    decreases s,
{
    if s.len() == 0 {
        Seq::empty()
    } else {
        seq![s[0].dv()] + elems_dv(s.subrange(1, s.len() as int))
    }
}

impl ExprSyntax {
    /// The expression as a model value.
    pub open spec fn dv(self) -> ExprStx
        decreases self,
    {
        ExprStx {
            elems: elems_dv(self.elems@),
            ops: self.ops@.map(|i: int, o: OpSyntax| o.dv()),
        }
    }
}

/// `elems_dv` maps each element to its model, preserving length and
/// order.
pub proof fn lemma_elems_dv_pointwise(s: Seq<ElementSyntax>)
    ensures
        elems_dv(s).len() == s.len(),
        forall|i: int| 0 <= i < s.len() ==> elems_dv(s)[i] == (#[trigger] s[i]).dv(),
    decreases s.len(),
{
    if s.len() > 0 {
        let tail = s.subrange(1, s.len() as int);
        lemma_elems_dv_pointwise(tail);
        assert forall|i: int| 0 <= i < s.len() implies elems_dv(s)[i] == (#[trigger] s[i]).dv() by {
            if i > 0 {
                assert(elems_dv(s)[i] == elems_dv(tail)[i - 1]);
                assert(tail[i - 1] == s[i]);
            }
        }
    }
}

} // verus!
