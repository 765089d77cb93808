//! The debug rendering of a tree: a line per node, two spaces of
//! indentation per nesting level, a marker for each non-normal leaf
//! kind.  The `spec` functions define the exact text; the executable
//! renderer is proved to produce it.

use vstd::prelude::*;
use vstd::string::StringExecFns;

use crate::ast::{
    Attribute, AttributeValue, GenericValue, PropertyBinding, TreeNode, attrs_dv, nodes_dv,
    values_dv,
};
use crate::model::{
    AttrModel, AttrValueModel, BindingModel, NodeModel, ValueModel, binding_model,
};

verus! {

/// The decimal digits of a nonnegative number, most significant
/// first.
pub open spec fn dec_digits(m: nat) -> Seq<char>
    decreases m,
{
    if m < 10 {
        seq![digit_char(m as int)]
    } else {
        dec_digits(m / 10) + seq![digit_char((m % 10) as int)]
    }
}

/// The character of one decimal digit.
pub open spec fn digit_char(d: int) -> char {
    if d == 0 {
        '0'
    } else if d == 1 {
        '1'
    } else if d == 2 {
        '2'
    } else if d == 3 {
        '3'
    } else if d == 4 {
        '4'
    } else if d == 5 {
        '5'
    } else if d == 6 {
        '6'
    } else if d == 7 {
        '7'
    } else if d == 8 {
        '8'
    } else {
        '9'
    }
}

/// The decimal text of a signed number.
pub open spec fn int_text(v: int) -> Seq<char> {
    if v < 0 {
        seq!['-'] + dec_digits((-v) as nat)
    } else {
        dec_digits(v as nat)
    }
}

/// Parts joined by a separator, in order.
pub open spec fn join_sep(parts: Seq<Seq<char>>, sep: Seq<char>) -> Seq<char>
    decreases parts.len(),
{
    if parts.len() == 0 {
        Seq::empty()
    } else if parts.len() == 1 {
        parts[0]
    } else {
        join_sep(parts.drop_last(), sep) + sep + parts.last()
    }
}

/// A binding displays as `@` and its `%`-joined segments.
pub open spec fn binding_text(b: BindingModel) -> Seq<char> {
    match b {
        BindingModel::Root(s) => seq!['@'] + s,
        BindingModel::Nested(ss) => seq!['@'] + join_sep(ss, seq!['%']),
    }
}

/// A value displays as a quoted text, a decimal number, or a binding.
pub open spec fn value_text(v: ValueModel) -> Seq<char> {
    match v {
        ValueModel::Text(s) => seq!['"'] + s + seq!['"'],
        ValueModel::Number(n) => int_text(n),
        ValueModel::Binding(b) => binding_text(b),
    }
}

pub open spec fn value_texts(vs: Seq<ValueModel>) -> Seq<Seq<char>> {
    vs.map(|i: int, v: ValueModel| value_text(v))
}

/// An attribute accumulator displays as a placeholder, one value, or
/// a braced comma-separated list.
pub open spec fn attr_value_text(av: AttrValueModel) -> Seq<char> {
    match av {
        AttrValueModel::Empty => seq!['<', 'N', 'O', 'N', 'E', '>'],
        AttrValueModel::Single(v) => value_text(v),
        AttrValueModel::Multiple(vs) => seq!['{'] + join_sep(value_texts(vs), seq![',', ' '])
            + seq!['}'],
    }
}

pub open spec fn attr_text(a: AttrModel) -> Seq<char> {
    a.name + seq!['='] + attr_value_text(a.value)
}

pub open spec fn attr_texts(attrs: Seq<AttrModel>) -> Seq<Seq<char>> {
    attrs.map(|i: int, a: AttrModel| attr_text(a))
}

pub open spec fn dash() -> Seq<char> {
    seq![' ', '-', ' ']
}

pub open spec fn marker_content() -> Seq<char> {
    seq!['[', 'C', 'O', 'N', 'T', 'E', 'N', 'T', ']', ' ']
}

pub open spec fn marker_subtree() -> Seq<char> {
    seq!['[', 'S', 'U', 'B', 'T', 'R', 'E', 'E', ']', ' ']
}

pub open spec fn marker_collection() -> Seq<char> {
    seq!['[', 'C', 'O', 'L', 'L', 'E', 'C', 'T', 'I', 'O', 'N', ']', ' ']
}

/// The rendered text of one node at a given indentation.  The root
/// pseudo-node itself prints nothing and renders its children at the
/// outermost indentation; children are indented by two more spaces.
pub open spec fn node_text(m: NodeModel, ind: Seq<char>) -> Seq<char>
    decreases m,
{
    match m {
        NodeModel::Root { children } => nodes_text(children, Seq::empty()),
        NodeModel::Normal { name, attributes, children } => ind + dash() + name + (
        if attributes.len() > 0 {
            seq!['['] + join_sep(attr_texts(attributes), seq![' ']) + seq![']']
        } else {
            Seq::empty()
        }) + seq!['\n'] + nodes_text(children, ind + seq![' ', ' ']),
        NodeModel::InnerContent { value } => ind + dash() + marker_content() + value_text(
            value,
        ) + seq!['\n'],
        NodeModel::Subtree { property } => ind + dash() + marker_subtree() + binding_text(
            property,
        ) + seq!['\n'],
        NodeModel::Collection { nodes, collection } => ind + dash() + marker_collection()
            + binding_text(collection) + seq!['\n'] + nodes_text(nodes, ind + seq![' ', ' ']),
    }
}

/// The concatenated rendering of a node list.
pub open spec fn nodes_text(ms: Seq<NodeModel>, ind: Seq<char>) -> Seq<char>
    decreases ms,
{
    if ms.len() == 0 {
        Seq::empty()
    } else {
        nodes_text(ms.drop_last(), ind) + node_text(ms.last(), ind)
    }
}

/// One digit as text.
fn digit_str(d: u64) -> (r: &'static str)
    requires
        d < 10,
    ensures
        r@ == seq![digit_char(d as int)],
{
    proof {
        reveal_strlit("0");
        reveal_strlit("1");
        reveal_strlit("2");
        reveal_strlit("3");
        reveal_strlit("4");
        reveal_strlit("5");
        reveal_strlit("6");
        reveal_strlit("7");
        reveal_strlit("8");
        reveal_strlit("9");
    }
    if d == 0 {
        "0"
    } else if d == 1 {
        "1"
    } else if d == 2 {
        "2"
    } else if d == 3 {
        "3"
    } else if d == 4 {
        "4"
    } else if d == 5 {
        "5"
    } else if d == 6 {
        "6"
    } else if d == 7 {
        "7"
    } else if d == 8 {
        "8"
    } else {
        "9"
    }
}

/// Appends the decimal digits of a magnitude.
fn push_digits(out: &mut String, m: u64)
    ensures
        final(out)@ == old(out)@ + dec_digits(m as nat),
    decreases m,
{
    if m < 10 {
        out.append(digit_str(m));
    } else {
        push_digits(out, m / 10);
        out.append(digit_str(m % 10));
        proof {
            assert(old(out)@ + dec_digits((m / 10) as nat) + seq![digit_char((m % 10) as int)]
                =~= old(out)@ + dec_digits(m as nat));
        }
    }
}

/// Appends the decimal text of a signed number.
fn push_int(out: &mut String, v: isize)
    ensures
        final(out)@ == old(out)@ + int_text(v as int),
{
    if v < 0 {
        proof {
            reveal_strlit("-");
            assert("-"@ =~= seq!['-']);
        }
        out.append("-");
        let m: u64 = (-(v as i128)) as u64;
        push_digits(out, m);
        proof {
            assert(out@ =~= old(out)@ + int_text(v as int));
        }
    } else {
        push_digits(out, v as u64);
    }
}

/// Appends a binding's display text.
fn push_binding(out: &mut String, b: &PropertyBinding)
    ensures
        final(out)@ == old(out)@ + binding_text(b.dv()),
{
    proof {
        reveal_strlit("@");
        reveal_strlit("%");
        assert("@"@ =~= seq!['@']);
        assert("%"@ =~= seq!['%']);
    }
    out.append("@");
    match b {
        PropertyBinding::RootIdentifier(s) => {
            out.append(s.as_str());
            proof {
                assert(out@ =~= old(out)@ + binding_text(b.dv()));
            }
        },
        PropertyBinding::NestedIdentifier(ss) => {
            let ghost parts = ss.deep_view();
            let ghost base = out@;
            let mut i: usize = 0;
            #[verifier::loop_isolation(false)]
            while i < ss.len()
                invariant
                    i <= ss.len(),
                    parts.len() == ss@.len(),
                    out@ == base + join_sep(parts.take(i as int), seq!['%']),
                decreases ss.len() - i,
            {
                proof {
                    assert(parts.take(i + 1).drop_last() =~= parts.take(i as int));
                    assert(parts.take(i + 1).last() == parts[i as int]);
                    assert(parts[i as int] == ss@[i as int]@);
                }
                if i > 0 {
                    out.append("%");
                }
                out.append(ss[i].as_str());
                proof {
                    if i == 0 {
                        assert(out@ =~= base + join_sep(parts.take(1int), seq!['%']));
                    } else {
                        assert(out@ =~= base + join_sep(parts.take(i + 1), seq!['%']));
                    }
                }
                i = i + 1;
            }
            proof {
                assert(parts.take(ss@.len() as int) =~= parts);
                assert(out@ =~= old(out)@ + binding_text(b.dv()));
            }
        },
    }
}

/// Appends a value's display text.
fn push_value(out: &mut String, v: &GenericValue)
    ensures
        final(out)@ == old(out)@ + value_text(v.dv()),
{
    match v {
        GenericValue::Text(s) => {
            proof {
                reveal_strlit("\"");
                assert("\""@ =~= seq!['"']);
            }
            out.append("\"");
            out.append(s.as_str());
            out.append("\"");
            proof {
                assert(out@ =~= old(out)@ + value_text(v.dv()));
            }
        },
        GenericValue::Number(n) => {
            push_int(out, *n);
        },
        GenericValue::Binding(b) => {
            push_binding(out, b);
        },
    }
}

/// Appends an attribute accumulator's display text.
fn push_attr_value(out: &mut String, av: &AttributeValue)
    ensures
        final(out)@ == old(out)@ + attr_value_text(av.dv()),
{
    match av {
        AttributeValue::Empty => {
            proof {
                reveal_strlit("<NONE>");
                assert("<NONE>"@ =~= seq!['<', 'N', 'O', 'N', 'E', '>']);
            }
            out.append("<NONE>");
        },
        AttributeValue::Single(v) => {
            push_value(out, v);
        },
        AttributeValue::Multiple(vs) => {
            proof {
                reveal_strlit("{");
                reveal_strlit("}");
                reveal_strlit(", ");
                assert("{"@ =~= seq!['{']);
                assert("}"@ =~= seq!['}']);
                assert(", "@ =~= seq![',', ' ']);
            }
            out.append("{");
            let ghost parts = value_texts(values_dv(vs@));
            let ghost base = out@;
            let mut i: usize = 0;
            #[verifier::loop_isolation(false)]
            while i < vs.len()
                invariant
                    i <= vs.len(),
                    parts.len() == vs@.len(),
                    out@ == base + join_sep(parts.take(i as int), seq![',', ' ']),
                decreases vs.len() - i,
            {
                proof {
                    assert(parts.take(i + 1).drop_last() =~= parts.take(i as int));
                    assert(parts.take(i + 1).last() == parts[i as int]);
                    assert(parts[i as int] == value_text(vs@[i as int].dv()));
                }
                if i > 0 {
                    out.append(", ");
                }
                push_value(out, &vs[i]);
                proof {
                    if i == 0 {
                        assert(out@ =~= base + join_sep(parts.take(1int), seq![',', ' ']));
                    } else {
                        assert(out@ =~= base + join_sep(parts.take(i + 1), seq![',', ' ']));
                    }
                }
                i = i + 1;
            }
            out.append("}");
            proof {
                assert(parts.take(vs@.len() as int) =~= parts);
                assert(out@ =~= old(out)@ + attr_value_text(av.dv()));
            }
        },
    }
}

/// Appends `name=value` for one attribute.
fn push_attr(out: &mut String, a: &Attribute)
    ensures
        final(out)@ == old(out)@ + attr_text(a.dv()),
{
    proof {
        reveal_strlit("=");
        assert("="@ =~= seq!['=']);
    }
    out.append(a.name.as_str());
    out.append("=");
    push_attr_value(out, &a.value);
    proof {
        assert(out@ =~= old(out)@ + attr_text(a.dv()));
    }
}

impl TreeNode {
    /// Appends this node's rendering at the given indentation: one
    /// line per node, children indented two more spaces, a marker for
    /// each non-normal leaf kind.
    #[verifier::rlimit(60)]
    pub fn as_string_impl(&self, result: &mut String, indent: &str)
        ensures
            final(result)@ == old(result)@ + node_text(self.dv(), indent@),
        decreases *self,
    {
        let ghost gind = indent@;
        proof {
            reveal_strlit(" - ");
            reveal_strlit("[CONTENT] ");
            reveal_strlit("[SUBTREE] ");
            reveal_strlit("[COLLECTION] ");
            reveal_strlit("[");
            reveal_strlit("]");
            reveal_strlit(" ");
            reveal_strlit("\n");
            assert(" - "@ =~= dash());
            assert("[CONTENT] "@ =~= marker_content());
            assert("[SUBTREE] "@ =~= marker_subtree());
            assert("[COLLECTION] "@ =~= marker_collection());
            assert("["@ =~= seq!['[']);
            assert("]"@ =~= seq![']']);
            assert(" "@ =~= seq![' ']);
            assert("\n"@ =~= seq!['\n']);
        }
        match self {
            TreeNode::Root(n) => {
                render_children(&n.children, result, "");
                proof {
                    reveal_strlit("");
                    assert(""@ =~= Seq::<char>::empty());
                }
            },
            TreeNode::Normal(n) => {
                result.append(indent);
                result.append(" - ");
                result.append(n.name.as_str());
                if n.attributes.len() > 0 {
                    result.append("[");
                    let ghost parts = attr_texts(attrs_dv(n.attributes@));
                    let ghost base = result@;
                    let mut i: usize = 0;
                    #[verifier::loop_isolation(false)]
                    while i < n.attributes.len()
                        invariant
                            i <= n.attributes.len(),
                            parts.len() == n.attributes@.len(),
                            result@ == base + join_sep(parts.take(i as int), seq![' ']),
                        decreases n.attributes.len() - i,
                    {
                        proof {
                            assert(parts.take(i + 1).drop_last() =~= parts.take(i as int));
                            assert(parts.take(i + 1).last() == parts[i as int]);
                            assert(parts[i as int] == attr_text(n.attributes@[i as int].dv()));
                        }
                        if i > 0 {
                            result.append(" ");
                        }
                        push_attr(result, &n.attributes[i]);
                        proof {
                            if i == 0 {
                                assert(result@ =~= base + join_sep(parts.take(1int), seq![' ']));
                            } else {
                                assert(result@ =~= base + join_sep(parts.take(i + 1), seq![' ']));
                            }
                        }
                        i = i + 1;
                    }
                    result.append("]");
                    proof {
                        assert(parts.take(n.attributes@.len() as int) =~= parts);
                    }
                }
                result.append("\n");
                let mut deeper = indent.to_owned();
                deeper.append("  ");
                proof {
                    reveal_strlit("  ");
                    assert("  "@ =~= seq![' ', ' ']);
                }
                render_children(&n.children, result, deeper.as_str());
                proof {
                    assert(result@ =~= old(result)@ + node_text(self.dv(), gind));
                }
            },
            TreeNode::InnerContent(n) => {
                result.append(indent);
                result.append(" - ");
                result.append("[CONTENT] ");
                push_value(result, &n.value);
                result.append("\n");
                proof {
                    assert(result@ =~= old(result)@ + node_text(self.dv(), gind));
                }
            },
            TreeNode::Subtree(n) => {
                result.append(indent);
                result.append(" - ");
                result.append("[SUBTREE] ");
                push_binding(result, &n.property);
                result.append("\n");
                proof {
                    assert(result@ =~= old(result)@ + node_text(self.dv(), gind));
                }
            },
            TreeNode::Collection(n) => {
                result.append(indent);
                result.append(" - ");
                result.append("[COLLECTION] ");
                push_binding(result, &n.collection);
                result.append("\n");
                let mut deeper = indent.to_owned();
                deeper.append("  ");
                proof {
                    reveal_strlit("  ");
                    assert("  "@ =~= seq![' ', ' ']);
                }
                render_children(&n.nodes, result, deeper.as_str());
                proof {
                    assert(result@ =~= old(result)@ + node_text(self.dv(), gind));
                }
            },
        }
    }

    /// The whole rendering of this node, starting at the outermost
    /// indentation.
    pub fn to_text(&self) -> (r: String)
        ensures
            r@ == node_text(self.dv(), Seq::<char>::empty()),
    {
        let mut out = String::new();
        proof {
            reveal_strlit("");
            assert(""@ =~= Seq::<char>::empty());
        }
        self.as_string_impl(&mut out, "");
        out
    }
}

/// Appends the renderings of a node list, in order.
fn render_children(children: &Vec<TreeNode>, result: &mut String, indent: &str)
    ensures
        final(result)@ == old(result)@ + nodes_text(nodes_dv(children@), indent@),
    decreases children@,
{
    let ghost ms = nodes_dv(children@);
    proof {
        crate::ast::lemma_nodes_dv_pointwise(children@);
    }
    let mut i: usize = 0;
    #[verifier::loop_isolation(false)]
    while i < children.len()
        invariant
            i <= children.len(),
            ms.len() == children@.len(),
            result@ == old(result)@ + nodes_text(ms.take(i as int), indent@),
        decreases children.len() - i,
    {
        proof {
            assert(ms.take(i + 1).drop_last() =~= ms.take(i as int));
            assert(ms.take(i + 1).last() == ms[i as int]);
            assert(ms[i as int] == children@[i as int].dv());
        }
        children[i].as_string_impl(result, indent);
        i = i + 1;
    }
    proof {
        assert(ms.take(children@.len() as int) =~= ms);
    }
}

impl PropertyBinding {
    /// The binding's display text: `@` and its `%`-joined segments.
    pub fn to_text(&self) -> (r: String)
        ensures
            r@ == binding_text(self.dv()),
    {
        let mut out = String::new();
        push_binding(&mut out, self);
        out
    }
}

/// Binding paths round-trip: the binding built from a nonempty
/// segment path displays as `@` followed by the `%`-joined segments,
/// which is exactly the source text the path was parsed from.
pub proof fn lemma_binding_round_trip(segs: Seq<Seq<char>>)
    requires
        segs.len() >= 1,
    ensures
        binding_text(binding_model(segs)) == seq!['@'] + join_sep(segs, seq!['%']),
{
}

} // verus!
