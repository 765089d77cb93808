//! The semantic AST and its building blocks.

use vstd::prelude::*;

use crate::model::{
    AttrModel, AttrValueModel, BindingModel, NodeModel, ValueModel, attr_value_appended,
    attrs_appended, attrs_declared, with_children,
};

verus! {

/// A reference into an external data model: either a single path
/// segment or an ordered list of two or more segments.
#[derive(Debug, Clone, PartialEq)]
pub enum PropertyBinding {
    RootIdentifier(String),
    NestedIdentifier(Vec<String>),
}

impl PropertyBinding {
    /// The binding as a mathematical value.
    pub open spec fn dv(self) -> BindingModel {
        match self {
            PropertyBinding::RootIdentifier(s) => BindingModel::Root(s@),
            PropertyBinding::NestedIdentifier(ss) => BindingModel::Nested(ss.deep_view()),
        }
    }
}

/// A literal or reference usable as an attribute value or text token.
#[derive(Debug, Clone, PartialEq)]
pub enum GenericValue {
    Text(String),
    Number(isize),
    Binding(PropertyBinding),
}

impl GenericValue {
    /// The value as a mathematical value.
    pub open spec fn dv(self) -> ValueModel {
        match self {
            GenericValue::Text(s) => ValueModel::Text(s@),
            GenericValue::Number(n) => ValueModel::Number(n as int),
            GenericValue::Binding(b) => ValueModel::Binding(b.dv()),
        }
    }
}

/// Accumulator for an attribute's value(s): present without a value,
/// a single value, or an ordered list of values.
#[derive(Debug, Clone, PartialEq)]
pub enum AttributeValue {
    Empty,
    Single(GenericValue),
    Multiple(Vec<GenericValue>),
}

pub open spec fn values_dv(s: Seq<GenericValue>) -> Seq<ValueModel> {
    s.map(|i: int, g: GenericValue| g.dv())
}

impl AttributeValue {
    /// The accumulator as a mathematical value.
    pub open spec fn dv(self) -> AttrValueModel {
        match self {
            AttributeValue::Empty => AttrValueModel::Empty,
            AttributeValue::Single(v) => AttrValueModel::Single(v.dv()),
            AttributeValue::Multiple(vs) => AttrValueModel::Multiple(values_dv(vs@)),
        }
    }

    /// Folds one more value into the accumulator: `Empty` becomes
    /// `Single`, `Single` is promoted to `Multiple` holding both in
    /// arrival order, `Multiple` appends in place.
    pub fn append(&mut self, value: GenericValue)
        ensures
            final(self).dv() == attr_value_appended(old(self).dv(), value.dv()),
    {
        let mut taken = AttributeValue::Empty;
        core::mem::swap(self, &mut taken);
        match taken {
            AttributeValue::Empty => {
                *self = AttributeValue::Single(value);
            },
            AttributeValue::Single(first) => {
                let ghost gf = first.dv();
                let mut list: Vec<GenericValue> = Vec::new();
                list.push(first);
                list.push(value);
                proof {
                    assert(values_dv(list@) =~= seq![gf, value.dv()]);
                }
                *self = AttributeValue::Multiple(list);
            },
            AttributeValue::Multiple(mut list) => {
                let ghost gl = values_dv(list@);
                list.push(value);
                proof {
                    assert(values_dv(list@) =~= gl.push(value.dv()));
                }
                *self = AttributeValue::Multiple(list);
            },
        }
    }
}

/// A named attribute of a normal node.
#[derive(Debug, Clone, PartialEq)]
pub struct Attribute {
    pub name: String,
    pub value: AttributeValue,
}

impl Attribute {
    /// The attribute as a mathematical value.
    pub open spec fn dv(self) -> AttrModel {
        AttrModel { name: self.name@, value: self.value.dv() }
    }
}

pub open spec fn attrs_dv(s: Seq<Attribute>) -> Seq<AttrModel> {
    s.map(|i: int, a: Attribute| a.dv())
}

/// The errors the tree builder itself can raise.
#[derive(Debug, Clone, Copy, PartialEq, Eq, Structural)]
pub enum TreeBuildError {
    LeafNodeCantHaveChildren,
    InvalidNumLiteral,
}

/// Unfolds `attrs_appended` at the first index whose name matches.
proof fn lemma_attrs_appended_found(attrs: Seq<AttrModel>, name: Seq<char>, x: ValueModel, i: int)
    requires
        0 <= i < attrs.len(),
        attrs[i].name == name,
        forall|j: int| 0 <= j < i ==> (#[trigger] attrs[j]).name != name,
    ensures
        attrs_appended(attrs, name, x) == attrs.update(
            i,
            AttrModel { name: attrs[i].name, value: attr_value_appended(attrs[i].value, x) },
        ),
    decreases i,
{
    let upd = AttrModel { name: attrs[i].name, value: attr_value_appended(attrs[i].value, x) };
    if i == 0 {
        assert(attrs_appended(attrs, name, x) =~= attrs.update(0, upd));
    } else {
        let rest = attrs.subrange(1, attrs.len() as int);
        lemma_attrs_appended_found(rest, name, x, i - 1);
        assert(seq![attrs[0]] + rest.update(i - 1, upd) =~= attrs.update(i, upd));
    }
}

/// Unfolds `attrs_appended` when no name matches: a new `Single`
/// attribute is pushed at the end.
proof fn lemma_attrs_appended_missing(attrs: Seq<AttrModel>, name: Seq<char>, x: ValueModel)
    requires
        forall|j: int| 0 <= j < attrs.len() ==> (#[trigger] attrs[j]).name != name,
    ensures
        attrs_appended(attrs, name, x) == attrs.push(
            AttrModel { name, value: AttrValueModel::Single(x) },
        ),
    decreases attrs.len(),
{
    let pushed = AttrModel { name, value: AttrValueModel::Single(x) };
    if attrs.len() == 0 {
        assert(attrs_appended(attrs, name, x) =~= attrs.push(pushed));
    } else {
        let rest = attrs.subrange(1, attrs.len() as int);
        lemma_attrs_appended_missing(rest, name, x);
        assert(seq![attrs[0]] + rest.push(pushed) =~= attrs.push(pushed));
    }
}

/// Unfolds `attrs_declared` when some name matches: nothing changes.
proof fn lemma_attrs_declared_found(attrs: Seq<AttrModel>, name: Seq<char>, i: int)
    requires
        0 <= i < attrs.len(),
        attrs[i].name == name,
    ensures
        attrs_declared(attrs, name) == attrs,
    decreases i,
{
    if attrs[0].name != name {
        let rest = attrs.subrange(1, attrs.len() as int);
        lemma_attrs_declared_found(rest, name, i - 1);
        assert(seq![attrs[0]] + rest =~= attrs);
    }
}

/// Unfolds `attrs_declared` when no name matches: an `Empty`
/// attribute is pushed at the end.
proof fn lemma_attrs_declared_missing(attrs: Seq<AttrModel>, name: Seq<char>)
    requires
        forall|j: int| 0 <= j < attrs.len() ==> (#[trigger] attrs[j]).name != name,
    ensures
        attrs_declared(attrs, name) == attrs.push(
            AttrModel { name, value: AttrValueModel::Empty },
        ),
    decreases attrs.len(),
{
    let pushed = AttrModel { name, value: AttrValueModel::Empty };
    if attrs.len() == 0 {
        assert(attrs_declared(attrs, name) =~= attrs.push(pushed));
    } else {
        let rest = attrs.subrange(1, attrs.len() as int);
        lemma_attrs_declared_missing(rest, name);
        assert(seq![attrs[0]] + rest.push(pushed) =~= attrs.push(pushed));
    }
}

/// The pseudo-node wrapping everything at the top level; never itself
/// rendered.
#[derive(Debug)]
pub struct RootTreeNode {
    pub children: Vec<TreeNode>,
}

/// An ordinary named node with attributes and children.
#[derive(Debug)]
pub struct NormalTreeNode {
    pub name: String,
    pub attributes: Vec<Attribute>,
    pub children: Vec<TreeNode>,
}

impl NormalTreeNode {
    /// Appends `value` under `name`: the first attribute already
    /// carrying that name accumulates it, otherwise a new single-valued
    /// attribute is added at the end.
    #[verifier::loop_isolation(false)]
    pub fn append_attribute(&mut self, name: &str, value: GenericValue)
        ensures
            final(self).name == old(self).name,
            final(self).children == old(self).children,
            attrs_dv(final(self).attributes@) == attrs_appended(
                attrs_dv(old(self).attributes@),
                name@,
                value.dv(),
            ),
    {
        let ghost gattrs = attrs_dv(self.attributes@);
        let owned: String = name.to_owned();
        let n = self.attributes.len();
        let mut i: usize = 0;
        while i < n
            invariant
                n == self.attributes.len(),
                i <= n,
                forall|j: int| 0 <= j < i ==> (#[trigger] self.attributes@[j]).name@ != name@,
                *self == *old(self),
            decreases n - i,
        {
            if self.attributes[i].name == owned {
                let ghost gx = value.dv();
                let mut found = self.attributes.remove(i);
                found.value.append(value);
                self.attributes.insert(i, found);
                proof {
                    lemma_attrs_appended_found(gattrs, name@, gx, i as int);
                    assert(attrs_dv(self.attributes@) =~= gattrs.update(
                        i as int,
                        AttrModel {
                            name: gattrs[i as int].name,
                            value: attr_value_appended(gattrs[i as int].value, gx),
                        },
                    ));
                }
                return ;
            }
            i = i + 1;
        }
        let ghost gx = value.dv();
        self.attributes.push(
            Attribute { name: name.to_owned(), value: AttributeValue::Single(value) },
        );
        proof {
            lemma_attrs_appended_missing(gattrs, name@, gx);
            assert(attrs_dv(self.attributes@) =~= gattrs.push(
                AttrModel { name: name@, value: AttrValueModel::Single(gx) },
            ));
        }
    }

    /// Records an attribute written without a value: added with an
    /// empty accumulator when absent, left untouched when present.
    #[verifier::loop_isolation(false)]
    pub fn declare_attribute(&mut self, name: &str)
        ensures
            final(self).name == old(self).name,
            final(self).children == old(self).children,
            attrs_dv(final(self).attributes@) == attrs_declared(
                attrs_dv(old(self).attributes@),
                name@,
            ),
    {
        let ghost gattrs = attrs_dv(self.attributes@);
        let owned: String = name.to_owned();
        let n = self.attributes.len();
        let mut i: usize = 0;
        while i < n
            invariant
                n == self.attributes.len(),
                i <= n,
                forall|j: int| 0 <= j < i ==> (#[trigger] self.attributes@[j]).name@ != name@,
                *self == *old(self),
            decreases n - i,
        {
            if self.attributes[i].name == owned {
                proof {
                    lemma_attrs_declared_found(gattrs, name@, i as int);
                }
                return ;
            }
            i = i + 1;
        }
        self.attributes.push(Attribute { name: name.to_owned(), value: AttributeValue::Empty });
        proof {
            lemma_attrs_declared_missing(gattrs, name@);
            assert(attrs_dv(self.attributes@) =~= gattrs.push(
                AttrModel { name: name@, value: AttrValueModel::Empty },
            ));
        }
    }
}

/// A leaf holding one piece of inner content.
#[derive(Debug, Clone)]
pub struct InnerContentTreeNode {
    pub value: GenericValue,
}

/// A leaf placeholder for an external subtree bound at a path.
#[derive(Debug, Clone)]
pub struct SubtreeTreeNode {
    pub property: PropertyBinding,
}

/// A leaf wrapping template nodes to repeat once per item of a bound
/// collection.
#[derive(Debug)]
pub struct CollectionTreeNode {
    pub nodes: Vec<TreeNode>,
    pub collection: PropertyBinding,
}

/// The semantic AST.  Only `Root` and `Normal` can have children;
/// every other variant is a leaf.
#[derive(Debug)]
pub enum TreeNode {
    Root(RootTreeNode),
    Normal(NormalTreeNode),
    InnerContent(InnerContentTreeNode),
    Subtree(SubtreeTreeNode),
    Collection(CollectionTreeNode),
}

impl TreeNode {
    /// The node as a mathematical value.
    pub open spec fn dv(self) -> NodeModel
        decreases self,
    {
        match self {
            TreeNode::Root(n) => NodeModel::Root { children: nodes_dv(n.children@) },
            TreeNode::Normal(n) => NodeModel::Normal {
                name: n.name@,
                attributes: attrs_dv(n.attributes@),
                children: nodes_dv(n.children@),
            },
            TreeNode::InnerContent(n) => NodeModel::InnerContent { value: n.value.dv() },
            TreeNode::Subtree(n) => NodeModel::Subtree { property: n.property.dv() },
            TreeNode::Collection(n) => NodeModel::Collection {
                nodes: nodes_dv(n.nodes@),
                collection: n.collection.dv(),
            },
        }
    }
}

pub open spec fn nodes_dv(s: Seq<TreeNode>) -> Seq<NodeModel>
    decreases s,
{
    if s.len() == 0 {
        Seq::empty()
    } else {
        seq![s[0].dv()] + nodes_dv(s.subrange(1, s.len() as int))
    }
}

/// `nodes_dv` maps each node to its model, preserving length and
/// order.
pub proof fn lemma_nodes_dv_pointwise(s: Seq<TreeNode>)
    ensures
        nodes_dv(s).len() == s.len(),
        forall|i: int| 0 <= i < s.len() ==> nodes_dv(s)[i] == (#[trigger] s[i]).dv(),
    decreases s.len(),
{
    if s.len() > 0 {
        let tail = s.subrange(1, s.len() as int);
        lemma_nodes_dv_pointwise(tail);
        assert forall|i: int| 0 <= i < s.len() implies nodes_dv(s)[i] == (#[trigger] s[i]).dv() by {
            if i > 0 {
                assert(nodes_dv(s)[i] == nodes_dv(tail)[i - 1]);
                assert(tail[i - 1] == s[i]);
            }
        }
    }
}

/// `nodes_dv` distributes over concatenation.
pub proof fn lemma_nodes_dv_concat(a: Seq<TreeNode>, b: Seq<TreeNode>)
    ensures
        nodes_dv(a + b) == nodes_dv(a) + nodes_dv(b),
    decreases a.len(),
{
    if a.len() == 0 {
        assert(a + b =~= b);
        assert(nodes_dv(a) + nodes_dv(b) =~= nodes_dv(b));
    } else {
        lemma_nodes_dv_concat(a.subrange(1, a.len() as int), b);
        assert((a + b).subrange(1, (a + b).len() as int) =~= a.subrange(1, a.len() as int) + b);
        assert(nodes_dv(a + b) =~= nodes_dv(a) + nodes_dv(b));
    }
}

/// `nodes_dv` of a one-node list.
pub proof fn lemma_nodes_dv_singleton(x: TreeNode)
    ensures
        nodes_dv(seq![x]) == seq![x.dv()],
{
    reveal_with_fuel(nodes_dv, 2);
    assert(seq![x].subrange(1, 1) =~= Seq::<TreeNode>::empty());
    assert(nodes_dv(seq![x]) =~= seq![x.dv()]);
}

/// `nodes_dv` commutes with `push`.
pub proof fn lemma_nodes_dv_push(s: Seq<TreeNode>, x: TreeNode)
    ensures
        nodes_dv(s.push(x)) == nodes_dv(s).push(x.dv()),
{
    lemma_nodes_dv_singleton(x);
    lemma_nodes_dv_concat(s, seq![x]);
    assert(s.push(x) =~= s + seq![x]);
    assert(nodes_dv(s) + seq![x.dv()] =~= nodes_dv(s).push(x.dv()));
}

impl TreeNode {
    /// Extends this node's child list with `extra`, in order.  Only
    /// `Root` and `Normal` nodes accept children; on any leaf variant
    /// the node is left untouched and the leaf-children error is
    /// returned.
    pub fn children_mut(&mut self, extra: Vec<TreeNode>) -> (r: Result<(), TreeBuildError>)
        ensures
            (match with_children(old(self).dv(), nodes_dv(extra@)) {
                Ok(m) => r is Ok && final(self).dv() == m,
                Err(e) => r == Err::<(), TreeBuildError>(e) && *final(self) == *old(self),
            }),
    {
        let ghost gseq = extra@;
        let mut ex = extra;
        match self {
            TreeNode::Root(n) => {
                let ghost before = n.children@;
                n.children.append(&mut ex);
                proof {
                    lemma_nodes_dv_concat(before, gseq);
                }
                Ok(())
            },
            TreeNode::Normal(n) => {
                let ghost before = n.children@;
                n.children.append(&mut ex);
                proof {
                    lemma_nodes_dv_concat(before, gseq);
                }
                Ok(())
            },
            _ => Err(TreeBuildError::LeafNodeCantHaveChildren),
        }
    }
}

impl PropertyBinding {
    /// An independent copy with the same model value.
    pub fn deep_clone(&self) -> (r: PropertyBinding)
        ensures
            r.dv() == self.dv(),
    {
        match self {
            PropertyBinding::RootIdentifier(s) => PropertyBinding::RootIdentifier(s.clone()),
            PropertyBinding::NestedIdentifier(ss) => {
                let mut out: Vec<String> = Vec::new();
                let mut i: usize = 0;
                #[verifier::loop_isolation(false)]
                while i < ss.len()
                    invariant
                        i <= ss.len(),
                        out@.len() == i,
                        forall|k: int| 0 <= k < i ==> out@[k] == ss@[k],
                    decreases ss.len() - i,
                {
                    out.push(ss[i].clone());
                    i = i + 1;
                }
                proof {
                    assert(out@ =~= ss@);
                }
                PropertyBinding::NestedIdentifier(out)
            },
        }
    }
}

impl GenericValue {
    /// An independent copy with the same model value.
    pub fn deep_clone(&self) -> (r: GenericValue)
        ensures
            r.dv() == self.dv(),
    {
        match self {
            GenericValue::Text(s) => GenericValue::Text(s.clone()),
            GenericValue::Number(n) => GenericValue::Number(*n),
            GenericValue::Binding(b) => GenericValue::Binding(b.deep_clone()),
        }
    }
}

impl AttributeValue {
    /// An independent copy with the same model value.
    pub fn deep_clone(&self) -> (r: AttributeValue)
        ensures
            r.dv() == self.dv(),
    {
        match self {
            AttributeValue::Empty => AttributeValue::Empty,
            AttributeValue::Single(v) => AttributeValue::Single(v.deep_clone()),
            AttributeValue::Multiple(vs) => {
                let mut out: Vec<GenericValue> = Vec::new();
                let mut i: usize = 0;
                #[verifier::loop_isolation(false)]
                while i < vs.len()
                    invariant
                        i <= vs.len(),
                        out@.len() == i,
                        forall|k: int| 0 <= k < i ==> (#[trigger] out@[k]).dv() == vs@[k].dv(),
                    decreases vs.len() - i,
                {
                    out.push(vs[i].deep_clone());
                    i = i + 1;
                }
                proof {
                    assert(values_dv(out@) =~= values_dv(vs@));
                }
                AttributeValue::Multiple(out)
            },
        }
    }
}

impl Attribute {
    /// An independent copy with the same model value.
    pub fn deep_clone(&self) -> (r: Attribute)
        ensures
            r.dv() == self.dv(),
    {
        Attribute { name: self.name.clone(), value: self.value.deep_clone() }
    }
}

/// An independent copy of an attribute list with the same model value.
fn clone_attrs(v: &Vec<Attribute>) -> (r: Vec<Attribute>)
    ensures
        attrs_dv(r@) == attrs_dv(v@),
{
    let mut out: Vec<Attribute> = Vec::new();
    let mut i: usize = 0;
    #[verifier::loop_isolation(false)]
    while i < v.len()
        invariant
            i <= v.len(),
            out@.len() == i,
            forall|k: int| 0 <= k < i ==> (#[trigger] out@[k]).dv() == v@[k].dv(),
        decreases v.len() - i,
    {
        out.push(v[i].deep_clone());
        i = i + 1;
    }
    proof {
        assert(attrs_dv(out@) =~= attrs_dv(v@));
    }
    out
}

impl TreeNode {
    /// An independent deep copy: clones share no storage with the
    /// original, and the copy's model value is identical.
    pub fn deep_clone(&self) -> (r: TreeNode)
        ensures
            r.dv() == self.dv(),
        decreases *self,
    {
        match self {
            TreeNode::Root(n) => TreeNode::Root(
                RootTreeNode { children: clone_nodes(&n.children) },
            ),
            TreeNode::Normal(n) => TreeNode::Normal(
                NormalTreeNode {
                    name: n.name.clone(),
                    attributes: clone_attrs(&n.attributes),
                    children: clone_nodes(&n.children),
                },
            ),
            TreeNode::InnerContent(n) => TreeNode::InnerContent(
                InnerContentTreeNode { value: n.value.deep_clone() },
            ),
            TreeNode::Subtree(n) => TreeNode::Subtree(
                SubtreeTreeNode { property: n.property.deep_clone() },
            ),
            TreeNode::Collection(n) => TreeNode::Collection(
                CollectionTreeNode {
                    nodes: clone_nodes(&n.nodes),
                    collection: n.collection.deep_clone(),
                },
            ),
        }
    }
}

/// An independent deep copy of a node list with the same model value.
pub fn clone_nodes(v: &Vec<TreeNode>) -> (r: Vec<TreeNode>)
    ensures
        nodes_dv(r@) == nodes_dv(v@),
    decreases v@,
{
    let mut out: Vec<TreeNode> = Vec::new();
    let mut i: usize = 0;
    #[verifier::loop_isolation(false)]
    while i < v.len()
        invariant
            i <= v.len(),
            out@.len() == i,
            forall|k: int| 0 <= k < i ==> (#[trigger] out@[k]).dv() == v@[k].dv(),
        decreases v.len() - i,
    {
        out.push(v[i].deep_clone());
        i = i + 1;
    }
    proof {
        lemma_nodes_dv_pointwise(out@);
        lemma_nodes_dv_pointwise(v@);
        assert forall|k: int| 0 <= k < v@.len() implies nodes_dv(out@)[k] == nodes_dv(v@)[k] by {
            assert(out@[k].dv() == v@[k].dv());
        }
        assert(nodes_dv(out@) =~= nodes_dv(v@));
    }
    out
}

} // verus!
