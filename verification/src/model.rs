//! Mathematical models of the abbreviation language.
//!
//! The types here mirror the executable syntax tree and AST at the
//! specification level (`Seq`, `int`), and the `spec` functions define
//! what the tree builder computes: operator composition, multiplier
//! expansion, grouping scope, attribute accumulation and value
//! resolution.  Every executable function's contract is stated against
//! these definitions.

use vstd::prelude::*;

use crate::ast::TreeBuildError;
use crate::chars::digit_val;

verus! {

// ---------------------------------------------------------------------
// Models of the semantic AST.
// ---------------------------------------------------------------------
/// A reference into the external data model: one segment, or two or
/// more segments.
pub enum BindingModel {
    Root(Seq<char>),
    Nested(Seq<Seq<char>>),
}

/// A literal or reference usable as an attribute value or text token.
pub enum ValueModel {
    Text(Seq<char>),
    Number(int),
    Binding(BindingModel),
}

/// The accumulator for one attribute's value(s).
pub enum AttrValueModel {
    Empty,
    Single(ValueModel),
    Multiple(Seq<ValueModel>),
}

/// One named attribute of a normal node.
pub struct AttrModel {
    pub name: Seq<char>,
    pub value: AttrValueModel,
}

/// The semantic AST: only `Root` and `Normal` may carry children.
pub enum NodeModel {
    Root { children: Seq<NodeModel> },
    Normal { name: Seq<char>, attributes: Seq<AttrModel>, children: Seq<NodeModel> },
    InnerContent { value: ValueModel },
    Subtree { property: BindingModel },
    Collection { nodes: Seq<NodeModel>, collection: BindingModel },
}

// ---------------------------------------------------------------------
// Models of the parse tree, one variant per grammar rule.
// ---------------------------------------------------------------------
/// A value token: identifier, number (kept as its source text until
/// the builder resolves it), string content, or binding path.
pub enum ValueStx {
    Ident(Seq<char>),
    Number(Seq<char>),
    Str(Seq<char>),
    Binding(Seq<Seq<char>>),
}

/// One attribute inside a bracketed attribute list; the value is
/// absent when the attribute is written without `=`.
pub struct AttrStx {
    pub name: Seq<char>,
    pub value: Option<ValueStx>,
}

/// A suffix of a node: `#id`, `.class`, or a bracketed attribute list.
pub enum PropStx {
    Id(Seq<char>),
    Class(Seq<char>),
    Attrs(Seq<AttrStx>),
}

/// A multiplier: `*` followed by a number token or a binding path.
pub enum MultStx {
    Count(Seq<char>),
    Binding(Seq<Seq<char>>),
}

/// A term: node, text node, node binding, or parenthesized group.
pub enum TermStx {
    Node { name: Seq<char>, props: Seq<PropStx> },
    Text(Seq<ValueStx>),
    NodeBinding(Seq<Seq<char>>),
    Group(ExprStx),
}

/// A term together with its optional multiplier.
pub struct ElemStx {
    pub term: TermStx,
    pub mult: Option<MultStx>,
}

/// The operator between two consecutive expression elements.
pub enum OpStx {
    Child,
    Sibling,
}

/// An expression: `elems[0] ops[0] elems[1] ops[1] ... elems[n]`.
pub struct ExprStx {
    pub elems: Seq<ElemStx>,
    pub ops: Seq<OpStx>,
}

// ---------------------------------------------------------------------
// Structural well-formedness of the parse tree, established by the
// grammar: an expression always has at least one element, with exactly
// one operator between consecutive elements, recursively.
// ---------------------------------------------------------------------
pub open spec fn wf_expr(e: ExprStx) -> bool
    decreases e,
{
    &&& e.elems.len() >= 1
    &&& e.ops.len() == e.elems.len() - 1
    &&& wf_elems(e.elems)
}

pub open spec fn wf_elems(s: Seq<ElemStx>) -> bool
    decreases s,
{
    forall|i: int| 0 <= i < s.len() ==> wf_elem(#[trigger] s[i])
}

pub open spec fn wf_elem(el: ElemStx) -> bool
    decreases el,
{
    &&& wf_term(el.term)
    &&& match el.mult {
        Some(m) => wf_mult(m),
        None => true,
    }
}

pub open spec fn wf_term(t: TermStx) -> bool
    decreases t,
{
    match t {
        TermStx::Node { name, props } => wf_props(props),
        TermStx::Text(vals) => vals.len() >= 1 && wf_values(vals),
        TermStx::NodeBinding(segs) => segs.len() >= 1,
        TermStx::Group(inner) => wf_expr(inner),
    }
}

pub open spec fn wf_props(s: Seq<PropStx>) -> bool {
    forall|i: int| 0 <= i < s.len() ==> wf_prop(#[trigger] s[i])
}

pub open spec fn wf_values(s: Seq<ValueStx>) -> bool {
    forall|i: int| 0 <= i < s.len() ==> wf_value(#[trigger] s[i])
}

pub open spec fn wf_attrs(s: Seq<AttrStx>) -> bool {
    forall|i: int| 0 <= i < s.len() ==> wf_attr(#[trigger] s[i])
}

pub open spec fn wf_prop(p: PropStx) -> bool {
    match p {
        PropStx::Attrs(list) => wf_attrs(list),
        _ => true,
    }
}

pub open spec fn wf_attr(a: AttrStx) -> bool {
    match a.value {
        Some(v) => wf_value(v),
        None => true,
    }
}

pub open spec fn wf_value(v: ValueStx) -> bool {
    match v {
        ValueStx::Number(tok) => num_token_wf(tok),
        ValueStx::Binding(segs) => segs.len() >= 1,
        _ => true,
    }
}

pub open spec fn wf_mult(m: MultStx) -> bool {
    match m {
        MultStx::Count(tok) => num_token_wf(tok),
        MultStx::Binding(segs) => segs.len() >= 1,
    }
}

/// Every character is a decimal digit.
pub open spec fn all_digits(s: Seq<char>) -> bool {
    forall|i: int| 0 <= i < s.len() ==> crate::chars::is_digit(#[trigger] s[i])
}

/// The shape of a number token: an optional leading `-`, then one or
/// more digits.
pub open spec fn num_token_wf(s: Seq<char>) -> bool {
    if s.len() == 0 {
        false
    } else if s[0] == '-' {
        s.len() >= 2 && all_digits(s.subrange(1, s.len() as int))
    } else {
        all_digits(s)
    }
}

// ---------------------------------------------------------------------
// Value and binding resolution.
// ---------------------------------------------------------------------
/// One path segment makes a root identifier; several make a nested one.
pub open spec fn binding_model(segs: Seq<Seq<char>>) -> BindingModel {
    if segs.len() == 1 {
        BindingModel::Root(segs[0])
    } else {
        BindingModel::Nested(segs)
    }
}

/// The value of a sequence of decimal digit characters.
pub open spec fn digits_val(s: Seq<char>) -> int
    decreases s.len(),
{
    if s.len() == 0 {
        0
    } else {
        digits_val(s.drop_last()) * 10 + digit_val(s.last())
    }
}

/// The signed value of a number token: an optional leading `-`, then
/// digits.
pub open spec fn num_val(s: Seq<char>) -> int {
    if s.len() > 0 && s[0] == '-' {
        -digits_val(s.subrange(1, s.len() as int))
    } else {
        digits_val(s)
    }
}

/// Whether a number token's value fits the target signed-integer
/// width; a token that does not is a build error, not a parse error.
pub open spec fn num_fits(s: Seq<char>) -> bool {
    isize::MIN <= num_val(s) && num_val(s) <= isize::MAX
}

/// Resolves one grammar value token to a semantic value.
pub open spec fn value_model(v: ValueStx) -> Result<ValueModel, TreeBuildError> {
    match v {
        ValueStx::Ident(s) => Ok(ValueModel::Text(s)),
        ValueStx::Number(tok) => if num_fits(tok) {
            Ok(ValueModel::Number(num_val(tok)))
        } else {
            Err(TreeBuildError::InvalidNumLiteral)
        },
        ValueStx::Str(s) => Ok(ValueModel::Text(s)),
        ValueStx::Binding(segs) => Ok(ValueModel::Binding(binding_model(segs))),
    }
}

// ---------------------------------------------------------------------
// Attribute accumulation.
// ---------------------------------------------------------------------
/// The accumulator's step: `Empty` to `Single`, `Single` to `Multiple`
/// of both in arrival order, `Multiple` appends in place.
pub open spec fn attr_value_appended(v: AttrValueModel, x: ValueModel) -> AttrValueModel {
    match v {
        AttrValueModel::Empty => AttrValueModel::Single(x),
        AttrValueModel::Single(first) => AttrValueModel::Multiple(seq![first, x]),
        AttrValueModel::Multiple(l) => AttrValueModel::Multiple(l.push(x)),
    }
}

/// Appends a value under `name`: the first attribute with that name
/// accumulates it; if none exists, a new `Single` attribute is pushed.
pub open spec fn attrs_appended(attrs: Seq<AttrModel>, name: Seq<char>, x: ValueModel) -> Seq<
    AttrModel,
>
    decreases attrs.len(),
{
    if attrs.len() == 0 {
        seq![AttrModel { name, value: AttrValueModel::Single(x) }]
    } else if attrs[0].name == name {
        seq![
            AttrModel { name: attrs[0].name, value: attr_value_appended(attrs[0].value, x) },
        ] + attrs.subrange(1, attrs.len() as int)
    } else {
        seq![attrs[0]] + attrs_appended(attrs.subrange(1, attrs.len() as int), name, x)
    }
}

/// Records an attribute written without a value: if absent it is added
/// with an `Empty` accumulator, otherwise the list is unchanged.
pub open spec fn attrs_declared(attrs: Seq<AttrModel>, name: Seq<char>) -> Seq<AttrModel>
    decreases attrs.len(),
{
    if attrs.len() == 0 {
        seq![AttrModel { name, value: AttrValueModel::Empty }]
    } else if attrs[0].name == name {
        attrs
    } else {
        seq![attrs[0]] + attrs_declared(attrs.subrange(1, attrs.len() as int), name)
    }
}

/// Applies one parsed attribute to the accumulated attribute list.
pub open spec fn attr_step(attrs: Seq<AttrModel>, a: AttrStx) -> Result<
    Seq<AttrModel>,
    TreeBuildError,
> {
    match a.value {
        Some(v) => match value_model(v) {
            Ok(x) => Ok(attrs_appended(attrs, a.name, x)),
            Err(e) => Err(e),
        },
        None => Ok(attrs_declared(attrs, a.name)),
    }
}

/// Applies a bracketed attribute list, left to right.
pub open spec fn attr_list_fold(attrs: Seq<AttrModel>, list: Seq<AttrStx>) -> Result<
    Seq<AttrModel>,
    TreeBuildError,
>
    decreases list.len(),
{
    if list.len() == 0 {
        Ok(attrs)
    } else {
        match attr_list_fold(attrs, list.drop_last()) {
            Ok(acc) => attr_step(acc, list.last()),
            Err(e) => Err(e),
        }
    }
}

/// Applies one node suffix: `#id` and `.class` append under the
/// reserved names, an attribute list is folded in.
pub open spec fn prop_step(attrs: Seq<AttrModel>, p: PropStx) -> Result<
    Seq<AttrModel>,
    TreeBuildError,
> {
    match p {
        PropStx::Id(s) => Ok(attrs_appended(attrs, "id"@, ValueModel::Text(s))),
        PropStx::Class(s) => Ok(attrs_appended(attrs, "class"@, ValueModel::Text(s))),
        PropStx::Attrs(list) => attr_list_fold(attrs, list),
    }
}

/// Applies all node suffixes, left to right.
pub open spec fn props_fold(attrs: Seq<AttrModel>, props: Seq<PropStx>) -> Result<
    Seq<AttrModel>,
    TreeBuildError,
>
    decreases props.len(),
{
    if props.len() == 0 {
        Ok(attrs)
    } else {
        match props_fold(attrs, props.drop_last()) {
            Ok(acc) => prop_step(acc, props.last()),
            Err(e) => Err(e),
        }
    }
}

/// The childless normal node a `node` rule produces.
pub open spec fn node_model(name: Seq<char>, props: Seq<PropStx>) -> Result<
    NodeModel,
    TreeBuildError,
> {
    match props_fold(Seq::empty(), props) {
        Ok(attrs) => Ok(
            NodeModel::Normal { name, attributes: attrs, children: Seq::empty() },
        ),
        Err(e) => Err(e),
    }
}

// ---------------------------------------------------------------------
// Text nodes.
// ---------------------------------------------------------------------
/// The single-space content node inserted between consecutive text
/// tokens.
pub open spec fn space_content() -> NodeModel {
    NodeModel::InnerContent { value: ValueModel::Text(seq![' ']) }
}

/// Each token becomes its own content node, with an explicit space
/// node between consecutive tokens (never before the first).
pub open spec fn text_models(vals: Seq<ValueStx>) -> Result<Seq<NodeModel>, TreeBuildError>
    decreases vals.len(),
{
    if vals.len() == 0 {
        Ok(Seq::empty())
    } else {
        match (text_models(vals.drop_last()), value_model(vals.last())) {
            (Ok(pre), Ok(x)) => if vals.len() == 1 {
                Ok(seq![NodeModel::InnerContent { value: x }])
            } else {
                Ok(pre + seq![space_content(), NodeModel::InnerContent { value: x }])
            },
            (Err(e), _) => Err(e),
            (_, Err(e)) => Err(e),
        }
    }
}

// ---------------------------------------------------------------------
// Composition.
// ---------------------------------------------------------------------
/// `n` structurally identical copies of a node list, concatenated.
pub open spec fn repeat_nodes(s: Seq<NodeModel>, n: nat) -> Seq<NodeModel>
    decreases n,
{
    if n == 0 {
        Seq::empty()
    } else {
        repeat_nodes(s, (n - 1) as nat) + s
    }
}

/// Extends a node's child list; only `Root` and `Normal` accept
/// children, every other variant is a leaf.
pub open spec fn with_children(node: NodeModel, extra: Seq<NodeModel>) -> Result<
    NodeModel,
    TreeBuildError,
> {
    match node {
        NodeModel::Root { children } => Ok(NodeModel::Root { children: children + extra }),
        NodeModel::Normal { name, attributes, children } => Ok(
            NodeModel::Normal { name, attributes, children: children + extra },
        ),
        _ => Err(TreeBuildError::LeafNodeCantHaveChildren),
    }
}

/// The last produced node, if any: the only node eligible to receive
/// children from a following `>`.
pub open spec fn last_of(s: Seq<NodeModel>) -> Option<NodeModel> {
    if s.len() == 0 {
        None
    } else {
        Some(s.last())
    }
}

/// Everything before the last produced node: already-final siblings.
pub open spec fn front_of(s: Seq<NodeModel>) -> Seq<NodeModel> {
    if s.len() == 0 {
        s
    } else {
        s.drop_last()
    }
}

pub open spec fn opt_seq(c: Option<NodeModel>) -> Seq<NodeModel> {
    match c {
        Some(n) => seq![n],
        None => Seq::empty(),
    }
}

/// What one element produces: its term's nodes, repeated by a numeric
/// multiplier (nothing when the count is zero or negative), or wrapped
/// in a single collection node by a binding multiplier.
pub open spec fn build_elem(el: ElemStx) -> Result<Seq<NodeModel>, TreeBuildError>
    decreases el, 0int, 0int,
{
    match build_term(el.term) {
        Err(e) => Err(e),
        Ok(base) => match el.mult {
            None => Ok(base),
            Some(MultStx::Count(tok)) => if num_fits(tok) {
                Ok(
                    repeat_nodes(
                        base,
                        if num_val(tok) <= 0 {
                            0nat
                        } else {
                            num_val(tok) as nat
                        },
                    ),
                )
            } else {
                Err(TreeBuildError::InvalidNumLiteral)
            },
            Some(MultStx::Binding(segs)) => Ok(
                seq![NodeModel::Collection { nodes: base, collection: binding_model(segs) }],
            ),
        },
    }
}

/// What one term produces; a group recursively produces its interior
/// expression's full result list.
pub open spec fn build_term(t: TermStx) -> Result<Seq<NodeModel>, TreeBuildError>
    decreases t, 0int, 0int,
{
    match t {
        TermStx::Node { name, props } => match node_model(name, props) {
            Ok(n) => Ok(seq![n]),
            Err(e) => Err(e),
        },
        TermStx::Text(vals) => text_models(vals),
        TermStx::NodeBinding(segs) => Ok(
            seq![NodeModel::Subtree { property: binding_model(segs) }],
        ),
        TermStx::Group(inner) => build_expr(inner),
    }
}

/// The result list of one nesting level, starting at element `i`.
pub open spec fn build_level(e: ExprStx, i: int) -> Result<Seq<NodeModel>, TreeBuildError>
    decreases e, e.ops.len() - i, 1int,
{
    if i < 0 || i >= e.elems.len() {
        Ok(Seq::empty())
    } else {
        match build_elem(e.elems[i]) {
            Ok(produced) => build_tail(e, i, front_of(produced), last_of(produced)),
            Err(er) => Err(er),
        }
    }
}

/// Consumes the operators from `ops[i]` on.  `done` holds the nodes
/// already final at this level and `current` the node eligible for
/// children.  A `+` finalizes `current` and moves on; a `>` builds the
/// entire remainder as `current`'s children and stops.
pub open spec fn build_tail(
    e: ExprStx,
    i: int,
    done: Seq<NodeModel>,
    current: Option<NodeModel>,
) -> Result<Seq<NodeModel>, TreeBuildError>
    decreases e, e.ops.len() - i, 0int,
{
    if i < 0 || i >= e.ops.len() {
        Ok(done + opt_seq(current))
    } else {
        match e.ops[i] {
            OpStx::Sibling => {
                if i + 1 >= e.elems.len() {
                    Ok(done + opt_seq(current))
                } else {
                    match build_elem(e.elems[i + 1]) {
                        Ok(produced) => build_tail(
                            e,
                            i + 1,
                            done + opt_seq(current) + front_of(produced),
                            last_of(produced),
                        ),
                        Err(er) => Err(er),
                    }
                }
            },
            OpStx::Child => match build_level(e, i + 1) {
                Ok(children) => match current {
                    Some(c) => match with_children(c, children) {
                        Ok(c2) => Ok(done + seq![c2]),
                        Err(er) => Err(er),
                    },
                    None => Ok(done + children),
                },
                Err(er) => Err(er),
            },
        }
    }
}

/// The ordered list of nodes an expression produces at its own level.
pub open spec fn build_expr(e: ExprStx) -> Result<Seq<NodeModel>, TreeBuildError>
    decreases e, e.ops.len() + 2, 0int,
{
    build_level(e, 0)
}

/// Once a prefix of an attribute list fails to fold, the whole list
/// fails with the same error.
pub proof fn lemma_attr_list_fold_err(
    attrs: Seq<AttrModel>,
    list: Seq<AttrStx>,
    j: int,
    e: TreeBuildError,
)
    requires
        0 <= j <= list.len(),
        attr_list_fold(attrs, list.take(j)) == Err::<Seq<AttrModel>, TreeBuildError>(e),
    ensures
        attr_list_fold(attrs, list) == Err::<Seq<AttrModel>, TreeBuildError>(e),
    decreases list.len() - j,
{
    if j < list.len() {
        assert(list.take(j + 1).drop_last() =~= list.take(j));
        assert(list.take(j + 1).last() == list[j]);
        lemma_attr_list_fold_err(attrs, list, j + 1, e);
    } else {
        assert(list.take(j) =~= list);
    }
}

/// Once a prefix of the suffix list fails to fold, the whole list
/// fails with the same error.
pub proof fn lemma_props_fold_err(
    attrs: Seq<AttrModel>,
    props: Seq<PropStx>,
    j: int,
    e: TreeBuildError,
)
    requires
        0 <= j <= props.len(),
        props_fold(attrs, props.take(j)) == Err::<Seq<AttrModel>, TreeBuildError>(e),
    ensures
        props_fold(attrs, props) == Err::<Seq<AttrModel>, TreeBuildError>(e),
    decreases props.len() - j,
{
    if j < props.len() {
        assert(props.take(j + 1).drop_last() =~= props.take(j));
        assert(props.take(j + 1).last() == props[j]);
        lemma_props_fold_err(attrs, props, j + 1, e);
    } else {
        assert(props.take(j) =~= props);
    }
}

/// Once a prefix of a text node's tokens fails to resolve, the whole
/// sequence fails with the same error.
pub proof fn lemma_text_models_err(vals: Seq<ValueStx>, j: int, e: TreeBuildError)
    requires
        0 < j <= vals.len(),
        text_models(vals.take(j)) == Err::<Seq<NodeModel>, TreeBuildError>(e),
    ensures
        text_models(vals) == Err::<Seq<NodeModel>, TreeBuildError>(e),
    decreases vals.len() - j,
{
    if j < vals.len() {
        assert(vals.take(j + 1).drop_last() =~= vals.take(j));
        assert(vals.take(j + 1).last() == vals[j]);
        lemma_text_models_err(vals, j + 1, e);
    } else {
        assert(vals.take(j) =~= vals);
    }
}

/// A numeric multiplier produces structurally identical copies: the
/// repetition of a node list is `n` consecutive blocks, each equal to
/// the template list.
pub proof fn lemma_repeat_nodes(s: Seq<NodeModel>, n: nat)
    ensures
        repeat_nodes(s, n).len() == n * s.len(),
        forall|i: int|
            0 <= i < repeat_nodes(s, n).len() ==> #[trigger] repeat_nodes(s, n)[i] == s[i % (
            s.len() as int)],
    decreases n,
{
    if n > 0 {
        let m = (n - 1) as nat;
        lemma_repeat_nodes(s, m);
        assert(repeat_nodes(s, n) == repeat_nodes(s, m) + s);
        assert(m * s.len() + s.len() == n * s.len()) by (nonlinear_arith)
            requires
                m == n - 1,
        ;
        assert(repeat_nodes(s, n).len() == n * s.len());
        assert forall|i: int|
            0 <= i < repeat_nodes(s, n).len() implies #[trigger] repeat_nodes(s, n)[i] == s[i % (
        s.len() as int)] by {
            let len = s.len() as int;
            if i < m * s.len() {
                assert(repeat_nodes(s, n)[i] == repeat_nodes(s, m)[i]);
            } else {
                assert(repeat_nodes(s, n)[i] == s[i - m * len]);
                assert((i - m * len) == i % len) by (nonlinear_arith)
                    requires
                        len > 0 && m * len <= i < m * len + len,
                ;
            }
        }
    } else {
        assert(n * s.len() == 0) by (nonlinear_arith)
            requires
                n == 0,
        ;
    }
}

/// A text node's content alternates tokens and single spaces: with
/// `k` tokens the result has `2k - 1` nodes, every odd position is
/// the space node, and position `2j` carries the resolved value of
/// token `j`.
pub proof fn lemma_text_models_shape(vals: Seq<ValueStx>, ms: Seq<NodeModel>)
    requires
        text_models(vals) == Ok::<Seq<NodeModel>, TreeBuildError>(ms),
        vals.len() >= 1,
    ensures
        ms.len() == 2 * vals.len() - 1,
        forall|i: int| 0 <= i < ms.len() && i % 2 == 1 ==> #[trigger] ms[i] == space_content(),
        forall|j: int|
            0 <= j < vals.len() ==> (value_model(#[trigger] vals[j]) matches Ok(x) && ms[2 * j]
                == (NodeModel::InnerContent { value: x })),
    decreases vals.len(),
{
    let pre_vals = vals.drop_last();
    if vals.len() == 1 {
    } else {
        let pre = match text_models(pre_vals) {
            Ok(p) => p,
            Err(_) => Seq::empty(),
        };
        lemma_text_models_shape(pre_vals, pre);
        assert forall|j: int|
            0 <= j < vals.len() implies (value_model(#[trigger] vals[j]) matches Ok(x) && ms[2 * j]
            == (NodeModel::InnerContent { value: x })) by {
            if j < vals.len() - 1 {
                assert(pre_vals[j] == vals[j]);
                assert(ms[2 * j] == pre[2 * j]);
            }
        }
    }
}

/// Grouping scope: a parenthesized group produces exactly its
/// interior expression's full result list, so the group's internal
/// sibling chain is resolved before any operator outside it.
pub proof fn lemma_group_produces_inner_level(inner: ExprStx)
    ensures
        build_term(TermStx::Group(inner)) == build_expr(inner),
{
}

/// Child capture: at a `>` the entire remainder of the expression is
/// built as one fresh level and becomes the current node's children;
/// the current node, so extended, closes its own level.
pub proof fn lemma_child_captures_remainder(
    e: ExprStx,
    i: int,
    done: Seq<NodeModel>,
    current: NodeModel,
    children: Seq<NodeModel>,
    extended: NodeModel,
)
    requires
        0 <= i < e.ops.len(),
        e.ops[i] == OpStx::Child,
        build_level(e, i + 1) == Ok::<Seq<NodeModel>, TreeBuildError>(children),
        with_children(current, children) == Ok::<NodeModel, TreeBuildError>(extended),
    ensures
        build_tail(e, i, done, Some(current)) == Ok::<Seq<NodeModel>, TreeBuildError>(
            done + seq![extended],
        ),
{
}

/// Sibling independence: a `+` finalizes the current node unchanged
/// and hands the eligible role to the next element's last node; the
/// nodes already final are never touched again.
pub proof fn lemma_sibling_finalizes_current(
    e: ExprStx,
    i: int,
    done: Seq<NodeModel>,
    current: Option<NodeModel>,
    produced: Seq<NodeModel>,
)
    requires
        0 <= i < e.ops.len(),
        i + 1 < e.elems.len(),
        e.ops[i] == OpStx::Sibling,
        build_elem(e.elems[i + 1]) == Ok::<Seq<NodeModel>, TreeBuildError>(produced),
    ensures
        build_tail(e, i, done, current) == build_tail(
            e,
            i + 1,
            done + opt_seq(current) + front_of(produced),
            last_of(produced),
        ),
{
}

/// The whole compilation result: the expression's nodes wrapped in a
/// root pseudo-node.
pub open spec fn tree_model(e: ExprStx) -> Result<NodeModel, TreeBuildError> {
    match build_expr(e) {
        Ok(children) => Ok(NodeModel::Root { children }),
        Err(er) => Err(er),
    }
}

} // verus!
