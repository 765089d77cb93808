//! The tree builder: reduces the parse tree to the semantic AST,
//! implementing operator composition, multiplier expansion, grouping
//! scope and value resolution exactly as the model defines them.

use vstd::prelude::*;
use vstd::string::StrSliceExecFns;

use crate::ast::{
    CollectionTreeNode, GenericValue, InnerContentTreeNode, NormalTreeNode, PropertyBinding,
    RootTreeNode, SubtreeTreeNode, TreeBuildError, TreeNode, attrs_dv, clone_nodes,
    lemma_nodes_dv_concat, lemma_nodes_dv_pointwise, lemma_nodes_dv_push, nodes_dv,
};
use crate::chars::is_digit;
use crate::model;
use crate::model::{
    NodeModel, all_digits, binding_model, digits_val, num_fits, num_token_wf, num_val,
    wf_attr, wf_elem, wf_expr, wf_prop, wf_term, wf_value,
};
use crate::syntax::{
    ElementSyntax, ExprSyntax, MultiplierSyntax, OpSyntax, PropSyntax, TermSyntax, ValueSyntax,
    attrs_stx_dv, elems_dv, lemma_elems_dv_pointwise, props_stx_dv, values_stx_dv,
};

verus! {

/// A digit-only sequence has a value of at least zero.
proof fn lemma_digits_val_nonneg(s: Seq<char>)
    requires
        all_digits(s),
    ensures
        digits_val(s) >= 0,
    decreases s.len(),
{
    if s.len() > 0 {
        assert(all_digits(s.drop_last()));
        lemma_digits_val_nonneg(s.drop_last());
    }
}

/// Extending a digit sequence on the right never shrinks its value.
proof fn lemma_digits_val_mono(s: Seq<char>, b: int, c: int)
    requires
        0 <= b <= c <= s.len(),
        all_digits(s),
    ensures
        digits_val(s.take(b)) <= digits_val(s.take(c)),
    decreases c - b,
{
    if b < c {
        lemma_digits_val_mono(s, b, c - 1);
        assert(s.take(c).drop_last() =~= s.take(c - 1));
        assert(all_digits(s.take(c - 1)));
        lemma_digits_val_nonneg(s.take(c - 1));
    }
}

/// Resolves a number token to a signed integer; the token's value
/// must fit the target width, otherwise the invalid-number error is
/// returned.
pub fn number_value(tok: &str) -> (r: Result<isize, TreeBuildError>)
    requires
        num_token_wf(tok@),
    ensures
        num_fits(tok@) ==> (r matches Ok(n) && n as int == num_val(tok@)),
        !num_fits(tok@) ==> r == Err::<isize, TreeBuildError>(TreeBuildError::InvalidNumLiteral),
{
    let n = tok.unicode_len();
    let neg = tok.get_char(0) == '-';
    let start: usize = if neg {
        1
    } else {
        0
    };
    let ghost digs = tok@.subrange(start as int, n as int);
    proof {
        if neg {
            assert(digs =~= tok@.subrange(1, tok@.len() as int));
        } else {
            assert(digs =~= tok@);
        }
        assert(all_digits(digs));
    }
    // `acc` accumulates the negated magnitude, so the most negative
    // representable literal is still reachable.
    let mut acc: isize = 0;
    let mut i: usize = start;
    #[verifier::loop_isolation(false)]
    while i < n
        invariant
            start <= i <= n,
            acc <= 0,
            acc as int == -digits_val(digs.take(i - start)),
        decreases n - i,
    {
        let c = tok.get_char(i);
        proof {
            assert(digs[i - start] == tok@[i as int]);
            assert(is_digit(c));
        }
        let du: u32 = c as u32 - 48;
        let d: isize = du as isize;
        let ghost prev = digs.take(i - start);
        let ghost cur = digs.take(i + 1 - start);
        proof {
            assert(cur.drop_last() =~= prev);
            assert(cur.last() == digs[i - start]);
            assert(digits_val(cur) == digits_val(prev) * 10 + (d as int));
        }
        let shifted = match acc.checked_mul(10) {
            Some(v) => v,
            None => {
                proof {
                    lemma_number_too_large(tok@, digs, start as int, i + 1 - start);
                }
                return Err(TreeBuildError::InvalidNumLiteral);
            },
        };
        let next = match shifted.checked_sub(d) {
            Some(v) => v,
            None => {
                proof {
                    lemma_number_too_large(tok@, digs, start as int, i + 1 - start);
                }
                return Err(TreeBuildError::InvalidNumLiteral);
            },
        };
        acc = next;
        i = i + 1;
    }
    proof {
        assert(digs.take(n - start) =~= digs);
    }
    if neg {
        Ok(acc)
    } else if acc == isize::MIN {
        proof {
            assert(num_val(tok@) == digits_val(digs));
        }
        Err(TreeBuildError::InvalidNumLiteral)
    } else {
        Ok(-acc)
    }
}

/// A digit prefix whose magnitude already exceeds the representable
/// range makes the whole token unrepresentable.
proof fn lemma_number_too_large(tok: Seq<char>, digs: Seq<char>, start: int, k: int)
    requires
        num_token_wf(tok),
        start == if tok[0] == '-' { 1int } else { 0int },
        digs == tok.subrange(start, tok.len() as int),
        all_digits(digs),
        0 <= k <= digs.len(),
        digits_val(digs.take(k)) > -(isize::MIN as int),
    ensures
        !num_fits(tok),
{
    lemma_digits_val_mono(digs, k, digs.len() as int);
    assert(digs.take(digs.len() as int) =~= digs);
    if tok[0] == '-' {
        assert(num_val(tok) == -digits_val(digs));
    } else {
        assert(digs =~= tok);
        assert(num_val(tok) == digits_val(digs));
    }
}

/// An independent copy of a segment list.
fn clone_strings(v: &Vec<String>) -> (r: Vec<String>)
    ensures
        r@ == v@,
{
    let mut out: Vec<String> = Vec::new();
    let mut i: usize = 0;
    #[verifier::loop_isolation(false)]
    while i < v.len()
        invariant
            i <= v.len(),
            out@.len() == i,
            forall|k: int| 0 <= k < i ==> out@[k] == v@[k],
        decreases v.len() - i,
    {
        out.push(v[i].clone());
        i = i + 1;
    }
    proof {
        assert(out@ =~= v@);
    }
    out
}

/// Builds the binding value for a parsed segment path.
fn make_binding(segs: &Vec<String>) -> (r: PropertyBinding)
    requires
        segs@.len() >= 1,
    ensures
        r.dv() == binding_model(segs.deep_view()),
{
    if segs.len() == 1 {
        let r = PropertyBinding::RootIdentifier(segs[0].clone());
        proof {
            assert(segs.deep_view()[0] == segs@[0]@);
        }
        r
    } else {
        let copy = clone_strings(segs);
        let r = PropertyBinding::NestedIdentifier(copy);
        proof {
            assert(copy.deep_view() =~= segs.deep_view());
        }
        r
    }
}

/// Resolves one grammar value token to a semantic value, failing on a
/// number literal that does not fit.
fn resolve_value(v: &ValueSyntax) -> (r: Result<GenericValue, TreeBuildError>)
    requires
        wf_value(v.dv()),
    ensures
        (match (r, model::value_model(v.dv())) {
            (Ok(g), Ok(m)) => g.dv() == m,
            (Err(a), Err(b)) => a == b,
            _ => false,
        }),
{
    match v {
        ValueSyntax::Ident(s) => Ok(GenericValue::Text(s.clone())),
        ValueSyntax::Number(tok) => match number_value(tok.as_str()) {
            Ok(n) => Ok(GenericValue::Number(n)),
            Err(e) => Err(e),
        },
        ValueSyntax::Str(s) => Ok(GenericValue::Text(s.clone())),
        ValueSyntax::Binding(segs) => Ok(GenericValue::Binding(make_binding(segs))),
    }
}

/// Builds the childless normal node of a `node` rule: name first,
/// then every suffix folded into the attribute list in source order.
fn build_node(name: &String, props: &Vec<PropSyntax>) -> (r: Result<TreeNode, TreeBuildError>)
    requires
        crate::model::wf_props(props_stx_dv(props@)),
    ensures
        (match (r, model::node_model(name@, props_stx_dv(props@))) {
            (Ok(node), Ok(m)) => node.dv() == m,
            (Err(a), Err(b)) => a == b,
            _ => false,
        }),
{
    let ghost gprops = props_stx_dv(props@);
    let mut node = NormalTreeNode {
        name: name.clone(),
        attributes: Vec::new(),
        children: Vec::new(),
    };
    proof {
        assert(attrs_dv(node.attributes@) =~= Seq::<crate::model::AttrModel>::empty());
        assert(gprops.take(0int) =~= Seq::<crate::model::PropStx>::empty());
    }
    let mut i: usize = 0;
    #[verifier::loop_isolation(false)]
    while i < props.len()
        invariant
            i <= props.len(),
            node.name@ == name@,
            node.children@.len() == 0,
            model::props_fold(Seq::empty(), gprops.take(i as int)) == Ok::<
                Seq<crate::model::AttrModel>,
                TreeBuildError,
            >(attrs_dv(node.attributes@)),
        decreases props.len() - i,
    {
        proof {
            assert(gprops.take(i + 1).drop_last() =~= gprops.take(i as int));
            assert(gprops.take(i + 1).last() == gprops[i as int]);
            assert(gprops[i as int] == props@[i as int].dv());
            assert(gprops.len() == props@.len());
            assert(wf_prop(gprops[i as int]));
        }
        match &props[i] {
            PropSyntax::Id(s) => {
                node.append_attribute("id", GenericValue::Text(s.clone()));
            },
            PropSyntax::Class(s) => {
                node.append_attribute("class", GenericValue::Text(s.clone()));
            },
            PropSyntax::Attrs(list) => {
                let ghost glist = attrs_stx_dv(list@);
                let ghost acc0 = attrs_dv(node.attributes@);
                proof {
                    assert(glist.take(0int) =~= Seq::<crate::model::AttrStx>::empty());
                }
                let mut j: usize = 0;
                #[verifier::loop_isolation(false)]
                while j < list.len()
                    invariant
                        j <= list.len(),
                        node.name@ == name@,
                        node.children@.len() == 0,
                        model::attr_list_fold(acc0, glist.take(j as int)) == Ok::<
                            Seq<crate::model::AttrModel>,
                            TreeBuildError,
                        >(attrs_dv(node.attributes@)),
                    decreases list.len() - j,
                {
                    proof {
                        assert(glist.take(j + 1).drop_last() =~= glist.take(j as int));
                        assert(glist.take(j + 1).last() == glist[j as int]);
                        assert(glist[j as int] == list@[j as int].dv());
                        assert(wf_attr(glist[j as int]));
                    }
                    let a = &list[j];
                    match &a.value {
                        Some(v) => {
                            match resolve_value(v) {
                                Ok(g) => {
                                    node.append_attribute(a.name.as_str(), g);
                                },
                                Err(e) => {
                                    proof {
                                        model::lemma_attr_list_fold_err(
                                            acc0,
                                            glist,
                                            j + 1,
                                            e,
                                        );
                                        model::lemma_props_fold_err(
                                            Seq::empty(),
                                            gprops,
                                            i + 1,
                                            e,
                                        );
                                    }
                                    return Err(e);
                                },
                            }
                        },
                        None => {
                            node.declare_attribute(a.name.as_str());
                        },
                    }
                    j = j + 1;
                }
                proof {
                    assert(glist.take(list@.len() as int) =~= glist);
                }
            },
        }
        i = i + 1;
    }
    proof {
        assert(gprops.take(props@.len() as int) =~= gprops);
        assert(nodes_dv(node.children@) =~= Seq::<NodeModel>::empty());
    }
    Ok(TreeNode::Normal(node))
}

/// Builds a text node's content list: each token becomes a content
/// node, with a single-space content node between consecutive tokens.
fn build_text(vals: &Vec<ValueSyntax>) -> (r: Result<Vec<TreeNode>, TreeBuildError>)
    requires
        crate::model::wf_values(values_stx_dv(vals@)),
    ensures
        (match (r, model::text_models(values_stx_dv(vals@))) {
            (Ok(v), Ok(m)) => nodes_dv(v@) == m,
            (Err(a), Err(b)) => a == b,
            _ => false,
        }),
{
    let ghost gvals = values_stx_dv(vals@);
    let mut out: Vec<TreeNode> = Vec::new();
    proof {
        assert(gvals.take(0int) =~= Seq::<crate::model::ValueStx>::empty());
        assert(nodes_dv(out@) =~= Seq::<NodeModel>::empty());
    }
    let mut i: usize = 0;
    #[verifier::loop_isolation(false)]
    while i < vals.len()
        invariant
            i <= vals.len(),
            model::text_models(gvals.take(i as int)) == Ok::<Seq<NodeModel>, TreeBuildError>(
                nodes_dv(out@),
            ),
        decreases vals.len() - i,
    {
        proof {
            assert(gvals.take(i + 1).drop_last() =~= gvals.take(i as int));
            assert(gvals.take(i + 1).last() == gvals[i as int]);
            assert(gvals[i as int] == vals@[i as int].dv());
        }
        let ghost pre = nodes_dv(out@);
        match resolve_value(&vals[i]) {
            Ok(g) => {
                let ghost gx = g.dv();
                if i > 0 {
                    let ghost before = out@;
                    let space = GenericValue::Text(" ".to_owned());
                    let spnode = TreeNode::InnerContent(InnerContentTreeNode { value: space });
                    let ghost gsp = spnode;
                    proof {
                        reveal_strlit(" ");
                        assert(" "@ =~= seq![' ']);
                    }
                    out.push(spnode);
                    proof {
                        lemma_nodes_dv_push(before, gsp);
                        assert(gsp.dv() == crate::model::space_content());
                    }
                }
                let ghost mid = out@;
                let cnode = TreeNode::InnerContent(InnerContentTreeNode { value: g });
                let ghost gc = cnode;
                out.push(cnode);
                proof {
                    lemma_nodes_dv_push(mid, gc);
                    assert(gc.dv() == NodeModel::InnerContent { value: gx });
                    if i == 0 {
                        assert(nodes_dv(out@) =~= seq![NodeModel::InnerContent { value: gx }]);
                    } else {
                        assert(nodes_dv(out@) =~= pre + seq![
                            crate::model::space_content(),
                            NodeModel::InnerContent { value: gx },
                        ]);
                    }
                }
            },
            Err(e) => {
                proof {
                    model::lemma_text_models_err(gvals, i + 1, e);
                }
                return Err(e);
            },
        }
        i = i + 1;
    }
    proof {
        assert(gvals.take(vals@.len() as int) =~= gvals);
    }
    Ok(out)
}

/// The model value of an optional current node.
pub open spec fn opt_node_dv(c: Option<TreeNode>) -> Option<NodeModel> {
    match c {
        Some(n) => Some(n.dv()),
        None => None,
    }
}

/// Splitting off the last node commutes with taking models.
proof fn lemma_nodes_dv_split_last(s: Seq<TreeNode>)
    requires
        s.len() > 0,
    ensures
        nodes_dv(s.drop_last()) == nodes_dv(s).drop_last(),
        s.last().dv() == nodes_dv(s).last(),
        nodes_dv(s).len() == s.len(),
{
    lemma_nodes_dv_pointwise(s);
    lemma_nodes_dv_pointwise(s.drop_last());
    assert forall|i: int| 0 <= i < s.len() - 1 implies nodes_dv(s.drop_last())[i] == nodes_dv(
        s,
    ).drop_last()[i] by {
        assert(s.drop_last()[i] == s[i]);
    }
    assert(nodes_dv(s.drop_last()) =~= nodes_dv(s).drop_last());
}

/// Builds one node list from a single-node value.
fn singleton(node: TreeNode) -> (r: Vec<TreeNode>)
    ensures
        nodes_dv(r@) == seq![node.dv()],
{
    let ghost gnode = node;
    let mut out: Vec<TreeNode> = Vec::new();
    out.push(node);
    proof {
        lemma_nodes_dv_push(Seq::empty(), gnode);
        assert(nodes_dv(Seq::<TreeNode>::empty()) =~= Seq::<NodeModel>::empty());
        assert(nodes_dv(out@) =~= seq![gnode.dv()]);
    }
    out
}

/// What one term produces: a node, a text node's content sequence, a
/// subtree placeholder, or a group's full result list.
pub fn build_term(t: &TermSyntax) -> (r: Result<Vec<TreeNode>, TreeBuildError>)
    requires
        wf_term(t.dv()),
    ensures
        (match (r, model::build_term(t.dv())) {
            (Ok(v), Ok(m)) => nodes_dv(v@) == m,
            (Err(a), Err(b)) => a == b,
            _ => false,
        }),
    decreases *t, 1int, 0int,
{
    match t {
        TermSyntax::Node { name, props } => match build_node(name, props) {
            Ok(node) => Ok(singleton(node)),
            Err(e) => Err(e),
        },
        TermSyntax::Text(vals) => build_text(vals),
        TermSyntax::NodeBinding(segs) => {
            let b = make_binding(segs);
            Ok(singleton(TreeNode::Subtree(SubtreeTreeNode { property: b })))
        },
        TermSyntax::Group(e) => build_expr_nodes(e),
    }
}

/// What one element produces: its term's nodes repeated by a numeric
/// multiplier (nothing when the count is zero or negative; each copy
/// an independent deep clone), or wrapped in one collection node by a
/// binding multiplier.
pub fn build_elem(el: &ElementSyntax) -> (r: Result<Vec<TreeNode>, TreeBuildError>)
    requires
        wf_elem(el.dv()),
    ensures
        (match (r, model::build_elem(el.dv())) {
            (Ok(v), Ok(m)) => nodes_dv(v@) == m,
            (Err(a), Err(b)) => a == b,
            _ => false,
        }),
    decreases *el, 2int, 0int,
{
    let base = match build_term(&el.term) {
        Ok(v) => v,
        Err(e) => {
            return Err(e);
        },
    };
    let ghost gbase = nodes_dv(base@);
    match &el.mult {
        None => Ok(base),
        Some(MultiplierSyntax::Count(tok)) => {
            let count = match number_value(tok.as_str()) {
                Ok(n) => n,
                Err(e) => {
                    return Err(e);
                },
            };
            let mut out: Vec<TreeNode> = Vec::new();
            proof {
                assert(nodes_dv(out@) =~= Seq::<NodeModel>::empty());
                assert(crate::model::repeat_nodes(gbase, 0nat) == Seq::<NodeModel>::empty());
            }
            if count > 0 {
                let total = count as usize;
                let mut k: usize = 0;
                #[verifier::loop_isolation(false)]
                while k < total
                    invariant
                        k <= total,
                        nodes_dv(out@) == crate::model::repeat_nodes(gbase, k as nat),
                    decreases total - k,
                {
                    let mut copy = clone_nodes(&base);
                    let ghost gout = out@;
                    let ghost gcopy = copy@;
                    out.append(&mut copy);
                    proof {
                        lemma_nodes_dv_concat(gout, gcopy);
                        assert(crate::model::repeat_nodes(gbase, (k + 1) as nat)
                            == crate::model::repeat_nodes(gbase, k as nat) + gbase);
                    }
                    k = k + 1;
                }
            }
            Ok(out)
        },
        Some(MultiplierSyntax::Binding(segs)) => {
            let b = make_binding(segs);
            Ok(singleton(TreeNode::Collection(CollectionTreeNode { nodes: base, collection: b })))
        },
    }
}

/// The result list of one nesting level, starting at element `i`.
pub fn build_level(e: &ExprSyntax, i: usize) -> (r: Result<Vec<TreeNode>, TreeBuildError>)
    requires
        wf_expr(e.dv()),
        i < e.elems@.len(),
    ensures
        (match (r, model::build_level(e.dv(), i as int)) {
            (Ok(v), Ok(m)) => nodes_dv(v@) == m,
            (Err(a), Err(b)) => a == b,
            _ => false,
        }),
    decreases *e, e.ops@.len() - i, 1int,
{
    proof {
        lemma_elems_dv_pointwise(e.elems@);
        assert(crate::model::wf_elems(elems_dv(e.elems@)));
        assert(wf_elem(e.elems@[i as int].dv()));
    }
    let mut produced = match build_elem(&e.elems[i]) {
        Ok(v) => v,
        Err(er) => {
            return Err(er);
        },
    };
    let ghost gvec = produced@;
    let current = produced.pop();
    proof {
        if gvec.len() > 0 {
            lemma_nodes_dv_split_last(gvec);
        } else {
            assert(nodes_dv(gvec) =~= Seq::<NodeModel>::empty());
        }
    }
    build_tail(e, i, produced, current)
}

/// Consumes the operators from `ops[i]` on: `+` finalizes the current
/// node and moves to the next element; `>` builds the entire
/// remainder as the current node's children and stops.
pub fn build_tail(
    e: &ExprSyntax,
    i: usize,
    done: Vec<TreeNode>,
    current: Option<TreeNode>,
) -> (r: Result<Vec<TreeNode>, TreeBuildError>)
    requires
        wf_expr(e.dv()),
        i <= e.ops@.len(),
    ensures
        (match (
            r,
            model::build_tail(e.dv(), i as int, nodes_dv(done@), opt_node_dv(current)),
        ) {
            (Ok(v), Ok(m)) => nodes_dv(v@) == m,
            (Err(a), Err(b)) => a == b,
            _ => false,
        }),
    decreases *e, e.ops@.len() - i, 0int,
{
    let ghost gdone = nodes_dv(done@);
    let ghost gcur = opt_node_dv(current);
    let mut done = done;
    proof {
        lemma_elems_dv_pointwise(e.elems@);
        assert(crate::model::wf_elems(elems_dv(e.elems@)));
    }
    if i >= e.ops.len() {
        match current {
            Some(c) => {
                let ghost gprev = done@;
                let ghost gc = c;
                done.push(c);
                proof {
                    lemma_nodes_dv_push(gprev, gc);
                    assert(nodes_dv(done@) =~= gdone + crate::model::opt_seq(gcur));
                }
            },
            None => {
                proof {
                    assert(gdone + crate::model::opt_seq(gcur) =~= gdone);
                }
            },
        }
        Ok(done)
    } else {
        let op = e.ops[i];
        proof {
            assert(e.dv().ops[i as int] == e.ops@[i as int].dv());
        }
        match op {
            OpSyntax::Sibling => {
                proof {
                    assert(wf_elem(e.elems@[i + 1].dv()));
                }
                let mut produced = match build_elem(&e.elems[i + 1]) {
                    Ok(v) => v,
                    Err(er) => {
                        return Err(er);
                    },
                };
                let ghost gvec = produced@;
                let ghost gprod = nodes_dv(gvec);
                let cur2 = produced.pop();
                proof {
                    if gvec.len() > 0 {
                        lemma_nodes_dv_split_last(gvec);
                    } else {
                        assert(nodes_dv(gvec) =~= Seq::<NodeModel>::empty());
                    }
                }
                match current {
                    Some(c) => {
                        let ghost gprev = done@;
                        let ghost gc = c;
                        done.push(c);
                        proof {
                            lemma_nodes_dv_push(gprev, gc);
                            assert(nodes_dv(done@) =~= gdone + crate::model::opt_seq(gcur));
                        }
                    },
                    None => {
                        proof {
                            assert(gdone + crate::model::opt_seq(gcur) =~= gdone);
                        }
                    },
                }
                let ghost gmid = done@;
                let ghost grest = produced@;
                done.append(&mut produced);
                proof {
                    lemma_nodes_dv_concat(gmid, grest);
                    assert(nodes_dv(done@) =~= (gdone + crate::model::opt_seq(gcur))
                        + crate::model::front_of(gprod));
                    assert(nodes_dv(done@) == gdone + crate::model::opt_seq(gcur)
                        + crate::model::front_of(gprod));
                    assert(opt_node_dv(cur2) == crate::model::last_of(gprod));
                }
                build_tail(e, i + 1, done, cur2)
            },
            OpSyntax::Child => {
                let children = match build_level(e, i + 1) {
                    Ok(v) => v,
                    Err(er) => {
                        return Err(er);
                    },
                };
                match current {
                    Some(c) => {
                        let mut c = c;
                        match c.children_mut(children) {
                            Ok(()) => {
                                let ghost gprev = done@;
                                let ghost gc2 = c;
                                done.push(c);
                                proof {
                                    lemma_nodes_dv_push(gprev, gc2);
                                    assert(nodes_dv(done@) =~= gdone + seq![gc2.dv()]);
                                }
                                Ok(done)
                            },
                            Err(er) => Err(er),
                        }
                    },
                    None => {
                        let mut ch = children;
                        let ghost gmid = done@;
                        let ghost gchs = ch@;
                        done.append(&mut ch);
                        proof {
                            lemma_nodes_dv_concat(gmid, gchs);
                        }
                        Ok(done)
                    },
                }
            },
        }
    }
}

/// The ordered node list an expression produces at its own level.
pub fn build_expr_nodes(e: &ExprSyntax) -> (r: Result<Vec<TreeNode>, TreeBuildError>)
    requires
        wf_expr(e.dv()),
    ensures
        (match (r, model::build_expr(e.dv())) {
            (Ok(v), Ok(m)) => nodes_dv(v@) == m,
            (Err(a), Err(b)) => a == b,
            _ => false,
        }),
    decreases *e, e.ops@.len() + 2, 0int,
{
    proof {
        lemma_elems_dv_pointwise(e.elems@);
    }
    build_level(e, 0)
}

impl TreeNode {
    /// Builds the whole AST from a parsed expression: the expression's
    /// top-level nodes wrapped in a root pseudo-node.
    pub fn from_expr(expr: &ExprSyntax) -> (r: Result<TreeNode, TreeBuildError>)
        requires
            wf_expr(expr.dv()),
        ensures
            (match (r, model::tree_model(expr.dv())) {
                (Ok(t), Ok(m)) => t.dv() == m,
                (Err(a), Err(b)) => a == b,
                _ => false,
            }),
    {
        match build_expr_nodes(expr) {
            Ok(children) => Ok(TreeNode::Root(RootTreeNode { children })),
            Err(e) => Err(e),
        }
    }
}

} // verus!
