//! Tests of the tree builder: composition, multipliers, grouping,
//! attribute accumulation, value resolution, and the debug rendering.

use abbrev_tree::ast::{
    Attribute, AttributeValue, GenericValue, PropertyBinding, TreeBuildError, TreeNode,
};
use abbrev_tree::{compile, CompileError};

fn render(input: &str) -> String {
    compile(input).unwrap().to_text()
}

fn root_children(t: TreeNode) -> Vec<TreeNode> {
    match t {
        TreeNode::Root(r) => r.children,
        _ => panic!("expected the root pseudo-node"),
    }
}

fn build_error(input: &str) -> TreeBuildError {
    match compile(input).unwrap_err() {
        CompileError::Build(e) => e,
        CompileError::Syntax(e) => panic!("unexpected syntax error at {}", e.pos),
    }
}

#[test]
fn tree_smoke_test() {
    assert_eq!(
        render(
            "a#id.class1.class2\n            >b\n            +c[one=two two=22 two='test']\n                >d[test=@binding test2=@nested%binding]\n        "
        ),
        " - a[id=\"id\" class={\"class1\", \"class2\"}]\n   - b\n   - c[one=\"two\" two={22, \"test\"}]\n     - d[test=@binding test2=@nested%binding]\n"
    );

    assert_eq!(render("a+(b>c)+d"), " - a\n - b\n   - c\n - d\n");

    assert_eq!(render("(b>c + d)>a"), " - b\n   - c\n   - d\n   - a\n");

    assert_eq!(
        render("div>{my 'text' 42 @binding @a%b%c}"),
        " - div\n   - [CONTENT] \"my\"\n   - [CONTENT] \" \"\n   - [CONTENT] \"text\"\n   - [CONTENT] \" \"\n   - [CONTENT] 42\n   - [CONTENT] \" \"\n   - [CONTENT] @binding\n   - [CONTENT] \" \"\n   - [CONTENT] @a%b%c\n"
    );

    assert_eq!(
        render("div#test>$sub%tree+a+{hello}"),
        " - div[id=\"test\"]\n   - [SUBTREE] @sub%tree\n   - a\n   - [CONTENT] \"hello\"\n"
    );

    assert_eq!(
        render("li.item * 5"),
        " - li[class=\"item\"]\n - li[class=\"item\"]\n - li[class=\"item\"]\n - li[class=\"item\"]\n - li[class=\"item\"]\n"
    );

    assert_eq!(
        render("(li[id=@c%id]>b>{Item @c%name}) * @c + div"),
        " - [COLLECTION] @c\n   - li[id=@c%id]\n     - b\n       - [CONTENT] \"Item\"\n       - [CONTENT] \" \"\n       - [CONTENT] @c%name\n - div\n"
    );
}

#[test]
fn child_captures_entire_remainder() {
    assert_eq!(render("a>b+c"), " - a\n   - b\n   - c\n");
}

#[test]
fn group_scoping() {
    assert_eq!(render("(b>c + d)>a"), " - b\n   - c\n   - d\n   - a\n");
}

#[test]
fn sibling_independence_through_groups() {
    assert_eq!(render("a+(b>c)+d"), " - a\n - b\n   - c\n - d\n");
}

#[test]
fn numeric_multiplier() {
    assert_eq!(
        render("li.item*5"),
        " - li[class=\"item\"]\n".repeat(5)
    );
    assert!(root_children(compile("x*0").unwrap()).is_empty());
    assert_eq!(render("x*0"), "");
    assert!(root_children(compile("x*-3").unwrap()).is_empty());
    assert_eq!(render("x*-3"), "");
}

#[test]
fn binding_multiplier() {
    let children = root_children(compile("(a>b)*@collection").unwrap());
    assert_eq!(children.len(), 1);
    match &children[0] {
        TreeNode::Collection(c) => {
            assert_eq!(
                c.collection,
                PropertyBinding::RootIdentifier("collection".to_string())
            );
            assert_eq!(c.nodes.len(), 1);
            match &c.nodes[0] {
                TreeNode::Normal(a) => {
                    assert_eq!(a.name, "a");
                    assert_eq!(a.children.len(), 1);
                    assert!(matches!(&a.children[0], TreeNode::Normal(b) if b.name == "b"));
                }
                _ => panic!("expected the template node"),
            }
        }
        _ => panic!("expected a collection node"),
    }
}

#[test]
fn leaf_rejection() {
    assert_eq!(
        build_error("{hello}>b"),
        TreeBuildError::LeafNodeCantHaveChildren
    );
    assert_eq!(
        build_error("$sub>b"),
        TreeBuildError::LeafNodeCantHaveChildren
    );
    assert_eq!(
        build_error("a*@c>b"),
        TreeBuildError::LeafNodeCantHaveChildren
    );
}

#[test]
fn attribute_accumulation() {
    let children = root_children(compile("c[one=two two=22 two='test']").unwrap());
    assert_eq!(children.len(), 1);
    match &children[0] {
        TreeNode::Normal(n) => {
            assert_eq!(n.name, "c");
            assert_eq!(
                n.attributes,
                vec![
                    Attribute {
                        name: "one".to_string(),
                        value: AttributeValue::Single(GenericValue::Text("two".to_string())),
                    },
                    Attribute {
                        name: "two".to_string(),
                        value: AttributeValue::Multiple(vec![
                            GenericValue::Number(22),
                            GenericValue::Text("test".to_string()),
                        ]),
                    },
                ]
            );
        }
        _ => panic!("expected a normal node"),
    }
}

#[test]
fn attribute_without_value() {
    let children = root_children(compile("a[flag x=1]").unwrap());
    match &children[0] {
        TreeNode::Normal(n) => {
            assert_eq!(n.attributes.len(), 2);
            assert_eq!(n.attributes[0].name, "flag");
            assert_eq!(n.attributes[0].value, AttributeValue::Empty);
        }
        _ => panic!("expected a normal node"),
    }
}

#[test]
fn text_token_spacing() {
    let children = root_children(compile("{my 'text' 42}").unwrap());
    let values: Vec<GenericValue> = children
        .into_iter()
        .map(|c| match c {
            TreeNode::InnerContent(ic) => ic.value,
            _ => panic!("expected inner content"),
        })
        .collect();
    assert_eq!(
        values,
        vec![
            GenericValue::Text("my".to_string()),
            GenericValue::Text(" ".to_string()),
            GenericValue::Text("text".to_string()),
            GenericValue::Text(" ".to_string()),
            GenericValue::Number(42),
        ]
    );
}

#[test]
fn binding_path_display() {
    let binding = PropertyBinding::NestedIdentifier(vec!["c".to_string(), "name".to_string()]);
    assert_eq!(binding.to_text(), "@c%name");
    assert_eq!(
        PropertyBinding::RootIdentifier("c".to_string()).to_text(),
        "@c"
    );

    let children = root_children(compile("a[t=@c%name]").unwrap());
    match &children[0] {
        TreeNode::Normal(n) => {
            assert_eq!(
                n.attributes[0].value,
                AttributeValue::Single(GenericValue::Binding(PropertyBinding::NestedIdentifier(
                    vec!["c".to_string(), "name".to_string()]
                )))
            );
        }
        _ => panic!("expected a normal node"),
    }
}

#[test]
fn number_limits() {
    let children = root_children(compile("a[x=-5 y=9223372036854775807 z=-9223372036854775808]").unwrap());
    match &children[0] {
        TreeNode::Normal(n) => {
            assert_eq!(
                n.attributes[0].value,
                AttributeValue::Single(GenericValue::Number(-5))
            );
            assert_eq!(
                n.attributes[1].value,
                AttributeValue::Single(GenericValue::Number(isize::MAX))
            );
            assert_eq!(
                n.attributes[2].value,
                AttributeValue::Single(GenericValue::Number(isize::MIN))
            );
        }
        _ => panic!("expected a normal node"),
    }

    assert_eq!(
        build_error("a[x=9223372036854775808]"),
        TreeBuildError::InvalidNumLiteral
    );
    assert_eq!(
        build_error("a[x=-9223372036854775809]"),
        TreeBuildError::InvalidNumLiteral
    );
    assert_eq!(
        build_error("x*99999999999999999999"),
        TreeBuildError::InvalidNumLiteral
    );
}

#[test]
fn negative_number_renders_with_sign() {
    assert_eq!(render("{-42}"), " - [CONTENT] -42\n");
}

#[test]
fn direct_attribute_append() {
    let mut value = AttributeValue::Empty;
    value.append(GenericValue::Number(1));
    assert_eq!(value, AttributeValue::Single(GenericValue::Number(1)));
    value.append(GenericValue::Number(2));
    assert_eq!(
        value,
        AttributeValue::Multiple(vec![GenericValue::Number(1), GenericValue::Number(2)])
    );
    value.append(GenericValue::Number(3));
    assert_eq!(
        value,
        AttributeValue::Multiple(vec![
            GenericValue::Number(1),
            GenericValue::Number(2),
            GenericValue::Number(3),
        ])
    );
}

#[test]
fn children_mut_rejects_leaves() {
    let mut leaf = TreeNode::InnerContent(abbrev_tree::ast::InnerContentTreeNode {
        value: GenericValue::Text("x".to_string()),
    });
    assert_eq!(
        leaf.children_mut(Vec::new()),
        Err(TreeBuildError::LeafNodeCantHaveChildren)
    );

    let mut normal = TreeNode::Normal(abbrev_tree::ast::NormalTreeNode {
        name: "n".to_string(),
        attributes: Vec::new(),
        children: Vec::new(),
    });
    assert_eq!(normal.children_mut(vec![leaf]), Ok(()));
    match normal {
        TreeNode::Normal(n) => assert_eq!(n.children.len(), 1),
        _ => unreachable!(),
    }
}
