//! Tests of the grammar engine: token rules and the shape of the
//! parse tree.

use abbrev_tree::parser::SyntaxParser;
use abbrev_tree::syntax::{
    AttrSyntax, ElementSyntax, ExprSyntax, MultiplierSyntax, OpSyntax, PropSyntax, TermSyntax,
    ValueSyntax,
};

fn segs(parts: &[&str]) -> Vec<String> {
    parts.iter().map(|p| p.to_string()).collect()
}

#[test]
fn identifier() {
    let id = SyntaxParser::parse_ident_prefix("_test-ABC_01 //comment").unwrap();
    assert_eq!(id, "_test-ABC_01");

    SyntaxParser::parse_ident_prefix("0test")
        .expect_err("Identifiers starting with digit are not allowed");
}

#[test]
fn node() {
    let (name, props) = SyntaxParser::parse_node_prefix("hello#my-id.class1.class2").unwrap();
    assert_eq!(name, "hello");
    assert_eq!(
        props,
        vec![
            PropSyntax::Id("my-id".to_string()),
            PropSyntax::Class("class1".to_string()),
            PropSyntax::Class("class2".to_string()),
        ]
    );

    SyntaxParser::parse_ident_prefix("#myid").expect_err("Standalone id is undefined");
    SyntaxParser::parse_ident_prefix(".class").expect_err("Standalone class is undefined");
}

#[test]
fn attrs() {
    let (name, props) =
        SyntaxParser::parse_node_prefix("hello[attr1=value attr2 = \" value \"]#id.class1.class2")
            .unwrap();
    assert_eq!(name, "hello");
    assert_eq!(
        props,
        vec![
            PropSyntax::Attrs(vec![
                AttrSyntax {
                    name: "attr1".to_string(),
                    value: Some(ValueSyntax::Ident("value".to_string())),
                },
                AttrSyntax {
                    name: "attr2".to_string(),
                    value: Some(ValueSyntax::Str(" value ".to_string())),
                },
            ]),
            PropSyntax::Id("id".to_string()),
            PropSyntax::Class("class1".to_string()),
            PropSyntax::Class("class2".to_string()),
        ]
    );
}

fn term_of(e: &ExprSyntax, i: usize) -> &TermSyntax {
    &e.elems[i].term
}

fn node_name(t: &TermSyntax) -> &str {
    match t {
        TermSyntax::Node { name, .. } => name,
        _ => panic!("expected a node term"),
    }
}

#[test]
fn content() {
    let e = SyntaxParser::parse_tree("(hello[attr1=value]>{hello}) + {@test wow 123 'hi'}")
        .unwrap();
    assert_eq!(e.elems.len(), 2);
    assert_eq!(e.ops, vec![OpSyntax::Sibling]);

    match term_of(&e, 0) {
        TermSyntax::Group(inner) => {
            assert_eq!(inner.elems.len(), 2);
            assert_eq!(inner.ops, vec![OpSyntax::Child]);
            assert_eq!(node_name(term_of(inner, 0)), "hello");
            match term_of(inner, 1) {
                TermSyntax::Text(vals) => {
                    assert_eq!(vals, &vec![ValueSyntax::Ident("hello".to_string())]);
                }
                _ => panic!("expected a text node"),
            }
        }
        _ => panic!("expected a group"),
    }
    match term_of(&e, 1) {
        TermSyntax::Text(vals) => {
            assert_eq!(
                vals,
                &vec![
                    ValueSyntax::Binding(segs(&["test"])),
                    ValueSyntax::Ident("wow".to_string()),
                    ValueSyntax::Number("123".to_string()),
                    ValueSyntax::Str("hi".to_string()),
                ]
            );
        }
        _ => panic!("expected a text node"),
    }
}

#[test]
fn groups() {
    let e = SyntaxParser::parse_tree("html>(body+head>div+(a>b)+p>a)\n+footer").unwrap();
    assert_eq!(e.elems.len(), 3);
    assert_eq!(e.ops, vec![OpSyntax::Child, OpSyntax::Sibling]);
    assert_eq!(node_name(term_of(&e, 0)), "html");
    assert_eq!(node_name(term_of(&e, 2)), "footer");
    match term_of(&e, 1) {
        TermSyntax::Group(inner) => {
            assert_eq!(inner.elems.len(), 6);
            assert_eq!(
                inner.ops,
                vec![
                    OpSyntax::Sibling,
                    OpSyntax::Child,
                    OpSyntax::Sibling,
                    OpSyntax::Sibling,
                    OpSyntax::Child,
                ]
            );
            assert_eq!(node_name(term_of(inner, 0)), "body");
            assert_eq!(node_name(term_of(inner, 1)), "head");
            assert_eq!(node_name(term_of(inner, 2)), "div");
            assert!(matches!(term_of(inner, 3), TermSyntax::Group(_)));
            assert_eq!(node_name(term_of(inner, 4)), "p");
            assert_eq!(node_name(term_of(inner, 5)), "a");
        }
        _ => panic!("expected a group"),
    }
}

#[test]
fn mul() {
    let e = SyntaxParser::parse_tree("html*3+(a>b)*@collection").unwrap();
    assert_eq!(e.elems.len(), 2);
    assert_eq!(e.ops, vec![OpSyntax::Sibling]);
    assert_eq!(node_name(term_of(&e, 0)), "html");
    assert_eq!(
        e.elems[0].mult,
        Some(MultiplierSyntax::Count("3".to_string()))
    );
    assert!(matches!(term_of(&e, 1), TermSyntax::Group(_)));
    assert_eq!(
        e.elems[1].mult,
        Some(MultiplierSyntax::Binding(segs(&["collection"])))
    );
}

#[test]
fn complex_binding() {
    let e = SyntaxParser::parse_tree("html[ id=@collection%id ] * @collection").unwrap();
    assert_eq!(e.elems.len(), 1);
    assert!(e.ops.is_empty());
    match term_of(&e, 0) {
        TermSyntax::Node { name, props } => {
            assert_eq!(name, "html");
            assert_eq!(
                props,
                &vec![PropSyntax::Attrs(vec![AttrSyntax {
                    name: "id".to_string(),
                    value: Some(ValueSyntax::Binding(segs(&["collection", "id"]))),
                }])]
            );
        }
        _ => panic!("expected a node"),
    }
    assert_eq!(
        e.elems[0].mult,
        Some(MultiplierSyntax::Binding(segs(&["collection"])))
    );
}

#[test]
fn component_binding() {
    let e = SyntaxParser::parse_tree("$html + div").unwrap();
    assert_eq!(e.elems.len(), 2);
    assert_eq!(e.ops, vec![OpSyntax::Sibling]);
    match term_of(&e, 0) {
        TermSyntax::NodeBinding(path) => assert_eq!(path, &segs(&["html"])),
        _ => panic!("expected a node binding"),
    }
    assert_eq!(node_name(term_of(&e, 1)), "div");

    let e = SyntaxParser::parse_tree("($data%view + p>{test})*@data").unwrap();
    assert_eq!(e.elems.len(), 1);
    assert_eq!(
        e.elems[0].mult,
        Some(MultiplierSyntax::Binding(segs(&["data"])))
    );
    match term_of(&e, 0) {
        TermSyntax::Group(inner) => {
            assert_eq!(inner.elems.len(), 3);
            assert_eq!(inner.ops, vec![OpSyntax::Sibling, OpSyntax::Child]);
            match term_of(inner, 0) {
                TermSyntax::NodeBinding(path) => assert_eq!(path, &segs(&["data", "view"])),
                _ => panic!("expected a node binding"),
            }
            assert_eq!(node_name(term_of(inner, 1)), "p");
            assert!(matches!(term_of(inner, 2), TermSyntax::Text(_)));
        }
        _ => panic!("expected a group"),
    }
}

#[test]
fn parser_smoke_test() {
    let input = r#"
            html
                >(head
                    >meta[charset="utf-8"]
                    +(title>{"My page!"})
                    +link[
                        rel=stylesheet
                        href=@css_styles
                        ]
                )
                + body>div#page-body>div#list
                    >$items%view * @items
        "#;
    let e = SyntaxParser::parse_tree(input).unwrap();
    assert_eq!(e.elems.len(), 6);
    assert_eq!(
        e.ops,
        vec![
            OpSyntax::Child,
            OpSyntax::Sibling,
            OpSyntax::Child,
            OpSyntax::Child,
            OpSyntax::Child,
        ]
    );
    assert_eq!(node_name(term_of(&e, 0)), "html");
    match term_of(&e, 1) {
        TermSyntax::Group(inner) => {
            assert_eq!(inner.elems.len(), 4);
            assert_eq!(
                inner.ops,
                vec![OpSyntax::Child, OpSyntax::Sibling, OpSyntax::Sibling]
            );
        }
        _ => panic!("expected a group"),
    }
    assert_eq!(node_name(term_of(&e, 2)), "body");
    let last: &ElementSyntax = &e.elems[5];
    assert!(matches!(&last.term, TermSyntax::NodeBinding(path) if path == &segs(&["items", "view"])));
    assert_eq!(last.mult, Some(MultiplierSyntax::Binding(segs(&["items"]))));
}

#[test]
fn comments_and_whitespace_are_trivia() {
    let e = SyntaxParser::parse_tree("a //note\n> b").unwrap();
    assert_eq!(e.elems.len(), 2);
    assert_eq!(e.ops, vec![OpSyntax::Child]);
}

#[test]
fn syntax_error_carries_position() {
    let err = SyntaxParser::parse_tree("0test").unwrap_err();
    assert_eq!(err.pos, 0);
    assert!(!err.expected.is_empty());

    let err = SyntaxParser::parse_tree("(a").unwrap_err();
    assert_eq!(err.pos, 2);

    assert!(SyntaxParser::parse_tree("a>").is_err());
    assert!(SyntaxParser::parse_tree("a['unterminated]").is_err());
    assert!(SyntaxParser::parse_tree("{}").is_err());
    assert!(SyntaxParser::parse_tree("a[]").is_err());
    assert!(SyntaxParser::parse_tree("a*x").is_err());
}

#[test]
fn empty_input_is_rejected() {
    assert!(SyntaxParser::parse_tree("").is_err());
    assert!(SyntaxParser::parse_tree("   // only a comment").is_err());
}

#[test]
fn missing_operator_is_rejected() {
    assert!(SyntaxParser::parse_tree("a b").is_err());
}

#[test]
fn at_most_one_attribute_list() {
    assert!(SyntaxParser::parse_tree("a[x=1][y=2]").is_err());
    let e = SyntaxParser::parse_tree("a.cls#id[x=1].more").unwrap();
    assert_eq!(e.elems.len(), 1);
    match &e.elems[0].term {
        TermSyntax::Node { name, props } => {
            assert_eq!(name, "a");
            assert_eq!(props.len(), 4);
        }
        _ => panic!("expected a node"),
    }
}
