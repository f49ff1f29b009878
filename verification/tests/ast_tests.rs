use cfgpp::{AstNode, BinaryOperator, CfgppError, CfgppValue};

#[test]
fn test_ast_construction() {
    let mut fields = Vec::new();
    fields.push(("host".to_string(), AstNode::literal(CfgppValue::string("localhost"))));
    fields.push(("port".to_string(), AstNode::literal(CfgppValue::integer(5432))));

    let obj = AstNode::object(Some("database".to_string()), fields);
    let root = AstNode::root(vec![obj]);

    assert!(root.kind_name() == "root");

    let value = root.to_value().unwrap();
    assert!(value.is_object());
    assert_eq!(value.get_path("database.host").unwrap().as_string(), Some("localhost"));
}

#[test]
fn nodes_and_their_kinds() {
    let literal = AstNode::literal(CfgppValue::integer(1));
    let nodes = vec![
        (AstNode::root(vec![]), "root"),
        (AstNode::object(None, vec![]), "object"),
        (AstNode::array(vec![]), "array"),
        (AstNode::enum_def("E".to_string(), vec!["a".to_string()]), "enum_def"),
        (AstNode::include_directive("a.cfg".to_string()), "include"),
        (AstNode::env_var("HOME".to_string(), None), "env_var"),
        (AstNode::assignment("k".to_string(), literal.clone()), "assignment"),
        (literal.clone(), "literal"),
        (AstNode::expression(BinaryOperator::Add, literal.clone(), literal.clone()), "expression"),
        (AstNode::namespace(vec!["a".to_string(), "b".to_string()]), "namespace"),
    ];
    for (node, kind) in &nodes {
        assert_eq!(node.kind_name(), *kind);
        assert_eq!(node.is_literal(), *kind == "literal");
        assert_eq!(node.is_object(), *kind == "object");
        assert_eq!(node.is_array(), *kind == "array");
        assert_eq!(node.is_assignment(), *kind == "assignment");
        assert_eq!(node.as_literal().is_some(), *kind == "literal");
        assert_eq!(node.as_object().is_some(), *kind == "object");
        assert_eq!(node.as_array().is_some(), *kind == "array");
        assert_eq!(&node.clone(), node);
    }
}

#[test]
fn values_of_nodes() {
    let one = || AstNode::literal(CfgppValue::integer(1));
    let two = || AstNode::literal(CfgppValue::integer(2));
    assert_eq!(one().to_value().unwrap(), CfgppValue::integer(1));
    assert_eq!(
        AstNode::array(vec![one(), two()]).to_value().unwrap(),
        CfgppValue::array_with_values(vec![CfgppValue::integer(1), CfgppValue::integer(2)])
    );
    assert_eq!(AstNode::assignment("k".to_string(), two()).to_value().unwrap(), CfgppValue::integer(2));
    let object = AstNode::object(
        None,
        vec![("a".to_string(), one()), ("b".to_string(), one()), ("a".to_string(), two())],
    );
    let value = object.to_value().unwrap();
    assert_eq!(value.len(), 2);
    assert_eq!(value.get("a"), Some(&CfgppValue::integer(2)));
    let root = AstNode::root(vec![
        AstNode::object(Some("first".to_string()), vec![("x".to_string(), one())]),
        AstNode::object(None, vec![("dropped".to_string(), one())]),
        AstNode::assignment("second".to_string(), AstNode::array(vec![two()])),
        AstNode::include_directive("passed over".to_string()),
        one(),
    ]);
    let value = root.to_value().unwrap();
    assert_eq!(value.len(), 2);
    assert_eq!(value.get_path("first.x"), Some(&CfgppValue::integer(1)));
    assert_eq!(value.get_path("second[0]"), Some(&CfgppValue::integer(2)));
    assert_eq!(
        AstNode::array(vec![one(), AstNode::env_var("HOME".to_string(), None)]).to_value(),
        Err(CfgppError::ParseError { message: "Cannot convert env_var to value".to_string() })
    );
    assert_eq!(
        AstNode::root(vec![AstNode::assignment(
            "k".to_string(),
            AstNode::namespace(vec!["a".to_string()])
        )])
        .to_value(),
        Err(CfgppError::ParseError { message: "Cannot convert namespace to value".to_string() })
    );
    assert_eq!(
        AstNode::expression(BinaryOperator::Divide, one(), two()).to_value().unwrap_err(),
        CfgppError::ParseError { message: "Cannot convert expression to value".to_string() }
    );
}
