use ifs_parser::parser::ast::{AstNode, IfsAnnotation, PlSqlNode, ProcedureVisibility};
use ifs_parser::parser::syntax_tree::{
    convert_annotation, convert_node, node_to_span, SyntaxNode, SyntaxPoint,
};

fn point(row: usize, column: usize, byte: usize) -> SyntaxPoint {
    SyntaxPoint { row, column, byte }
}

fn node(kind: &str, text: &str, from: usize, to: usize, children: Vec<SyntaxNode>) -> SyntaxNode {
    SyntaxNode {
        kind: kind.to_string(),
        text: text.to_string(),
        start: point(0, from, from),
        end: point(0, to, to),
        children,
    }
}

#[test]
fn spans_count_rows_and_columns_from_one() {
    let n = SyntaxNode {
        kind: "x".to_string(),
        text: String::new(),
        start: point(0, 0, 0),
        end: point(2, 7, 40),
        children: Vec::new(),
    };
    let span = node_to_span(&n);
    assert_eq!((span.start.line, span.start.column, span.start.offset), (1, 1, 0));
    assert_eq!((span.end.line, span.end.column, span.end.offset), (3, 8, 40));
    let far = SyntaxNode {
        kind: "x".to_string(),
        text: String::new(),
        start: point(usize::MAX, usize::MAX, 1),
        end: point(usize::MAX, usize::MAX, 2),
        children: Vec::new(),
    };
    assert_eq!(node_to_span(&far).start.line, usize::MAX);
}

#[test]
fn annotations_are_spelled_exactly() {
    assert_eq!(convert_annotation(&node("annotation", "@Override", 0, 9, vec![])), Some(IfsAnnotation::Override));
    assert_eq!(convert_annotation(&node("annotation", "@Overtake", 0, 9, vec![])), Some(IfsAnnotation::Overtake));
    assert_eq!(
        convert_annotation(&node("annotation", "@UncheckedAccess", 0, 16, vec![])),
        Some(IfsAnnotation::UncheckedAccess)
    );
    assert_eq!(convert_annotation(&node("annotation", "@override", 0, 9, vec![])), None);
    assert_eq!(convert_annotation(&node("annotation", "@Other", 0, 6, vec![])), None);
}

#[test]
fn a_procedure_takes_name_and_annotations_from_its_children() {
    let tree = node(
        "source_file",
        "@Override PROCEDURE Do_It___ IS",
        0,
        31,
        vec![node(
            "procedure_declaration",
            "@Override PROCEDURE Do_It___ IS",
            0,
            31,
            vec![
                node("annotation", "@Override", 0, 9, vec![]),
                node("annotation", "@Unknown", 0, 9, vec![]),
                node("PROCEDURE", "PROCEDURE", 10, 19, vec![]),
                node("identifier", "Do_It___", 20, 28, vec![]),
                node("identifier", "Other", 29, 31, vec![]),
                node("annotation", "@UncheckedAccess", 29, 31, vec![]),
            ],
        )],
    );
    match convert_node(&tree) {
        AstNode::PlSql(PlSqlNode::Procedure { name, visibility, annotations, parameters, body, span, .. }) => {
            assert_eq!(name.name, "Do_It___");
            assert_eq!((name.span.start.column, name.span.end.column), (21, 29));
            assert_eq!(visibility, ProcedureVisibility::Private);
            assert_eq!(annotations, vec![IfsAnnotation::Override, IfsAnnotation::UncheckedAccess]);
            assert!(parameters.is_empty());
            assert!(body.is_empty());
            assert_eq!((span.start.offset, span.end.offset), (0, 31));
        }
        other => panic!("Expected a procedure, got {:?}", other),
    }
}

#[test]
fn declarations_without_an_identifier_get_a_name() {
    match convert_node(&node("procedure", "", 3, 9, vec![])) {
        AstNode::PlSql(PlSqlNode::Procedure { name, visibility, span, .. }) => {
            assert_eq!(name.name, "unnamed_procedure");
            assert_eq!(name.span, span);
            assert_eq!(visibility, ProcedureVisibility::Public);
        }
        other => panic!("Expected a procedure, got {:?}", other),
    }
    match convert_node(&node("function_declaration", "", 0, 5, vec![node("identifier", "F__", 0, 3, vec![])])) {
        AstNode::PlSql(PlSqlNode::Function { name, visibility, return_type, .. }) => {
            assert_eq!(name.name, "F__");
            assert_eq!(visibility, ProcedureVisibility::Protected);
            assert_eq!(return_type.name, "VARCHAR2");
        }
        other => panic!("Expected a function, got {:?}", other),
    }
    match convert_node(&node("function", "", 0, 5, vec![])) {
        AstNode::PlSql(PlSqlNode::Function { name, .. }) => assert_eq!(name.name, "unnamed_function"),
        other => panic!("Expected a function, got {:?}", other),
    }
    match convert_node(&node("package", "", 0, 5, vec![node("annotation", "@Overtake", 0, 1, vec![])])) {
        AstNode::PlSql(PlSqlNode::Package { name, annotations, body, .. }) => {
            assert_eq!(name.name, "unnamed_package");
            assert_eq!(annotations, vec![IfsAnnotation::Overtake]);
            assert!(body.is_none());
        }
        other => panic!("Expected a package, got {:?}", other),
    }
    match convert_node(&node("package_declaration", "", 0, 5, vec![node("identifier", "Pkg_API", 1, 2, vec![])])) {
        AstNode::PlSql(PlSqlNode::Package { name, .. }) => assert_eq!(name.name, "Pkg_API"),
        other => panic!("Expected a package, got {:?}", other),
    }
}

#[test]
fn other_nodes_become_packages_without_a_name() {
    for tree in [
        node("source_file", "", 0, 0, vec![]),
        node("comment", "-- x", 0, 4, vec![node("identifier", "x", 3, 4, vec![])]),
        node("source_file", "", 0, 4, vec![node("ERROR", "", 0, 4, vec![]), node("procedure", "", 0, 4, vec![])]),
    ] {
        match convert_node(&tree) {
            AstNode::PlSql(PlSqlNode::Package { name, annotations, declarations, .. }) => {
                assert_eq!(name.name, "unnamed_package");
                assert!(annotations.is_empty());
                assert!(declarations.is_empty());
            }
            other => panic!("Expected a package, got {:?}", other),
        }
    }
    match convert_node(&node("entity_declaration", "", 2, 9, vec![])) {
        AstNode::Entity(e) => {
            assert_eq!(e.entity_name.name, "entity");
            assert_eq!(e.component, "unknown");
            assert_eq!(e.span.start.offset, 2);
        }
        other => panic!("Expected an entity, got {:?}", other),
    }
    assert!(matches!(convert_node(&node("entity", "", 0, 1, vec![])), AstNode::Entity(_)));
}
