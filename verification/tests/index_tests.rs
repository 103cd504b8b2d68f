use ifs_parser::index::database::{Database, IndexError};
use ifs_parser::index::detect_language_from_path;
use ifs_parser::index::search::{AdvancedSearcher, SearchQuery, SymbolSearcher};
use ifs_parser::index::symbols::{
    ReferenceKind, ReferenceRecord, SymbolIndexer, SymbolInfo, SymbolKind, SymbolRecord,
};
use ifs_parser::index::Index;
use ifs_parser::parser::ast::{
    AstNode, EntityAttribute, EntityKey, EntityNode, AttributeVisibility, Expression, Identifier,
    Parameter, ParameterMode, PlSqlNode, PlSqlStatement, Position, ProcedureVisibility, Span,
    StorageDefinition, StorageNode, TableColumn, TableConstraint, Type, ViewsNode,
};
use ifs_parser::parser::parser::parse_source;
use ifs_parser::parser::Language;

fn pos(line: usize, column: usize, offset: usize) -> Position {
    Position { line, column, offset }
}

fn span(l1: usize, c1: usize, o1: usize, l2: usize, c2: usize, o2: usize) -> Span {
    Span { start: pos(l1, c1, o1), end: pos(l2, c2, o2) }
}

fn ident(name: &str, s: Span) -> Identifier {
    Identifier { name: name.to_string(), span: s }
}

fn param(name: &str, mode: ParameterMode, ty: &str, s: Span) -> Parameter {
    Parameter {
        name: ident(name, s),
        param_type: Type { name: ty.to_string(), parameters: Vec::new(), span: s },
        mode,
        default_value: None,
        span: s,
    }
}

fn procedure(name: &str, s: Span, parameters: Vec<Parameter>, body: Vec<PlSqlStatement>) -> AstNode {
    AstNode::PlSql(PlSqlNode::Procedure {
        name: ident(name, s),
        visibility: ProcedureVisibility::Public,
        annotations: Vec::new(),
        parameters,
        body,
        directives: Vec::new(),
        span: s,
    })
}

fn call(name: &str, s: Span) -> PlSqlStatement {
    PlSqlStatement::Call { name: ident(name, s), arguments: Vec::new(), span: s }
}

fn assign(name: &str, s: Span) -> PlSqlStatement {
    PlSqlStatement::Assignment {
        target: ident(name, s),
        value: Expression::Literal { value: "1".to_string(), span: s },
        span: s,
    }
}

#[test]
fn test_index_creation() {
    let index = Index::in_memory();
    assert!(index.is_ok());
}

#[test]
fn test_language_detection() {
    assert_eq!(detect_language_from_path("test.plsql"), Language::PlSql);
    assert_eq!(detect_language_from_path("test.entity"), Language::Entity);
    assert_eq!(detect_language_from_path("test.projection"), Language::MarbleProjection);
}

#[test]
fn language_detection_covers_every_extension() {
    assert_eq!(detect_language_from_path("a/b/c.enumeration"), Language::Enumeration);
    assert_eq!(detect_language_from_path("c.VIEWS"), Language::Views);
    assert_eq!(detect_language_from_path("/x/c.storage"), Language::Storage);
    assert_eq!(detect_language_from_path("c.client"), Language::MarbleClient);
    assert_eq!(detect_language_from_path("c.unknown"), Language::PlSql);
    assert_eq!(detect_language_from_path("noextension"), Language::PlSql);
    assert_eq!(detect_language_from_path(".entity"), Language::PlSql);
    assert_eq!(detect_language_from_path("dir.entity/file"), Language::PlSql);
    assert_eq!(detect_language_from_path("a.b.entity"), Language::Entity);
    assert_eq!(detect_language_from_path(""), Language::PlSql);
    assert_eq!(detect_language_from_path(".."), Language::PlSql);
}

#[test]
fn language_detection_leaves_trailing_separators_aside() {
    assert_eq!(detect_language_from_path("a.entity/"), Language::Entity);
    assert_eq!(detect_language_from_path("a.entity//"), Language::Entity);
    assert_eq!(detect_language_from_path("a.entity/."), Language::Entity);
    assert_eq!(detect_language_from_path("x/a.views/./"), Language::Views);
    assert_eq!(detect_language_from_path("a.entity/.."), Language::PlSql);
    assert_eq!(detect_language_from_path("a.entity/b"), Language::PlSql);
    assert_eq!(detect_language_from_path("./"), Language::PlSql);
    assert_eq!(detect_language_from_path("/"), Language::PlSql);
}

#[test]
fn test_search_query_builder() {
    let query = SearchQuery::new()
        .with_name("test".to_string())
        .with_kinds(vec!["Function".to_string()])
        .with_limit(50)
        .include_docs();

    assert_eq!(query.name_pattern, Some("test".to_string()));
    assert_eq!(query.kind_filter, Some(vec!["Function".to_string()]));
    assert_eq!(query.limit, Some(50));
    assert!(query.include_documentation);
}

#[test]
fn search_query_defaults() {
    let query = SearchQuery::default();
    assert_eq!(query.name_pattern, None);
    assert_eq!(query.kind_filter, None);
    assert_eq!(query.file_pattern, None);
    assert_eq!(query.limit, Some(100));
    assert!(!query.include_documentation);
    let query = SearchQuery::new().with_file_pattern("src/".to_string());
    assert_eq!(query.file_pattern, Some("src/".to_string()));
}

#[test]
fn test_symbol_searcher_creation() {
    let database = Database::in_memory().unwrap();
    let searcher = SymbolSearcher::new(&database);

    let result = searcher.search_by_name("nonexistent");
    assert!(result.is_ok());
    assert!(result.unwrap().is_empty());
}

#[test]
fn two_files_with_the_same_procedure_name() {
    let mut index = Index::in_memory().unwrap();
    let a = procedure("Handle_Event", span(1, 1, 0, 3, 5, 40), Vec::new(), Vec::new());
    let b = procedure("Handle_Event", span(1, 1, 0, 9, 5, 90), Vec::new(), Vec::new());
    index.index_file("a.plsql", &a).unwrap();
    index.index_file("b.plsql", &b).unwrap();

    let found = index.search_symbols("Handle_Event").unwrap();
    assert_eq!(found.len(), 2);
    assert_eq!(found[0].name, "Handle_Event");
    assert_eq!(found[1].name, "Handle_Event");
    assert_ne!(found[0].file_path, found[1].file_path);
    assert_ne!(found[0].id, found[1].id);
    let mut paths: Vec<&str> = found.iter().map(|s| s.file_path.as_str()).collect();
    paths.sort();
    assert_eq!(paths, vec!["a.plsql", "b.plsql"]);
}

#[test]
fn reindexing_removes_what_the_source_no_longer_has() {
    let mut index = Index::in_memory().unwrap();
    let old = procedure(
        "Old_Proc",
        span(1, 1, 0, 5, 5, 80),
        vec![param("a_", ParameterMode::In, "NUMBER", span(1, 20, 19, 1, 32, 31))],
        vec![call("Other", span(2, 3, 40, 2, 8, 45)), assign("x_", span(3, 3, 50, 3, 5, 52))],
    );
    index.index_file("f.plsql", &old).unwrap();
    let stats = index.get_statistics().unwrap();
    assert_eq!((stats.total_files, stats.total_symbols, stats.total_references), (1, 2, 2));
    let old_symbol = index.search_symbols("Old_Proc").unwrap().remove(0);
    assert!(index.find_references(&old_symbol).unwrap().is_empty());
    assert_eq!(index.find_enclosed_references(&old_symbol).unwrap().len(), 2);
    let reference_ids: Vec<i64> = index.database().references().iter().map(|r| r.id).collect();
    for id in &reference_ids {
        assert!(index.resolve_reference(*id, old_symbol.id.unwrap()));
    }
    assert_eq!(index.find_references(&old_symbol).unwrap().len(), 2);

    let new = procedure("New_Proc", span(1, 1, 0, 2, 5, 30), Vec::new(), Vec::new());
    index.index_file("f.plsql", &new).unwrap();

    assert!(index.search_symbols("Old_Proc").unwrap().is_empty());
    assert!(index.search_symbols("a_").unwrap().is_empty());
    assert!(index.find_references(&old_symbol).unwrap().is_empty());
    assert!(index.find_enclosed_references(&old_symbol).unwrap().is_empty());
    assert!(index.database().references().is_empty());
    let stats = index.get_statistics().unwrap();
    assert_eq!((stats.total_files, stats.total_symbols, stats.total_references), (1, 1, 0));
    let symbols = index.get_file_symbols("f.plsql").unwrap();
    assert_eq!(symbols.len(), 1);
    assert_eq!(symbols[0].name, "New_Proc");
}

fn without_ids(symbols: &[SymbolInfo]) -> Vec<(String, SymbolKind, Span, String, Option<String>, Option<usize>)> {
    symbols
        .iter()
        .map(|s| {
            let parent = s.parent.map(|p| symbols.iter().position(|q| q.id == Some(p)).unwrap());
            (s.name.clone(), s.kind, s.span, s.file_path.clone(), s.signature.clone(), parent)
        })
        .collect()
}

#[test]
fn indexing_twice_changes_nothing() {
    let mut index = Index::in_memory().unwrap();
    let other = procedure("Other", span(1, 1, 0, 2, 2, 20), Vec::new(), Vec::new());
    index.index_file("other.plsql", &other).unwrap();
    let ast = procedure(
        "Proc",
        span(1, 1, 0, 5, 5, 80),
        vec![
            param("a_", ParameterMode::In, "NUMBER", span(1, 20, 19, 1, 32, 31)),
            param("b_", ParameterMode::Out, "DATE", span(1, 34, 33, 1, 45, 44)),
        ],
        vec![call("Other", span(2, 3, 50, 2, 8, 55))],
    );
    index.index_file("f.plsql", &ast).unwrap();
    let first = index.get_file_symbols("f.plsql").unwrap();
    let first_other = index.get_file_symbols("other.plsql").unwrap();
    let first_stats = index.get_statistics().unwrap();

    index.index_file("f.plsql", &ast).unwrap();
    let second = index.get_file_symbols("f.plsql").unwrap();
    let second_other = index.get_file_symbols("other.plsql").unwrap();
    let second_stats = index.get_statistics().unwrap();

    assert_eq!(without_ids(&first), without_ids(&second));
    assert_eq!(first_other, second_other);
    assert_eq!(first_stats, second_stats);
    assert_eq!(second.len(), 3);
    assert_eq!(second_stats.total_symbols, 4);
    assert_eq!(second_stats.total_references, 1);
}

#[test]
fn children_lie_within_their_parents() {
    let source = "PROCEDURE Create_Customer__ (name_ IN VARCHAR2, id_ OUT NUMBER) IS BEGIN NULL; END;";
    let ast = parse_source(source, Language::PlSql).unwrap();
    let mut index = Index::in_memory().unwrap();
    index.index_file("c.plsql", &ast).unwrap();
    let symbols = index.get_file_symbols("c.plsql").unwrap();
    assert_eq!(symbols.len(), 3);
    let mut children = 0;
    for s in &symbols {
        if let Some(p) = s.parent {
            let parent = symbols.iter().find(|q| q.id == Some(p)).unwrap();
            assert!(parent.span.start.offset <= s.span.start.offset);
            assert!(s.span.end.offset <= parent.span.end.offset);
            assert!((parent.span.start.line, parent.span.start.column) <= (s.span.start.line, s.span.start.column));
            assert!((s.span.end.line, s.span.end.column) <= (parent.span.end.line, parent.span.end.column));
            assert_eq!(parent.kind, SymbolKind::Procedure);
            children += 1;
        }
    }
    assert_eq!(children, 2);
}

#[test]
fn lookup_finds_the_innermost_symbol() {
    let mut index = Index::in_memory().unwrap();
    let ast = procedure(
        "Outer",
        span(1, 1, 0, 10, 5, 200),
        vec![param("inner_", ParameterMode::In, "NUMBER", span(1, 20, 19, 1, 35, 34))],
        Vec::new(),
    );
    index.index_file("f.plsql", &ast).unwrap();

    let inside_parameter = index.find_definition("f.plsql", 1, 25).unwrap().unwrap();
    assert_eq!(inside_parameter.name, "inner_");
    assert_eq!(inside_parameter.kind, SymbolKind::Parameter);

    let inside_body = index.find_definition("f.plsql", 4, 2).unwrap().unwrap();
    assert_eq!(inside_body.name, "Outer");

    let at_start = index.find_definition("f.plsql", 1, 1).unwrap().unwrap();
    assert_eq!(at_start.name, "Outer");
    let at_end = index.find_definition("f.plsql", 10, 5).unwrap().unwrap();
    assert_eq!(at_end.name, "Outer");

    assert_eq!(index.find_definition("f.plsql", 10, 6).unwrap(), None);
    assert_eq!(index.find_definition("f.plsql", 11, 1).unwrap(), None);
    assert_eq!(index.find_definition("g.plsql", 1, 25).unwrap(), None);
}

#[test]
fn signatures_are_synthesised() {
    let mut index = Index::in_memory().unwrap();
    let ast = parse_source(
        "FUNCTION Get_Total (a_ IN NUMBER, b_ IN OUT VARCHAR2, c_ OUT DATE) RETURN NUMBER IS BEGIN RETURN 1; END;",
        Language::PlSql,
    )
    .unwrap();
    index.index_file("t.plsql", &ast).unwrap();
    let symbols = index.get_file_symbols("t.plsql").unwrap();
    assert_eq!(symbols[0].name, "Get_Total");
    assert_eq!(symbols[0].kind, SymbolKind::Function);
    assert_eq!(
        symbols[0].signature.as_deref(),
        Some("Get_Total(a_ In NUMBER, b_ InOut VARCHAR2, c_ Out DATE) RETURN NUMBER")
    );
    assert_eq!(symbols[1].signature.as_deref(), Some("NUMBER In"));
    assert_eq!(symbols[2].signature.as_deref(), Some("VARCHAR2 InOut"));
    assert_eq!(symbols[3].signature.as_deref(), Some("DATE Out"));

    let ast = parse_source("PROCEDURE P IS BEGIN NULL; END;", Language::PlSql).unwrap();
    index.index_file("p.plsql", &ast).unwrap();
    let symbols = index.get_file_symbols("p.plsql").unwrap();
    assert_eq!(symbols[0].signature.as_deref(), Some("P()"));
}

#[test]
fn search_ranks_exact_before_prefix_before_substring() {
    let mut index = Index::in_memory().unwrap();
    let s = span(1, 1, 0, 1, 2, 1);
    index.index_file("1.plsql", &procedure("My_Order_Api", s, Vec::new(), Vec::new())).unwrap();
    index.index_file("2.plsql", &procedure("Order_Line", s, Vec::new(), Vec::new())).unwrap();
    index.index_file("3.plsql", &procedure("Order", s, Vec::new(), Vec::new())).unwrap();
    index.index_file("4.plsql", &procedure("ORDER", s, Vec::new(), Vec::new())).unwrap();
    index.index_file("5.plsql", &procedure("Unrelated", s, Vec::new(), Vec::new())).unwrap();
    index
        .index_file(
            "6.plsql",
            &AstNode::PlSql(PlSqlNode::Package {
                name: ident("order_pkg", s),
                component: None,
                annotations: Vec::new(),
                declarations: Vec::new(),
                body: None,
                span: s,
            }),
        )
        .unwrap();

    let names: Vec<String> =
        index.search_symbols("Order").unwrap().into_iter().map(|s| s.name).collect();
    assert_eq!(names, vec!["Order", "order_pkg", "ORDER", "Order_Line", "My_Order_Api"]);

    let database = index.database();
    let searcher = AdvancedSearcher::new(database);
    let results = searcher.search(&SearchQuery::new().with_name("Order".to_string())).unwrap();
    let scores: Vec<u32> = results.iter().map(|r| r.score).collect();
    assert_eq!(scores, vec![108, 85, 83, 83, 58]);

    let limited = searcher
        .search(&SearchQuery::new().with_name("Order".to_string()).with_limit(2))
        .unwrap();
    assert_eq!(limited.len(), 2);
    assert_eq!(limited[0].symbol.name, "Order");

    let packages = searcher
        .search(
            &SearchQuery::new()
                .with_name("order".to_string())
                .with_kinds(vec!["Package".to_string()]),
        )
        .unwrap();
    assert_eq!(packages.len(), 1);
    assert_eq!(packages[0].symbol.name, "order_pkg");

    let in_file = searcher
        .search(&SearchQuery::new().with_name("order".to_string()).with_file_pattern("2.".to_string()))
        .unwrap();
    assert_eq!(in_file.len(), 1);
    assert_eq!(in_file[0].symbol.name, "Order_Line");

    assert!(searcher.search(&SearchQuery::new()).unwrap().is_empty());
}

#[test]
fn references_are_ordered_by_file_and_position() {
    let mut index = Index::in_memory().unwrap();
    let ast = procedure(
        "P",
        span(1, 1, 0, 9, 5, 200),
        Vec::new(),
        vec![
            PlSqlStatement::If {
                condition: Expression::Literal { value: "1".to_string(), span: span(2, 1, 10, 2, 2, 11) },
                then_branch: vec![call("Late", span(5, 3, 90, 5, 7, 94))],
                else_branch: Some(vec![PlSqlStatement::Loop {
                    body: vec![assign("x_", span(3, 9, 60, 3, 11, 62))],
                    span: span(3, 1, 50, 4, 1, 70),
                }]),
                span: span(2, 1, 10, 6, 1, 100),
            },
            PlSqlStatement::Return { value: None, span: span(7, 1, 120, 7, 7, 126) },
            call("Early", span(3, 2, 55, 3, 7, 58)),
        ],
    );
    index.index_file("f.plsql", &ast).unwrap();
    let p = index.search_symbols("P").unwrap().remove(0);
    assert!(index.find_references(&p).unwrap().is_empty());
    let enclosed = index.find_enclosed_references(&p).unwrap();
    let reference_ids: Vec<i64> = index.database().references().iter().map(|r| r.id).collect();
    for id in reference_ids {
        assert!(index.resolve_reference(id, p.id.unwrap()));
    }
    let references = index.find_references(&p).unwrap();
    assert_eq!(references, enclosed);
    let seen: Vec<(usize, usize, ReferenceKind)> =
        references.iter().map(|r| (r.span.start.line, r.span.start.column, r.reference_kind)).collect();
    assert_eq!(
        seen,
        vec![
            (3, 2, ReferenceKind::Call),
            (3, 9, ReferenceKind::Assignment),
            (5, 3, ReferenceKind::Call),
        ]
    );
    for r in &references {
        assert_eq!(r.file_path, "f.plsql");
        assert_eq!(r.symbol, p);
    }
    let unknown = SymbolInfo { id: None, ..p.clone() };
    assert!(index.find_references(&unknown).unwrap().is_empty());
}

#[test]
fn misplaced_children_are_refused_and_nothing_changes() {
    let mut index = Index::in_memory().unwrap();
    let good = procedure("Good", span(1, 1, 0, 3, 1, 30), Vec::new(), Vec::new());
    index.index_file("f.plsql", &good).unwrap();

    let bad = procedure(
        "Bad",
        span(1, 1, 0, 2, 1, 20),
        vec![param("far_", ParameterMode::In, "NUMBER", span(5, 1, 50, 5, 9, 58))],
        Vec::new(),
    );
    assert_eq!(index.index_file("f.plsql", &bad), Err(IndexError::MisplacedChild));
    let symbols = index.get_file_symbols("f.plsql").unwrap();
    assert_eq!(symbols.len(), 1);
    assert_eq!(symbols[0].name, "Good");
}

#[test]
fn invalid_spans_are_refused() {
    let mut index = Index::in_memory().unwrap();
    let backwards = procedure("Backwards", span(3, 1, 30, 1, 1, 0), Vec::new(), Vec::new());
    assert_eq!(index.index_file("f.plsql", &backwards), Err(IndexError::InvalidSpan));
    let bad_reference = procedure(
        "P",
        span(1, 1, 0, 3, 1, 30),
        Vec::new(),
        vec![call("x", span(2, 5, 20, 2, 1, 16))],
    );
    assert_eq!(index.index_file("f.plsql", &bad_reference), Err(IndexError::InvalidSpan));
    assert_eq!(index.get_statistics().unwrap().total_files, 0);
}

#[test]
fn duplicate_symbols_are_refused() {
    let mut index = Index::in_memory().unwrap();
    let s = span(1, 1, 0, 9, 1, 90);
    let p = span(2, 1, 10, 2, 5, 14);
    let twice = procedure(
        "P",
        s,
        vec![param("a_", ParameterMode::In, "NUMBER", p), param("a_", ParameterMode::In, "NUMBER", p)],
        Vec::new(),
    );
    assert_eq!(index.index_file("f.plsql", &twice), Err(IndexError::DuplicateSymbol));
    assert_eq!(IndexError::DuplicateSymbol.to_string(), "Two symbols share a name and a span");
}

#[test]
fn store_takes_records_directly() {
    let mut database = Database::in_memory().unwrap();
    let s = span(1, 1, 0, 9, 1, 90);
    let records = vec![
        SymbolRecord {
            name: "top".to_string(),
            kind: SymbolKind::Entity,
            span: s,
            parent: None,
            signature: None,
            documentation: Some("doc".to_string()),
        },
        SymbolRecord {
            name: "child".to_string(),
            kind: SymbolKind::EntityAttribute,
            span: span(2, 1, 10, 2, 9, 18),
            parent: Some(0),
            signature: Some("TEXT".to_string()),
            documentation: None,
        },
    ];
    let references = vec![ReferenceRecord { span: span(2, 2, 11, 2, 3, 12), kind: ReferenceKind::Usage }];
    let id = database.replace_file("e.entity", Language::Entity, &records, &references).unwrap();
    assert_eq!(database.get_file_id("e.entity"), Some(id));
    assert_eq!(database.get_file_id("other"), None);
    assert_eq!(database.files().len(), 1);
    assert_eq!(database.symbols().len(), 2);
    assert_eq!(database.symbols()[1].parent_id, Some(database.symbols()[0].id));
    assert_eq!(database.symbols()[1].kind, "Entity Attribute");
    assert_eq!(database.references()[0].symbol_id, None);
    assert_eq!(database.references()[0].reference_kind, "Usage");
    let child_id = database.symbols()[1].id;
    let parent_id = database.symbols()[0].id;
    assert_eq!(database.find_enclosed_references(child_id).len(), 1);
    assert_eq!(database.find_enclosed_references(parent_id).len(), 0);
    assert_eq!(database.find_references(child_id).len(), 0);
    assert_eq!(database.find_references(parent_id).len(), 0);
    let reference_id = database.references()[0].id;
    assert!(!database.resolve_reference(reference_id, parent_id + 100));
    assert!(!database.resolve_reference(reference_id + 100, parent_id));
    assert_eq!(database.references()[0].symbol_id, None);
    assert!(database.resolve_reference(reference_id, parent_id));
    assert_eq!(database.references()[0].symbol_id, Some(parent_id));
    assert_eq!(database.find_references(parent_id).len(), 1);
    assert_eq!(database.find_references(child_id).len(), 0);
    assert_eq!(database.find_enclosed_references(parent_id).len(), 1);
    assert_eq!(database.find_enclosed_references(child_id).len(), 0);

    let second = database.replace_file("e.entity", Language::Entity, &records, &references).unwrap();
    assert!(second > id);
    assert_eq!(database.symbols().len(), 2);
    assert!(database.symbols()[0].id > child_id);

    let bad_parent = vec![SymbolRecord {
        name: "x".to_string(),
        kind: SymbolKind::Entity,
        span: s,
        parent: Some(0),
        signature: None,
        documentation: None,
    }];
    assert_eq!(
        database.replace_file("x.entity", Language::Entity, &bad_parent, &Vec::new()),
        Err(IndexError::MisplacedChild)
    );

    let searcher = AdvancedSearcher::new(&database);
    let plain = searcher.search(&SearchQuery::new().with_name("top".to_string())).unwrap();
    assert_eq!(plain[0].symbol.documentation, None);
    let with_docs =
        searcher.search(&SearchQuery::new().with_name("top".to_string()).include_docs()).unwrap();
    assert_eq!(with_docs[0].symbol.documentation.as_deref(), Some("doc"));
}

#[test]
fn entities_and_storage_are_extracted() {
    let s = span(1, 1, 0, 20, 1, 400);
    let entity = AstNode::Entity(EntityNode {
        entity_name: ident("Customer", s),
        component: "ORDER".to_string(),
        code_gen_properties: None,
        attributes: vec![EntityAttribute {
            visibility: AttributeVisibility::Public,
            name: ident("Name", span(3, 1, 30, 3, 20, 49)),
            data_type: "TEXT(100)".to_string(),
            flags: "AMIUL".to_string(),
            properties: Vec::new(),
            span: span(3, 1, 30, 3, 20, 49),
        }],
        keys: vec![EntityKey {
            name: ident("Pk", span(5, 1, 60, 5, 9, 68)),
            columns: Vec::new(),
            is_primary: true,
            span: span(5, 1, 60, 5, 9, 68),
        }],
        references: Vec::new(),
        state_machine: None,
        span: s,
    });
    let mut indexer = SymbolIndexer::new();
    indexer.index_ast(&entity);
    let kinds: Vec<SymbolKind> = indexer.symbols.iter().map(|r| r.kind).collect();
    assert_eq!(kinds, vec![SymbolKind::Entity, SymbolKind::EntityAttribute, SymbolKind::EntityKey]);
    assert_eq!(indexer.symbols[1].parent, Some(0));
    assert_eq!(indexer.symbols[1].signature.as_deref(), Some("TEXT(100)"));
    assert!(indexer.references.is_empty());

    let storage = AstNode::Storage(StorageNode {
        layer: None,
        definitions: vec![
            StorageDefinition::Sequence {
                name: ident("seq", span(1, 1, 0, 1, 9, 8)),
                properties: Vec::new(),
                span: span(1, 1, 0, 1, 9, 8),
            },
            StorageDefinition::Table {
                name: ident("tab", span(2, 1, 10, 9, 1, 100)),
                columns: vec![TableColumn {
                    name: ident("col", span(3, 1, 20, 3, 9, 28)),
                    data_type: "NUMBER".to_string(),
                    nullable: false,
                    default_value: None,
                    span: span(3, 1, 20, 3, 9, 28),
                }],
                constraints: vec![TableConstraint::PrimaryKey {
                    name: ident("pk", span(4, 1, 30, 4, 9, 38)),
                    columns: Vec::new(),
                    span: span(4, 1, 30, 4, 9, 38),
                }],
                span: span(2, 1, 10, 9, 1, 100),
            },
        ],
        span: s,
    });
    indexer.index_ast(&storage);
    let names: Vec<&str> = indexer.symbols.iter().map(|r| r.name.as_str()).collect();
    assert_eq!(names, vec!["seq", "tab", "col", "pk"]);
    let parents: Vec<Option<usize>> = indexer.symbols.iter().map(|r| r.parent).collect();
    assert_eq!(parents, vec![None, None, Some(1), Some(1)]);

    let views = AstNode::Views(ViewsNode {
        layer: None,
        column_definitions: Vec::new(),
        views: Vec::new(),
        span: s,
    });
    indexer.index_ast(&views);
    assert!(indexer.symbols.is_empty());
}

#[test]
fn statistics_count_by_dialect() {
    let mut index = Index::in_memory().unwrap();
    let s = span(1, 1, 0, 1, 2, 1);
    index.index_file("a.plsql", &procedure("A", s, Vec::new(), Vec::new())).unwrap();
    index.index_file("b.plsql", &procedure("B", s, Vec::new(), Vec::new())).unwrap();
    index.index_file("v.views", &AstNode::Views(ViewsNode {
        layer: None,
        column_definitions: Vec::new(),
        views: Vec::new(),
        span: s,
    })).unwrap();
    let stats = index.get_statistics().unwrap();
    assert_eq!(stats.total_files, 3);
    assert_eq!(stats.total_symbols, 2);
    assert_eq!(stats.total_references, 0);
    assert_eq!(stats.symbols_by_language, vec![(Language::PlSql, 2), (Language::Views, 0)]);

    index.clear().unwrap();
    let stats = index.get_statistics().unwrap();
    assert_eq!((stats.total_files, stats.total_symbols, stats.total_references), (0, 0, 0));
    assert!(stats.symbols_by_language.is_empty());
}

#[test]
fn kinds_read_as_labels() {
    assert_eq!(SymbolKind::EntityAttribute.to_string(), "Entity Attribute");
    assert_eq!(SymbolKind::from_label("Client Command"), Some(SymbolKind::ClientCommand));
    assert_eq!(SymbolKind::from_label("client command"), None);
    assert_eq!(ReferenceKind::Assignment.to_string(), "Assignment");
    assert_eq!(ReferenceKind::from_label("Call"), Some(ReferenceKind::Call));
    assert_eq!(ReferenceKind::from_label(""), None);
    let database = Database::in_memory().unwrap();
    let searcher = SymbolSearcher::new(&database);
    assert!(searcher.search_by_kind("Entity").unwrap().is_empty());
}

#[test]
fn incoming_references_name_the_symbol_around_each_use() {
    let mut index = Index::in_memory().unwrap();
    let ast = procedure(
        "P",
        span(1, 1, 0, 9, 5, 200),
        vec![param("a_", ParameterMode::In, "NUMBER", span(1, 20, 19, 1, 32, 31))],
        vec![call("Early", span(3, 2, 55, 3, 7, 58)), assign("x_", span(4, 2, 70, 4, 4, 72))],
    );
    index.index_file("f.plsql", &ast).unwrap();
    let p = index.search_symbols("P").unwrap().remove(0);
    let a = index.search_symbols("a_").unwrap().remove(0);
    let reference_ids: Vec<i64> = index.database().references().iter().map(|r| r.id).collect();
    assert!(ifs_parser::index::search::SymbolSearcher::new(index.database())
        .find_incoming_references(&a)
        .unwrap()
        .is_empty());
    for id in reference_ids {
        assert!(index.resolve_reference(id, a.id.unwrap()));
    }
    let searcher = ifs_parser::index::search::SymbolSearcher::new(index.database());
    let around = searcher.find_incoming_references(&a).unwrap();
    assert_eq!(around, vec![p.clone(), p.clone()]);
    assert!(searcher.find_incoming_references(&p).unwrap().is_empty());
    assert!(searcher.find_outgoing_references(&p).unwrap().is_empty());
    assert!(searcher.find_unused_symbols().unwrap().is_empty());
}
