use ifs_parser::parser::ast::{
    Identifier, Parameter, ParameterMode, PlSqlNode, Position, ProcedureVisibility, Span, Type,
};
use ifs_parser::static_analysis::analyzer::{AnalysisConfig, Analyzer};
use ifs_parser::static_analysis::diagnostics::{Diagnostic, DiagnosticCollection};
use ifs_parser::static_analysis::rules::{
    Rule, RuleCategory, RuleRegistry, RuleViolation, Severity,
};

fn create_test_diagnostic(line: usize, severity: Severity) -> Diagnostic {
    Diagnostic {
        message: "Test diagnostic".to_string(),
        span: Span {
            start: Position { line, column: 1, offset: 0 },
            end: Position { line, column: 10, offset: 9 },
        },
        severity,
        code: Some("test".to_string()),
        source: "ifs-parser".to_string(),
        related_information: Vec::new(),
    }
}

fn at(line: usize, column: usize, message: &str) -> Diagnostic {
    Diagnostic {
        message: message.to_string(),
        span: Span {
            start: Position { line, column, offset: 0 },
            end: Position { line, column, offset: 0 },
        },
        severity: Severity::Hint,
        code: None,
        source: "ifs-parser".to_string(),
        related_information: Vec::new(),
    }
}

#[test]
fn test_diagnostic_collection() {
    let mut collection = DiagnosticCollection::new();

    collection.add(create_test_diagnostic(1, Severity::Error));
    collection.add(create_test_diagnostic(2, Severity::Warning));
    collection.add(create_test_diagnostic(3, Severity::Error));

    assert_eq!(collection.all().len(), 3);
    assert_eq!(collection.error_count(), 2);
    assert_eq!(collection.warning_count(), 1);
    assert!(collection.has_errors());
}

#[test]
fn test_diagnostic_sorting() {
    let mut collection = DiagnosticCollection::new();

    collection.add(create_test_diagnostic(3, Severity::Error));
    collection.add(create_test_diagnostic(1, Severity::Warning));
    collection.add(create_test_diagnostic(2, Severity::Error));

    collection.sort_by_position();

    let diagnostics = collection.all();
    assert_eq!(diagnostics[0].span.start.line, 1);
    assert_eq!(diagnostics[1].span.start.line, 2);
    assert_eq!(diagnostics[2].span.start.line, 3);
}

#[test]
fn sorting_diagnostics_is_stable_and_reads_columns() {
    let mut collection = DiagnosticCollection::new();
    collection.add_all(vec![
        at(2, 5, "a"),
        at(1, 9, "b"),
        at(2, 5, "c"),
        at(2, 1, "d"),
        at(1, 9, "e"),
    ]);
    collection.sort_by_position();
    let order: Vec<&str> = collection.all().iter().map(|d| d.message.as_str()).collect();
    assert_eq!(order, vec!["b", "e", "d", "a", "c"]);
}

#[test]
fn collections_filter_and_count() {
    let mut collection = DiagnosticCollection::new();
    assert!(!collection.has_errors());
    assert_eq!(collection.error_count(), 0);
    collection.add(create_test_diagnostic(4, Severity::Info));
    collection.add_all(vec![
        create_test_diagnostic(5, Severity::Hint),
        create_test_diagnostic(6, Severity::Info),
    ]);
    assert!(!collection.has_errors());
    let infos = collection.by_severity(Severity::Info);
    assert_eq!(infos.len(), 2);
    assert_eq!(infos[0].span.start.line, 4);
    assert_eq!(infos[1].span.start.line, 6);
    let late = collection.filter(|d| d.span.start.line >= 5);
    assert_eq!(late.len(), 2);
    assert_eq!(late[0].span.start.line, 5);
    assert!(collection.filter(|_| false).is_empty());
}

#[test]
fn violations_become_diagnostics() {
    let span = Span {
        start: Position { line: 2, column: 3, offset: 10 },
        end: Position { line: 2, column: 8, offset: 15 },
    };
    let d = Diagnostic::from_violation(RuleViolation {
        rule_id: "unused-variable".to_string(),
        message: "x_ is never used".to_string(),
        span,
        severity: Severity::Warning,
        suggestion: Some("remove it".to_string()),
    });
    assert_eq!(d.message, "x_ is never used");
    assert_eq!(d.span, span);
    assert_eq!(d.severity, Severity::Warning);
    assert_eq!(d.code.as_deref(), Some("unused-variable"));
    assert_eq!(d.source, "ifs-parser");
    assert!(d.related_information.is_empty());
}

#[test]
fn test_rule_registry() {
    let registry = RuleRegistry::new();

    assert!(!registry.get_all_rules().is_empty());
    assert!(registry.get_rule("unused-variable").is_some());

    let quality_rules = registry.get_rules_by_category(&RuleCategory::CodeQuality);
    assert!(!quality_rules.is_empty());
}

#[test]
fn registry_holds_each_id_once() {
    let mut registry = RuleRegistry::new();
    assert_eq!(registry.get_all_rules().len(), 5);
    assert_eq!(registry.get_rules_by_category(&RuleCategory::CodeQuality).len(), 2);
    assert_eq!(registry.get_rules_by_category(&RuleCategory::Maintainability).len(), 0);
    assert_eq!(registry.get_rule("sql-injection-risk").unwrap().severity, Severity::Error);
    assert!(registry.get_rule("no-such-rule").is_none());

    registry.register(Rule {
        id: "unused-variable".to_string(),
        name: "Unused".to_string(),
        description: "again".to_string(),
        category: RuleCategory::Maintainability,
        severity: Severity::Hint,
    });
    assert_eq!(registry.get_all_rules().len(), 5);
    assert_eq!(registry.get_rule("unused-variable").unwrap().severity, Severity::Hint);
    assert_eq!(registry.get_all_rules()[4].id, "unused-variable");
    registry.register(Rule {
        id: "new-rule".to_string(),
        name: "New".to_string(),
        description: "new".to_string(),
        category: RuleCategory::Security,
        severity: Severity::Error,
    });
    assert_eq!(registry.get_all_rules().len(), 6);
}

#[test]
fn test_analyzer_creation() {
    let config = AnalysisConfig::default();
    let analyzer = Analyzer::new(config);

    assert_eq!(analyzer.config().max_diagnostics, 100);
}

#[test]
fn test_package_naming_analysis() {
    let config = AnalysisConfig::default();
    let analyzer = Analyzer::new(config);

    let name = Identifier {
        name: "invalid_name".to_string(),
        span: Span {
            start: Position { line: 1, column: 1, offset: 0 },
            end: Position { line: 1, column: 12, offset: 11 },
        },
    };

    let diagnostics = analyzer.analyze_package_naming(&name);
    assert_eq!(diagnostics.len(), 1);
    assert!(diagnostics[0].message.contains("should end with"));
}

fn named(name: &str) -> Identifier {
    Identifier {
        name: name.to_string(),
        span: Span {
            start: Position { line: 1, column: 1, offset: 0 },
            end: Position { line: 1, column: 2, offset: 1 },
        },
    }
}

fn parameters(n: usize) -> Vec<Parameter> {
    (0..n)
        .map(|k| {
            let span = Span {
                start: Position { line: 1, column: 10 + k, offset: 9 + k },
                end: Position { line: 1, column: 11 + k, offset: 10 + k },
            };
            Parameter {
                name: Identifier { name: format!("p{}_", k), span },
                param_type: Type { name: "NUMBER".to_string(), parameters: Vec::new(), span },
                mode: ParameterMode::In,
                default_value: None,
                span,
            }
        })
        .collect()
}

#[test]
fn naming_checks() {
    let analyzer = Analyzer::new(AnalysisConfig::default());
    assert!(analyzer.analyze_package_naming(&named("Customer_API")).is_empty());
    assert!(analyzer.analyze_package_naming(&named("Customer_PKG")).is_empty());
    assert_eq!(analyzer.analyze_package_naming(&named("_API_")).len(), 1);
    assert_eq!(analyzer.analyze_package_naming(&named("")).len(), 1);

    assert!(analyzer.analyze_procedure_naming(&named("Get_Value")).is_empty());
    assert!(analyzer.analyze_procedure_naming(&named("_x")).is_empty());
    assert!(analyzer.analyze_procedure_naming(&named("")).is_empty());
    let found = analyzer.analyze_procedure_naming(&named("get_value"));
    assert_eq!(found.len(), 1);
    assert_eq!(found[0].message, "Procedure names should start with uppercase letter");
    assert_eq!(found[0].code.as_deref(), Some("procedure-naming"));
    assert_eq!(found[0].severity, Severity::Info);
    assert_eq!(analyzer.analyze_procedure_naming(&named("été")).len(), 1);
    assert!(analyzer.analyze_procedure_naming(&named("Été")).is_empty());

    let found = analyzer.analyze_function_naming(&named("f"));
    assert_eq!(found[0].message, "Function names should start with uppercase letter");
    assert_eq!(found[0].code.as_deref(), Some("function-naming"));
}

#[test]
fn too_many_parameters() {
    let analyzer = Analyzer::new(AnalysisConfig::default());
    assert!(analyzer.analyze_parameters(&parameters(0)).is_empty());
    assert!(analyzer.analyze_parameters(&parameters(10)).is_empty());
    let found = analyzer.analyze_parameters(&parameters(11));
    assert_eq!(found.len(), 1);
    assert_eq!(found[0].message, "Too many parameters (11). Consider using a record type.");
    assert_eq!(found[0].severity, Severity::Warning);
    assert_eq!(found[0].code.as_deref(), Some("too-many-parameters"));
    assert_eq!(found[0].span.start.column, 10);
    let found = analyzer.analyze_parameters(&parameters(123));
    assert_eq!(found[0].message, "Too many parameters (123). Consider using a record type.");
}

#[test]
fn constructs_are_analyzed_name_first() {
    let analyzer = Analyzer::new(AnalysisConfig::default());
    let span = named("x").span;
    let node = PlSqlNode::Procedure {
        name: named("do_it"),
        visibility: ProcedureVisibility::Public,
        annotations: Vec::new(),
        parameters: parameters(12),
        body: Vec::new(),
        directives: Vec::new(),
        span,
    };
    let found = analyzer.analyze_plsql(&node);
    let codes: Vec<&str> = found.iter().map(|d| d.code.as_deref().unwrap()).collect();
    assert_eq!(codes, vec!["procedure-naming", "too-many-parameters"]);

    let node = PlSqlNode::Function {
        name: named("Fine"),
        visibility: ProcedureVisibility::Public,
        annotations: Vec::new(),
        parameters: parameters(2),
        return_type: Type { name: "NUMBER".to_string(), parameters: Vec::new(), span },
        body: Vec::new(),
        directives: Vec::new(),
        span,
    };
    assert!(analyzer.analyze_plsql(&node).is_empty());

    let node = PlSqlNode::Package {
        name: named("pkg"),
        component: None,
        annotations: Vec::new(),
        declarations: Vec::new(),
        body: None,
        span,
    };
    let found = analyzer.analyze_plsql(&node);
    assert_eq!(found.len(), 1);
    assert_eq!(found[0].code.as_deref(), Some("package-naming"));
    assert_eq!(analyzer.rules().get_all_rules().len(), 5);
}

fn violation_of(rule: &Rule, message: &str) -> RuleViolation {
    RuleViolation {
        rule_id: rule.id.clone(),
        message: message.to_string(),
        span: Span {
            start: Position { line: 1, column: 1, offset: 0 },
            end: Position { line: 1, column: 2, offset: 1 },
        },
        severity: rule.severity,
        suggestion: None,
    }
}

fn some_tree() -> ifs_parser::parser::ast::AstNode {
    ifs_parser::parser::parser::parse_source(
        "PROCEDURE P IS BEGIN NULL; END;",
        ifs_parser::parser::Language::PlSql,
    )
    .unwrap()
}

#[test]
fn analysis_reports_what_the_checks_find_rule_by_rule() {
    let analyzer = Analyzer::new(AnalysisConfig::default());
    let tree = some_tree();
    let found = analyzer.analyze(&tree, |rule, _| {
        vec![violation_of(rule, "first"), violation_of(rule, "second")]
    });
    let codes: Vec<(&str, &str)> =
        found.iter().map(|d| (d.code.as_deref().unwrap(), d.message.as_str())).collect();
    assert_eq!(
        codes,
        vec![
            ("unused-variable", "first"),
            ("unused-variable", "second"),
            ("empty-catch-block", "first"),
            ("empty-catch-block", "second"),
            ("inefficient-loop", "first"),
            ("inefficient-loop", "second"),
            ("sql-injection-risk", "first"),
            ("sql-injection-risk", "second"),
            ("missing-exception-handling", "first"),
            ("missing-exception-handling", "second"),
        ]
    );
    assert!(found.iter().all(|d| d.source == "ifs-parser" && d.related_information.is_empty()));
    assert_eq!(found[0].severity, Severity::Warning);
    assert!(analyzer.analyze(&tree, |_, _| Vec::new()).is_empty());
}

#[test]
fn analysis_follows_the_categories_and_the_limit_of_the_configuration() {
    let tree = some_tree();
    let config = AnalysisConfig {
        enabled_categories: vec![RuleCategory::Security, RuleCategory::CodeQuality],
        max_diagnostics: 3,
    };
    let analyzer = Analyzer::new(config.clone());
    let enabled: Vec<&str> = analyzer.enabled().iter().map(|r| r.id.as_str()).collect();
    assert_eq!(enabled, vec!["sql-injection-risk", "unused-variable", "empty-catch-block"]);
    let check =
        |rule: &Rule, _: &ifs_parser::parser::ast::AstNode| vec![violation_of(rule, "a"), violation_of(rule, "b")];
    let found = analyzer.analyze(&tree, check);
    let codes: Vec<&str> = found.iter().map(|d| d.code.as_deref().unwrap()).collect();
    assert_eq!(codes, vec!["sql-injection-risk", "sql-injection-risk", "unused-variable"]);
    let again = ifs_parser::static_analysis::analyze(&tree, &config, check);
    assert_eq!(again, found);

    let none = AnalysisConfig { enabled_categories: Vec::new(), max_diagnostics: 100 };
    assert!(Analyzer::new(none).analyze(&tree, check).is_empty());
    let zero = AnalysisConfig { enabled_categories: vec![RuleCategory::Security], max_diagnostics: 0 };
    assert!(Analyzer::new(zero).analyze(&tree, check).is_empty());
}

#[test]
fn report_turns_violations_into_diagnostics() {
    let analyzer = Analyzer::new(AnalysisConfig { enabled_categories: Vec::new(), max_diagnostics: 2 });
    let rule = Rule {
        id: "r".to_string(),
        name: "R".to_string(),
        description: String::new(),
        category: RuleCategory::Maintainability,
        severity: Severity::Error,
    };
    let violations =
        vec![violation_of(&rule, "x"), violation_of(&rule, "y"), violation_of(&rule, "z")];
    let found = analyzer.report(&violations);
    assert_eq!(found.len(), 2);
    assert_eq!(found[1], Diagnostic::from_violation(violations[1].clone()));
}

#[test]
fn a_routine_name_is_remarked_on_where_it_starts_lowercase() {
    use_remark(true, 1);
    use_remark(false, 0);
    assert!(ifs_parser::static_analysis::analyzer::starts_lowercase("abc"));
    assert!(ifs_parser::static_analysis::analyzer::starts_lowercase("ß"));
    assert!(!ifs_parser::static_analysis::analyzer::starts_lowercase("Abc"));
    assert!(!ifs_parser::static_analysis::analyzer::starts_lowercase("_abc"));
    assert!(!ifs_parser::static_analysis::analyzer::starts_lowercase(""));
}

fn use_remark(lowercase: bool, expected: usize) {
    let span = Span {
        start: Position { line: 3, column: 4, offset: 20 },
        end: Position { line: 3, column: 9, offset: 25 },
    };
    let found =
        ifs_parser::static_analysis::analyzer::naming_remark(lowercase, span, "message", "code");
    assert_eq!(found.len(), expected);
    for d in found {
        assert_eq!(d.message, "message");
        assert_eq!(d.code.as_deref(), Some("code"));
        assert_eq!(d.span, span);
        assert_eq!(d.severity, Severity::Info);
        assert_eq!(d.source, "ifs-parser");
    }
}
