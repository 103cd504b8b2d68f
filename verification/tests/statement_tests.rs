use ifs_parser::index::symbols::ReferenceKind;
use ifs_parser::index::Index;
use ifs_parser::parser::ast::{
    AstNode, BinaryOperator, Expression, PlSqlNode, PlSqlStatement, UnaryOperator,
};
use ifs_parser::parser::parser::{parse_source, ParseError};
use ifs_parser::parser::Language;

fn body_of(source: &str) -> Vec<PlSqlStatement> {
    match parse_source(source, Language::PlSql) {
        Ok(AstNode::PlSql(PlSqlNode::Procedure { body, .. })) => body,
        Ok(AstNode::PlSql(PlSqlNode::Function { body, .. })) => body,
        other => panic!("Expected a routine, got {:?}", other),
    }
}

fn statements(text: &str) -> Vec<PlSqlStatement> {
    body_of(&format!("PROCEDURE P IS BEGIN {} END P;", text))
}

fn expression(text: &str) -> Expression {
    match statements(&format!("x_ := {};", text)).remove(0) {
        PlSqlStatement::Assignment { value, .. } => value,
        other => panic!("Expected an assignment, got {:?}", other),
    }
}

/// An expression written with every operation in brackets.
fn shape(e: &Expression) -> String {
    match e {
        Expression::Identifier(id) => id.name.clone(),
        Expression::Literal { value, .. } => value.clone(),
        Expression::Binary { left, operator, right, .. } => {
            format!("({} {:?} {})", shape(left), operator, shape(right))
        }
        Expression::Unary { operator, operand, .. } => format!("({:?} {})", operator, shape(operand)),
        Expression::FunctionCall { name, arguments, .. } => {
            let args: Vec<String> = arguments.iter().map(shape).collect();
            format!("{}[{}]", name.name, args.join(", "))
        }
    }
}

/// A statement written on one line.
fn outline(s: &PlSqlStatement) -> String {
    match s {
        PlSqlStatement::Assignment { target, value, .. } => format!("{} := {}", target.name, shape(value)),
        PlSqlStatement::If { condition, then_branch, else_branch, .. } => {
            let then: Vec<String> = then_branch.iter().map(outline).collect();
            match else_branch {
                Some(e) => {
                    let els: Vec<String> = e.iter().map(outline).collect();
                    format!("if {} {{{}}} else {{{}}}", shape(condition), then.join("; "), els.join("; "))
                }
                None => format!("if {} {{{}}}", shape(condition), then.join("; ")),
            }
        }
        PlSqlStatement::Loop { body, .. } => {
            let inner: Vec<String> = body.iter().map(outline).collect();
            format!("loop {{{}}}", inner.join("; "))
        }
        PlSqlStatement::Return { value, .. } => match value {
            Some(e) => format!("return {}", shape(e)),
            None => "return".to_string(),
        },
        PlSqlStatement::Call { name, arguments, .. } => {
            let args: Vec<String> = arguments.iter().map(shape).collect();
            format!("call {}[{}]", name.name, args.join(", "))
        }
    }
}

fn outlines(text: &str) -> Vec<String> {
    statements(text).iter().map(outline).collect()
}

#[test]
fn operators_bind_by_level_and_group_to_the_left() {
    assert_eq!(shape(&expression("1 + 2 * 3")), "(1 Add (2 Multiply 3))");
    assert_eq!(shape(&expression("1 * 2 + 3")), "((1 Multiply 2) Add 3)");
    assert_eq!(shape(&expression("a - b - c")), "((a Subtract b) Subtract c)");
    assert_eq!(shape(&expression("a / b * c")), "((a Divide b) Multiply c)");
    assert_eq!(shape(&expression("(1 + 2) * 3")), "((1 Add 2) Multiply 3)");
    assert_eq!(
        shape(&expression("a = 1 AND b <> 2 OR c >= 3")),
        "(((a Equal 1) And (b NotEqual 2)) Or (c GreaterThanOrEqual 3))"
    );
    assert_eq!(shape(&expression("a OR b AND c")), "(a Or (b And c))");
    assert_eq!(shape(&expression("a + 1 < b * 2")), "((a Add 1) LessThan (b Multiply 2))");
    assert_eq!(shape(&expression("name_ LIKE 'A%'")), "(name_ Like 'A%')");
    assert_eq!(shape(&expression("x in (1)")), "(x In 1)");
    assert_eq!(shape(&expression("a <= b")), "(a LessThanOrEqual b)");
    assert_eq!(shape(&expression("a > b")), "(a GreaterThan b)");
}

#[test]
fn unary_operators_bind_tightest() {
    assert_eq!(shape(&expression("-a + b")), "((Minus a) Add b)");
    assert_eq!(shape(&expression("- - a")), "(Minus (Minus a))");
    assert_eq!(shape(&expression("+1")), "(Plus 1)");
    assert_eq!(shape(&expression("NOT a AND b")), "((Not a) And b)");
    assert!(matches!(expression("not x"), Expression::Unary { operator: UnaryOperator::Not, .. }));
}

#[test]
fn names_and_calls() {
    assert_eq!(shape(&expression("rec_.field")), "rec_.field");
    assert_eq!(shape(&expression("a.b.c")), "a.b.c");
    assert_eq!(shape(&expression("rec_.type")), "rec_.type");
    assert_eq!(shape(&expression("f()")), "f[]");
    assert_eq!(shape(&expression("f(1, g(x, 2) + 1)")), "f[1, (g[x, 2] Add 1)]");
    assert_eq!(shape(&expression("Customer_API.Get_Name(id_)")), "Customer_API.Get_Name[id_]");
    assert_eq!(shape(&expression("TRUE")), "TRUE");
    match expression("a.b") {
        Expression::Identifier(id) => {
            assert_eq!(id.span.end.offset - id.span.start.offset, 3);
        }
        other => panic!("Expected a name, got {:?}", other),
    }
}

#[test]
fn what_follows_an_expression_is_stepped_over() {
    assert_eq!(outlines("x_ := a || b;"), vec!["x_ := a"]);
    assert_eq!(outlines("x_ := c%ROWCOUNT; y_ := 2;"), vec!["x_ := c", "y_ := 2"]);
}

#[test]
fn simple_statements() {
    assert_eq!(
        outlines("x_ := 1; Do_It; Do_That(1, 2); RETURN; RETURN x_ + 1; NULL; ;"),
        vec!["x_ := 1", "call Do_It[]", "call Do_That[1, 2]", "return", "return (x_ Add 1)"]
    );
    assert_eq!(outlines("tab_(i_) := 5; rec_.a := rec_.b;"), vec!["tab_ := 5", "rec_.a := rec_.b"]);
    assert!(outlines("").is_empty());
}

#[test]
fn statements_that_are_not_recognised_leave_no_node() {
    assert_eq!(
        outlines("EXIT WHEN a > 1; RAISE no_data; SELECT 1 INTO x_ FROM dual; COMMIT; x_ := 2; f(1) .y;"),
        vec!["call COMMIT[]", "x_ := 2"]
    );
    assert_eq!(outlines("search := replace; y_ := 1;"), vec!["y_ := 1"]);
}

#[test]
fn conditionals() {
    assert_eq!(outlines("IF a THEN x := 1; END IF;"), vec!["if a {x := 1}"]);
    assert_eq!(
        outlines("IF a = 1 THEN x := 1; y := 2; ELSE z := 3; END IF; w := 4;"),
        vec!["if (a Equal 1) {x := 1; y := 2} else {z := 3}", "w := 4"]
    );
    assert_eq!(
        outlines("IF a THEN p; ELSIF b THEN q; ELSIF c THEN r; ELSE s; END IF;"),
        vec!["if a {call p[]} else {if b {call q[]} else {if c {call r[]} else {call s[]}}}"]
    );
    assert_eq!(
        outlines("IF a THEN IF b THEN p; END IF; END IF;"),
        vec!["if a {if b {call p[]}}"]
    );
    assert_eq!(outlines("IF a IS NULL THEN p; END IF;"), vec!["if a {call p[]}"]);
    assert_eq!(outlines("IF a THEN END IF;"), vec!["if a {}"]);
}

#[test]
fn loops_and_blocks() {
    assert_eq!(outlines("LOOP x := 1; END LOOP;"), vec!["loop {x := 1}"]);
    assert_eq!(outlines("WHILE a < 3 LOOP a := a + 1; END LOOP;"), vec!["loop {a := (a Add 1)}"]);
    assert_eq!(
        outlines("FOR i_ IN 1..10 LOOP Do_It(i_); END LOOP outer;"),
        vec!["loop {call Do_It[i_]}"]
    );
    assert_eq!(
        outlines("a := 1; BEGIN b := 2; BEGIN c := 3; END; END blk; d := 4;"),
        vec!["a := 1", "b := 2", "c := 3", "d := 4"]
    );
    assert_eq!(
        outlines("a := 1; EXCEPTION WHEN no_data_found THEN b := 2; WHEN OTHERS THEN IF c THEN d; END IF;"),
        vec!["a := 1", "b := 2", "if c {call d[]}"]
    );
    assert_eq!(
        outlines("LOOP IF a THEN LOOP b; END LOOP; END IF; END LOOP;"),
        vec!["loop {if a {loop {call b[]}}}"]
    );
}

#[test]
fn declarations_before_begin_are_stepped_over() {
    let body = body_of("PROCEDURE P IS x_ NUMBER := 1; CURSOR c IS SELECT 1 FROM dual; BEGIN x_ := 2; END;");
    assert_eq!(body.iter().map(outline).collect::<Vec<_>>(), vec!["x_ := 2"]);
    assert!(body_of("PROCEDURE P IS x_ NUMBER := 1;").is_empty());
    assert!(body_of("PROCEDURE P").is_empty());
    let body = body_of("FUNCTION F RETURN NUMBER IS BEGIN RETURN 1; END F;");
    assert_eq!(body.iter().map(outline).collect::<Vec<_>>(), vec!["return 1"]);
}

#[test]
fn directives_do_not_disturb_statements() {
    let source = "PROCEDURE P IS BEGIN $SEARCH a := 1; $REPLACE a := 2; $END b := 3; END;";
    match parse_source(source, Language::PlSql) {
        Ok(AstNode::PlSql(PlSqlNode::Procedure { body, directives, .. })) => {
            assert_eq!(body.iter().map(outline).collect::<Vec<_>>(), vec!["a := 1", "a := 2", "b := 3"]);
            assert_eq!(directives.len(), 2);
        }
        other => panic!("Expected a procedure, got {:?}", other),
    }
}

#[test]
fn statement_spans_run_to_the_semicolon() {
    let source = "PROCEDURE P IS BEGIN x_ := 1 + 2; IF a THEN\n  Run(1);\nEND IF; END;";
    let body = body_of(source);
    match &body[0] {
        PlSqlStatement::Assignment { target, value, span } => {
            assert_eq!(&source[span.start.offset..span.end.offset], "x_ := 1 + 2;");
            assert_eq!(&source[target.span.start.offset..target.span.end.offset], "x_");
            match value {
                Expression::Binary { operator, span, left, right } => {
                    assert_eq!(*operator, BinaryOperator::Add);
                    assert_eq!(&source[span.start.offset..span.end.offset], "1 + 2");
                    assert!(matches!(**left, Expression::Literal { .. }));
                    assert!(matches!(**right, Expression::Literal { .. }));
                }
                other => panic!("Expected a sum, got {:?}", other),
            }
        }
        other => panic!("Expected an assignment, got {:?}", other),
    }
    match &body[1] {
        PlSqlStatement::If { then_branch, span, .. } => {
            assert_eq!(&source[span.start.offset..span.end.offset], "IF a THEN\n  Run(1);\n");
            assert_eq!((span.start.line, span.end.line), (1, 3));
            match &then_branch[0] {
                PlSqlStatement::Call { name, span, .. } => {
                    assert_eq!(name.name, "Run");
                    assert_eq!(&source[span.start.offset..span.end.offset], "Run(1);");
                    assert_eq!((span.start.line, span.start.column), (2, 3));
                }
                other => panic!("Expected a call, got {:?}", other),
            }
        }
        other => panic!("Expected a conditional, got {:?}", other),
    }
}

fn failure(text: &str) -> ParseError {
    match parse_source(&format!("PROCEDURE P IS BEGIN {}", text), Language::PlSql) {
        Err(e) => e,
        Ok(tree) => panic!("Expected a failure, got {:?}", tree),
    }
}

fn unexpected(expected: &str, found: &str) -> ParseError {
    ParseError::UnexpectedToken { expected: expected.to_string(), found: found.to_string() }
}

#[test]
fn malformed_statements_fail() {
    assert_eq!(failure("x_ := ; END;"), unexpected("expression", "Semicolon"));
    assert_eq!(failure("x_ := 1 END"), unexpected("Semicolon", "Eof"));
    assert_eq!(failure("x_ := (1 + 2; END;"), unexpected("RightParen", "Semicolon"));
    assert_eq!(failure("x_ := f(1; END;"), unexpected("RightParen", "Semicolon"));
    assert_eq!(failure("x_ := 1 + ; END;"), unexpected("expression", "Semicolon"));
    assert_eq!(failure("IF a x := 1; END IF; END;"), unexpected("Then", "Semicolon"));
    assert_eq!(failure("IF a THEN x := 1; END;"), unexpected("End", "Eof"));
    assert_eq!(failure("IF a THEN x := 1; END IF END;"), unexpected("Semicolon", "End"));
    assert_eq!(failure("LOOP x := 1; END LOOP"), unexpected("Semicolon", "Eof"));
    assert_eq!(failure("WHILE a; END;"), unexpected("Loop", "Semicolon"));
    assert_eq!(failure("x := 1;"), unexpected("End", "Eof"));
    assert_eq!(failure("ELSE x := 1; END;"), unexpected("End", "Else"));
    assert_eq!(failure("RETURN 1"), unexpected("Semicolon", "Eof"));
    assert_eq!(failure("WHEN others x; END;"), unexpected("Then", "Semicolon"));
    assert_eq!(failure("BEGIN x := 1; END"), unexpected("Semicolon", "Eof"));
}

#[test]
fn references_come_from_parsed_bodies() {
    let source = "PROCEDURE Update_It (id_ IN NUMBER) IS\nBEGIN\n   count_ := count_ + 1;\n   IF id_ > 0 THEN\n      Log_API.Write(id_);\n   END IF;\nEND Update_It;";
    let ast = parse_source(source, Language::PlSql).unwrap();
    let mut index = Index::in_memory().unwrap();
    index.index_file("u.plsql", &ast).unwrap();
    let stats = index.get_statistics().unwrap();
    assert_eq!((stats.total_symbols, stats.total_references), (2, 2));
    let procedure = index.search_symbols("Update_It").unwrap().remove(0);
    assert!(index.find_references(&procedure).unwrap().is_empty());
    let references = index.find_enclosed_references(&procedure).unwrap();
    let seen: Vec<(usize, usize, ReferenceKind, &str)> = references
        .iter()
        .map(|r| {
            (
                r.span.start.line,
                r.span.start.column,
                r.reference_kind,
                &source[r.span.start.offset..r.span.end.offset],
            )
        })
        .collect();
    assert_eq!(
        seen,
        vec![(3, 4, ReferenceKind::Assignment, "count_"), (5, 7, ReferenceKind::Call, "Log_API.Write")]
    );
    let at_call = index.find_definition("u.plsql", 5, 10).unwrap().unwrap();
    assert_eq!(at_call.name, "Update_It");
    let at_parameter = index.find_definition("u.plsql", 1, 24).unwrap().unwrap();
    assert_eq!(at_parameter.name, "id_");
}
