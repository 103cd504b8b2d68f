use ifs_parser::parser::ast::{
    AstNode, IfsAnnotation, OvertakeDirective, ParameterMode, PlSqlNode, ProcedureVisibility,
};
use ifs_parser::parser::lexer::{Lexer, TokenType};
use ifs_parser::parser::parser::{determine_visibility, parse_source, ParseError, Parser};
use ifs_parser::parser::Language;

#[test]
fn test_parse_simple_package() {
    let input = "PACKAGE test_pkg IS END;";
    let result = parse_source(input, Language::PlSql);

    assert!(result.is_ok());
    if let AstNode::PlSql(PlSqlNode::Package { name, .. }) = result.unwrap() {
        assert_eq!(name.name, "test_pkg");
    } else {
        panic!("Expected package node");
    }
}

#[test]
fn test_parse_procedure() {
    let input = "PROCEDURE test_proc IS BEGIN NULL; END;";
    let result = parse_source(input, Language::PlSql);

    assert!(result.is_ok());
    if let AstNode::PlSql(PlSqlNode::Procedure { name, .. }) = result.unwrap() {
        assert_eq!(name.name, "test_proc");
    } else {
        panic!("Expected procedure node");
    }
}

#[test]
fn function_with_return_type_is_public() {
    let input = "FUNCTION Get_Value RETURN VARCHAR2 IS BEGIN RETURN 'x'; END Get_Value;";
    match parse_source(input, Language::PlSql) {
        Ok(AstNode::PlSql(PlSqlNode::Function { name, visibility, return_type, parameters, span, .. })) => {
            assert_eq!(name.name, "Get_Value");
            assert_eq!(visibility, ProcedureVisibility::Public);
            assert_eq!(return_type.name, "VARCHAR2");
            assert!(parameters.is_empty());
            assert_eq!(name.span.start.offset, 9);
            assert_eq!(name.span.end.offset, 18);
            assert_eq!(span.start.offset, 0);
            assert_eq!(span.end.offset, input.len());
        }
        other => panic!("Expected function node, got {:?}", other),
    }
}

#[test]
fn procedure_with_two_parameters_is_protected() {
    let input = "PROCEDURE Create_Customer__ (name_ IN VARCHAR2, id_ OUT NUMBER) IS BEGIN NULL; END;";
    match parse_source(input, Language::PlSql) {
        Ok(AstNode::PlSql(PlSqlNode::Procedure { name, visibility, parameters, span, .. })) => {
            assert_eq!(name.name, "Create_Customer__");
            assert_eq!(visibility, ProcedureVisibility::Protected);
            assert_eq!(parameters.len(), 2);
            assert_eq!(parameters[0].name.name, "name_");
            assert_eq!(parameters[0].mode, ParameterMode::In);
            assert_eq!(parameters[0].param_type.name, "VARCHAR2");
            assert_eq!(parameters[1].name.name, "id_");
            assert_eq!(parameters[1].mode, ParameterMode::Out);
            assert_eq!(parameters[1].param_type.name, "NUMBER");
            for p in &parameters {
                assert!(span.start.offset <= p.span.start.offset);
                assert!(p.span.end.offset <= span.end.offset);
                assert!(p.span.start.offset <= p.span.end.offset);
            }
        }
        other => panic!("Expected procedure node, got {:?}", other),
    }
}

#[test]
fn annotation_attaches_to_the_declaration_it_precedes() {
    let with = "@Override\nPROCEDURE First IS BEGIN NULL; END;";
    let without = "PROCEDURE Second IS BEGIN NULL; END;";
    match parse_source(with, Language::PlSql) {
        Ok(AstNode::PlSql(PlSqlNode::Procedure { name, annotations, .. })) => {
            assert_eq!(name.name, "First");
            assert_eq!(annotations, vec![IfsAnnotation::Override]);
        }
        other => panic!("Expected procedure node, got {:?}", other),
    }
    match parse_source(without, Language::PlSql) {
        Ok(AstNode::PlSql(PlSqlNode::Procedure { name, annotations, .. })) => {
            assert_eq!(name.name, "Second");
            assert!(annotations.is_empty());
        }
        other => panic!("Expected procedure node, got {:?}", other),
    }
}

#[test]
fn annotations_stack() {
    let input = "@Override @UncheckedAccess @Overtake Base FUNCTION F RETURN NUMBER IS BEGIN RETURN 1; END;";
    match parse_source(input, Language::PlSql) {
        Ok(AstNode::PlSql(PlSqlNode::Function { annotations, .. })) => {
            assert_eq!(
                annotations,
                vec![IfsAnnotation::Override, IfsAnnotation::UncheckedAccess, IfsAnnotation::Overtake]
            );
        }
        other => panic!("Expected function node, got {:?}", other),
    }
}

#[test]
fn parameter_modes_and_type_arguments() {
    let input = "PROCEDURE P (a_ NUMBER, b_ IN OUT VARCHAR2(100), c_ in out t DEFAULT NULL, d_ out DATE) IS";
    match parse_source(input, Language::PlSql) {
        Ok(AstNode::PlSql(PlSqlNode::Procedure { parameters, .. })) => {
            assert_eq!(parameters.len(), 4);
            assert_eq!(parameters[0].mode, ParameterMode::In);
            assert_eq!(parameters[1].mode, ParameterMode::InOut);
            assert_eq!(parameters[1].param_type.name, "VARCHAR2");
            assert_eq!(parameters[1].param_type.parameters, vec!["100".to_string()]);
            assert_eq!(parameters[2].mode, ParameterMode::InOut);
            assert_eq!(parameters[2].param_type.name, "t");
            assert!(parameters[2].default_value.is_none());
            assert_eq!(parameters[3].mode, ParameterMode::Out);
        }
        other => panic!("Expected procedure node, got {:?}", other),
    }
}

#[test]
fn empty_parameter_list() {
    match parse_source("PROCEDURE P () IS BEGIN NULL; END;", Language::PlSql) {
        Ok(AstNode::PlSql(PlSqlNode::Procedure { parameters, .. })) => assert!(parameters.is_empty()),
        other => panic!("Expected procedure node, got {:?}", other),
    }
}

#[test]
fn directive_blocks_are_kept_with_their_text() {
    let input = "PROCEDURE P IS BEGIN $SEARCH a := 1; $REPLACE a := 2; $END END;";
    match parse_source(input, Language::PlSql) {
        Ok(AstNode::PlSql(PlSqlNode::Procedure { directives, .. })) => {
            assert_eq!(directives.len(), 2);
            match &directives[0] {
                OvertakeDirective::Search { code, span } => {
                    assert_eq!(code, " a := 1; ");
                    assert_eq!(span.start.offset, 21);
                    assert_eq!(span.end.offset, 37);
                }
                other => panic!("Expected search directive, got {:?}", other),
            }
            match &directives[1] {
                OvertakeDirective::Replace { code, .. } => assert_eq!(code, " a := 2; "),
                other => panic!("Expected replace directive, got {:?}", other),
            }
        }
        other => panic!("Expected procedure node, got {:?}", other),
    }
}

#[test]
fn text_directives_are_told_apart() {
    let input = "PROCEDURE P IS $TEXTSEARCH x $TEXTAPPEND y $END $PREPEND z $END";
    match parse_source(input, Language::PlSql) {
        Ok(AstNode::PlSql(PlSqlNode::Procedure { directives, .. })) => {
            assert_eq!(directives.len(), 3);
            assert!(matches!(&directives[0], OvertakeDirective::TextSearch { text, .. } if text == " x "));
            assert!(matches!(&directives[1], OvertakeDirective::TextAppend { text, .. } if text == " y "));
            assert!(matches!(&directives[2], OvertakeDirective::Prepend { code, .. } if code == " z "));
        }
        other => panic!("Expected procedure node, got {:?}", other),
    }
}

#[test]
fn plain_words_are_no_directives() {
    let input = "PROCEDURE P IS BEGIN search := replace; END;";
    match parse_source(input, Language::PlSql) {
        Ok(AstNode::PlSql(PlSqlNode::Procedure { directives, .. })) => assert!(directives.is_empty()),
        other => panic!("Expected procedure node, got {:?}", other),
    }
}

#[test]
fn unterminated_directive_block_is_unexpected_eof() {
    let result = parse_source("PROCEDURE P IS $SEARCH a := 1;", Language::PlSql);
    assert_eq!(result, Err(ParseError::UnexpectedEof));
}

#[test]
fn closing_directive_without_block_is_invalid_syntax() {
    let result = parse_source("PROCEDURE P IS $END", Language::PlSql);
    assert_eq!(
        result,
        Err(ParseError::InvalidSyntax {
            message: "Closing directive outside a directive block".to_string()
        })
    );
}

#[test]
fn something_else_is_invalid_syntax() {
    let result = parse_source("SELECT 1", Language::PlSql);
    match result {
        Err(ParseError::InvalidSyntax { message }) => {
            assert_eq!(message, "Expected function or procedure declaration");
        }
        other => panic!("Expected invalid syntax, got {:?}", other),
    }
    assert!(matches!(parse_source("", Language::PlSql), Err(ParseError::InvalidSyntax { .. })));
}

#[test]
fn missing_name_is_unexpected_token() {
    let result = parse_source("PROCEDURE ;", Language::PlSql);
    assert_eq!(
        result,
        Err(ParseError::UnexpectedToken {
            expected: "identifier".to_string(),
            found: "Semicolon".to_string()
        })
    );
    let result = parse_source("FUNCTION", Language::PlSql);
    assert_eq!(
        result,
        Err(ParseError::UnexpectedToken {
            expected: "identifier".to_string(),
            found: "Eof".to_string()
        })
    );
}

#[test]
fn function_without_return_is_unexpected_token() {
    let result = parse_source("FUNCTION F IS BEGIN NULL; END;", Language::PlSql);
    assert_eq!(
        result,
        Err(ParseError::UnexpectedToken { expected: "Return".to_string(), found: "Is".to_string() })
    );
}

#[test]
fn unclosed_parameter_list_is_unexpected_token() {
    let result = parse_source("PROCEDURE P (a_ IN NUMBER", Language::PlSql);
    assert_eq!(
        result,
        Err(ParseError::UnexpectedToken {
            expected: "RightParen".to_string(),
            found: "Eof".to_string()
        })
    );
}

#[test]
fn package_forms() {
    let with_body = "PACKAGE p AS PROCEDURE a; FUNCTION b RETURN NUMBER; BODY x := 1; END p;";
    match parse_source(with_body, Language::PlSql) {
        Ok(AstNode::PlSql(PlSqlNode::Package { name, body, declarations, span, .. })) => {
            assert_eq!(name.name, "p");
            assert!(body.is_some());
            assert!(declarations.is_empty());
            assert_eq!(span.start.offset, 0);
            assert_eq!(span.end.offset, with_body.len());
        }
        other => panic!("Expected package node, got {:?}", other),
    }
    assert_eq!(
        parse_source("PACKAGE p END;", Language::PlSql),
        Err(ParseError::UnexpectedToken {
            expected: "AS or IS".to_string(),
            found: "End".to_string()
        })
    );
    assert_eq!(
        parse_source("PACKAGE p IS END", Language::PlSql),
        Err(ParseError::UnexpectedToken {
            expected: "Semicolon".to_string(),
            found: "Eof".to_string()
        })
    );
    assert_eq!(
        parse_source("PACKAGE p IS x := 1", Language::PlSql),
        Err(ParseError::UnexpectedToken { expected: "End".to_string(), found: "Eof".to_string() })
    );
}

#[test]
fn visibility_follows_trailing_underscores() {
    assert_eq!(determine_visibility("Get_Value"), ProcedureVisibility::Public);
    assert_eq!(determine_visibility("Get_Value_"), ProcedureVisibility::Public);
    assert_eq!(determine_visibility("Get_Value__"), ProcedureVisibility::Protected);
    assert_eq!(determine_visibility("Get_Value___"), ProcedureVisibility::Private);
    assert_eq!(determine_visibility("Get_Value_____"), ProcedureVisibility::Private);
    assert_eq!(determine_visibility(""), ProcedureVisibility::Public);
    assert_eq!(determine_visibility("__"), ProcedureVisibility::Protected);
    assert_eq!(determine_visibility("___"), ProcedureVisibility::Private);
    for stem_len in [1usize, 17, 400] {
        let stem = "a".repeat(stem_len);
        assert_eq!(determine_visibility(&stem), ProcedureVisibility::Public);
        assert_eq!(determine_visibility(&format!("{}__", stem)), ProcedureVisibility::Protected);
        for extra in 3..8 {
            let name = format!("{}{}", stem, "_".repeat(extra));
            assert_eq!(determine_visibility(&name), ProcedureVisibility::Private);
        }
    }
}

#[test]
fn parser_steps_over_comments_and_keeps_the_stream() {
    let source = "-- heading\n/* note */ PROCEDURE /* in between */ P IS";
    let mut lexer = Lexer::new(source.to_string(), Language::PlSql);
    let tokens = lexer.tokenize();
    let count = tokens.len();
    let comments = tokens.iter().filter(|t| t.token_type == TokenType::Comment).count();
    assert_eq!(comments, 3);
    let mut parser = Parser::new(tokens, Language::PlSql);
    assert!(matches!(parser.parse(), Ok(AstNode::PlSql(PlSqlNode::Procedure { name, .. })) if name.name == "P"));
    assert!(count > 0);
}

#[test]
fn parse_errors_read_as_messages() {
    let e = ParseError::UnexpectedToken { expected: "identifier".to_string(), found: "Comma".to_string() };
    assert_eq!(e.to_string(), "Unexpected token: expected identifier, found Comma");
    assert_eq!(ParseError::UnexpectedEof.to_string(), "Unexpected end of input");
    assert_eq!(
        ParseError::InvalidSyntax { message: "bad".to_string() }.to_string(),
        "Invalid syntax: bad"
    );
    assert_eq!(
        ParseError::UnsupportedLanguage { language: Language::Views }.to_string(),
        "Unsupported language: Views"
    );
}

#[test]
fn an_empty_token_vector_is_parsed_as_end_of_input() {
    let mut parser = Parser::new(Vec::new(), Language::PlSql);
    assert!(matches!(parser.parse(), Err(ParseError::InvalidSyntax { .. })));
}

#[test]
fn dialects_and_extensions() {
    assert_eq!(Language::from_extension(".plsql"), Some(Language::PlSql));
    assert_eq!(Language::from_extension(".ENTITY"), Some(Language::Entity));
    assert_eq!(Language::from_extension(".enumeration"), Some(Language::Enumeration));
    assert_eq!(Language::from_extension(".views"), Some(Language::Views));
    assert_eq!(Language::from_extension(".storage"), Some(Language::Storage));
    assert_eq!(Language::from_extension(".projection"), Some(Language::MarbleProjection));
    assert_eq!(Language::from_extension(".Client"), Some(Language::MarbleClient));
    assert_eq!(Language::from_extension("plsql"), None);
    assert_eq!(Language::from_extension(".txt"), None);
    assert_eq!(Language::Views.extensions(), &[".views"]);
    assert_eq!(Language::parse_name("MarbleClient"), Some(Language::MarbleClient));
    assert_eq!(Language::parse_name("marbleclient"), None);
}
