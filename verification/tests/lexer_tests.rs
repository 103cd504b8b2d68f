use ifs_parser::parser::lexer::{Lexer, Token, TokenType};
use ifs_parser::parser::Language;

fn lex(source: &str) -> Vec<Token> {
    let mut lexer = Lexer::new(source.to_string(), Language::PlSql);
    lexer.tokenize()
}

fn kinds(source: &str) -> Vec<TokenType> {
    lex(source).into_iter().map(|t| t.token_type).collect()
}

fn joined(tokens: &[Token]) -> String {
    tokens.iter().map(|t| t.value.as_str()).collect()
}

#[test]
fn test_basic_tokenization() {
    let mut lexer = Lexer::new("PACKAGE test_pkg IS".to_string(), Language::PlSql);
    let tokens = lexer.tokenize();

    assert_eq!(tokens.len(), 6);
    assert_eq!(tokens[0].token_type, TokenType::Package);
    assert_eq!(tokens[2].token_type, TokenType::Identifier);
    assert_eq!(tokens[2].value, "test_pkg");
}

#[test]
fn test_comment_tokenization() {
    let mut lexer = Lexer::new("-- This is a comment\n".to_string(), Language::PlSql);
    let tokens = lexer.tokenize();

    assert_eq!(tokens[0].token_type, TokenType::Comment);
    assert_eq!(tokens[0].value, "-- This is a comment");
}

#[test]
fn stream_ends_with_one_eof() {
    for source in ["", " ", "a", "PROCEDURE x IS BEGIN NULL; END;", "'open", "/* open"] {
        let tokens = lex(source);
        assert_eq!(tokens.last().unwrap().token_type, TokenType::Eof);
        let eofs = tokens.iter().filter(|t| t.token_type == TokenType::Eof).count();
        assert_eq!(eofs, 1);
    }
}

#[test]
fn empty_source_gives_only_eof() {
    let tokens = lex("");
    assert_eq!(tokens.len(), 1);
    assert_eq!(tokens[0].token_type, TokenType::Eof);
    assert_eq!(tokens[0].value, "");
    assert_eq!(tokens[0].position.line, 1);
    assert_eq!(tokens[0].position.column, 1);
    assert_eq!(tokens[0].position.offset, 0);
}

#[test]
fn lexing_is_lossless() {
    let sources = [
        "PACKAGE test_pkg IS\n  -- note\n  x_ := 1.5 + y__ /* block\n comment */;\nEND;",
        "@Override\nPROCEDURE Do_It___ (a_ IN NUMBER) IS BEGIN $SEARCH x $REPLACE y $END END;",
        "a<=b<>c>=d:=e:f<g>h=i",
        "été 'ça' ∑ \t\r x",
        "1.2.3 4. .5 'closed' @ $ @x $y # ~",
        "/* never closed",
        "-- only a comment",
    ];
    for source in sources {
        let tokens = lex(source);
        assert_eq!(joined(&tokens), source);
    }
}

#[test]
fn unterminated_string_is_an_error_token() {
    let tokens = lex("x := 'abc");
    let n = tokens.len();
    assert_eq!(tokens[n - 2].token_type, TokenType::Error);
    assert_eq!(tokens[n - 2].value, "Unterminated string");
    assert_eq!(tokens[n - 1].token_type, TokenType::Eof);
    assert_ne!(joined(&tokens), "x := 'abc");
}

#[test]
fn unknown_characters_are_error_tokens() {
    let tokens = lex("#");
    assert_eq!(tokens[0].token_type, TokenType::Error);
    assert_eq!(tokens[0].value, "#");
    let tokens = lex("@ $");
    assert_eq!(tokens[0].token_type, TokenType::Error);
    assert_eq!(tokens[0].value, "@");
    assert_eq!(tokens[2].token_type, TokenType::Error);
    assert_eq!(tokens[2].value, "$");
}

#[test]
fn operators_and_delimiters() {
    assert_eq!(
        kinds("(){}[];,.+-*/=<<=<>>>=:=:"),
        vec![
            TokenType::LeftParen,
            TokenType::RightParen,
            TokenType::LeftBrace,
            TokenType::RightBrace,
            TokenType::LeftBracket,
            TokenType::RightBracket,
            TokenType::Semicolon,
            TokenType::Comma,
            TokenType::Dot,
            TokenType::Plus,
            TokenType::Minus,
            TokenType::Multiply,
            TokenType::Divide,
            TokenType::Equal,
            TokenType::LessThan,
            TokenType::LessThanOrEqual,
            TokenType::NotEqual,
            TokenType::GreaterThan,
            TokenType::GreaterThanOrEqual,
            TokenType::Assignment,
            TokenType::Colon,
            TokenType::Eof,
        ]
    );
}

#[test]
fn numbers_take_a_fraction_only_before_a_digit() {
    let tokens = lex("12.5");
    assert_eq!(tokens[0].token_type, TokenType::Number);
    assert_eq!(tokens[0].value, "12.5");

    let tokens = lex("12.x");
    assert_eq!(tokens[0].token_type, TokenType::Number);
    assert_eq!(tokens[0].value, "12");
    assert_eq!(tokens[1].token_type, TokenType::Dot);
    assert_eq!(tokens[2].token_type, TokenType::Identifier);

    let tokens = lex("1.2.3");
    assert_eq!(tokens[0].value, "1.2");
    assert_eq!(tokens[1].token_type, TokenType::Dot);
    assert_eq!(tokens[2].value, "3");
}

#[test]
fn keywords_match_without_regard_to_case() {
    assert_eq!(kinds("procedure")[0], TokenType::Procedure);
    assert_eq!(kinds("PROCEDURE")[0], TokenType::Procedure);
    assert_eq!(kinds("PrOcEdUrE")[0], TokenType::Procedure);
    assert_eq!(kinds("elsif")[0], TokenType::ElseIf);
    assert_eq!(kinds("group")[0], TokenType::GroupBy);
    assert_eq!(kinds("order")[0], TokenType::OrderBy);
    assert_eq!(kinds("procedures")[0], TokenType::Identifier);
    assert_eq!(kinds("_x1")[0], TokenType::Identifier);
}

#[test]
fn annotations_and_directives() {
    assert_eq!(kinds("@Override")[0], TokenType::Override);
    assert_eq!(kinds("@OVERTAKE")[0], TokenType::Overtake);
    assert_eq!(kinds("@UncheckedAccess")[0], TokenType::UncheckedAccess);
    assert_eq!(kinds("@Something")[0], TokenType::Identifier);
    assert_eq!(lex("@Something")[0].value, "@Something");

    assert_eq!(kinds("$SEARCH")[0], TokenType::Search);
    assert_eq!(kinds("$replace")[0], TokenType::Replace);
    assert_eq!(kinds("$APPEND")[0], TokenType::Append);
    assert_eq!(kinds("$PREPEND")[0], TokenType::Prepend);
    assert_eq!(kinds("$TEXTSEARCH")[0], TokenType::TextSearch);
    assert_eq!(kinds("$TEXTREPLACE")[0], TokenType::TextReplace);
    assert_eq!(kinds("$TEXTAPPEND")[0], TokenType::TextAppend);
    assert_eq!(kinds("$TEXTPREPEND")[0], TokenType::TextPrepend);
    assert_eq!(kinds("$END")[0], TokenType::End);
    assert_eq!(kinds("$other")[0], TokenType::Identifier);
}

#[test]
fn comments_run_to_their_end() {
    let tokens = lex("/* a\nb */x");
    assert_eq!(tokens[0].token_type, TokenType::Comment);
    assert_eq!(tokens[0].value, "/* a\nb */");
    assert_eq!(tokens[1].token_type, TokenType::Identifier);
    assert_eq!(tokens[1].position.line, 2);
    assert_eq!(tokens[1].position.column, 5);

    let tokens = lex("/* open\nstill");
    assert_eq!(tokens.len(), 2);
    assert_eq!(tokens[0].token_type, TokenType::Comment);
    assert_eq!(tokens[0].value, "/* open\nstill");

    let tokens = lex("/*/ x");
    assert_eq!(tokens.len(), 2);
    assert_eq!(tokens[0].value, "/*/ x");
}

#[test]
fn positions_count_lines_columns_and_bytes() {
    let tokens = lex("é x\n  y");
    // é
    assert_eq!(tokens[0].token_type, TokenType::Error);
    assert_eq!((tokens[0].position.line, tokens[0].position.column, tokens[0].position.offset), (1, 1, 0));
    // space
    assert_eq!((tokens[1].position.line, tokens[1].position.column, tokens[1].position.offset), (1, 2, 2));
    // x
    assert_eq!(tokens[2].value, "x");
    assert_eq!((tokens[2].position.line, tokens[2].position.column, tokens[2].position.offset), (1, 3, 3));
    // newline
    assert_eq!(tokens[3].token_type, TokenType::Newline);
    assert_eq!((tokens[3].position.line, tokens[3].position.column, tokens[3].position.offset), (1, 4, 4));
    // two spaces
    assert_eq!(tokens[4].token_type, TokenType::Whitespace);
    assert_eq!((tokens[4].position.line, tokens[4].position.column, tokens[4].position.offset), (2, 1, 5));
    // y
    assert_eq!(tokens[5].value, "y");
    assert_eq!((tokens[5].position.line, tokens[5].position.column, tokens[5].position.offset), (2, 3, 7));
    // eof
    assert_eq!((tokens[6].position.line, tokens[6].position.column, tokens[6].position.offset), (2, 4, 8));
}

#[test]
fn next_token_stays_at_the_end() {
    let mut lexer = Lexer::new("a".to_string(), Language::PlSql);
    assert_eq!(lexer.next_token().token_type, TokenType::Identifier);
    assert_eq!(lexer.next_token().token_type, TokenType::Eof);
    assert_eq!(lexer.next_token().token_type, TokenType::Eof);
}

#[test]
fn token_kinds_read_in_messages() {
    assert_eq!(TokenType::Identifier.to_string(), "identifier");
    assert_eq!(TokenType::Eof.to_string(), "end of file");
    assert_eq!(TokenType::LeftParen.to_string(), "LeftParen");
    assert_eq!(TokenType::GroupBy.name_str(), "GroupBy");
}
