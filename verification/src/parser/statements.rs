//! Statements and expressions of the procedural dialect.
//!
//! The body of a routine is what stands between its first `BEGIN` and the
//! `END` that closes it. Assignments, calls, `RETURN`, `IF` and loops become
//! nodes; the statements of a nested block, and of exception handlers, join
//! the sequence around them. A statement that starts in any other way runs
//! to the next semicolon and leaves no node. Directive tokens are stepped
//! over: the regions they mark are recognised apart from the statements.
//!
//! Binary operators bind in six levels, from loosest to tightest: `OR`;
//! `AND`; comparisons, `LIKE` and `IN`; `+` and `-`; `*` and `/`. Operators of
//! one level group to the left.

use crate::parser::ast::{
    BinaryOperator, Expression, Identifier, PlSqlStatement, Position, Span, UnaryOperator,
};
use crate::parser::lexer::{Token, TokenType};
use crate::index::symbols::{statement_references, statements_references, ReferenceRecord};
use crate::parser::parser::{
    between, closes_directive, directive_opened_by, kind_at, position_of, references_within,
    remaining, step, text_at, token_span, unexpected, within, word_at, IdentifierView, ParseError,
    Parsed, Parser,
};
use vstd::string::StringExecFns;
use vstd::prelude::*;

verus! {

/// An expression with its texts read as characters.
pub enum ExpressionView {
    Identifier(IdentifierView),
    Literal { value: Seq<char>, span: Span },
    Binary {
        left: Box<ExpressionView>,
        operator: BinaryOperator,
        right: Box<ExpressionView>,
        span: Span,
    },
    Unary { operator: UnaryOperator, operand: Box<ExpressionView>, span: Span },
    FunctionCall { name: IdentifierView, arguments: Seq<ExpressionView>, span: Span },
}

/// A statement with its texts read as characters.
pub enum StatementView {
    Assignment { target: IdentifierView, value: ExpressionView, span: Span },
    If {
        condition: ExpressionView,
        then_branch: Seq<StatementView>,
        else_branch: Option<Seq<StatementView>>,
        span: Span,
    },
    Loop { body: Seq<StatementView>, span: Span },
    Return { value: Option<ExpressionView>, span: Span },
    Call { name: IdentifierView, arguments: Seq<ExpressionView>, span: Span },
}

/// The expression with its texts read as characters.
pub open spec fn expression_view(e: Expression) -> ExpressionView
    decreases e, 0nat,
{
    match e {
        Expression::Identifier(id) => ExpressionView::Identifier(id@),
        Expression::Literal { value, span } => ExpressionView::Literal { value: value@, span },
        Expression::Binary { left, operator, right, span } => ExpressionView::Binary {
            left: Box::new(expression_view(*left)),
            operator,
            right: Box::new(expression_view(*right)),
            span,
        },
        Expression::Unary { operator, operand, span } => ExpressionView::Unary {
            operator,
            operand: Box::new(expression_view(*operand)),
            span,
        },
        Expression::FunctionCall { name, arguments, span } => ExpressionView::FunctionCall {
            name: name@,
            arguments: expressions_view(arguments@),
            span,
        },
    }
}

/// The views of a sequence of expressions.
pub open spec fn expressions_view(s: Seq<Expression>) -> Seq<ExpressionView>
    decreases s, 1nat,
{
    if s.len() == 0 {
        Seq::empty()
    } else {
        expressions_view(s.drop_last()).push(expression_view(s.last()))
    }
}

/// The view of an optional expression.
pub open spec fn optional_expression_view(o: Option<Expression>) -> Option<ExpressionView> {
    match o {
        Some(e) => Some(expression_view(e)),
        None => None,
    }
}

/// The statement with its texts read as characters.
pub open spec fn statement_view(s: PlSqlStatement) -> StatementView
    decreases s, 0nat,
{
    match s {
        PlSqlStatement::Assignment { target, value, span } => StatementView::Assignment {
            target: target@,
            value: expression_view(value),
            span,
        },
        PlSqlStatement::If { condition, then_branch, else_branch, span } => StatementView::If {
            condition: expression_view(condition),
            then_branch: statements_view(then_branch@),
            else_branch: match else_branch {
                Some(stmts) => Some(statements_view(stmts@)),
                None => None,
            },
            span,
        },
        PlSqlStatement::Loop { body, span } => StatementView::Loop {
            body: statements_view(body@),
            span,
        },
        PlSqlStatement::Return { value, span } => StatementView::Return {
            value: optional_expression_view(value),
            span,
        },
        PlSqlStatement::Call { name, arguments, span } => StatementView::Call {
            name: name@,
            arguments: expressions_view(arguments@),
            span,
        },
    }
}

/// The views of a sequence of statements.
pub open spec fn statements_view(l: Seq<PlSqlStatement>) -> Seq<StatementView>
    decreases l, 1nat,
{
    if l.len() == 0 {
        Seq::empty()
    } else {
        statements_view(l.drop_last()).push(statement_view(l.last()))
    }
}

/// The view of a sequence with one more element is the view of the sequence
/// with the view of the element added.
pub proof fn lemma_expressions_view_push(s: Seq<Expression>, e: Expression)
    ensures
        expressions_view(s.push(e)) == expressions_view(s).push(expression_view(e)),
{
    assert(s.push(e).drop_last() =~= s);
}

/// The view of a sequence with one more element is the view of the sequence
/// with the view of the element added.
pub proof fn lemma_statements_view_push(l: Seq<PlSqlStatement>, s: PlSqlStatement)
    ensures
        statements_view(l.push(s)) == statements_view(l).push(statement_view(s)),
{
    assert(l.push(s).drop_last() =~= l);
}

/// The view of a sequence has the length of the sequence.
pub proof fn lemma_statements_view_len(l: Seq<PlSqlStatement>)
    ensures
        statements_view(l).len() == l.len(),
    decreases l.len(),
{
    if l.len() > 0 {
        lemma_statements_view_len(l.drop_last());
    }
}

/// The view of two sequences joined is their views joined.
pub proof fn lemma_statements_view_join(a: Seq<PlSqlStatement>, b: Seq<PlSqlStatement>)
    ensures
        statements_view(a + b) == statements_view(a) + statements_view(b),
    decreases b.len(),
{
    if b.len() == 0 {
        assert(a + b =~= a);
        assert(statements_view(a) + statements_view(b) =~= statements_view(a));
    } else {
        lemma_statements_view_join(a, b.drop_last());
        assert((a + b).drop_last() =~= a + b.drop_last());
        assert(statements_view(a) + statements_view(b.drop_last()).push(statement_view(b.last()))
            =~= (statements_view(a) + statements_view(b.drop_last())).push(
            statement_view(b.last()),
        ));
    }
}

impl View for Expression {
    type V = ExpressionView;

    open spec fn view(&self) -> ExpressionView {
        expression_view(*self)
    }
}

impl View for PlSqlStatement {
    type V = StatementView;

    open spec fn view(&self) -> StatementView {
        statement_view(*self)
    }
}

impl ExpressionView {
    /// The extent of the expression.
    pub open spec fn span(self) -> Span {
        match self {
            ExpressionView::Identifier(id) => id.span,
            ExpressionView::Literal { value, span } => span,
            ExpressionView::Binary { left, operator, right, span } => span,
            ExpressionView::Unary { operator, operand, span } => span,
            ExpressionView::FunctionCall { name, arguments, span } => span,
        }
    }
}

/// The binary operator that the token at `i` writes, and how tightly it
/// binds.
pub open spec fn binary_operator_at(ts: Seq<Token>, i: int) -> Option<(BinaryOperator, nat)> {
    let k = kind_at(ts, i);
    if word_at(ts, i, "or"@) {
        Some((BinaryOperator::Or, 1nat))
    } else if word_at(ts, i, "and"@) {
        Some((BinaryOperator::And, 2nat))
    } else if word_at(ts, i, "like"@) {
        Some((BinaryOperator::Like, 3nat))
    } else if word_at(ts, i, "in"@) {
        Some((BinaryOperator::In, 3nat))
    } else if k == TokenType::Equal {
        Some((BinaryOperator::Equal, 3nat))
    } else if k == TokenType::NotEqual {
        Some((BinaryOperator::NotEqual, 3nat))
    } else if k == TokenType::LessThan {
        Some((BinaryOperator::LessThan, 3nat))
    } else if k == TokenType::LessThanOrEqual {
        Some((BinaryOperator::LessThanOrEqual, 3nat))
    } else if k == TokenType::GreaterThan {
        Some((BinaryOperator::GreaterThan, 3nat))
    } else if k == TokenType::GreaterThanOrEqual {
        Some((BinaryOperator::GreaterThanOrEqual, 3nat))
    } else if k == TokenType::Plus {
        Some((BinaryOperator::Add, 4nat))
    } else if k == TokenType::Minus {
        Some((BinaryOperator::Subtract, 4nat))
    } else if k == TokenType::Multiply {
        Some((BinaryOperator::Multiply, 5nat))
    } else if k == TokenType::Divide {
        Some((BinaryOperator::Divide, 5nat))
    } else {
        None
    }
}

/// The token kind can be part of a dotted name: it is neither punctuation
/// nor an operator, a literal, trivia, an error or the end of input.
pub open spec fn names_a_part(k: TokenType) -> bool {
    match k {
        TokenType::Number
        | TokenType::String
        | TokenType::Comment
        | TokenType::Whitespace
        | TokenType::Newline
        | TokenType::Eof
        | TokenType::Plus
        | TokenType::Minus
        | TokenType::Multiply
        | TokenType::Divide
        | TokenType::Equal
        | TokenType::NotEqual
        | TokenType::LessThan
        | TokenType::LessThanOrEqual
        | TokenType::GreaterThan
        | TokenType::GreaterThanOrEqual
        | TokenType::Assignment
        | TokenType::LeftParen
        | TokenType::RightParen
        | TokenType::LeftBrace
        | TokenType::RightBrace
        | TokenType::LeftBracket
        | TokenType::RightBracket
        | TokenType::Semicolon
        | TokenType::Comma
        | TokenType::Dot
        | TokenType::Colon
        | TokenType::Error => false,
        _ => true,
    }
}

/// A dotted name whose first part stands at `i`, `acc` being the text read
/// so far: parts joined by dots. The index yielded is that of the last part.
pub open spec fn name_from(ts: Seq<Token>, i: int, acc: Seq<char>) -> (Seq<char>, int)
    decreases remaining(ts, i),
{
    let text = acc + text_at(ts, i);
    let dot = step(ts, i);
    let next = step(ts, dot);
    if 0 <= i < ts.len() && kind_at(ts, dot) == TokenType::Dot && names_a_part(kind_at(ts, next)) {
        name_from(ts, next, text + "."@)
    } else {
        (text, i)
    }
}

/// The name that starts at `i`, as an identifier that runs from its first
/// part to the end of its last.
pub open spec fn named_at(ts: Seq<Token>, i: int) -> (IdentifierView, int) {
    let (text, last) = name_from(ts, i, Seq::empty());
    (
        IdentifierView {
            name: text,
            span: Span { start: position_of(ts, i), end: position_of(ts, last + 1) },
        },
        last,
    )
}

/// The token kind ends an expression.
pub open spec fn ends_expression(k: TokenType) -> bool {
    k == TokenType::Semicolon || k == TokenType::Comma || k == TokenType::RightParen || k
        == TokenType::Then || k == TokenType::Loop || k == TokenType::Eof
}

/// An operand at index `i`: a literal, an expression in parentheses, an
/// operand with a sign or `NOT` before it, a name, or a call. Any other
/// token that does not end an expression stands for itself, as a literal.
pub open spec fn operand_from(ts: Seq<Token>, i: int) -> Parsed<ExpressionView>
    decreases remaining(ts, i), 0nat,
{
    let k = kind_at(ts, i);
    if i < 0 || i >= ts.len() || ends_expression(k) {
        Parsed::Failed(unexpected("expression"@, ts, i))
    } else if k == TokenType::LeftParen {
        match expression_from(ts, step(ts, i), 1) {
            Parsed::Done(e, j) => {
                if kind_at(ts, j) == TokenType::RightParen {
                    Parsed::Done(e, step(ts, j))
                } else {
                    Parsed::Failed(unexpected(TokenType::RightParen.name(), ts, j))
                }
            },
            Parsed::Failed(e) => Parsed::Failed(e),
        }
    } else if k == TokenType::Minus || k == TokenType::Plus || word_at(ts, i, "not"@) {
        let operator = if k == TokenType::Minus {
            UnaryOperator::Minus
        } else if k == TokenType::Plus {
            UnaryOperator::Plus
        } else {
            UnaryOperator::Not
        };
        match operand_from(ts, step(ts, i)) {
            Parsed::Done(e, j) => Parsed::Done(
                ExpressionView::Unary {
                    operator,
                    operand: Box::new(e),
                    span: Span { start: position_of(ts, i), end: e.span().end },
                },
                j,
            ),
            Parsed::Failed(e) => Parsed::Failed(e),
        }
    } else if k == TokenType::Identifier {
        let (name, last) = named_at(ts, i);
        let j = step(ts, last);
        if last >= i && kind_at(ts, j) == TokenType::LeftParen {
            match arguments_from(ts, step(ts, j), Seq::empty()) {
                Parsed::Done(arguments, close) => Parsed::Done(
                    ExpressionView::FunctionCall {
                        name,
                        arguments,
                        span: Span { start: position_of(ts, i), end: position_of(ts, close + 1) },
                    },
                    step(ts, close),
                ),
                Parsed::Failed(e) => Parsed::Failed(e),
            }
        } else {
            Parsed::Done(ExpressionView::Identifier(name), j)
        }
    } else {
        Parsed::Done(
            ExpressionView::Literal { value: text_at(ts, i), span: token_span(ts, i) },
            step(ts, i),
        )
    }
}

/// The arguments of a call from index `i` on, `acc` being those already
/// read: nothing before `)`, or expressions separated by commas. The index
/// yielded is that of the closing parenthesis.
pub open spec fn arguments_from(ts: Seq<Token>, i: int, acc: Seq<ExpressionView>) -> Parsed<
    Seq<ExpressionView>,
>
    decreases remaining(ts, i), 3nat,
{
    if kind_at(ts, i) == TokenType::RightParen && acc.len() == 0 {
        Parsed::Done(acc, i)
    } else {
        match expression_from(ts, i, 1) {
            Parsed::Done(e, j) => {
                if kind_at(ts, j) == TokenType::Comma && j > i {
                    arguments_from(ts, step(ts, j), acc.push(e))
                } else if kind_at(ts, j) == TokenType::RightParen {
                    Parsed::Done(acc.push(e), j)
                } else {
                    Parsed::Failed(unexpected(TokenType::RightParen.name(), ts, j))
                }
            },
            Parsed::Failed(e) => Parsed::Failed(e),
        }
    }
}

/// What follows the operand `left` at index `i`: as long as a binary
/// operator stands there that binds at least as tightly as `level`, the
/// operator and the expression to its right, which binds more tightly, join
/// `left`.
pub open spec fn operators_from(ts: Seq<Token>, i: int, left: ExpressionView, level: nat) -> Parsed<
    ExpressionView,
>
    decreases remaining(ts, i), 1nat,
{
    match binary_operator_at(ts, i) {
        Some((operator, binds)) => {
            if binds >= level && 0 <= i < ts.len() {
                match expression_from(ts, step(ts, i), binds + 1) {
                    Parsed::Done(right, j) => {
                        if j > i {
                            operators_from(
                                ts,
                                j,
                                ExpressionView::Binary {
                                    left: Box::new(left),
                                    operator,
                                    right: Box::new(right),
                                    span: Span { start: left.span().start, end: right.span().end },
                                },
                                level,
                            )
                        } else {
                            Parsed::Failed(unexpected("expression"@, ts, j))
                        }
                    },
                    Parsed::Failed(e) => Parsed::Failed(e),
                }
            } else {
                Parsed::Done(left, i)
            }
        },
        None => Parsed::Done(left, i),
    }
}

/// An expression at index `i` whose operators bind at least as tightly as
/// `level`.
pub open spec fn expression_from(ts: Seq<Token>, i: int, level: nat) -> Parsed<ExpressionView>
    decreases remaining(ts, i), 2nat,
{
    match operand_from(ts, i) {
        Parsed::Done(left, j) => {
            if j > i {
                operators_from(ts, j, left, level)
            } else {
                Parsed::Failed(unexpected("expression"@, ts, j))
            }
        },
        Parsed::Failed(e) => Parsed::Failed(e),
    }
}

/// A sequence of statements ends at index `i`: the input ends there, or
/// `END`, `ELSE` or `ELSIF` stands there. The closing directive is no `END`.
pub open spec fn block_ends(ts: Seq<Token>, i: int) -> bool {
    let k = kind_at(ts, i);
    i < 0 || i >= ts.len() || k == TokenType::Eof || k == TokenType::Else || k
        == TokenType::ElseIf || (k == TokenType::End && !closes_directive(ts[i]))
}

/// The token at `i` is stepped over between statements: a directive, the
/// closing directive, or `EXCEPTION`.
pub open spec fn stepped_over(ts: Seq<Token>, i: int) -> bool {
    0 <= i < ts.len() && (directive_opened_by(ts[i]) is Some || closes_directive(ts[i])
        || ts[i].token_type == TokenType::Exception)
}

/// The first index at or after `i`, going token by token, that holds a
/// token of kind `k`, a semicolon or the end of input.
pub open spec fn next_of_kind(ts: Seq<Token>, i: int, k: TokenType) -> int
    decreases remaining(ts, i),
{
    let here = kind_at(ts, i);
    if i < 0 || i >= ts.len() || here == k || here == TokenType::Semicolon || here
        == TokenType::Eof {
        i
    } else {
        next_of_kind(ts, step(ts, i), k)
    }
}

/// The index after the semicolon that ends the statement of which `i` is a
/// part: after the next semicolon, or at the end of input.
pub open spec fn after_statement(ts: Seq<Token>, i: int) -> int {
    let s = next_of_kind(ts, i, TokenType::Semicolon);
    if kind_at(ts, s) == TokenType::Semicolon {
        step(ts, s)
    } else {
        s
    }
}

/// What follows an expression that ends at `a`, in a statement that started
/// at `i`: the semicolon that ends the statement, whatever stands before it
/// being stepped over. Yields the statement that `make` builds from its
/// extent, and the index after the semicolon.
pub open spec fn closed_by_semicolon(
    ts: Seq<Token>,
    i: int,
    a: int,
    make: spec_fn(Span) -> StatementView,
) -> Parsed<Seq<StatementView>> {
    let s = next_of_kind(ts, a, TokenType::Semicolon);
    if kind_at(ts, s) == TokenType::Semicolon {
        Parsed::Done(
            seq![make(Span { start: position_of(ts, i), end: position_of(ts, s + 1) })],
            step(ts, s),
        )
    } else {
        Parsed::Failed(unexpected(TokenType::Semicolon.name(), ts, s))
    }
}

/// The statement that starts at index `i`, as the statements it gives: one
/// for an assignment, a call, `RETURN`, `IF` or a loop; those inside for a
/// nested block; none for what is stepped over.
pub open spec fn statement_from(ts: Seq<Token>, i: int) -> Parsed<Seq<StatementView>>
    decreases remaining(ts, i), 2nat,
{
    let k = kind_at(ts, i);
    if i < 0 || i >= ts.len() {
        Parsed::Failed(unexpected("statement"@, ts, i))
    } else if stepped_over(ts, i) {
        Parsed::Done(Seq::empty(), step(ts, i))
    } else if k == TokenType::Return {
        let j = step(ts, i);
        if kind_at(ts, j) == TokenType::Semicolon {
            Parsed::Done(
                seq![
                    StatementView::Return {
                        value: None,
                        span: Span { start: position_of(ts, i), end: position_of(ts, j + 1) },
                    },
                ],
                step(ts, j),
            )
        } else {
            match expression_from(ts, j, 1) {
                Parsed::Done(e, a) => closed_by_semicolon(
                    ts,
                    i,
                    a,
                    |span: Span| StatementView::Return { value: Some(e), span },
                ),
                Parsed::Failed(e) => Parsed::Failed(e),
            }
        }
    } else if k == TokenType::If {
        match conditional_from(ts, i) {
            Parsed::Done(statement, e) => {
                let after_end = step(ts, e);
                let semi = if kind_at(ts, after_end) == TokenType::If {
                    step(ts, after_end)
                } else {
                    after_end
                };
                if kind_at(ts, e) != TokenType::End {
                    Parsed::Failed(unexpected(TokenType::End.name(), ts, e))
                } else if kind_at(ts, semi) != TokenType::Semicolon {
                    Parsed::Failed(unexpected(TokenType::Semicolon.name(), ts, semi))
                } else {
                    Parsed::Done(seq![statement], step(ts, semi))
                }
            },
            Parsed::Failed(e) => Parsed::Failed(e),
        }
    } else if k == TokenType::Loop || k == TokenType::While || k == TokenType::For {
        let l = if k == TokenType::Loop {
            i
        } else {
            next_of_kind(ts, step(ts, i), TokenType::Loop)
        };
        if kind_at(ts, l) != TokenType::Loop || l < i {
            Parsed::Failed(unexpected(TokenType::Loop.name(), ts, l))
        } else {
            match statements_from(ts, step(ts, l), Seq::empty()) {
                Parsed::Done(body, e) => {
                    let after_end = step(ts, e);
                    let after_loop = if kind_at(ts, after_end) == TokenType::Loop {
                        step(ts, after_end)
                    } else {
                        after_end
                    };
                    let semi = if kind_at(ts, after_loop) == TokenType::Identifier {
                        step(ts, after_loop)
                    } else {
                        after_loop
                    };
                    if kind_at(ts, e) != TokenType::End {
                        Parsed::Failed(unexpected(TokenType::End.name(), ts, e))
                    } else if kind_at(ts, semi) != TokenType::Semicolon {
                        Parsed::Failed(unexpected(TokenType::Semicolon.name(), ts, semi))
                    } else {
                        Parsed::Done(
                            seq![
                                StatementView::Loop {
                                    body,
                                    span: Span {
                                        start: position_of(ts, i),
                                        end: position_of(ts, semi + 1),
                                    },
                                },
                            ],
                            step(ts, semi),
                        )
                    }
                },
                Parsed::Failed(e) => Parsed::Failed(e),
            }
        }
    } else if k == TokenType::Begin {
        match statements_from(ts, step(ts, i), Seq::empty()) {
            Parsed::Done(body, e) => {
                let after_end = step(ts, e);
                let semi = if kind_at(ts, after_end) == TokenType::Identifier {
                    step(ts, after_end)
                } else {
                    after_end
                };
                if kind_at(ts, e) != TokenType::End {
                    Parsed::Failed(unexpected(TokenType::End.name(), ts, e))
                } else if kind_at(ts, semi) != TokenType::Semicolon {
                    Parsed::Failed(unexpected(TokenType::Semicolon.name(), ts, semi))
                } else {
                    Parsed::Done(body, step(ts, semi))
                }
            },
            Parsed::Failed(e) => Parsed::Failed(e),
        }
    } else if word_at(ts, i, "when"@) {
        let t = next_of_kind(ts, step(ts, i), TokenType::Then);
        if kind_at(ts, t) == TokenType::Then {
            Parsed::Done(Seq::empty(), step(ts, t))
        } else {
            Parsed::Failed(unexpected(TokenType::Then.name(), ts, t))
        }
    } else if k == TokenType::Identifier && !word_at(ts, i, "null"@) {
        let (name, last) = named_at(ts, i);
        let j = step(ts, last);
        if last < i {
            Parsed::Failed(unexpected("statement"@, ts, i))
        } else if kind_at(ts, j) == TokenType::Assignment {
            match expression_from(ts, step(ts, j), 1) {
                Parsed::Done(e, a) => closed_by_semicolon(
                    ts,
                    i,
                    a,
                    |span: Span| StatementView::Assignment { target: name, value: e, span },
                ),
                Parsed::Failed(e) => Parsed::Failed(e),
            }
        } else if kind_at(ts, j) == TokenType::LeftParen {
            match arguments_from(ts, step(ts, j), Seq::empty()) {
                Parsed::Done(arguments, close) => {
                    let a = step(ts, close);
                    if kind_at(ts, a) == TokenType::Semicolon {
                        Parsed::Done(
                            seq![
                                StatementView::Call {
                                    name,
                                    arguments,
                                    span: Span {
                                        start: position_of(ts, i),
                                        end: position_of(ts, a + 1),
                                    },
                                },
                            ],
                            step(ts, a),
                        )
                    } else if kind_at(ts, a) == TokenType::Assignment {
                        match expression_from(ts, step(ts, a), 1) {
                            Parsed::Done(e, b) => closed_by_semicolon(
                                ts,
                                i,
                                b,
                                |span: Span|
                                    StatementView::Assignment { target: name, value: e, span },
                            ),
                            Parsed::Failed(e) => Parsed::Failed(e),
                        }
                    } else {
                        Parsed::Done(Seq::empty(), after_statement(ts, a))
                    }
                },
                Parsed::Failed(e) => Parsed::Failed(e),
            }
        } else if kind_at(ts, j) == TokenType::Semicolon {
            Parsed::Done(
                seq![
                    StatementView::Call {
                        name,
                        arguments: Seq::empty(),
                        span: Span { start: position_of(ts, i), end: position_of(ts, j + 1) },
                    },
                ],
                step(ts, j),
            )
        } else {
            Parsed::Done(Seq::empty(), after_statement(ts, j))
        }
    } else if k == TokenType::Semicolon {
        Parsed::Done(Seq::empty(), step(ts, i))
    } else {
        Parsed::Done(Seq::empty(), after_statement(ts, step(ts, i)))
    }
}

/// An `IF` or `ELSIF` at index `i` with what belongs to it, up to the `END`
/// that closes the whole conditional: a condition, `THEN`, statements, and
/// then an `ELSIF`, which is a conditional in the else branch, or `ELSE` and
/// statements, or nothing. The index yielded is that of the token after the
/// last branch, where `END` must stand; the conditional and every
/// conditional nested in its else branches end there.
pub open spec fn conditional_from(ts: Seq<Token>, i: int) -> Parsed<StatementView>
    decreases remaining(ts, i), 1nat,
{
    if i < 0 || i >= ts.len() {
        Parsed::Failed(unexpected(TokenType::If.name(), ts, i))
    } else {
        match expression_from(ts, step(ts, i), 1) {
            Parsed::Done(condition, a) => {
                let t = next_of_kind(ts, a, TokenType::Then);
                if kind_at(ts, t) != TokenType::Then || t <= i {
                    Parsed::Failed(unexpected(TokenType::Then.name(), ts, t))
                } else {
                    match statements_from(ts, step(ts, t), Seq::empty()) {
                        Parsed::Done(then_branch, b) => {
                            if kind_at(ts, b) == TokenType::ElseIf && b > i {
                                match conditional_from(ts, b) {
                                    Parsed::Done(nested, e) => Parsed::Done(
                                        StatementView::If {
                                            condition,
                                            then_branch,
                                            else_branch: Some(seq![nested]),
                                            span: Span {
                                                start: position_of(ts, i),
                                                end: position_of(ts, e),
                                            },
                                        },
                                        e,
                                    ),
                                    Parsed::Failed(e) => Parsed::Failed(e),
                                }
                            } else if kind_at(ts, b) == TokenType::Else && b > i {
                                match statements_from(ts, step(ts, b), Seq::empty()) {
                                    Parsed::Done(else_branch, e) => Parsed::Done(
                                        StatementView::If {
                                            condition,
                                            then_branch,
                                            else_branch: Some(else_branch),
                                            span: Span {
                                                start: position_of(ts, i),
                                                end: position_of(ts, e),
                                            },
                                        },
                                        e,
                                    ),
                                    Parsed::Failed(e) => Parsed::Failed(e),
                                }
                            } else {
                                Parsed::Done(
                                    StatementView::If {
                                        condition,
                                        then_branch,
                                        else_branch: None,
                                        span: Span {
                                            start: position_of(ts, i),
                                            end: position_of(ts, b),
                                        },
                                    },
                                    b,
                                )
                            }
                        },
                        Parsed::Failed(e) => Parsed::Failed(e),
                    }
                }
            },
            Parsed::Failed(e) => Parsed::Failed(e),
        }
    }
}

/// The statements from index `i` up to where their sequence ends, `acc`
/// being those already read.
pub open spec fn statements_from(ts: Seq<Token>, i: int, acc: Seq<StatementView>) -> Parsed<
    Seq<StatementView>,
>
    decreases remaining(ts, i), 3nat,
{
    if block_ends(ts, i) {
        Parsed::Done(acc, i)
    } else {
        match statement_from(ts, i) {
            Parsed::Done(statements, j) => {
                if j > i {
                    statements_from(ts, j, acc + statements)
                } else {
                    Parsed::Failed(unexpected("statement"@, ts, i))
                }
            },
            Parsed::Failed(e) => Parsed::Failed(e),
        }
    }
}

/// The body of a routine whose text after the header starts at index `i`:
/// the statements between the first `BEGIN` and the `END` that closes it.
/// What stands before `BEGIN` is stepped over; without a `BEGIN` the body
/// is empty.
pub open spec fn body_from(ts: Seq<Token>, i: int) -> Parsed<Seq<StatementView>> {
    let b = next_begin(ts, i);
    if kind_at(ts, b) != TokenType::Begin {
        Parsed::Done(Seq::empty(), b)
    } else {
        match statements_from(ts, step(ts, b), Seq::empty()) {
            Parsed::Done(statements, e) => {
                if kind_at(ts, e) == TokenType::End {
                    Parsed::Done(statements, e)
                } else {
                    Parsed::Failed(unexpected(TokenType::End.name(), ts, e))
                }
            },
            Parsed::Failed(e) => Parsed::Failed(e),
        }
    }
}

/// The first index at or after `i`, going token by token, that holds
/// `BEGIN` or the end of input.
pub open spec fn next_begin(ts: Seq<Token>, i: int) -> int
    decreases remaining(ts, i),
{
    let here = kind_at(ts, i);
    if i < 0 || i >= ts.len() || here == TokenType::Begin || here == TokenType::Eof {
        i
    } else {
        next_begin(ts, step(ts, i))
    }
}

fn ends_an_expression(k: TokenType) -> (b: bool)
    ensures
        b == ends_expression(k),
{
    k == TokenType::Semicolon || k == TokenType::Comma || k == TokenType::RightParen || k
        == TokenType::Then || k == TokenType::Loop || k == TokenType::Eof
}

fn can_name_a_part(k: TokenType) -> (b: bool)
    ensures
        b == names_a_part(k),
{
    match k {
        TokenType::Number
        | TokenType::String
        | TokenType::Comment
        | TokenType::Whitespace
        | TokenType::Newline
        | TokenType::Eof
        | TokenType::Plus
        | TokenType::Minus
        | TokenType::Multiply
        | TokenType::Divide
        | TokenType::Equal
        | TokenType::NotEqual
        | TokenType::LessThan
        | TokenType::LessThanOrEqual
        | TokenType::GreaterThan
        | TokenType::GreaterThanOrEqual
        | TokenType::Assignment
        | TokenType::LeftParen
        | TokenType::RightParen
        | TokenType::LeftBrace
        | TokenType::RightBrace
        | TokenType::LeftBracket
        | TokenType::RightBracket
        | TokenType::Semicolon
        | TokenType::Comma
        | TokenType::Dot
        | TokenType::Colon
        | TokenType::Error => false,
        _ => true,
    }
}

/// The references of a sequence with one more statement are those of the
/// sequence followed by those of the statement.
pub proof fn lemma_references_push(l: Seq<PlSqlStatement>, s: PlSqlStatement)
    ensures
        statements_references(l.push(s)) == statements_references(l) + statement_references(s),
{
    assert(l.push(s).drop_last() =~= l);
}

/// The references of two sequences joined are their references joined.
pub proof fn lemma_references_join(a: Seq<PlSqlStatement>, b: Seq<PlSqlStatement>)
    ensures
        statements_references(a + b) == statements_references(a) + statements_references(b),
    decreases b.len(),
{
    if b.len() == 0 {
        assert(a + b =~= a);
        assert(statements_references(a) + statements_references(b) =~= statements_references(a));
    } else {
        lemma_references_join(a, b.drop_last());
        assert((a + b).drop_last() =~= a + b.drop_last());
        assert(statements_references(a) + (statements_references(b.drop_last())
            + statement_references(b.last())) =~= (statements_references(a)
            + statements_references(b.drop_last())) + statement_references(b.last()));
    }
}

/// Where the references of two sequences lie within the stream, so do those
/// of the sequences joined.
pub proof fn lemma_joined_within(ts: Seq<Token>, x: Seq<ReferenceRecord>, y: Seq<ReferenceRecord>)
    requires
        references_within(ts, x),
        references_within(ts, y),
    ensures
        references_within(ts, x + y),
{
    assert forall|k: int| 0 <= k < (x + y).len() implies within(ts, 0, (#[trigger] (x + y)[k]).span) by {
        if k < x.len() {
            assert((x + y)[k] == x[k]);
        } else {
            assert((x + y)[k] == y[k - x.len()]);
        }
    }
}

/// Where the references of a statement lie within the stream, adding the
/// statement to a sequence keeps the references of the sequence within it.
pub proof fn lemma_pushed_within(ts: Seq<Token>, l: Seq<PlSqlStatement>, s: PlSqlStatement)
    requires
        references_within(ts, statement_references(s)),
    ensures
        references_within(ts, statements_references(l)) ==> references_within(
            ts,
            statements_references(l.push(s)),
        ),
{
    lemma_references_push(l, s);
    if references_within(ts, statements_references(l)) {
        lemma_joined_within(ts, statements_references(l), statement_references(s));
    }
}

/// Nothing lies outside the stream where there are no references.
pub proof fn lemma_none_within(ts: Seq<Token>)
    ensures
        references_within(ts, Seq::<ReferenceRecord>::empty()),
        references_within(ts, statements_references(Seq::<PlSqlStatement>::empty())),
{
}

impl Parser {
    /// The binary operator the parser looks at, and how tightly it binds.
    fn binary_operator(&self) -> (r: Option<(BinaryOperator, u8)>)
        requires
            self.wf(),
        ensures
            match binary_operator_at(self.stream(), self.cursor()) {
                Some((operator, binds)) => r == Some((operator, binds as u8)) && binds <= 5
                    && self.cursor() < self.stream().len(),
                None => r is None,
            },
    {
        if self.check_word("or") {
            Some((BinaryOperator::Or, 1))
        } else if self.check_word("and") {
            Some((BinaryOperator::And, 2))
        } else if self.check_word("like") {
            Some((BinaryOperator::Like, 3))
        } else if self.check_word("in") {
            Some((BinaryOperator::In, 3))
        } else {
            match self.kind() {
                TokenType::Equal => Some((BinaryOperator::Equal, 3)),
                TokenType::NotEqual => Some((BinaryOperator::NotEqual, 3)),
                TokenType::LessThan => Some((BinaryOperator::LessThan, 3)),
                TokenType::LessThanOrEqual => Some((BinaryOperator::LessThanOrEqual, 3)),
                TokenType::GreaterThan => Some((BinaryOperator::GreaterThan, 3)),
                TokenType::GreaterThanOrEqual => Some((BinaryOperator::GreaterThanOrEqual, 3)),
                TokenType::Plus => Some((BinaryOperator::Add, 4)),
                TokenType::Minus => Some((BinaryOperator::Subtract, 4)),
                TokenType::Multiply => Some((BinaryOperator::Multiply, 5)),
                TokenType::Divide => Some((BinaryOperator::Divide, 5)),
                _ => None,
            }
        }
    }

    /// Reads the dotted name the parser looks at.
    #[verifier::loop_isolation(false)]
    fn parse_name(&mut self) -> (r: Identifier)
        requires
            old(self).wf(),
            old(self).cursor() < old(self).stream().len(),
        ensures
            final(self).wf(),
            final(self).stream() == old(self).stream(),
            final(self).dialect() == old(self).dialect(),
            r@ == named_at(old(self).stream(), old(self).cursor()).0,
            named_at(old(self).stream(), old(self).cursor()).1 >= old(self).cursor(),
            final(self).cursor() == step(
                old(self).stream(),
                named_at(old(self).stream(), old(self).cursor()).1,
            ),
            final(self).cursor() > old(self).cursor(),
            within(old(self).stream(), 0, r.span),
    {
        let ghost ts = self.stream();
        let ghost first = self.cursor();
        let entry = self.index();
        let start = self.current_position();
        let mut name = String::new();
        assert(name@ =~= Seq::<char>::empty());
        loop
            invariant
                self.wf(),
                self.stream() == ts,
                self.dialect() == old(self).dialect(),
                0 <= first <= self.cursor() < ts.len(),
                name_from(ts, first, Seq::empty()) == name_from(ts, self.cursor(), name@),
            decreases remaining(ts, self.cursor()),
        {
            let ghost here = self.cursor();
            let ghost so_far = name@;
            let part = self.text();
            name.append(part.as_str());
            let end = self.position_after();
            self.advance();
            if self.check(TokenType::Dot) && can_name_a_part(self.peek_after()) {
                name.append(".");
                self.advance();
                proof {
                    let dot = step(ts, here);
                    let next = step(ts, dot);
                    assert(name@ =~= so_far + text_at(ts, here) + "."@);
                    assert(name_from(ts, here, so_far) == name_from(
                        ts,
                        next,
                        so_far + text_at(ts, here) + "."@,
                    ));
                }
            } else {
                assert(between(ts, first, here + 1) == (Span { start, end }));
                return Identifier { name, span: Span { start, end } };
            }
        }
    }

    /// Reads an operand.
    fn parse_operand(&mut self) -> (r: Result<Expression, ParseError>)
        requires
            old(self).wf(),
        ensures
            final(self).wf(),
            final(self).stream() == old(self).stream(),
            final(self).dialect() == old(self).dialect(),
            match operand_from(old(self).stream(), old(self).cursor()) {
                Parsed::Done(v, j) => r matches Ok(e) && e@ == v && final(self).cursor() == j && j
                    > old(self).cursor(),
                Parsed::Failed(x) => r matches Err(e) && e@ == x,
            },
        decreases remaining(old(self).stream(), old(self).cursor()), 0nat,
    {
        let k = self.kind();
        if self.index() >= self.token_count() || ends_an_expression(k) {
            return Err(self.unexpected_here("expression"));
        }
        if k == TokenType::LeftParen {
            self.advance();
            let e = self.parse_expression(1)?;
            if !self.check(TokenType::RightParen) {
                return Err(self.unexpected_here(TokenType::RightParen.name_str()));
            }
            self.advance();
            Ok(e)
        } else if k == TokenType::Minus || k == TokenType::Plus || self.check_word("not") {
            let operator = if k == TokenType::Minus {
                UnaryOperator::Minus
            } else if k == TokenType::Plus {
                UnaryOperator::Plus
            } else {
                UnaryOperator::Not
            };
            let start = self.current_position();
            self.advance();
            let operand = self.parse_operand()?;
            let end = operand.extent().end;
            Ok(Expression::Unary { operator, operand: Box::new(operand), span: Span { start, end } })
        } else if k == TokenType::Identifier {
            let start = self.current_position();
            let name = self.parse_name();
            if self.check(TokenType::LeftParen) {
                self.advance();
                let arguments = self.parse_arguments()?;
                let end = self.position_after();
                self.advance();
                Ok(Expression::FunctionCall { name, arguments, span: Span { start, end } })
            } else {
                Ok(Expression::Identifier(name))
            }
        } else {
            let value = self.text();
            let span = Span { start: self.current_position(), end: self.position_after() };
            self.advance();
            Ok(Expression::Literal { value, span })
        }
    }

    /// Reads the arguments of a call, up to its closing parenthesis.
    #[verifier::loop_isolation(false)]
    fn parse_arguments(&mut self) -> (r: Result<Vec<Expression>, ParseError>)
        requires
            old(self).wf(),
        ensures
            final(self).wf(),
            final(self).stream() == old(self).stream(),
            final(self).dialect() == old(self).dialect(),
            match arguments_from(old(self).stream(), old(self).cursor(), Seq::empty()) {
                Parsed::Done(v, close) => r matches Ok(args) && expressions_view(args@) == v
                    && final(self).cursor() == close && close >= old(self).cursor() && close
                    < old(self).stream().len(),
                Parsed::Failed(x) => r matches Err(e) && e@ == x,
            },
        decreases remaining(old(self).stream(), old(self).cursor()), 3nat,
    {
        let ghost ts = self.stream();
        let ghost first = self.cursor();
        let mut out: Vec<Expression> = Vec::new();
        if self.check(TokenType::RightParen) {
            return Ok(out);
        }
        loop
            invariant
                self.wf(),
                self.stream() == ts,
                self.dialect() == old(self).dialect(),
                first <= self.cursor(),
                !(kind_at(ts, self.cursor()) == TokenType::RightParen && out@.len() == 0),
                arguments_from(ts, first, Seq::empty()) == arguments_from(
                    ts,
                    self.cursor(),
                    expressions_view(out@),
                ),
            decreases remaining(ts, self.cursor()),
        {
            let ghost seen = out@;
            let e = self.parse_expression(1)?;
            out.push(e);
            proof {
                lemma_expressions_view_push(seen, e);
            }
            if self.check(TokenType::Comma) {
                self.advance();
            } else if self.check(TokenType::RightParen) {
                return Ok(out);
            } else {
                return Err(self.unexpected_here(TokenType::RightParen.name_str()));
            }
        }
    }

    /// Reads the operators that follow `left`, and what stands to their
    /// right.
    fn parse_operators(&mut self, left: Expression, level: u8) -> (r: Result<
        Expression,
        ParseError,
    >)
        requires
            old(self).wf(),
        ensures
            final(self).wf(),
            final(self).stream() == old(self).stream(),
            final(self).dialect() == old(self).dialect(),
            match operators_from(old(self).stream(), old(self).cursor(), left@, level as nat) {
                Parsed::Done(v, j) => r matches Ok(e) && e@ == v && final(self).cursor() == j && j
                    >= old(self).cursor(),
                Parsed::Failed(x) => r matches Err(e) && e@ == x,
            },
        decreases remaining(old(self).stream(), old(self).cursor()), 1nat,
    {
        match self.binary_operator() {
            Some((operator, binds)) => {
                if binds >= level {
                    self.advance();
                    let right = self.parse_expression(binds + 1)?;
                    let span = Span { start: left.extent().start, end: right.extent().end };
                    let joined = Expression::Binary {
                        left: Box::new(left),
                        operator,
                        right: Box::new(right),
                        span,
                    };
                    self.parse_operators(joined, level)
                } else {
                    Ok(left)
                }
            },
            None => Ok(left),
        }
    }

    /// Reads an expression whose operators bind at least as tightly as
    /// `level`.
    pub(crate) fn parse_expression(&mut self, level: u8) -> (r: Result<Expression, ParseError>)
        requires
            old(self).wf(),
        ensures
            final(self).wf(),
            final(self).stream() == old(self).stream(),
            final(self).dialect() == old(self).dialect(),
            match expression_from(old(self).stream(), old(self).cursor(), level as nat) {
                Parsed::Done(v, j) => r matches Ok(e) && e@ == v && final(self).cursor() == j && j
                    > old(self).cursor(),
                Parsed::Failed(x) => r matches Err(e) && e@ == x,
            },
        decreases remaining(old(self).stream(), old(self).cursor()), 2nat,
    {
        let left = self.parse_operand()?;
        self.parse_operators(left, level)
    }

    /// Steps to the next token of kind `k`, semicolon, or end of input.
    fn skip_to_kind(&mut self, k: TokenType)
        requires
            old(self).wf(),
        ensures
            final(self).wf(),
            final(self).stream() == old(self).stream(),
            final(self).dialect() == old(self).dialect(),
            final(self).cursor() == next_of_kind(old(self).stream(), old(self).cursor(), k),
            final(self).cursor() >= old(self).cursor(),
    {
        let ghost ts = self.stream();
        let ghost first = self.cursor();
        while self.index() < self.token_count() && !self.check(k) && !self.check(
            TokenType::Semicolon,
        ) && !self.check(TokenType::Eof)
            invariant
                self.wf(),
                self.stream() == ts,
                self.dialect() == old(self).dialect(),
                first <= self.cursor(),
                next_of_kind(ts, first, k) == next_of_kind(ts, self.cursor(), k),
            decreases remaining(ts, self.cursor()),
        {
            self.advance();
        }
    }

    /// Steps past the semicolon that ends the statement at hand.
    fn skip_statement(&mut self)
        requires
            old(self).wf(),
        ensures
            final(self).wf(),
            final(self).stream() == old(self).stream(),
            final(self).dialect() == old(self).dialect(),
            final(self).cursor() == after_statement(old(self).stream(), old(self).cursor()),
            final(self).cursor() >= old(self).cursor(),
    {
        self.skip_to_kind(TokenType::Semicolon);
        if self.check(TokenType::Semicolon) {
            self.advance();
        }
    }

    /// Steps to the semicolon that ends the statement, and past it; yields
    /// where the statement ends.
    fn close_statement(&mut self) -> (r: Result<Position, ParseError>)
        requires
            old(self).wf(),
        ensures
            final(self).wf(),
            final(self).stream() == old(self).stream(),
            final(self).dialect() == old(self).dialect(),
            ({
                let s = next_of_kind(old(self).stream(), old(self).cursor(), TokenType::Semicolon);
                if kind_at(old(self).stream(), s) == TokenType::Semicolon {
                    r == Ok::<Position, ParseError>(position_of(old(self).stream(), s + 1))
                        && final(self).cursor() == step(old(self).stream(), s) && final(self).cursor() > old(self).cursor()
                } else {
                    r matches Err(e) && e@ == unexpected(
                        TokenType::Semicolon.name(),
                        old(self).stream(),
                        s,
                    )
                }
            }),
    {
        self.skip_to_kind(TokenType::Semicolon);
        if self.check(TokenType::Semicolon) {
            let end = self.position_after();
            self.advance();
            Ok(end)
        } else {
            Err(self.unexpected_here(TokenType::Semicolon.name_str()))
        }
    }

    /// Whether a sequence of statements ends where the parser looks.
    fn at_block_end(&self) -> (b: bool)
        requires
            self.wf(),
        ensures
            b == block_ends(self.stream(), self.cursor()),
    {
        let k = self.kind();
        self.index() >= self.token_count() || k == TokenType::Eof || k == TokenType::Else || k
            == TokenType::ElseIf || (k == TokenType::End && !self.at_directive())
    }

    /// Reads `END`, an optional `closer` and an optional label, and the
    /// semicolon; yields where the statement ends.
    fn close_block(&mut self, closer: Option<TokenType>, label: bool) -> (r: Result<
        Position,
        ParseError,
    >)
        requires
            old(self).wf(),
            closer matches Some(c) ==> c != TokenType::Eof,
        ensures
            final(self).wf(),
            final(self).stream() == old(self).stream(),
            final(self).dialect() == old(self).dialect(),
            ({
                let ts = old(self).stream();
                let e = old(self).cursor();
                let after_end = step(ts, e);
                let after_closer = if closer matches Some(c) && kind_at(ts, after_end) == c {
                    step(ts, after_end)
                } else {
                    after_end
                };
                let semi = if label && kind_at(ts, after_closer) == TokenType::Identifier {
                    step(ts, after_closer)
                } else {
                    after_closer
                };
                if kind_at(ts, e) != TokenType::End {
                    r matches Err(x) && x@ == unexpected(TokenType::End.name(), ts, e)
                } else if kind_at(ts, semi) != TokenType::Semicolon {
                    r matches Err(x) && x@ == unexpected(TokenType::Semicolon.name(), ts, semi)
                } else {
                    r == Ok::<Position, ParseError>(position_of(ts, semi + 1)) && final(self).cursor() == step(ts, semi) && final(self).cursor() > e
                }
            }),
    {
        if !self.check(TokenType::End) {
            return Err(self.unexpected_here(TokenType::End.name_str()));
        }
        self.advance();
        match closer {
            Some(c) => {
                if self.check(c) {
                    self.advance();
                }
            },
            None => {},
        }
        if label && self.check(TokenType::Identifier) {
            self.advance();
        }
        if !self.check(TokenType::Semicolon) {
            return Err(self.unexpected_here(TokenType::Semicolon.name_str()));
        }
        let end = self.position_after();
        self.advance();
        Ok(end)
    }

    /// Reads one statement and adds what it gives to `out`.
    fn parse_statement(&mut self, out: &mut Vec<PlSqlStatement>) -> (r: Result<(), ParseError>)
        requires
            old(self).wf(),
        ensures
            final(self).wf(),
            final(self).stream() == old(self).stream(),
            final(self).dialect() == old(self).dialect(),
            match statement_from(old(self).stream(), old(self).cursor()) {
                Parsed::Done(v, j) => r is Ok && statements_view(final(out)@) == statements_view(
                    old(out)@,
                ) + v && final(self).cursor() == j && j > old(self).cursor(),
                Parsed::Failed(x) => r matches Err(e) && e@ == x,
            },
            r is Ok && references_within(old(self).stream(), statements_references(old(out)@))
                ==> references_within(old(self).stream(), statements_references(final(out)@)),
        decreases remaining(old(self).stream(), old(self).cursor()), 2nat,
    {
        let ghost ts = self.stream();
        let ghost i = self.cursor();
        let ghost before = statements_view(out@);
        let k = self.kind();
        assert(before + Seq::<StatementView>::empty() =~= before);
        if self.index() >= self.token_count() {
            return Err(self.unexpected_here("statement"));
        }
        let start = self.current_position();
        if self.at_directive() || k == TokenType::Exception {
            self.advance();
            Ok(())
        } else if k == TokenType::Return {
            self.advance();
            if self.check(TokenType::Semicolon) {
                let end = self.position_after();
                self.advance();
                let statement = PlSqlStatement::Return { value: None, span: Span { start, end } };
                proof {
                    lemma_statements_view_push(out@, statement);
                    assert(before.push(statement@) =~= before + seq![statement@]);
                    lemma_none_within(ts);
                    lemma_pushed_within(ts, out@, statement);
                }
                out.push(statement);
                Ok(())
            } else {
                let e = self.parse_expression(1)?;
                let end = self.close_statement()?;
                let statement = PlSqlStatement::Return { value: Some(e), span: Span { start, end } };
                proof {
                    lemma_statements_view_push(out@, statement);
                    assert(before.push(statement@) =~= before + seq![statement@]);
                    lemma_none_within(ts);
                    lemma_pushed_within(ts, out@, statement);
                }
                out.push(statement);
                Ok(())
            }
        } else if k == TokenType::If {
            let statement = self.parse_conditional()?;
            let end = self.close_block(Some(TokenType::If), false)?;
            proof {
                lemma_statements_view_push(out@, statement);
                assert(before.push(statement@) =~= before + seq![statement@]);
                lemma_none_within(ts);
                lemma_pushed_within(ts, out@, statement);
            }
            out.push(statement);
            Ok(())
        } else if k == TokenType::Loop || k == TokenType::While || k == TokenType::For {
            if k != TokenType::Loop {
                self.advance();
                self.skip_to_kind(TokenType::Loop);
            }
            if !self.check(TokenType::Loop) {
                return Err(self.unexpected_here(TokenType::Loop.name_str()));
            }
            self.advance();
            let mut body: Vec<PlSqlStatement> = Vec::new();
            proof {
                lemma_none_within(ts);
                assert(body@ =~= Seq::<PlSqlStatement>::empty());
            }
            self.parse_statements(&mut body)?;
            let end = self.close_block(Some(TokenType::Loop), true)?;
            let statement = PlSqlStatement::Loop { body, span: Span { start, end } };
            proof {
                lemma_statements_view_push(out@, statement);
                assert(before.push(statement@) =~= before + seq![statement@]);
                lemma_none_within(ts);
                lemma_pushed_within(ts, out@, statement);
            }
            out.push(statement);
            Ok(())
        } else if k == TokenType::Begin {
            self.advance();
            let mut body: Vec<PlSqlStatement> = Vec::new();
            proof {
                lemma_none_within(ts);
                assert(body@ =~= Seq::<PlSqlStatement>::empty());
            }
            self.parse_statements(&mut body)?;
            let end = self.close_block(None, true)?;
            proof {
                lemma_statements_view_join(out@, body@);
                lemma_references_join(out@, body@);
                if references_within(ts, statements_references(out@)) {
                    lemma_joined_within(
                        ts,
                        statements_references(out@),
                        statements_references(body@),
                    );
                }
            }
            out.append(&mut body);
            Ok(())
        } else if self.check_word("when") {
            self.advance();
            self.skip_to_kind(TokenType::Then);
            if !self.check(TokenType::Then) {
                return Err(self.unexpected_here(TokenType::Then.name_str()));
            }
            self.advance();
            Ok(())
        } else if k == TokenType::Identifier && !self.check_word("null") {
            let name = self.parse_name();
            if self.check(TokenType::Assignment) {
                self.advance();
                let e = self.parse_expression(1)?;
                let end = self.close_statement()?;
                let statement = PlSqlStatement::Assignment {
                    target: name,
                    value: e,
                    span: Span { start, end },
                };
                proof {
                    lemma_statements_view_push(out@, statement);
                    assert(before.push(statement@) =~= before + seq![statement@]);
                    lemma_none_within(ts);
                    lemma_pushed_within(ts, out@, statement);
                }
                out.push(statement);
                Ok(())
            } else if self.check(TokenType::LeftParen) {
                self.advance();
                let arguments = self.parse_arguments()?;
                self.advance();
                if self.check(TokenType::Semicolon) {
                    let end = self.position_after();
                    self.advance();
                    let statement = PlSqlStatement::Call {
                        name,
                        arguments,
                        span: Span { start, end },
                    };
                    proof {
                        lemma_statements_view_push(out@, statement);
                        assert(before.push(statement@) =~= before + seq![statement@]);
                        lemma_none_within(ts);
                        lemma_pushed_within(ts, out@, statement);
                    }
                    out.push(statement);
                    Ok(())
                } else if self.check(TokenType::Assignment) {
                    self.advance();
                    let e = self.parse_expression(1)?;
                    let end = self.close_statement()?;
                    let statement = PlSqlStatement::Assignment {
                        target: name,
                        value: e,
                        span: Span { start, end },
                    };
                    proof {
                        lemma_statements_view_push(out@, statement);
                        assert(before.push(statement@) =~= before + seq![statement@]);
                        lemma_none_within(ts);
                        lemma_pushed_within(ts, out@, statement);
                    }
                    out.push(statement);
                    Ok(())
                } else {
                    self.skip_statement();
                    Ok(())
                }
            } else if self.check(TokenType::Semicolon) {
                let end = self.position_after();
                self.advance();
                let statement = PlSqlStatement::Call {
                    name,
                    arguments: Vec::new(),
                    span: Span { start, end },
                };
                proof {
                    lemma_statements_view_push(out@, statement);
                    assert(before.push(statement@) =~= before + seq![statement@]);
                    lemma_none_within(ts);
                    lemma_pushed_within(ts, out@, statement);
                }
                out.push(statement);
                Ok(())
            } else {
                self.skip_statement();
                Ok(())
            }
        } else if k == TokenType::Semicolon {
            self.advance();
            Ok(())
        } else {
            self.advance();
            self.skip_statement();
            Ok(())
        }
    }

    /// Reads a conditional from its `IF` or `ELSIF` up to the `END` that
    /// closes it.
    fn parse_conditional(&mut self) -> (r: Result<PlSqlStatement, ParseError>)
        requires
            old(self).wf(),
        ensures
            final(self).wf(),
            final(self).stream() == old(self).stream(),
            final(self).dialect() == old(self).dialect(),
            match conditional_from(old(self).stream(), old(self).cursor()) {
                Parsed::Done(v, j) => r matches Ok(s) && s@ == v && final(self).cursor() == j && j
                    > old(self).cursor(),
                Parsed::Failed(x) => r matches Err(e) && e@ == x,
            },
            r matches Ok(s) ==> references_within(old(self).stream(), statement_references(s)),
        decreases remaining(old(self).stream(), old(self).cursor()), 1nat,
    {
        let ghost ts = self.stream();
        if self.index() >= self.token_count() {
            return Err(self.unexpected_here(TokenType::If.name_str()));
        }
        let start = self.current_position();
        self.advance();
        let condition = self.parse_expression(1)?;
        self.skip_to_kind(TokenType::Then);
        if !self.check(TokenType::Then) {
            return Err(self.unexpected_here(TokenType::Then.name_str()));
        }
        self.advance();
        let mut then_branch: Vec<PlSqlStatement> = Vec::new();
        proof {
            lemma_none_within(ts);
            assert(then_branch@ =~= Seq::<PlSqlStatement>::empty());
        }
        self.parse_statements(&mut then_branch)?;
        if self.check(TokenType::ElseIf) {
            let nested = self.parse_conditional()?;
            let end = self.current_position();
            let mut else_branch: Vec<PlSqlStatement> = Vec::new();
            proof {
                lemma_statements_view_push(else_branch@, nested);
                assert(Seq::<StatementView>::empty().push(nested@) =~= seq![nested@]);
                assert(else_branch@ =~= Seq::<PlSqlStatement>::empty());
                lemma_pushed_within(ts, else_branch@, nested);
            }
            else_branch.push(nested);
            proof {
                lemma_joined_within(
                    ts,
                    statements_references(then_branch@),
                    statements_references(else_branch@),
                );
            }
            Ok(
                PlSqlStatement::If {
                    condition,
                    then_branch,
                    else_branch: Some(else_branch),
                    span: Span { start, end },
                },
            )
        } else if self.check(TokenType::Else) {
            self.advance();
            let mut else_branch: Vec<PlSqlStatement> = Vec::new();
            proof {
                assert(else_branch@ =~= Seq::<PlSqlStatement>::empty());
            }
            self.parse_statements(&mut else_branch)?;
            let end = self.current_position();
            proof {
                lemma_joined_within(
                    ts,
                    statements_references(then_branch@),
                    statements_references(else_branch@),
                );
            }
            Ok(
                PlSqlStatement::If {
                    condition,
                    then_branch,
                    else_branch: Some(else_branch),
                    span: Span { start, end },
                },
            )
        } else {
            let end = self.current_position();
            proof {
                lemma_joined_within(
                    ts,
                    statements_references(then_branch@),
                    Seq::<ReferenceRecord>::empty(),
                );
            }
            Ok(
                PlSqlStatement::If {
                    condition,
                    then_branch,
                    else_branch: None,
                    span: Span { start, end },
                },
            )
        }
    }

    /// Reads statements up to where their sequence ends and adds them to
    /// `out`.
    #[verifier::loop_isolation(false)]
    fn parse_statements(&mut self, out: &mut Vec<PlSqlStatement>) -> (r: Result<(), ParseError>)
        requires
            old(self).wf(),
        ensures
            final(self).wf(),
            final(self).stream() == old(self).stream(),
            final(self).dialect() == old(self).dialect(),
            match statements_from(
                old(self).stream(),
                old(self).cursor(),
                statements_view(old(out)@),
            ) {
                Parsed::Done(v, j) => r is Ok && statements_view(final(out)@) == v && final(self).cursor() == j && j >= old(self).cursor(),
                Parsed::Failed(x) => r matches Err(e) && e@ == x,
            },
            r is Ok && references_within(old(self).stream(), statements_references(old(out)@))
                ==> references_within(old(self).stream(), statements_references(final(out)@)),
        decreases remaining(old(self).stream(), old(self).cursor()), 3nat,
    {
        let ghost ts = self.stream();
        let ghost first = self.cursor();
        let ghost start = statements_view(out@);
        while !self.at_block_end()
            invariant
                self.wf(),
                self.stream() == ts,
                self.dialect() == old(self).dialect(),
                first <= self.cursor(),
                statements_from(ts, first, start) == statements_from(
                    ts,
                    self.cursor(),
                    statements_view(out@),
                ),
                references_within(ts, statements_references(old(out)@)) ==> references_within(
                    ts,
                    statements_references(out@),
                ),
            decreases remaining(ts, self.cursor()),
        {
            self.parse_statement(out)?;
        }
        Ok(())
    }

    /// Reads the body of a routine: the statements between the first
    /// `BEGIN` and the `END` that closes it.
    pub(crate) fn parse_body(&mut self) -> (r: Result<Vec<PlSqlStatement>, ParseError>)
        requires
            old(self).wf(),
        ensures
            final(self).wf(),
            final(self).stream() == old(self).stream(),
            final(self).dialect() == old(self).dialect(),
            match body_from(old(self).stream(), old(self).cursor()) {
                Parsed::Done(v, j) => r matches Ok(body) && statements_view(body@) == v,
                Parsed::Failed(x) => r matches Err(e) && e@ == x,
            },
            r matches Ok(body) ==> references_within(
                old(self).stream(),
                statements_references(body@),
            ),
    {
        let ghost ts = self.stream();
        let ghost first = self.cursor();
        while self.index() < self.token_count() && !self.check(TokenType::Begin) && !self.check(
            TokenType::Eof,
        )
            invariant
                self.wf(),
                self.stream() == ts,
                self.dialect() == old(self).dialect(),
                next_begin(ts, first) == next_begin(ts, self.cursor()),
            decreases remaining(ts, self.cursor()),
        {
            self.advance();
        }
        let mut body: Vec<PlSqlStatement> = Vec::new();
        proof {
            lemma_none_within(ts);
            assert(body@ =~= Seq::<PlSqlStatement>::empty());
        }
        if !self.check(TokenType::Begin) {
            return Ok(body);
        }
        self.advance();
        self.parse_statements(&mut body)?;
        if !self.check(TokenType::End) {
            return Err(self.unexpected_here(TokenType::End.name_str()));
        }
        Ok(body)
    }
}

} // verus!
