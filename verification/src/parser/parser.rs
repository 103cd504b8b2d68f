//! The parser: a token stream to a syntax tree.
//!
//! Parsing fails with a `ParseError` on the first token that no production
//! accepts; there is no recovery. Whitespace, newlines and comments are
//! stepped over by the cursor and stay in the token stream.
//!
//! The grammar is fixed by the specification functions of this module, which
//! read the tokens by index: each production is a function from a start index
//! to what was recognised and the index reached.

use crate::parser::ast::{
    AstNode, Identifier, IfsAnnotation, OvertakeDirective, Parameter, ParameterMode, PlSqlNode,
    Position, ProcedureVisibility, Span, Type,
};
use crate::parser::lexer::{views, Lexer, Token, TokenPosition, TokenType};
use crate::index::database::{children_placed, placed_at, spans_well_formed};
use crate::index::symbols::{
    ast_references, ast_symbols, statements_references, ReferenceRecord, SymbolModel,
};
use crate::parser::dialects::{
    client_parses, entity_parses, enumeration_parses, projection_parses, storage_parses,
    views_parses,
};
use crate::parser::statements::{body_from, statements_view, StatementView};
use crate::parser::Language;
use crate::text::{chars_eq_str, lower, lower_chars, to_chars};
use vstd::prelude::*;
use vstd::string::StringExecFns;

verus! {

/// Why a token stream could not be parsed.
#[derive(Debug, Clone, PartialEq)]
pub enum ParseError {
    /// A token that the production at hand does not accept.
    UnexpectedToken { expected: String, found: String },
    /// The input ended inside a construct.
    UnexpectedEof,
    /// A construct that no production describes.
    InvalidSyntax { message: String },
    /// A dialect without a parser.
    UnsupportedLanguage { language: Language },
}

/// A `ParseError` with its texts read as sequences of characters.
pub enum ParseErrorView {
    UnexpectedToken { expected: Seq<char>, found: Seq<char> },
    UnexpectedEof,
    InvalidSyntax { message: Seq<char> },
    UnsupportedLanguage { language: Language },
}

impl View for ParseError {
    type V = ParseErrorView;

    open spec fn view(&self) -> ParseErrorView {
        match self {
            ParseError::UnexpectedToken { expected, found } => ParseErrorView::UnexpectedToken {
                expected: expected@,
                found: found@,
            },
            ParseError::UnexpectedEof => ParseErrorView::UnexpectedEof,
            ParseError::InvalidSyntax { message } => ParseErrorView::InvalidSyntax {
                message: message@,
            },
            ParseError::UnsupportedLanguage { language } => ParseErrorView::UnsupportedLanguage {
                language: *language,
            },
        }
    }
}

impl Language {
    /// The name of the dialect, as written in the enumeration.
    pub open spec fn name(self) -> Seq<char> {
        match self {
            Language::PlSql => "PlSql"@,
            Language::Entity => "Entity"@,
            Language::Enumeration => "Enumeration"@,
            Language::Views => "Views"@,
            Language::Storage => "Storage"@,
            Language::MarbleProjection => "MarbleProjection"@,
            Language::MarbleClient => "MarbleClient"@,
        }
    }

    /// Executable form of `name`.
    pub fn name_str(&self) -> (r: &'static str)
        ensures
            r@ == self.name(),
    {
        match self {
            Language::PlSql => "PlSql",
            Language::Entity => "Entity",
            Language::Enumeration => "Enumeration",
            Language::Views => "Views",
            Language::Storage => "Storage",
            Language::MarbleProjection => "MarbleProjection",
            Language::MarbleClient => "MarbleClient",
        }
    }

    /// The dialect whose name is `s`, letter for letter.
    pub open spec fn of_name(s: Seq<char>) -> Option<Language> {
        if s == Language::PlSql.name() {
            Some(Language::PlSql)
        } else if s == Language::Entity.name() {
            Some(Language::Entity)
        } else if s == Language::Enumeration.name() {
            Some(Language::Enumeration)
        } else if s == Language::Views.name() {
            Some(Language::Views)
        } else if s == Language::Storage.name() {
            Some(Language::Storage)
        } else if s == Language::MarbleProjection.name() {
            Some(Language::MarbleProjection)
        } else if s == Language::MarbleClient.name() {
            Some(Language::MarbleClient)
        } else {
            None
        }
    }

    /// The dialect named by `s`.
    pub fn parse_name(s: &str) -> (r: Option<Language>)
        ensures
            r == Language::of_name(s@),
    {
        let v = to_chars(s);
        if chars_eq_str(&v, "PlSql") {
            Some(Language::PlSql)
        } else if chars_eq_str(&v, "Entity") {
            Some(Language::Entity)
        } else if chars_eq_str(&v, "Enumeration") {
            Some(Language::Enumeration)
        } else if chars_eq_str(&v, "Views") {
            Some(Language::Views)
        } else if chars_eq_str(&v, "Storage") {
            Some(Language::Storage)
        } else if chars_eq_str(&v, "MarbleProjection") {
            Some(Language::MarbleProjection)
        } else if chars_eq_str(&v, "MarbleClient") {
            Some(Language::MarbleClient)
        } else {
            None
        }
    }
}

impl ParseError {
    /// The error as a message for people.
    pub open spec fn message(self) -> Seq<char> {
        match self {
            ParseError::UnexpectedToken { expected, found } => "Unexpected token: expected "@
                + expected@ + ", found "@ + found@,
            ParseError::UnexpectedEof => "Unexpected end of input"@,
            ParseError::InvalidSyntax { message } => "Invalid syntax: "@ + message@,
            ParseError::UnsupportedLanguage { language } => "Unsupported language: "@
                + language.name(),
        }
    }

    /// The error as a message for people.
    pub fn to_string(&self) -> (r: String)
        ensures
            r@ == self.message(),
    {
        match self {
            ParseError::UnexpectedToken { expected, found } => {
                let mut s = "Unexpected token: expected ".to_owned();
                s.append(expected.as_str());
                s.append(", found ");
                s.append(found.as_str());
                s
            },
            ParseError::UnexpectedEof => "Unexpected end of input".to_owned(),
            ParseError::InvalidSyntax { message } => {
                let mut s = "Invalid syntax: ".to_owned();
                s.append(message.as_str());
                s
            },
            ParseError::UnsupportedLanguage { language } => {
                let mut s = "Unsupported language: ".to_owned();
                s.append(language.name_str());
                s
            },
        }
    }
}

/// How many underscores end `name`.
pub open spec fn trailing_underscores(name: Seq<char>) -> nat
    decreases name.len(),
{
    if name.len() > 0 && name.last() == '_' {
        1 + trailing_underscores(name.drop_last())
    } else {
        0
    }
}

/// The visibility that a routine's name announces: three or more trailing
/// underscores make it private, exactly two protected, and anything else
/// public.
pub open spec fn visibility_of(name: Seq<char>) -> ProcedureVisibility {
    let n = trailing_underscores(name);
    if n >= 3 {
        ProcedureVisibility::Private
    } else if n == 2 {
        ProcedureVisibility::Protected
    } else {
        ProcedureVisibility::Public
    }
}

/// Deterministic visibility: for a name of any length, the visibility is
/// decided by the number of underscores that end it, and by nothing else.
pub proof fn lemma_visibility_by_underscores(name: Seq<char>)
    ensures
        trailing_underscores(name) == 0 ==> visibility_of(name) == ProcedureVisibility::Public,
        trailing_underscores(name) == 2 ==> visibility_of(name) == ProcedureVisibility::Protected,
        trailing_underscores(name) >= 3 ==> visibility_of(name) == ProcedureVisibility::Private,
{
}

/// Two names that end in equally many underscores have the same visibility.
pub proof fn lemma_visibility_depends_on_count_only(a: Seq<char>, b: Seq<char>)
    requires
        trailing_underscores(a) == trailing_underscores(b),
    ensures
        visibility_of(a) == visibility_of(b),
{
}

/// Appending `k` underscores to a name that ends in none gives a name that
/// ends in exactly `k`.
pub proof fn lemma_trailing_underscores_of_padded(stem: Seq<char>, k: nat)
    requires
        trailing_underscores(stem) == 0,
    ensures
        trailing_underscores(stem + Seq::new(k, |i: int| '_')) == k,
    decreases k,
{
    let padded = stem + Seq::new(k, |i: int| '_');
    if k == 0 {
        assert(padded =~= stem);
    } else {
        let shorter = stem + Seq::new((k - 1) as nat, |i: int| '_');
        assert(padded.drop_last() =~= shorter);
        assert(padded.last() == '_');
        lemma_trailing_underscores_of_padded(stem, (k - 1) as nat);
    }
}

/// The visibility that `name` announces.
pub fn determine_visibility(name: &str) -> (r: ProcedureVisibility)
    ensures
        r == visibility_of(name@),
{
    let v = to_chars(name);
    let mut n: usize = 0;
    assert(v@.take(v@.len() as int) =~= v@);
    while n < v.len() && n < 3 && v[v.len() - 1 - n] == '_'
        invariant
            n <= v.len(),
            n <= 3,
            v@ == name@,
            trailing_underscores(v@) == n + trailing_underscores(v@.take(v@.len() - n)),
        decreases 3 - n,
    {
        proof {
            let t = v@.take(v@.len() - n);
            assert(t.last() == '_');
            assert(t.drop_last() =~= v@.take(v@.len() - (n + 1)));
        }
        n += 1;
    }
    if n >= 3 {
        ProcedureVisibility::Private
    } else if n == 2 {
        ProcedureVisibility::Protected
    } else {
        ProcedureVisibility::Public
    }
}

/// An identifier with its name read as characters.
pub struct IdentifierView {
    pub name: Seq<char>,
    pub span: Span,
}

impl View for Identifier {
    type V = IdentifierView;

    open spec fn view(&self) -> IdentifierView {
        IdentifierView { name: self.name@, span: self.span }
    }
}

/// A type with its texts read as characters.
pub struct TypeView {
    pub name: Seq<char>,
    pub parameters: Seq<Seq<char>>,
    pub span: Span,
}

impl View for Type {
    type V = TypeView;

    open spec fn view(&self) -> TypeView {
        TypeView {
            name: self.name@,
            parameters: Seq::new(self.parameters@.len(), |k: int| self.parameters@[k]@),
            span: self.span,
        }
    }
}

/// A parameter as the parser builds it: name, mode, type and extent. The
/// parser keeps no default value.
pub struct ParameterView {
    pub name: IdentifierView,
    pub mode: ParameterMode,
    pub param_type: TypeView,
    pub has_default: bool,
    pub span: Span,
}

impl View for Parameter {
    type V = ParameterView;

    open spec fn view(&self) -> ParameterView {
        ParameterView {
            name: self.name@,
            mode: self.mode,
            param_type: self.param_type@,
            has_default: self.default_value is Some,
            span: self.span,
        }
    }
}

/// The views of a sequence of parameters.
pub open spec fn parameter_views(ps: Seq<Parameter>) -> Seq<ParameterView> {
    Seq::new(ps.len(), |k: int| ps[k]@)
}

/// Which of a directive block's regions a directive is.
#[derive(Debug, Clone, Copy, PartialEq, Eq, Structural)]
pub enum DirectiveKind {
    Search,
    Replace,
    Append,
    Prepend,
    TextSearch,
    TextReplace,
    TextAppend,
    TextPrepend,
}

/// A directive region: its kind, the source text it holds, and its extent.
pub struct DirectiveView {
    pub kind: DirectiveKind,
    pub payload: Seq<char>,
    pub span: Span,
}

impl View for OvertakeDirective {
    type V = DirectiveView;

    open spec fn view(&self) -> DirectiveView {
        match self {
            OvertakeDirective::Search { code, span } => DirectiveView {
                kind: DirectiveKind::Search,
                payload: code@,
                span: *span,
            },
            OvertakeDirective::Replace { code, span } => DirectiveView {
                kind: DirectiveKind::Replace,
                payload: code@,
                span: *span,
            },
            OvertakeDirective::Append { code, span } => DirectiveView {
                kind: DirectiveKind::Append,
                payload: code@,
                span: *span,
            },
            OvertakeDirective::Prepend { code, span } => DirectiveView {
                kind: DirectiveKind::Prepend,
                payload: code@,
                span: *span,
            },
            OvertakeDirective::TextSearch { text, span } => DirectiveView {
                kind: DirectiveKind::TextSearch,
                payload: text@,
                span: *span,
            },
            OvertakeDirective::TextReplace { text, span } => DirectiveView {
                kind: DirectiveKind::TextReplace,
                payload: text@,
                span: *span,
            },
            OvertakeDirective::TextAppend { text, span } => DirectiveView {
                kind: DirectiveKind::TextAppend,
                payload: text@,
                span: *span,
            },
            OvertakeDirective::TextPrepend { text, span } => DirectiveView {
                kind: DirectiveKind::TextPrepend,
                payload: text@,
                span: *span,
            },
        }
    }
}

/// The views of a sequence of directives.
pub open spec fn directive_views(ds: Seq<OvertakeDirective>) -> Seq<DirectiveView> {
    Seq::new(ds.len(), |k: int| ds[k]@)
}

/// What a production yields: a value and the index reached, or an error.
pub enum Parsed<T> {
    Done(T, int),
    Failed(ParseErrorView),
}

/// The kind of the token at index `i`; past the end it is `Eof`.
pub open spec fn kind_at(ts: Seq<Token>, i: int) -> TokenType {
    if 0 <= i < ts.len() {
        ts[i].token_type
    } else {
        TokenType::Eof
    }
}

/// The text of the token at index `i`; past the end it is empty.
pub open spec fn text_at(ts: Seq<Token>, i: int) -> Seq<char> {
    if 0 <= i < ts.len() {
        ts[i].value@
    } else {
        Seq::empty()
    }
}

/// How many tokens stand at or after index `i`.
pub open spec fn remaining(ts: Seq<Token>, i: int) -> nat {
    if i < ts.len() {
        (ts.len() - i) as nat
    } else {
        0
    }
}

/// The first index at or after `i` that holds no whitespace, newline or
/// comment; the length of `ts` where there is none.
pub open spec fn skip_trivia(ts: Seq<Token>, i: int) -> int
    decreases ts.len() - i,
{
    if 0 <= i < ts.len() && ts[i].token_type.trivia() {
        skip_trivia(ts, i + 1)
    } else {
        i
    }
}

/// The index of the significant token after the one at `i`.
pub open spec fn step(ts: Seq<Token>, i: int) -> int {
    let j = skip_trivia(ts, i + 1);
    if j > i {
        j
    } else {
        i + 1
    }
}

/// A token position as a position of the syntax tree.
pub open spec fn as_position(p: TokenPosition) -> Position {
    Position { line: p.line, column: p.column, offset: p.offset }
}

/// Where the token at index `i` starts. Past the end it is where the last
/// token starts, and line 1, column 1 where there is no token at all.
pub open spec fn position_of(ts: Seq<Token>, i: int) -> Position {
    if 0 <= i < ts.len() {
        as_position(ts[i].position)
    } else if ts.len() > 0 {
        as_position(ts.last().position)
    } else {
        Position { line: 1, column: 1, offset: 0 }
    }
}

/// The extent of the single token at index `i`: from its start to the start
/// of the token that follows it.
pub open spec fn token_span(ts: Seq<Token>, i: int) -> Span {
    Span { start: position_of(ts, i), end: position_of(ts, i + 1) }
}

/// The span from the start of the token at `a` to the start of the token at
/// `b`.
pub open spec fn between(ts: Seq<Token>, a: int, b: int) -> Span {
    Span { start: position_of(ts, a), end: position_of(ts, b) }
}

/// The span runs from the start of a token at or after index `from` to the
/// start of that token or of a later one.
pub open spec fn within(ts: Seq<Token>, from: int, s: Span) -> bool {
    exists|a: int, b: int| from <= a <= b && #[trigger] between(ts, a, b) == s
}

/// The token at `a` starts at or before the token at `b`.
pub open spec fn starts_in_order(ts: Seq<Token>, a: int, b: int) -> bool {
    as_position(ts[a].position).at_or_before(as_position(ts[b].position))
}

/// The tokens start one after the other: positions rise along the stream.
pub open spec fn rising(ts: Seq<Token>) -> bool {
    forall|a: int, b: int| 0 <= a <= b < ts.len() ==> #[trigger] starts_in_order(ts, a, b)
}

/// Along a rising stream, the start of a later token is at or after the
/// start of an earlier one, also past the end of the stream.
pub proof fn lemma_position_of_rises(ts: Seq<Token>, a: int, b: int)
    requires
        rising(ts),
        0 <= a <= b,
    ensures
        position_of(ts, a).at_or_before(position_of(ts, b)),
{
    if ts.len() > 0 {
        let x = if a < ts.len() {
            a
        } else {
            ts.len() - 1
        };
        let y = if b < ts.len() {
            b
        } else {
            ts.len() - 1
        };
        assert(starts_in_order(ts, x, y));
    }
}

/// Along a rising stream, a span within the stream from `from` on is well
/// formed, and every span that starts at or before `from` and runs to the end
/// of the stream encloses it.
pub proof fn lemma_within_is_enclosed(ts: Seq<Token>, from: int, s: Span, lo: int)
    requires
        rising(ts),
        within(ts, from, s),
        0 <= lo <= from,
    ensures
        s.well_formed(),
        between(ts, lo, ts.len() as int).encloses(s),
{
    let (a, b) = choose|a: int, b: int| from <= a <= b && #[trigger] between(ts, a, b) == s;
    lemma_position_of_rises(ts, a, b);
    lemma_position_of_rises(ts, lo, a);
    if b <= ts.len() {
        lemma_position_of_rises(ts, b, ts.len() as int);
    } else {
        lemma_position_of_rises(ts, ts.len() as int, b);
        lemma_position_of_rises(ts, b, b);
    }
}

/// A span within the stream from `from` on is within it from every earlier
/// index on.
pub proof fn lemma_within_from_earlier(ts: Seq<Token>, earlier: int, from: int, s: Span)
    requires
        within(ts, from, s),
        earlier <= from,
    ensures
        within(ts, earlier, s),
{
    let (a, b) = choose|a: int, b: int| from <= a <= b && #[trigger] between(ts, a, b) == s;
    assert(earlier <= a <= b && between(ts, a, b) == s);
}

/// The spans of the parameters lie within the stream from `from` on.
pub open spec fn parameters_within(ts: Seq<Token>, from: int, ps: Seq<Parameter>) -> bool {
    forall|k: int| 0 <= k < ps.len() ==> within(ts, from, (#[trigger] ps[k]).span)
}

/// The spans of the references lie within the stream.
pub open spec fn references_within(ts: Seq<Token>, refs: Seq<ReferenceRecord>) -> bool {
    forall|k: int| 0 <= k < refs.len() ==> within(ts, 0, (#[trigger] refs[k]).span)
}

/// The spans that the index reads off a construct lie within the stream:
/// the construct's own, those of its parameters after its start, and those
/// of the references of its body.
pub open spec fn node_within(ts: Seq<Token>, n: PlSqlNode) -> bool {
    match n {
        PlSqlNode::Package { name, component, annotations, declarations, body, span } => {
            &&& within(ts, 0, span)
            &&& declarations@.len() == 0
            &&& body matches Some(stmts) ==> stmts@.len() == 0
        },
        PlSqlNode::Procedure {
            name,
            visibility,
            annotations,
            parameters,
            body,
            directives,
            span,
        } => exists|lo: int|
            0 <= lo && #[trigger] between(ts, lo, ts.len() as int) == span && parameters_within(
                ts,
                lo,
                parameters@,
            ) && references_within(ts, statements_references(body@)),
        PlSqlNode::Function {
            name,
            visibility,
            annotations,
            parameters,
            return_type,
            body,
            directives,
            span,
        } => exists|lo: int|
            0 <= lo && #[trigger] between(ts, lo, ts.len() as int) == span && parameters_within(
                ts,
                lo,
                parameters@,
            ) && references_within(ts, statements_references(body@)),
    }
}

/// The index takes the tree as far as spans go: every span it reads off the
/// tree is well formed, and every symbol lies within its parent.
pub open spec fn well_placed(ast: AstNode) -> bool {
    &&& spans_well_formed(ast_symbols(ast), ast_references(ast))
    &&& children_placed(ast_symbols(ast))
}

/// Along a rising stream, a construct whose spans lie within the stream is
/// well placed.
pub proof fn lemma_node_within_is_well_placed(ts: Seq<Token>, n: PlSqlNode)
    requires
        rising(ts),
        node_within(ts, n),
    ensures
        well_placed(AstNode::PlSql(n)),
{
    let ast = AstNode::PlSql(n);
    let recs = ast_symbols(ast);
    let refs = ast_references(ast);
    match n {
        PlSqlNode::Package { name, component, annotations, declarations, body, span } => {
            lemma_within_is_enclosed(ts, 0, span, 0);
            assert(refs =~= Seq::<ReferenceRecord>::empty());
            assert(recs.len() == 1);
            assert forall|k: int| 0 <= k < recs.len() implies #[trigger] placed_at(recs, k) by {}
        },
        PlSqlNode::Procedure {
            name,
            visibility,
            annotations,
            parameters,
            body,
            directives,
            span,
        } => {
            let lo = choose|lo: int|
                0 <= lo && #[trigger] between(ts, lo, ts.len() as int) == span
                    && parameters_within(ts, lo, parameters@) && references_within(
                    ts,
                    statements_references(body@),
                );
            lemma_routine_is_well_placed(ts, lo, span, parameters@, recs, refs);
        },
        PlSqlNode::Function {
            name,
            visibility,
            annotations,
            parameters,
            return_type,
            body,
            directives,
            span,
        } => {
            let lo = choose|lo: int|
                0 <= lo && #[trigger] between(ts, lo, ts.len() as int) == span
                    && parameters_within(ts, lo, parameters@) && references_within(
                    ts,
                    statements_references(body@),
                );
            lemma_routine_is_well_placed(ts, lo, span, parameters@, recs, refs);
        },
    }
}

proof fn lemma_routine_is_well_placed(
    ts: Seq<Token>,
    lo: int,
    span: Span,
    parameters: Seq<Parameter>,
    recs: Seq<SymbolModel>,
    refs: Seq<ReferenceRecord>,
)
    requires
        rising(ts),
        0 <= lo,
        between(ts, lo, ts.len() as int) == span,
        parameters_within(ts, lo, parameters),
        references_within(ts, refs),
        recs.len() == parameters.len() + 1,
        recs[0].span == span,
        recs[0].parent is None,
        forall|k: int|
            0 <= k < parameters.len() ==> (#[trigger] recs[k + 1]).span == parameters[k].span
                && recs[k + 1].parent == Some(0int),
    ensures
        spans_well_formed(recs, refs),
        children_placed(recs),
{
    if lo <= ts.len() {
        lemma_position_of_rises(ts, lo, ts.len() as int);
    }
    assert forall|k: int| 0 <= k < recs.len() implies (#[trigger] recs[k]).span.well_formed() by {
        if k > 0 {
            assert(recs[(k - 1) + 1].span == parameters[k - 1].span);
            lemma_within_is_enclosed(ts, lo, parameters[k - 1].span, lo);
        }
    }
    assert forall|k: int| 0 <= k < refs.len() implies (#[trigger] refs[k]).span.well_formed() by {
        lemma_within_is_enclosed(ts, 0, refs[k].span, 0);
    }
    assert forall|k: int| 0 <= k < recs.len() implies #[trigger] placed_at(recs, k) by {
        if k > 0 {
            assert(recs[(k - 1) + 1].span == parameters[k - 1].span);
            lemma_within_is_enclosed(ts, lo, parameters[k - 1].span, lo);
        }
    }
}

/// The error for a token at `i` that the production at hand does not accept.
pub open spec fn unexpected(expected: Seq<char>, ts: Seq<Token>, i: int) -> ParseErrorView {
    ParseErrorView::UnexpectedToken { expected, found: kind_at(ts, i).name() }
}

/// The token at `i` is the word `w` (given in small letters), written in
/// any case.
pub open spec fn word_at(ts: Seq<Token>, i: int, w: Seq<char>) -> bool {
    kind_at(ts, i) == TokenType::Identifier && lower(text_at(ts, i)) == w
}

/// The arguments of a type from index `i` on, `acc` being those already
/// read: numbers or identifiers separated by commas and closed by `)`. The
/// index yielded is that of the closing parenthesis.
pub open spec fn type_args_from(ts: Seq<Token>, i: int, acc: Seq<Seq<char>>) -> Parsed<
    Seq<Seq<char>>,
>
    decreases remaining(ts, i),
{
    let k = kind_at(ts, i);
    if k == TokenType::Number || k == TokenType::Identifier {
        let args = acc.push(text_at(ts, i));
        let j = step(ts, i);
        if kind_at(ts, j) == TokenType::Comma {
            type_args_from(ts, step(ts, j), args)
        } else if kind_at(ts, j) == TokenType::RightParen {
            Parsed::Done(args, j)
        } else {
            Parsed::Failed(unexpected(TokenType::RightParen.name(), ts, j))
        }
    } else {
        Parsed::Failed(unexpected("type argument"@, ts, i))
    }
}

/// A type at index `i`: an identifier, then optionally arguments in
/// parentheses.
pub open spec fn type_from(ts: Seq<Token>, i: int) -> Parsed<TypeView> {
    if kind_at(ts, i) != TokenType::Identifier {
        Parsed::Failed(unexpected("identifier"@, ts, i))
    } else {
        let j = step(ts, i);
        if kind_at(ts, j) == TokenType::LeftParen {
            match type_args_from(ts, step(ts, j), Seq::empty()) {
                Parsed::Done(args, close) => Parsed::Done(
                    TypeView {
                        name: text_at(ts, i),
                        parameters: args,
                        span: Span { start: position_of(ts, i), end: position_of(ts, close + 1) },
                    },
                    step(ts, close),
                ),
                Parsed::Failed(e) => Parsed::Failed(e),
            }
        } else {
            Parsed::Done(
                TypeView { name: text_at(ts, i), parameters: Seq::empty(), span: token_span(ts, i) },
                j,
            )
        }
    }
}

/// The mode written at index `i`, and the index after it: `IN`, `OUT` or
/// `IN OUT` in any case; where none is written the mode is `In`.
pub open spec fn mode_from(ts: Seq<Token>, i: int) -> (ParameterMode, int) {
    if word_at(ts, i, "in"@) {
        let j = step(ts, i);
        if word_at(ts, j, "out"@) {
            (ParameterMode::InOut, step(ts, j))
        } else {
            (ParameterMode::In, j)
        }
    } else if word_at(ts, i, "out"@) {
        (ParameterMode::Out, step(ts, i))
    } else {
        (ParameterMode::In, i)
    }
}

/// The first index at or after `i` that holds a comma, a closing
/// parenthesis or the end of input.
pub open spec fn default_end(ts: Seq<Token>, i: int) -> int
    decreases remaining(ts, i),
{
    let k = kind_at(ts, i);
    if 0 <= i < ts.len() && k != TokenType::Comma && k != TokenType::RightParen && k
        != TokenType::Eof {
        default_end(ts, step(ts, i))
    } else {
        i
    }
}

/// A parameter at index `i`: a name, an optional mode, a type, and whatever
/// follows up to the next comma or closing parenthesis.
pub open spec fn parameter_from(ts: Seq<Token>, i: int) -> Parsed<ParameterView> {
    if kind_at(ts, i) != TokenType::Identifier {
        Parsed::Failed(unexpected("identifier"@, ts, i))
    } else {
        let (mode, j) = mode_from(ts, step(ts, i));
        match type_from(ts, j) {
            Parsed::Done(ty, k) => {
                let e = default_end(ts, k);
                Parsed::Done(
                    ParameterView {
                        name: IdentifierView { name: text_at(ts, i), span: token_span(ts, i) },
                        mode,
                        param_type: ty,
                        has_default: false,
                        span: Span { start: position_of(ts, i), end: position_of(ts, e) },
                    },
                    e,
                )
            },
            Parsed::Failed(e) => Parsed::Failed(e),
        }
    }
}

/// Parameters separated by commas from index `i` on, `acc` being those
/// already read. The index yielded is that of the token after the last
/// parameter.
pub open spec fn parameters_from(ts: Seq<Token>, i: int, acc: Seq<ParameterView>) -> Parsed<
    Seq<ParameterView>,
>
    decreases remaining(ts, i),
{
    match parameter_from(ts, i) {
        Parsed::Done(p, j) => {
            if kind_at(ts, j) == TokenType::Comma && j > i {
                parameters_from(ts, step(ts, j), acc.push(p))
            } else {
                Parsed::Done(acc.push(p), j)
            }
        },
        Parsed::Failed(e) => Parsed::Failed(e),
    }
}

/// An optional parameter list at index `i`: nothing, `()`, or parameters in
/// parentheses.
pub open spec fn parameter_list(ts: Seq<Token>, i: int) -> Parsed<Seq<ParameterView>> {
    if kind_at(ts, i) == TokenType::LeftParen {
        let j = step(ts, i);
        if kind_at(ts, j) == TokenType::RightParen {
            Parsed::Done(Seq::empty(), step(ts, j))
        } else {
            match parameters_from(ts, j, Seq::empty()) {
                Parsed::Done(ps, k) => {
                    if kind_at(ts, k) == TokenType::RightParen {
                        Parsed::Done(ps, step(ts, k))
                    } else {
                        Parsed::Failed(unexpected(TokenType::RightParen.name(), ts, k))
                    }
                },
                Parsed::Failed(e) => Parsed::Failed(e),
            }
        }
    } else {
        Parsed::Done(Seq::empty(), i)
    }
}

/// The annotation that a token kind stands for.
pub open spec fn annotation_of(k: TokenType) -> Option<IfsAnnotation> {
    match k {
        TokenType::Override => Some(IfsAnnotation::Override),
        TokenType::Overtake => Some(IfsAnnotation::Overtake),
        TokenType::UncheckedAccess => Some(IfsAnnotation::UncheckedAccess),
        _ => None,
    }
}

/// The annotations stacked from index `i` on, `acc` being those already
/// read, and the index after them. An annotation may be followed by one
/// identifier, its argument, which is stepped over.
pub open spec fn annotations_from(ts: Seq<Token>, i: int, acc: Seq<IfsAnnotation>) -> (
    Seq<IfsAnnotation>,
    int,
)
    decreases remaining(ts, i),
{
    match annotation_of(kind_at(ts, i)) {
        Some(a) => {
            let j = step(ts, i);
            let k = if kind_at(ts, j) == TokenType::Identifier {
                step(ts, j)
            } else {
                j
            };
            annotations_from(ts, k, acc.push(a))
        },
        None => (acc, i),
    }
}

/// The directive kind that the token opens: the token is one of the eight
/// directive kinds and its text starts with `$`.
pub open spec fn directive_opened_by(t: Token) -> Option<DirectiveKind> {
    if t.value@.len() > 0 && t.value@[0] == '$' {
        match t.token_type {
            TokenType::Search => Some(DirectiveKind::Search),
            TokenType::Replace => Some(DirectiveKind::Replace),
            TokenType::Append => Some(DirectiveKind::Append),
            TokenType::Prepend => Some(DirectiveKind::Prepend),
            TokenType::TextSearch => Some(DirectiveKind::TextSearch),
            TokenType::TextReplace => Some(DirectiveKind::TextReplace),
            TokenType::TextAppend => Some(DirectiveKind::TextAppend),
            TokenType::TextPrepend => Some(DirectiveKind::TextPrepend),
            _ => None,
        }
    } else {
        None
    }
}

/// The token is the closing directive: an `End` whose text starts with `$`.
pub open spec fn closes_directive(t: Token) -> bool {
    t.token_type == TokenType::End && t.value@.len() > 0 && t.value@[0] == '$'
}

/// The first index at or after `i` that holds a directive, the closing
/// directive or the end of input; the length of `ts` where there is none.
pub open spec fn region_end(ts: Seq<Token>, i: int) -> int
    decreases remaining(ts, i),
{
    if 0 <= i < ts.len() && directive_opened_by(ts[i]) is None && !closes_directive(ts[i])
        && ts[i].token_type != TokenType::Eof {
        region_end(ts, i + 1)
    } else {
        i
    }
}

/// The texts of the tokens from index `i` up to `j`, joined in order.
pub open spec fn joined_values(ts: Seq<Token>, i: int, j: int) -> Seq<char>
    decreases j - i,
{
    if i < j {
        joined_values(ts, i, j - 1) + text_at(ts, j - 1)
    } else {
        Seq::empty()
    }
}

/// The directive regions found from index `i` on, `acc` being those already
/// read. Every token is looked at, whitespace and comments included. A
/// region runs from its directive to the next directive or to the closing
/// directive and holds the text between them. The input ending inside a
/// region, and a closing directive outside one, are errors.
pub open spec fn directives_from(ts: Seq<Token>, i: int, acc: Seq<DirectiveView>) -> Parsed<
    Seq<DirectiveView>,
>
    decreases remaining(ts, i),
{
    if i < 0 || i >= ts.len() || ts[i].token_type == TokenType::Eof {
        Parsed::Done(acc, i)
    } else if closes_directive(ts[i]) {
        Parsed::Failed(
            ParseErrorView::InvalidSyntax {
                message: "Closing directive outside a directive block"@,
            },
        )
    } else {
        match directive_opened_by(ts[i]) {
            Some(kind) => {
                let e = region_end(ts, i + 1);
                if e <= i || e >= ts.len() || ts[e].token_type == TokenType::Eof {
                    Parsed::Failed(ParseErrorView::UnexpectedEof)
                } else {
                    let d = DirectiveView {
                        kind,
                        payload: joined_values(ts, i + 1, e),
                        span: Span { start: position_of(ts, i), end: position_of(ts, e) },
                    };
                    if closes_directive(ts[e]) {
                        directives_from(ts, e + 1, acc.push(d))
                    } else {
                        directives_from(ts, e, acc.push(d))
                    }
                }
            },
            None => directives_from(ts, i + 1, acc),
        }
    }
}

/// Where the body of a routine starts: after `IS` or `AS` at index `i`, or
/// at `i` where neither stands there.
pub open spec fn body_start(ts: Seq<Token>, i: int) -> int {
    if kind_at(ts, i) == TokenType::Is || kind_at(ts, i) == TokenType::As {
        step(ts, i)
    } else {
        i
    }
}

/// A construct of the procedural dialect as the parser builds it.
pub enum PlSqlView {
    Package {
        name: IdentifierView,
        annotations: Seq<IfsAnnotation>,
        has_component: bool,
        declarations: nat,
        body: Option<nat>,
        span: Span,
    },
    Procedure {
        name: IdentifierView,
        visibility: ProcedureVisibility,
        annotations: Seq<IfsAnnotation>,
        parameters: Seq<ParameterView>,
        body: Seq<StatementView>,
        directives: Seq<DirectiveView>,
        span: Span,
    },
    Function {
        name: IdentifierView,
        visibility: ProcedureVisibility,
        annotations: Seq<IfsAnnotation>,
        parameters: Seq<ParameterView>,
        return_type: TypeView,
        body: Seq<StatementView>,
        directives: Seq<DirectiveView>,
        span: Span,
    },
}

impl View for PlSqlNode {
    type V = PlSqlView;

    /// The node with its texts read as characters. Of the declarations of a
    /// package and of the statements of its body the view keeps the number
    /// only.
    open spec fn view(&self) -> PlSqlView {
        match self {
            PlSqlNode::Package { name, component, annotations, declarations, body, span } => {
                PlSqlView::Package {
                    name: name@,
                    annotations: annotations@,
                    has_component: component is Some,
                    declarations: declarations@.len(),
                    body: match body {
                        Some(stmts) => Some(stmts@.len()),
                        None => None,
                    },
                    span: *span,
                }
            },
            PlSqlNode::Procedure {
                name,
                visibility,
                annotations,
                parameters,
                body,
                directives,
                span,
            } => PlSqlView::Procedure {
                name: name@,
                visibility: *visibility,
                annotations: annotations@,
                parameters: parameter_views(parameters@),
                body: statements_view(body@),
                directives: directive_views(directives@),
                span: *span,
            },
            PlSqlNode::Function {
                name,
                visibility,
                annotations,
                parameters,
                return_type,
                body,
                directives,
                span,
            } => PlSqlView::Function {
                name: name@,
                visibility: *visibility,
                annotations: annotations@,
                parameters: parameter_views(parameters@),
                return_type: return_type@,
                body: statements_view(body@),
                directives: directive_views(directives@),
                span: *span,
            },
        }
    }
}

/// A procedure whose name stands at index `i`: the name, an optional
/// parameter list, an optional `IS` or `AS`, and the rest of the input, in
/// which the body and the directive regions are recognised. The extent runs from `start` to
/// the last token.
pub open spec fn procedure_from(
    ts: Seq<Token>,
    i: int,
    annotations: Seq<IfsAnnotation>,
    start: Position,
) -> Result<PlSqlView, ParseErrorView> {
    if kind_at(ts, i) != TokenType::Identifier {
        Err(unexpected("identifier"@, ts, i))
    } else {
        match parameter_list(ts, step(ts, i)) {
            Parsed::Done(parameters, j) => match body_from(ts, body_start(ts, j)) {
                Parsed::Done(body, _) => match directives_from(
                    ts,
                    body_start(ts, j),
                    Seq::empty(),
                ) {
                    Parsed::Done(directives, _) => Ok(
                        PlSqlView::Procedure {
                            name: IdentifierView { name: text_at(ts, i), span: token_span(ts, i) },
                            visibility: visibility_of(text_at(ts, i)),
                            annotations,
                            parameters,
                            body,
                            directives,
                            span: Span { start, end: position_of(ts, ts.len() as int) },
                        },
                    ),
                    Parsed::Failed(e) => Err(e),
                },
                Parsed::Failed(e) => Err(e),
            },
            Parsed::Failed(e) => Err(e),
        }
    }
}

/// A function whose name stands at index `i`: as a procedure, with `RETURN`
/// and a type between the parameter list and the body.
pub open spec fn function_from(
    ts: Seq<Token>,
    i: int,
    annotations: Seq<IfsAnnotation>,
    start: Position,
) -> Result<PlSqlView, ParseErrorView> {
    if kind_at(ts, i) != TokenType::Identifier {
        Err(unexpected("identifier"@, ts, i))
    } else {
        match parameter_list(ts, step(ts, i)) {
            Parsed::Done(parameters, j) => {
                if kind_at(ts, j) != TokenType::Return {
                    Err(unexpected(TokenType::Return.name(), ts, j))
                } else {
                    match type_from(ts, step(ts, j)) {
                        Parsed::Done(return_type, k) => match body_from(ts, body_start(ts, k)) {
                            Parsed::Done(body, _) => match directives_from(
                                ts,
                                body_start(ts, k),
                                Seq::empty(),
                            ) {
                                Parsed::Done(directives, _) => Ok(
                                    PlSqlView::Function {
                                        name: IdentifierView {
                                            name: text_at(ts, i),
                                            span: token_span(ts, i),
                                        },
                                        visibility: visibility_of(text_at(ts, i)),
                                        annotations,
                                        parameters,
                                        return_type,
                                        body,
                                        directives,
                                        span: Span { start, end: position_of(ts, ts.len() as int) },
                                    },
                                ),
                                Parsed::Failed(e) => Err(e),
                            },
                            Parsed::Failed(e) => Err(e),
                        },
                        Parsed::Failed(e) => Err(e),
                    }
                }
            },
            Parsed::Failed(e) => Err(e),
        }
    }
}

/// The index after the next semicolon at or after `i`, or the index of the
/// end of input where no semicolon follows.
pub open spec fn after_semicolon(ts: Seq<Token>, i: int) -> int
    decreases remaining(ts, i),
{
    let k = kind_at(ts, i);
    if i < 0 || i >= ts.len() || k == TokenType::Eof {
        i
    } else if k == TokenType::Semicolon {
        step(ts, i)
    } else {
        after_semicolon(ts, step(ts, i))
    }
}

/// Where the declarations of a package end: the first index reached from
/// `i`, going semicolon by semicolon, that holds `END`, `BODY` or the end of
/// input.
pub open spec fn declarations_end(ts: Seq<Token>, i: int) -> int
    decreases remaining(ts, i),
{
    let k = kind_at(ts, i);
    if i < 0 || i >= ts.len() || k == TokenType::End || k == TokenType::Body || k
        == TokenType::Eof {
        i
    } else {
        let j = after_semicolon(ts, i);
        if j > i {
            declarations_end(ts, j)
        } else {
            i
        }
    }
}

/// Where the body of a package ends: the first index reached from `i`,
/// going semicolon by semicolon, that holds `END` or the end of input.
pub open spec fn package_body_end(ts: Seq<Token>, i: int) -> int
    decreases remaining(ts, i),
{
    let k = kind_at(ts, i);
    if i < 0 || i >= ts.len() || k == TokenType::End || k == TokenType::Eof {
        i
    } else {
        let j = after_semicolon(ts, i);
        if j > i {
            package_body_end(ts, j)
        } else {
            i
        }
    }
}

/// A package whose name stands at index `i`: the name, `AS` or `IS`,
/// declarations, an optional body after `BODY`, `END`, an optional name and
/// a semicolon. Declarations and body are stepped over.
pub open spec fn package_from(
    ts: Seq<Token>,
    i: int,
    annotations: Seq<IfsAnnotation>,
    start: Position,
) -> Result<PlSqlView, ParseErrorView> {
    if kind_at(ts, i) != TokenType::Identifier {
        Err(unexpected("identifier"@, ts, i))
    } else {
        let j = step(ts, i);
        if kind_at(ts, j) != TokenType::As && kind_at(ts, j) != TokenType::Is {
            Err(unexpected("AS or IS"@, ts, j))
        } else {
            let d = declarations_end(ts, step(ts, j));
            let has_body = kind_at(ts, d) == TokenType::Body;
            let b = if has_body {
                package_body_end(ts, step(ts, d))
            } else {
                d
            };
            if kind_at(ts, b) != TokenType::End {
                Err(unexpected(TokenType::End.name(), ts, b))
            } else {
                let e = step(ts, b);
                let semi = if kind_at(ts, e) == TokenType::Identifier {
                    step(ts, e)
                } else {
                    e
                };
                if kind_at(ts, semi) != TokenType::Semicolon {
                    Err(unexpected(TokenType::Semicolon.name(), ts, semi))
                } else {
                    Ok(
                        PlSqlView::Package {
                            name: IdentifierView { name: text_at(ts, i), span: token_span(ts, i) },
                            annotations,
                            has_component: false,
                            declarations: 0,
                            body: if has_body {
                                Some(0)
                            } else {
                                None
                            },
                            span: Span { start, end: position_of(ts, semi + 1) },
                        },
                    )
                }
            }
        }
    }
}

/// A source of the procedural dialect from index `i` on: annotations, then
/// a function, a procedure or a package.
pub open spec fn plsql_from(ts: Seq<Token>, i: int) -> Result<PlSqlView, ParseErrorView> {
    let (annotations, j) = annotations_from(ts, i, Seq::empty());
    let start = position_of(ts, i);
    let k = kind_at(ts, j);
    if k == TokenType::Function {
        function_from(ts, step(ts, j), annotations, start)
    } else if k == TokenType::Procedure {
        procedure_from(ts, step(ts, j), annotations, start)
    } else if k == TokenType::Package {
        package_from(ts, step(ts, j), annotations, start)
    } else {
        Err(
            ParseErrorView::InvalidSyntax {
                message: "Expected function or procedure declaration"@,
            },
        )
    }
}

/// The views of a sequence of strings.
pub open spec fn string_views(v: Seq<String>) -> Seq<Seq<char>> {
    Seq::new(v.len(), |k: int| v[k]@)
}

/// `r` is what parsing the tokens `ts` from index `i` on in dialect
/// `language` gives. For the procedural dialect it is the construct or the
/// error that `plsql_from` describes. For every other dialect the tokens
/// are read as records, and the records as the definitions of the dialect.
pub open spec fn parses_to(
    ts: Seq<Token>,
    i: int,
    language: Language,
    r: Result<AstNode, ParseError>,
) -> bool {
    match language {
        Language::PlSql => match plsql_from(ts, i) {
            Ok(v) => r matches Ok(AstNode::PlSql(n)) && n@ == v,
            Err(e) => r matches Err(x) && x@ == e,
        },
        Language::Entity => entity_parses(ts, i, r),
        Language::Enumeration => enumeration_parses(ts, i, r),
        Language::Views => views_parses(ts, i, r),
        Language::Storage => storage_parses(ts, i, r),
        Language::MarbleProjection => projection_parses(ts, i, r),
        Language::MarbleClient => client_parses(ts, i, r),
    }
}

/// The annotations that a construct of the procedural dialect carries.
pub open spec fn annotations_of(n: PlSqlNode) -> Seq<IfsAnnotation> {
    match n {
        PlSqlNode::Package { name, component, annotations, declarations, body, span } => annotations@,
        PlSqlNode::Procedure {
            name,
            visibility,
            annotations,
            parameters,
            body,
            directives,
            span,
        } => annotations@,
        PlSqlNode::Function {
            name,
            visibility,
            annotations,
            parameters,
            return_type,
            body,
            directives,
            span,
        } => annotations@,
    }
}

/// A declaration carries exactly the annotations that are stacked before its
/// keyword, in the order in which they are written: none where no
/// annotation stands there, and none that stands anywhere else.
pub proof fn lemma_annotations_attach(ts: Seq<Token>, i: int, n: PlSqlNode)
    requires
        parses_to(ts, i, Language::PlSql, Ok(AstNode::PlSql(n))),
    ensures
        annotations_of(n) == annotations_from(ts, i, Seq::empty()).0,
        annotation_of(kind_at(ts, i)) is None ==> annotations_of(n).len() == 0,
{
    let (annotations, j) = annotations_from(ts, i, Seq::empty());
    let start = position_of(ts, i);
    let k = kind_at(ts, j);
    assert(plsql_from(ts, i) == Ok::<PlSqlView, ParseErrorView>(n@));
    if k == TokenType::Function {
        assert(function_from(ts, step(ts, j), annotations, start) == Ok::<
            PlSqlView,
            ParseErrorView,
        >(n@));
    } else if k == TokenType::Procedure {
        assert(procedure_from(ts, step(ts, j), annotations, start) == Ok::<
            PlSqlView,
            ParseErrorView,
        >(n@));
    } else if k == TokenType::Package {
        assert(package_from(ts, step(ts, j), annotations, start) == Ok::<
            PlSqlView,
            ParseErrorView,
        >(n@));
    }
}

/// The tree of a source of the procedural dialect carries exactly the
/// annotations that are stacked before the keyword of its declaration.
pub proof fn lemma_source_annotations_attach(source: Seq<char>, n: PlSqlNode)
    requires
        parses_to_from_source(source, Language::PlSql, Ok(AstNode::PlSql(n))),
    ensures
        exists|ts: Seq<Token>| #[trigger]
            views(ts) == crate::parser::lexer::token_stream(source) && annotations_of(n)
                == annotations_from(ts, skip_trivia(ts, 0), Seq::empty()).0,
{
    let ts = choose|ts: Seq<Token>| #[trigger]
        views(ts) == crate::parser::lexer::token_stream(source) && parses_to(
            ts,
            skip_trivia(ts, 0),
            Language::PlSql,
            Ok(AstNode::PlSql(n)),
        );
    lemma_annotations_attach(ts, skip_trivia(ts, 0), n);
}

/// The parser: a token stream and a cursor into it.
pub struct Parser {
    tokens: Vec<Token>,
    current: usize,
    language: Language,
}

fn to_position(p: TokenPosition) -> (r: Position)
    ensures
        r == as_position(p),
{
    Position { line: p.line, column: p.column, offset: p.offset }
}

fn starts_with_dollar(t: &Token) -> (b: bool)
    ensures
        b == (t.value@.len() > 0 && t.value@[0] == '$'),
{
    let v = to_chars(t.value.as_str());
    v.len() > 0 && v[0] == '$'
}

fn opened_directive(t: &Token) -> (r: Option<DirectiveKind>)
    ensures
        r == directive_opened_by(*t),
{
    if starts_with_dollar(t) {
        match t.token_type {
            TokenType::Search => Some(DirectiveKind::Search),
            TokenType::Replace => Some(DirectiveKind::Replace),
            TokenType::Append => Some(DirectiveKind::Append),
            TokenType::Prepend => Some(DirectiveKind::Prepend),
            TokenType::TextSearch => Some(DirectiveKind::TextSearch),
            TokenType::TextReplace => Some(DirectiveKind::TextReplace),
            TokenType::TextAppend => Some(DirectiveKind::TextAppend),
            TokenType::TextPrepend => Some(DirectiveKind::TextPrepend),
            _ => None,
        }
    } else {
        None
    }
}

fn is_closing_directive(t: &Token) -> (b: bool)
    ensures
        b == closes_directive(*t),
{
    t.token_type == TokenType::End && starts_with_dollar(t)
}

fn make_directive(kind: DirectiveKind, payload: String, span: Span) -> (d: OvertakeDirective)
    ensures
        d@ == (DirectiveView { kind, payload: payload@, span }),
{
    match kind {
        DirectiveKind::Search => OvertakeDirective::Search { code: payload, span },
        DirectiveKind::Replace => OvertakeDirective::Replace { code: payload, span },
        DirectiveKind::Append => OvertakeDirective::Append { code: payload, span },
        DirectiveKind::Prepend => OvertakeDirective::Prepend { code: payload, span },
        DirectiveKind::TextSearch => OvertakeDirective::TextSearch { text: payload, span },
        DirectiveKind::TextReplace => OvertakeDirective::TextReplace { text: payload, span },
        DirectiveKind::TextAppend => OvertakeDirective::TextAppend { text: payload, span },
        DirectiveKind::TextPrepend => OvertakeDirective::TextPrepend { text: payload, span },
    }
}

impl Parser {
    /// The tokens being parsed.
    pub closed spec fn stream(&self) -> Seq<Token> {
        self.tokens@
    }

    /// The index of the token the parser looks at.
    pub closed spec fn cursor(&self) -> int {
        self.current as int
    }

    /// The dialect being parsed.
    pub closed spec fn dialect(&self) -> Language {
        self.language
    }

    /// The cursor lies in the token stream or just after it.
    pub closed spec fn wf(&self) -> bool {
        self.current <= self.tokens@.len()
    }

    /// A parser for `tokens`, looking at the first token that is not
    /// whitespace, a newline or a comment.
    pub fn new(tokens: Vec<Token>, language: Language) -> (r: Parser)
        ensures
            r.wf(),
            r.stream() == tokens@,
            r.cursor() == skip_trivia(tokens@, 0),
            r.dialect() == language,
    {
        let mut parser = Parser { tokens, current: 0, language };
        parser.skip_whitespace();
        parser
    }

    /// Parses the token stream in the parser's dialect.
    pub fn parse(&mut self) -> (r: Result<AstNode, ParseError>)
        requires
            old(self).wf(),
        ensures
            final(self).wf(),
            final(self).stream() == old(self).stream(),
            final(self).dialect() == old(self).dialect(),
            parses_to(old(self).stream(), old(self).cursor(), old(self).dialect(), r),
            rising(old(self).stream()) ==> (r matches Ok(ast) ==> well_placed(ast)),
    {
        let ghost ts = self.stream();
        let r = self.parse_any();
        proof {
            if rising(ts) && r is Ok {
                let ast = r->Ok_0;
                if ast is PlSql {
                    lemma_node_within_is_well_placed(ts, ast->PlSql_0);
                }
            }
        }
        r
    }

    fn parse_any(&mut self) -> (r: Result<AstNode, ParseError>)
        requires
            old(self).wf(),
        ensures
            final(self).wf(),
            final(self).stream() == old(self).stream(),
            final(self).dialect() == old(self).dialect(),
            parses_to(old(self).stream(), old(self).cursor(), old(self).dialect(), r),
            r matches Ok(AstNode::PlSql(n)) ==> node_within(old(self).stream(), n),
            rising(old(self).stream()) ==> (r matches Ok(ast) ==> ast is PlSql || well_placed(ast)),
    {
        match self.language {
            Language::PlSql => match self.parse_plsql() {
                Ok(n) => Ok(AstNode::PlSql(n)),
                Err(e) => Err(e),
            },
            Language::Entity => self.parse_entity(),
            Language::Enumeration => self.parse_enumeration(),
            Language::Views => self.parse_views(),
            Language::Storage => self.parse_storage(),
            Language::MarbleProjection => self.parse_marble_projection(),
            Language::MarbleClient => self.parse_marble_client(),
        }
    }

    fn parse_plsql(&mut self) -> (r: Result<PlSqlNode, ParseError>)
        requires
            old(self).wf(),
        ensures
            final(self).wf(),
            final(self).stream() == old(self).stream(),
            final(self).dialect() == old(self).dialect(),
            match plsql_from(old(self).stream(), old(self).cursor()) {
                Ok(v) => r matches Ok(n) && n@ == v,
                Err(e) => r matches Err(x) && x@ == e,
            },
            r matches Ok(n) ==> node_within(old(self).stream(), n),
    {
        let first = self.index();
        let ghost lo = first as int;
        let start = self.current_position();
        let annotations = self.parse_annotations();
        if self.match_token(TokenType::Function) {
            self.parse_function(annotations, start, Ghost(lo))
        } else if self.match_token(TokenType::Procedure) {
            self.parse_procedure(annotations, start, Ghost(lo))
        } else if self.match_token(TokenType::Package) {
            self.parse_package(annotations, start, Ghost(lo))
        } else {
            Err(
                ParseError::InvalidSyntax {
                    message: "Expected function or procedure declaration".to_owned(),
                },
            )
        }
    }

    #[verifier::loop_isolation(false)]
    fn parse_annotations(&mut self) -> (r: Vec<IfsAnnotation>)
        requires
            old(self).wf(),
        ensures
            final(self).wf(),
            final(self).stream() == old(self).stream(),
            final(self).dialect() == old(self).dialect(),
            (r@, final(self).cursor()) == annotations_from(
                old(self).stream(),
                old(self).cursor(),
                Seq::empty(),
            ),
            final(self).cursor() >= old(self).cursor(),
    {
        let mut out: Vec<IfsAnnotation> = Vec::new();
        let ghost ts = self.stream();
        let ghost start = self.cursor();
        let ghost lang = self.dialect();
        loop
            invariant
                self.wf(),
                self.stream() == ts,
                self.dialect() == lang,
                annotations_from(ts, start, Seq::empty()) == annotations_from(
                    ts,
                    self.cursor(),
                    out@,
                ),
                start <= self.cursor(),
            decreases remaining(ts, self.cursor()),
        {
            let a = match self.kind() {
                TokenType::Override => IfsAnnotation::Override,
                TokenType::Overtake => IfsAnnotation::Overtake,
                TokenType::UncheckedAccess => IfsAnnotation::UncheckedAccess,
                _ => {
                    return out;
                },
            };
            out.push(a);
            self.advance();
            if self.check(TokenType::Identifier) {
                self.advance();
            }
        }
    }

    #[verifier::loop_isolation(false)]
    fn parse_package(
        &mut self,
        annotations: Vec<IfsAnnotation>,
        start: Position,
        Ghost(lo): Ghost<int>,
    ) -> (r: Result<PlSqlNode, ParseError>)
        requires
            old(self).wf(),
            0 <= lo <= old(self).cursor(),
            start == position_of(old(self).stream(), lo),
        ensures
            r matches Ok(n) ==> node_within(old(self).stream(), n),
            final(self).wf(),
            final(self).stream() == old(self).stream(),
            final(self).dialect() == old(self).dialect(),
            match package_from(old(self).stream(), old(self).cursor(), annotations@, start) {
                Ok(v) => r matches Ok(n) && n@ == v,
                Err(e) => r matches Err(x) && x@ == e,
            },
    {
        let name = self.consume_identifier()?;
        if !self.check(TokenType::As) && !self.check(TokenType::Is) {
            return Err(self.unexpected_here("AS or IS"));
        }
        self.advance();
        let ghost ts = self.stream();
        let ghost lang = self.dialect();
        let ghost from = self.cursor();
        while !self.check(TokenType::End) && !self.check(TokenType::Body) && !self.is_at_end()
            invariant
                self.wf(),
                self.stream() == ts,
                self.dialect() == lang,
                declarations_end(ts, from) == declarations_end(ts, self.cursor()),
                lo <= self.cursor(),
            decreases remaining(ts, self.cursor()),
        {
            self.skip_until_semicolon();
        }
        let mut body: Option<Vec<crate::parser::ast::PlSqlStatement>> = None;
        if self.check(TokenType::Body) {
            self.advance();
            let ghost body_from = self.cursor();
            while !self.check(TokenType::End) && !self.is_at_end()
                invariant
                    self.wf(),
                    self.stream() == ts,
                    self.dialect() == lang,
                    package_body_end(ts, body_from) == package_body_end(ts, self.cursor()),
                    lo <= self.cursor(),
                decreases remaining(ts, self.cursor()),
            {
                self.skip_until_semicolon();
            }
            body = Some(Vec::new());
        }
        self.consume(TokenType::End)?;
        if self.check(TokenType::Identifier) {
            self.advance();
        }
        if !self.check(TokenType::Semicolon) {
            return Err(self.unexpected_here(TokenType::Semicolon.name_str()));
        }
        let end = self.position_after();
        assert(between(ts, lo, self.cursor() + 1) == (Span { start, end }));
        self.advance();
        Ok(
            PlSqlNode::Package {
                name,
                component: None,
                annotations,
                declarations: Vec::new(),
                body,
                span: Span { start, end },
            },
        )
    }

    fn parse_procedure(
        &mut self,
        annotations: Vec<IfsAnnotation>,
        start: Position,
        Ghost(lo): Ghost<int>,
    ) -> (r: Result<PlSqlNode, ParseError>)
        requires
            old(self).wf(),
            0 <= lo <= old(self).cursor(),
            start == position_of(old(self).stream(), lo),
        ensures
            r matches Ok(n) ==> node_within(old(self).stream(), n),
            final(self).wf(),
            final(self).stream() == old(self).stream(),
            final(self).dialect() == old(self).dialect(),
            match procedure_from(old(self).stream(), old(self).cursor(), annotations@, start) {
                Ok(v) => r matches Ok(n) && n@ == v,
                Err(e) => r matches Err(x) && x@ == e,
            },
    {
        let name = self.consume_identifier()?;
        let visibility = determine_visibility(name.name.as_str());
        let ghost list_start = self.cursor();
        let parameters = self.parse_parameter_list()?;
        if self.check(TokenType::Is) || self.check(TokenType::As) {
            self.advance();
        }
        let mark = self.index();
        let body = self.parse_body()?;
        self.set_index(mark);
        let directives = self.parse_directives()?;
        let end = self.position_at(self.tokens.len());
        proof {
            let ts = self.stream();
            assert(between(ts, lo, ts.len() as int) == (Span { start, end }));
            assert forall|k: int| 0 <= k < parameters@.len() implies within(
                ts,
                lo,
                (#[trigger] parameters@[k]).span,
            ) by {
                lemma_within_from_earlier(ts, lo, list_start, parameters@[k].span);
            }
        }
        Ok(
            PlSqlNode::Procedure {
                name,
                visibility,
                annotations,
                parameters,
                body,
                directives,
                span: Span { start, end },
            },
        )
    }

    fn parse_function(
        &mut self,
        annotations: Vec<IfsAnnotation>,
        start: Position,
        Ghost(lo): Ghost<int>,
    ) -> (r: Result<PlSqlNode, ParseError>)
        requires
            old(self).wf(),
            0 <= lo <= old(self).cursor(),
            start == position_of(old(self).stream(), lo),
        ensures
            r matches Ok(n) ==> node_within(old(self).stream(), n),
            final(self).wf(),
            final(self).stream() == old(self).stream(),
            final(self).dialect() == old(self).dialect(),
            match function_from(old(self).stream(), old(self).cursor(), annotations@, start) {
                Ok(v) => r matches Ok(n) && n@ == v,
                Err(e) => r matches Err(x) && x@ == e,
            },
    {
        let name = self.consume_identifier()?;
        let visibility = determine_visibility(name.name.as_str());
        let ghost list_start = self.cursor();
        let parameters = self.parse_parameter_list()?;
        self.consume(TokenType::Return)?;
        let return_type = self.parse_type()?;
        if self.check(TokenType::Is) || self.check(TokenType::As) {
            self.advance();
        }
        let mark = self.index();
        let body = self.parse_body()?;
        self.set_index(mark);
        let directives = self.parse_directives()?;
        let end = self.position_at(self.tokens.len());
        proof {
            let ts = self.stream();
            assert(between(ts, lo, ts.len() as int) == (Span { start, end }));
            assert forall|k: int| 0 <= k < parameters@.len() implies within(
                ts,
                lo,
                (#[trigger] parameters@[k]).span,
            ) by {
                lemma_within_from_earlier(ts, lo, list_start, parameters@[k].span);
            }
        }
        Ok(
            PlSqlNode::Function {
                name,
                visibility,
                annotations,
                parameters,
                return_type,
                body,
                directives,
                span: Span { start, end },
            },
        )
    }

    #[verifier::loop_isolation(false)]
    fn parse_parameter_list(&mut self) -> (r: Result<Vec<Parameter>, ParseError>)
        requires
            old(self).wf(),
        ensures
            final(self).wf(),
            final(self).stream() == old(self).stream(),
            final(self).dialect() == old(self).dialect(),
            match parameter_list(old(self).stream(), old(self).cursor()) {
                Parsed::Done(ps, j) => r matches Ok(v) && parameter_views(v@) == ps && final(self).cursor() == j,
                Parsed::Failed(e) => r matches Err(x) && x@ == e,
            },
            r matches Ok(v) ==> parameters_within(old(self).stream(), old(self).cursor(), v@),
            r is Ok ==> final(self).cursor() >= old(self).cursor(),
    {
        if !self.check(TokenType::LeftParen) {
            return Ok(Vec::new());
        }
        self.advance();
        if self.check(TokenType::RightParen) {
            self.advance();
            return Ok(Vec::new());
        }
        let mut out: Vec<Parameter> = Vec::new();
        assert(parameter_views(out@) =~= Seq::<ParameterView>::empty());
        let ghost ts = self.stream();
        let ghost lang = self.dialect();
        let ghost from = self.cursor();
        loop
            invariant
                self.wf(),
                self.stream() == ts,
                self.dialect() == lang,
                parameters_from(ts, from, Seq::empty()) == parameters_from(
                    ts,
                    self.cursor(),
                    parameter_views(out@),
                ),
                old(self).cursor() <= from <= self.cursor(),
                parameters_within(ts, old(self).cursor(), out@),
            decreases remaining(ts, self.cursor()),
        {
            let ghost before = self.cursor();
            let ghost seen = out@;
            let p = self.parse_parameter()?;
            proof {
                let (a, b) = choose|a: int, b: int|
                    before <= a <= b && #[trigger] between(ts, a, b) == p.span;
                assert(old(self).cursor() <= a <= b && between(ts, a, b) == p.span);
            }
            out.push(p);
            assert(parameter_views(out@) =~= parameter_views(seen).push(p@));
            if self.check(TokenType::Comma) {
                self.advance();
            } else {
                break ;
            }
        }
        assert(parameters_within(ts, old(self).cursor(), out@));
        if !self.check(TokenType::RightParen) {
            return Err(self.unexpected_here(TokenType::RightParen.name_str()));
        }
        self.advance();
        Ok(out)
    }

    fn parse_parameter(&mut self) -> (r: Result<Parameter, ParseError>)
        requires
            old(self).wf(),
        ensures
            final(self).wf(),
            final(self).stream() == old(self).stream(),
            final(self).dialect() == old(self).dialect(),
            match parameter_from(old(self).stream(), old(self).cursor()) {
                Parsed::Done(p, j) => r matches Ok(v) && v@ == p && final(self).cursor() == j && j
                    > old(self).cursor(),
                Parsed::Failed(e) => r matches Err(x) && x@ == e,
            },
            r matches Ok(v) ==> within(old(self).stream(), old(self).cursor(), v.span),
    {
        let start = self.current_position();
        let name = self.consume_identifier()?;
        let mode = self.parse_mode();
        let param_type = self.parse_type()?;
        self.skip_until_comma_or_paren();
        let end = self.current_position();
        assert(between(self.stream(), old(self).cursor(), self.cursor()) == (Span { start, end }));
        Ok(Parameter { name, param_type, mode, default_value: None, span: Span { start, end } })
    }

    fn parse_mode(&mut self) -> (r: ParameterMode)
        requires
            old(self).wf(),
        ensures
            final(self).wf(),
            final(self).stream() == old(self).stream(),
            final(self).dialect() == old(self).dialect(),
            (r, final(self).cursor()) == mode_from(old(self).stream(), old(self).cursor()),
            final(self).cursor() >= old(self).cursor(),
    {
        if self.check_word("in") {
            self.advance();
            if self.check_word("out") {
                self.advance();
                ParameterMode::InOut
            } else {
                ParameterMode::In
            }
        } else if self.check_word("out") {
            self.advance();
            ParameterMode::Out
        } else {
            ParameterMode::In
        }
    }

    fn parse_type(&mut self) -> (r: Result<Type, ParseError>)
        requires
            old(self).wf(),
        ensures
            final(self).wf(),
            final(self).stream() == old(self).stream(),
            final(self).dialect() == old(self).dialect(),
            match type_from(old(self).stream(), old(self).cursor()) {
                Parsed::Done(t, j) => r matches Ok(v) && v@ == t && final(self).cursor() == j && j
                    > old(self).cursor(),
                Parsed::Failed(e) => r matches Err(x) && x@ == e,
            },
    {
        if !self.check(TokenType::Identifier) {
            return Err(self.unexpected_here("identifier"));
        }
        let start = self.current_position();
        let name = self.text();
        let single_end = self.position_after();
        self.advance();
        if self.check(TokenType::LeftParen) {
            self.advance();
            let parameters = self.parse_type_args()?;
            let end = self.position_after();
            self.advance();
            let t = Type { name, parameters, span: Span { start, end } };
            assert(t@.parameters =~= string_views(parameters@));
            Ok(t)
        } else {
            let t = Type { name, parameters: Vec::new(), span: Span { start, end: single_end } };
            assert(t@.parameters =~= Seq::<Seq<char>>::empty());
            Ok(t)
        }
    }

    #[verifier::loop_isolation(false)]
    fn parse_type_args(&mut self) -> (r: Result<Vec<String>, ParseError>)
        requires
            old(self).wf(),
        ensures
            final(self).wf(),
            final(self).stream() == old(self).stream(),
            final(self).dialect() == old(self).dialect(),
            match type_args_from(old(self).stream(), old(self).cursor(), Seq::empty()) {
                Parsed::Done(args, close) => r matches Ok(v) && string_views(v@) == args && final(self).cursor() == close && close < old(self).stream().len() && close > old(self).cursor(),
                Parsed::Failed(e) => r matches Err(x) && x@ == e,
            },
    {
        let mut out: Vec<String> = Vec::new();
        let ghost ts = self.stream();
        let ghost lang = self.dialect();
        let ghost from = self.cursor();
        assert(string_views(out@) =~= Seq::<Seq<char>>::empty());
        loop
            invariant
                self.wf(),
                self.stream() == ts,
                self.dialect() == lang,
                from <= self.cursor(),
                type_args_from(ts, from, Seq::empty()) == type_args_from(
                    ts,
                    self.cursor(),
                    string_views(out@),
                ),
            decreases remaining(ts, self.cursor()),
        {
            if !self.check(TokenType::Number) && !self.check(TokenType::Identifier) {
                return Err(self.unexpected_here("type argument"));
            }
            let ghost seen = out@;
            let arg = self.text();
            out.push(arg);
            assert(string_views(out@) =~= string_views(seen).push(arg@));
            self.advance();
            if self.check(TokenType::Comma) {
                self.advance();
            } else if self.check(TokenType::RightParen) {
                return Ok(out);
            } else {
                return Err(self.unexpected_here(TokenType::RightParen.name_str()));
            }
        }
    }

    #[verifier::loop_isolation(false)]
    fn parse_directives(&mut self) -> (r: Result<Vec<OvertakeDirective>, ParseError>)
        requires
            old(self).wf(),
        ensures
            final(self).wf(),
            final(self).stream() == old(self).stream(),
            final(self).dialect() == old(self).dialect(),
            match directives_from(old(self).stream(), old(self).cursor(), Seq::empty()) {
                Parsed::Done(ds, j) => r matches Ok(v) && directive_views(v@) == ds && final(self).cursor() == j,
                Parsed::Failed(e) => r matches Err(x) && x@ == e,
            },
    {
        let mut out: Vec<OvertakeDirective> = Vec::new();
        let ghost ts = self.stream();
        let ghost from = self.cursor();
        let ghost lang = self.dialect();
        let mut k: usize = self.current;
        assert(directive_views(out@) =~= Seq::<DirectiveView>::empty());
        loop
            invariant
                self.wf(),
                self.stream() == ts,
                self.dialect() == lang,
                self.tokens@ == ts,
                k <= self.tokens@.len(),
                directives_from(ts, from, Seq::empty()) == directives_from(
                    ts,
                    k as int,
                    directive_views(out@),
                ),
            decreases remaining(ts, k as int),
        {
            if k >= self.tokens.len() || self.tokens[k].token_type == TokenType::Eof {
                self.current = k;
                return Ok(out);
            }
            if is_closing_directive(&self.tokens[k]) {
                return Err(
                    ParseError::InvalidSyntax {
                        message: "Closing directive outside a directive block".to_owned(),
                    },
                );
            }
            match opened_directive(&self.tokens[k]) {
                None => {
                    k = k + 1;
                },
                Some(kind) => {
                    let mut e: usize = k + 1;
                    let mut payload = String::new();
                    while e < self.tokens.len() && opened_directive(&self.tokens[e]).is_none()
                        && !is_closing_directive(&self.tokens[e]) && self.tokens[e].token_type
                        != TokenType::Eof
                        invariant
                            self.tokens@ == ts,
                            k + 1 <= e <= self.tokens@.len(),
                            region_end(ts, k + 1) == region_end(ts, e as int),
                            payload@ == joined_values(ts, k + 1, e as int),
                        decreases self.tokens@.len() - e,
                    {
                        payload.append(self.tokens[e].value.as_str());
                        e = e + 1;
                    }
                    if e >= self.tokens.len() || self.tokens[e].token_type == TokenType::Eof {
                        return Err(ParseError::UnexpectedEof);
                    }
                    let span = Span { start: self.position_at(k), end: self.position_at(e) };
                    let ghost seen = out@;
                    let d = make_directive(kind, payload, span);
                    out.push(d);
                    assert(directive_views(out@) =~= directive_views(seen).push(d@));
                    if is_closing_directive(&self.tokens[e]) {
                        k = e + 1;
                    } else {
                        k = e;
                    }
                },
            }
        }
    }

    /// Moves to the next significant token.
    pub(crate) fn advance(&mut self)
        requires
            old(self).wf(),
            old(self).cursor() < old(self).stream().len(),
        ensures
            final(self).wf(),
            final(self).stream() == old(self).stream(),
            final(self).dialect() == old(self).dialect(),
            final(self).cursor() == step(old(self).stream(), old(self).cursor()),
            final(self).cursor() > old(self).cursor(),
    {
        if self.current < self.tokens.len() {
            self.current = self.current + 1;
        }
        self.skip_whitespace();
    }

    /// Whether the parser looks at the end of input.
    pub(crate) fn is_at_end(&self) -> (b: bool)
        requires
            self.wf(),
        ensures
            b == (kind_at(self.stream(), self.cursor()) == TokenType::Eof),
    {
        self.kind() == TokenType::Eof
    }

    /// The kind of the token the parser looks at.
    pub(crate) fn kind(&self) -> (k: TokenType)
        requires
            self.wf(),
        ensures
            k == kind_at(self.stream(), self.cursor()),
            k != TokenType::Eof ==> self.cursor() < self.stream().len(),
    {
        if self.current < self.tokens.len() {
            self.tokens[self.current].token_type
        } else {
            TokenType::Eof
        }
    }

    /// The text of the token the parser looks at.
    pub(crate) fn text(&self) -> (s: String)
        requires
            self.wf(),
        ensures
            s@ == text_at(self.stream(), self.cursor()),
    {
        if self.current < self.tokens.len() {
            self.tokens[self.current].value.clone()
        } else {
            String::new()
        }
    }

    /// Whether the parser looks at a token of kind `token_type`.
    pub(crate) fn check(&self, token_type: TokenType) -> (b: bool)
        requires
            self.wf(),
        ensures
            b == (kind_at(self.stream(), self.cursor()) == token_type),
            b && token_type != TokenType::Eof ==> self.cursor() < self.stream().len(),
    {
        self.kind() == token_type
    }

    /// Whether the parser looks at the word `w`, written in any case.
    pub(crate) fn check_word(&self, w: &str) -> (b: bool)
        requires
            self.wf(),
        ensures
            b == word_at(self.stream(), self.cursor(), w@),
            b ==> self.cursor() < self.stream().len(),
    {
        if self.check(TokenType::Identifier) {
            let v = lower_chars(self.tokens[self.current].value.as_str());
            chars_eq_str(&v, w)
        } else {
            false
        }
    }

    /// Steps over a token of kind `token_type` where the parser looks at
    /// one, and says whether it did.
    pub(crate) fn match_token(&mut self, token_type: TokenType) -> (b: bool)
        requires
            old(self).wf(),
            token_type != TokenType::Eof,
        ensures
            final(self).wf(),
            final(self).stream() == old(self).stream(),
            final(self).dialect() == old(self).dialect(),
            b == (kind_at(old(self).stream(), old(self).cursor()) == token_type),
            final(self).cursor() == if b {
                step(old(self).stream(), old(self).cursor())
            } else {
                old(self).cursor()
            },
    {
        if self.check(token_type) {
            self.advance();
            true
        } else {
            false
        }
    }

    /// The error for the token the parser looks at.
    pub(crate) fn unexpected_here(&self, expected: &str) -> (e: ParseError)
        requires
            self.wf(),
        ensures
            e@ == unexpected(expected@, self.stream(), self.cursor()),
    {
        ParseError::UnexpectedToken {
            expected: expected.to_owned(),
            found: self.kind().name_str().to_owned(),
        }
    }

    /// Steps over a token of kind `token_type`, or fails.
    pub(crate) fn consume(&mut self, token_type: TokenType) -> (r: Result<(), ParseError>)
        requires
            old(self).wf(),
            token_type != TokenType::Eof,
        ensures
            final(self).wf(),
            final(self).stream() == old(self).stream(),
            final(self).dialect() == old(self).dialect(),
            kind_at(old(self).stream(), old(self).cursor()) == token_type ==> r is Ok && final(self).cursor() == step(old(self).stream(), old(self).cursor()),
            kind_at(old(self).stream(), old(self).cursor()) != token_type ==> (r matches Err(e)
                && e@ == unexpected(token_type.name(), old(self).stream(), old(self).cursor())),
    {
        if self.check(token_type) {
            self.advance();
            Ok(())
        } else {
            Err(self.unexpected_here(token_type.name_str()))
        }
    }

    /// Steps over an identifier and yields it, or fails.
    pub(crate) fn consume_identifier(&mut self) -> (r: Result<Identifier, ParseError>)
        requires
            old(self).wf(),
        ensures
            final(self).wf(),
            final(self).stream() == old(self).stream(),
            final(self).dialect() == old(self).dialect(),
            kind_at(old(self).stream(), old(self).cursor()) == TokenType::Identifier ==> (
            r matches Ok(id) && id@ == (IdentifierView {
                name: text_at(old(self).stream(), old(self).cursor()),
                span: token_span(old(self).stream(), old(self).cursor()),
            }) && final(self).cursor() == step(old(self).stream(), old(self).cursor())),
            kind_at(old(self).stream(), old(self).cursor()) != TokenType::Identifier ==> (
            r matches Err(e) && e@ == unexpected(
                "identifier"@,
                old(self).stream(),
                old(self).cursor(),
            )),
    {
        if self.check(TokenType::Identifier) {
            let name = self.text();
            let span = Span {
                start: self.current_position(),
                end: self.position_after(),
            };
            self.advance();
            Ok(Identifier { name, span })
        } else {
            Err(self.unexpected_here("identifier"))
        }
    }

    /// Moves the cursor to the first significant token at or after it.
    fn skip_whitespace(&mut self)
        requires
            old(self).current <= old(self).tokens@.len(),
        ensures
            final(self).wf(),
            final(self).stream() == old(self).stream(),
            final(self).dialect() == old(self).dialect(),
            final(self).cursor() == skip_trivia(old(self).stream(), old(self).cursor()),
            final(self).cursor() >= old(self).cursor(),
    {
        let ghost ts = self.stream();
        let ghost from = self.cursor();
        let ghost lang = self.dialect();
        while self.current < self.tokens.len() && self.tokens[self.current].token_type.is_trivia()
            invariant
                self.current <= self.tokens@.len(),
                self.stream() == ts,
                self.dialect() == lang,
                from <= self.cursor(),
                skip_trivia(ts, from) == skip_trivia(ts, self.cursor()),
            decreases self.tokens@.len() - self.current,
        {
            self.current = self.current + 1;
        }
    }

    /// Steps over everything up to and including the next semicolon.
    pub(crate) fn skip_until_semicolon(&mut self)
        requires
            old(self).wf(),
        ensures
            final(self).wf(),
            final(self).stream() == old(self).stream(),
            final(self).dialect() == old(self).dialect(),
            final(self).cursor() == after_semicolon(old(self).stream(), old(self).cursor()),
            final(self).cursor() >= old(self).cursor(),
            kind_at(old(self).stream(), old(self).cursor()) != TokenType::Eof ==> final(self).cursor() > old(self).cursor(),
    {
        let ghost ts = self.stream();
        let ghost from = self.cursor();
        let ghost lang = self.dialect();
        while !self.check(TokenType::Semicolon) && !self.is_at_end()
            invariant
                self.wf(),
                self.stream() == ts,
                self.dialect() == lang,
                from <= self.cursor(),
                after_semicolon(ts, from) == after_semicolon(ts, self.cursor()),
                kind_at(ts, from) != TokenType::Eof && kind_at(ts, from) != TokenType::Semicolon
                    && self.cursor() == from || self.cursor() > from || kind_at(ts, from)
                    == TokenType::Eof || kind_at(ts, from) == TokenType::Semicolon,
            decreases remaining(ts, self.cursor()),
        {
            self.advance();
        }
        if self.check(TokenType::Semicolon) {
            self.advance();
        }
    }

    /// Steps over everything up to the next comma or closing parenthesis.
    pub(crate) fn skip_until_comma_or_paren(&mut self)
        requires
            old(self).wf(),
        ensures
            final(self).wf(),
            final(self).stream() == old(self).stream(),
            final(self).dialect() == old(self).dialect(),
            final(self).cursor() == default_end(old(self).stream(), old(self).cursor()),
            final(self).cursor() >= old(self).cursor(),
    {
        let ghost ts = self.stream();
        let ghost from = self.cursor();
        let ghost lang = self.dialect();
        while !self.check(TokenType::Comma) && !self.check(TokenType::RightParen)
            && !self.is_at_end()
            invariant
                self.wf(),
                self.stream() == ts,
                self.dialect() == lang,
                from <= self.cursor(),
                default_end(ts, from) == default_end(ts, self.cursor()),
            decreases remaining(ts, self.cursor()),
        {
            self.advance();
        }
    }

    /// The number of tokens.
    pub(crate) fn token_count(&self) -> (n: usize)
        ensures
            n == self.stream().len(),
    {
        self.tokens.len()
    }

    /// The index of the token the parser looks at.
    pub(crate) fn index(&self) -> (k: usize)
        requires
            self.wf(),
        ensures
            k == self.cursor(),
            k <= self.stream().len(),
    {
        self.current
    }

    /// Makes the parser look at the token at index `k`.
    pub(crate) fn set_index(&mut self, k: usize)
        requires
            k <= old(self).stream().len(),
        ensures
            final(self).wf(),
            final(self).stream() == old(self).stream(),
            final(self).dialect() == old(self).dialect(),
            final(self).cursor() == k,
    {
        self.current = k;
    }

    /// The kind of the significant token after the one the parser looks at.
    pub(crate) fn peek_after(&self) -> (k: TokenType)
        requires
            self.wf(),
            self.cursor() < self.stream().len(),
        ensures
            k == kind_at(self.stream(), step(self.stream(), self.cursor())),
    {
        let n = self.tokens.len();
        let mut j: usize = self.current + 1;
        while j < self.tokens.len() && self.tokens[j].token_type.is_trivia()
            invariant
                self.current < j <= self.tokens@.len(),
                skip_trivia(self.tokens@, self.current + 1) == skip_trivia(self.tokens@, j as int),
            decreases self.tokens@.len() - j,
        {
            j = j + 1;
        }
        if j < self.tokens.len() {
            self.tokens[j].token_type
        } else {
            TokenType::Eof
        }
    }

    /// Whether the parser looks at a directive or at the closing directive.
    pub(crate) fn at_directive(&self) -> (b: bool)
        requires
            self.wf(),
        ensures
            b == (self.cursor() < self.stream().len() && (directive_opened_by(
                self.stream()[self.cursor()],
            ) is Some || closes_directive(self.stream()[self.cursor()]))),
    {
        if self.current < self.tokens.len() {
            opened_directive(&self.tokens[self.current]).is_some() || is_closing_directive(
                &self.tokens[self.current],
            )
        } else {
            false
        }
    }

    /// Where the token at index `k` starts.
    pub(crate) fn position_at(&self, k: usize) -> (p: Position)
        ensures
            p == position_of(self.stream(), k as int),
    {
        if k < self.tokens.len() {
            to_position(self.tokens[k].position)
        } else if self.tokens.len() > 0 {
            to_position(self.tokens[self.tokens.len() - 1].position)
        } else {
            Position { line: 1, column: 1, offset: 0 }
        }
    }

    /// Where the token after the one the parser looks at starts.
    pub(crate) fn position_after(&self) -> (p: Position)
        requires
            self.wf(),
        ensures
            p == position_of(self.stream(), self.cursor() + 1),
    {
        if self.current < self.tokens.len() {
            self.position_at(self.current + 1)
        } else {
            self.position_at(self.current)
        }
    }

    /// Where the token the parser looks at starts.
    pub(crate) fn current_position(&self) -> (p: Position)
        ensures
            p == position_of(self.stream(), self.cursor()),
    {
        self.position_at(self.current)
    }
}

/// Lexes and parses `input` in the dialect `language`.
///
/// The text must be short enough for every byte offset in it to fit the
/// machine's word.
pub fn parse_source(input: &str, language: Language) -> (r: Result<AstNode, ParseError>)
    requires
        4 * input@.len() < usize::MAX,
    ensures
        parses_to_from_source(input@, language, r),
        r matches Ok(ast) ==> well_placed(ast),
{
    let mut lexer = Lexer::new(input.to_owned(), language);
    let tokens = lexer.tokenize();
    proof {
        crate::parser::lexer::lemma_stream_rises(input@, 0);
        assert forall|a: int, b: int| 0 <= a <= b < tokens@.len() implies #[trigger] starts_in_order(
            tokens@,
            a,
            b,
        ) by {
            assert(views(tokens@)[a].position == tokens@[a].position);
            assert(views(tokens@)[b].position == tokens@[b].position);
        }
    }
    let mut parser = Parser::new(tokens, language);
    let r = parser.parse();
    r
}

/// `r` is what lexing `source` and parsing its token stream in dialect
/// `language` gives: there is a token vector whose views are the token
/// stream of `source`, and `r` is its parse from the first significant
/// token on.
pub open spec fn parses_to_from_source(
    source: Seq<char>,
    language: Language,
    r: Result<AstNode, ParseError>,
) -> bool {
    exists|ts: Seq<Token>| #[trigger]
        views(ts) == crate::parser::lexer::token_stream(source) && parses_to(
            ts,
            skip_trivia(ts, 0),
            language,
            r,
        )
}

impl Identifier {
    /// A copy of the identifier.
    pub fn duplicate(&self) -> (r: Identifier)
        ensures
            r@ == self@,
    {
        Identifier { name: self.name.clone(), span: self.span }
    }
}

impl Type {
    /// A copy of the type.
    pub fn duplicate(&self) -> (r: Type)
        ensures
            r@ == self@,
    {
        let mut parameters: Vec<String> = Vec::new();
        let mut i: usize = 0;
        assert(string_views(parameters@) =~= string_views(self.parameters@.take(0)));
        while i < self.parameters.len()
            invariant
                i <= self.parameters.len(),
                string_views(parameters@) == string_views(self.parameters@.take(i as int)),
            decreases self.parameters.len() - i,
        {
            let ghost before = parameters@;
            let p = self.parameters[i].clone();
            parameters.push(p);
            assert(string_views(parameters@) =~= string_views(before).push(p@));
            assert(string_views(self.parameters@.take(i + 1)) =~= string_views(
                self.parameters@.take(i as int),
            ).push(self.parameters@[i as int]@));
            i += 1;
        }
        assert(self.parameters@.take(self.parameters@.len() as int) =~= self.parameters@);
        let r = Type { name: self.name.clone(), parameters, span: self.span };
        assert(r@.parameters =~= self@.parameters);
        r
    }
}

impl Parameter {
    /// A copy of the parameter.
    pub fn duplicate(&self) -> (r: Parameter)
        ensures
            r@ == self@,
    {
        Parameter {
            name: self.name.duplicate(),
            param_type: self.param_type.duplicate(),
            mode: self.mode,
            default_value: match &self.default_value {
                Some(e) => Some(e.duplicate()),
                None => None,
            },
            span: self.span,
        }
    }
}

impl OvertakeDirective {
    /// A copy of the directive.
    pub fn duplicate(&self) -> (r: OvertakeDirective)
        ensures
            r@ == self@,
    {
        match self {
            OvertakeDirective::Search { code, span } => OvertakeDirective::Search {
                code: code.clone(),
                span: *span,
            },
            OvertakeDirective::Replace { code, span } => OvertakeDirective::Replace {
                code: code.clone(),
                span: *span,
            },
            OvertakeDirective::Append { code, span } => OvertakeDirective::Append {
                code: code.clone(),
                span: *span,
            },
            OvertakeDirective::Prepend { code, span } => OvertakeDirective::Prepend {
                code: code.clone(),
                span: *span,
            },
            OvertakeDirective::TextSearch { text, span } => OvertakeDirective::TextSearch {
                text: text.clone(),
                span: *span,
            },
            OvertakeDirective::TextReplace { text, span } => OvertakeDirective::TextReplace {
                text: text.clone(),
                span: *span,
            },
            OvertakeDirective::TextAppend { text, span } => OvertakeDirective::TextAppend {
                text: text.clone(),
                span: *span,
            },
            OvertakeDirective::TextPrepend { text, span } => OvertakeDirective::TextPrepend {
                text: text.clone(),
                span: *span,
            },
        }
    }
}

fn copy_annotations(v: &Vec<IfsAnnotation>) -> (r: Vec<IfsAnnotation>)
    ensures
        r@ == v@,
{
    let mut out: Vec<IfsAnnotation> = Vec::new();
    let mut i: usize = 0;
    while i < v.len()
        invariant
            i <= v.len(),
            out@ == v@.take(i as int),
        decreases v.len() - i,
    {
        out.push(v[i]);
        assert(out@ =~= v@.take(i + 1));
        i += 1;
    }
    assert(v@.take(v@.len() as int) =~= v@);
    out
}

fn copy_parameters(v: &Vec<Parameter>) -> (r: Vec<Parameter>)
    ensures
        parameter_views(r@) == parameter_views(v@),
{
    let mut out: Vec<Parameter> = Vec::new();
    let mut i: usize = 0;
    assert(parameter_views(out@) =~= parameter_views(v@.take(0)));
    while i < v.len()
        invariant
            i <= v.len(),
            parameter_views(out@) == parameter_views(v@.take(i as int)),
        decreases v.len() - i,
    {
        let ghost before = out@;
        let p = v[i].duplicate();
        out.push(p);
        assert(parameter_views(out@) =~= parameter_views(before).push(p@));
        assert(parameter_views(v@.take(i + 1)) =~= parameter_views(v@.take(i as int)).push(
            v@[i as int]@,
        ));
        i += 1;
    }
    assert(v@.take(v@.len() as int) =~= v@);
    out
}

fn copy_directives(v: &Vec<OvertakeDirective>) -> (r: Vec<OvertakeDirective>)
    ensures
        directive_views(r@) == directive_views(v@),
{
    let mut out: Vec<OvertakeDirective> = Vec::new();
    let mut i: usize = 0;
    assert(directive_views(out@) =~= directive_views(v@.take(0)));
    while i < v.len()
        invariant
            i <= v.len(),
            directive_views(out@) == directive_views(v@.take(i as int)),
        decreases v.len() - i,
    {
        let ghost before = out@;
        let d = v[i].duplicate();
        out.push(d);
        assert(directive_views(out@) =~= directive_views(before).push(d@));
        assert(directive_views(v@.take(i + 1)) =~= directive_views(v@.take(i as int)).push(
            v@[i as int]@,
        ));
        i += 1;
    }
    assert(v@.take(v@.len() as int) =~= v@);
    out
}

impl PlSqlNode {
    /// A copy of the construct that reads as the construct does.
    pub fn duplicate(&self) -> (r: PlSqlNode)
        ensures
            r@ == self@,
    {
        match self {
            PlSqlNode::Package { name, component, annotations, declarations, body, span } => {
                PlSqlNode::Package {
                    name: name.duplicate(),
                    component: match component {
                        Some(c) => Some(c.clone()),
                        None => None,
                    },
                    annotations: copy_annotations(annotations),
                    declarations: declarations.clone(),
                    body: match body {
                        Some(stmts) => Some(crate::parser::ast::PlSqlStatement::duplicate_all(stmts)),
                        None => None,
                    },
                    span: *span,
                }
            },
            PlSqlNode::Procedure {
                name,
                visibility,
                annotations,
                parameters,
                body,
                directives,
                span,
            } => PlSqlNode::Procedure {
                name: name.duplicate(),
                visibility: *visibility,
                annotations: copy_annotations(annotations),
                parameters: copy_parameters(parameters),
                body: crate::parser::ast::PlSqlStatement::duplicate_all(body),
                directives: copy_directives(directives),
                span: *span,
            },
            PlSqlNode::Function {
                name,
                visibility,
                annotations,
                parameters,
                return_type,
                body,
                directives,
                span,
            } => PlSqlNode::Function {
                name: name.duplicate(),
                visibility: *visibility,
                annotations: copy_annotations(annotations),
                parameters: copy_parameters(parameters),
                return_type: return_type.duplicate(),
                body: crate::parser::ast::PlSqlStatement::duplicate_all(body),
                directives: copy_directives(directives),
                span: *span,
            },
        }
    }
}

} // verus!
