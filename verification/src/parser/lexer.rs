//! The lexer: source text to a flat stream of tokens.
//!
//! Lexing never fails. Input that no rule accepts becomes a token of kind
//! `Error`, and the stream always ends with one `Eof` token. Whitespace,
//! newlines and comments are tokens too, so the stream tiles the source: each
//! token starts where the one before it stopped.
//!
//! What the lexer produces is fixed by the specification functions of this
//! module (`token_end`, `token_kind`, `token_text`, `tokens_from`), which read
//! the source as a sequence of characters.

use crate::parser::Language;
use crate::text::{chars_eq_str, lower, to_lower_char};
use vstd::prelude::*;
use vstd::string::StrSliceExecFns;

verus! {

/// Where a token starts: one-based line and column, and the byte offset.
#[derive(Debug, Clone, Copy, PartialEq, Eq, Structural)]
pub struct TokenPosition {
    pub line: usize,
    pub column: usize,
    pub offset: usize,
}

/// A token: its kind, its text, and where it starts.
#[derive(Debug, Clone, PartialEq)]
pub struct Token {
    pub token_type: TokenType,
    pub value: String,
    pub position: TokenPosition,
}

/// A token with its text read as a sequence of characters.
pub struct TokenView {
    pub kind: TokenType,
    pub text: Seq<char>,
    pub position: TokenPosition,
}

impl View for Token {
    type V = TokenView;

    open spec fn view(&self) -> TokenView {
        TokenView { kind: self.token_type, text: self.value@, position: self.position }
    }
}

/// The kind of a token. One set of kinds serves every dialect.
#[derive(Debug, Clone, Copy, PartialEq, Eq, Hash, Structural)]
pub enum TokenType {
    // Common tokens
    Identifier,
    Number,
    String,
    Comment,
    Whitespace,
    Newline,
    Eof,
    // Operators
    Plus,
    Minus,
    Multiply,
    Divide,
    Equal,
    NotEqual,
    LessThan,
    LessThanOrEqual,
    GreaterThan,
    GreaterThanOrEqual,
    Assignment,
    // Delimiters
    LeftParen,
    RightParen,
    LeftBrace,
    RightBrace,
    LeftBracket,
    RightBracket,
    Semicolon,
    Comma,
    Dot,
    Colon,
    // Procedural keywords
    Package,
    Body,
    Is,
    Procedure,
    Function,
    Begin,
    End,
    If,
    Then,
    Else,
    ElseIf,
    Loop,
    While,
    For,
    Return,
    Declare,
    Variable,
    Constant,
    Exception,
    Cursor,
    Type,
    Record,
    // Query keywords
    Select,
    From,
    Where,
    GroupBy,
    Having,
    OrderBy,
    Union,
    Join,
    Inner,
    Left,
    Right,
    Full,
    On,
    As,
    Distinct,
    // Markup tokens
    XmlOpen,
    XmlClose,
    XmlSelfClose,
    XmlText,
    XmlAttribute,
    // Platform keywords
    Override,
    Overtake,
    UncheckedAccess,
    Super,
    Layer,
    Component,
    EntityName,
    EnumerationName,
    Attributes,
    Values,
    References,
    Keys,
    CodeGenProperties,
    // Entity visibility and flags
    Key,
    Public,
    Private,
    ClientValue,
    LabelText,
    // View keywords
    Column,
    View,
    Flags,
    Datatype,
    Prompt,
    Ref,
    // Storage keywords
    Index,
    Unique,
    Sequence,
    Table,
    Primary,
    Constraint,
    // Layering directives
    Search,
    Replace,
    Append,
    Prepend,
    TextSearch,
    TextReplace,
    TextAppend,
    TextPrepend,
    // Unrecognized input
    Error,
}

impl TokenType {
    /// The name of the kind, as written in this enumeration.
    pub open spec fn name(self) -> Seq<char> {
        match self {
            TokenType::Identifier => "Identifier"@,
            TokenType::Number => "Number"@,
            TokenType::String => "String"@,
            TokenType::Comment => "Comment"@,
            TokenType::Whitespace => "Whitespace"@,
            TokenType::Newline => "Newline"@,
            TokenType::Eof => "Eof"@,
            TokenType::Plus => "Plus"@,
            TokenType::Minus => "Minus"@,
            TokenType::Multiply => "Multiply"@,
            TokenType::Divide => "Divide"@,
            TokenType::Equal => "Equal"@,
            TokenType::NotEqual => "NotEqual"@,
            TokenType::LessThan => "LessThan"@,
            TokenType::LessThanOrEqual => "LessThanOrEqual"@,
            TokenType::GreaterThan => "GreaterThan"@,
            TokenType::GreaterThanOrEqual => "GreaterThanOrEqual"@,
            TokenType::Assignment => "Assignment"@,
            TokenType::LeftParen => "LeftParen"@,
            TokenType::RightParen => "RightParen"@,
            TokenType::LeftBrace => "LeftBrace"@,
            TokenType::RightBrace => "RightBrace"@,
            TokenType::LeftBracket => "LeftBracket"@,
            TokenType::RightBracket => "RightBracket"@,
            TokenType::Semicolon => "Semicolon"@,
            TokenType::Comma => "Comma"@,
            TokenType::Dot => "Dot"@,
            TokenType::Colon => "Colon"@,
            TokenType::Package => "Package"@,
            TokenType::Body => "Body"@,
            TokenType::Is => "Is"@,
            TokenType::Procedure => "Procedure"@,
            TokenType::Function => "Function"@,
            TokenType::Begin => "Begin"@,
            TokenType::End => "End"@,
            TokenType::If => "If"@,
            TokenType::Then => "Then"@,
            TokenType::Else => "Else"@,
            TokenType::ElseIf => "ElseIf"@,
            TokenType::Loop => "Loop"@,
            TokenType::While => "While"@,
            TokenType::For => "For"@,
            TokenType::Return => "Return"@,
            TokenType::Declare => "Declare"@,
            TokenType::Variable => "Variable"@,
            TokenType::Constant => "Constant"@,
            TokenType::Exception => "Exception"@,
            TokenType::Cursor => "Cursor"@,
            TokenType::Type => "Type"@,
            TokenType::Record => "Record"@,
            TokenType::Select => "Select"@,
            TokenType::From => "From"@,
            TokenType::Where => "Where"@,
            TokenType::GroupBy => "GroupBy"@,
            TokenType::Having => "Having"@,
            TokenType::OrderBy => "OrderBy"@,
            TokenType::Union => "Union"@,
            TokenType::Join => "Join"@,
            TokenType::Inner => "Inner"@,
            TokenType::Left => "Left"@,
            TokenType::Right => "Right"@,
            TokenType::Full => "Full"@,
            TokenType::On => "On"@,
            TokenType::As => "As"@,
            TokenType::Distinct => "Distinct"@,
            TokenType::XmlOpen => "XmlOpen"@,
            TokenType::XmlClose => "XmlClose"@,
            TokenType::XmlSelfClose => "XmlSelfClose"@,
            TokenType::XmlText => "XmlText"@,
            TokenType::XmlAttribute => "XmlAttribute"@,
            TokenType::Override => "Override"@,
            TokenType::Overtake => "Overtake"@,
            TokenType::UncheckedAccess => "UncheckedAccess"@,
            TokenType::Super => "Super"@,
            TokenType::Layer => "Layer"@,
            TokenType::Component => "Component"@,
            TokenType::EntityName => "EntityName"@,
            TokenType::EnumerationName => "EnumerationName"@,
            TokenType::Attributes => "Attributes"@,
            TokenType::Values => "Values"@,
            TokenType::References => "References"@,
            TokenType::Keys => "Keys"@,
            TokenType::CodeGenProperties => "CodeGenProperties"@,
            TokenType::Key => "Key"@,
            TokenType::Public => "Public"@,
            TokenType::Private => "Private"@,
            TokenType::ClientValue => "ClientValue"@,
            TokenType::LabelText => "LabelText"@,
            TokenType::Column => "Column"@,
            TokenType::View => "View"@,
            TokenType::Flags => "Flags"@,
            TokenType::Datatype => "Datatype"@,
            TokenType::Prompt => "Prompt"@,
            TokenType::Ref => "Ref"@,
            TokenType::Index => "Index"@,
            TokenType::Unique => "Unique"@,
            TokenType::Sequence => "Sequence"@,
            TokenType::Table => "Table"@,
            TokenType::Primary => "Primary"@,
            TokenType::Constraint => "Constraint"@,
            TokenType::Search => "Search"@,
            TokenType::Replace => "Replace"@,
            TokenType::Append => "Append"@,
            TokenType::Prepend => "Prepend"@,
            TokenType::TextSearch => "TextSearch"@,
            TokenType::TextReplace => "TextReplace"@,
            TokenType::TextAppend => "TextAppend"@,
            TokenType::TextPrepend => "TextPrepend"@,
            TokenType::Error => "Error"@,
        }
    }

    /// Executable form of `name`.
    pub fn name_str(&self) -> (r: &'static str)
        ensures
            r@ == self.name(),
    {
        match self {
            TokenType::Identifier => "Identifier",
            TokenType::Number => "Number",
            TokenType::String => "String",
            TokenType::Comment => "Comment",
            TokenType::Whitespace => "Whitespace",
            TokenType::Newline => "Newline",
            TokenType::Eof => "Eof",
            TokenType::Plus => "Plus",
            TokenType::Minus => "Minus",
            TokenType::Multiply => "Multiply",
            TokenType::Divide => "Divide",
            TokenType::Equal => "Equal",
            TokenType::NotEqual => "NotEqual",
            TokenType::LessThan => "LessThan",
            TokenType::LessThanOrEqual => "LessThanOrEqual",
            TokenType::GreaterThan => "GreaterThan",
            TokenType::GreaterThanOrEqual => "GreaterThanOrEqual",
            TokenType::Assignment => "Assignment",
            TokenType::LeftParen => "LeftParen",
            TokenType::RightParen => "RightParen",
            TokenType::LeftBrace => "LeftBrace",
            TokenType::RightBrace => "RightBrace",
            TokenType::LeftBracket => "LeftBracket",
            TokenType::RightBracket => "RightBracket",
            TokenType::Semicolon => "Semicolon",
            TokenType::Comma => "Comma",
            TokenType::Dot => "Dot",
            TokenType::Colon => "Colon",
            TokenType::Package => "Package",
            TokenType::Body => "Body",
            TokenType::Is => "Is",
            TokenType::Procedure => "Procedure",
            TokenType::Function => "Function",
            TokenType::Begin => "Begin",
            TokenType::End => "End",
            TokenType::If => "If",
            TokenType::Then => "Then",
            TokenType::Else => "Else",
            TokenType::ElseIf => "ElseIf",
            TokenType::Loop => "Loop",
            TokenType::While => "While",
            TokenType::For => "For",
            TokenType::Return => "Return",
            TokenType::Declare => "Declare",
            TokenType::Variable => "Variable",
            TokenType::Constant => "Constant",
            TokenType::Exception => "Exception",
            TokenType::Cursor => "Cursor",
            TokenType::Type => "Type",
            TokenType::Record => "Record",
            TokenType::Select => "Select",
            TokenType::From => "From",
            TokenType::Where => "Where",
            TokenType::GroupBy => "GroupBy",
            TokenType::Having => "Having",
            TokenType::OrderBy => "OrderBy",
            TokenType::Union => "Union",
            TokenType::Join => "Join",
            TokenType::Inner => "Inner",
            TokenType::Left => "Left",
            TokenType::Right => "Right",
            TokenType::Full => "Full",
            TokenType::On => "On",
            TokenType::As => "As",
            TokenType::Distinct => "Distinct",
            TokenType::XmlOpen => "XmlOpen",
            TokenType::XmlClose => "XmlClose",
            TokenType::XmlSelfClose => "XmlSelfClose",
            TokenType::XmlText => "XmlText",
            TokenType::XmlAttribute => "XmlAttribute",
            TokenType::Override => "Override",
            TokenType::Overtake => "Overtake",
            TokenType::UncheckedAccess => "UncheckedAccess",
            TokenType::Super => "Super",
            TokenType::Layer => "Layer",
            TokenType::Component => "Component",
            TokenType::EntityName => "EntityName",
            TokenType::EnumerationName => "EnumerationName",
            TokenType::Attributes => "Attributes",
            TokenType::Values => "Values",
            TokenType::References => "References",
            TokenType::Keys => "Keys",
            TokenType::CodeGenProperties => "CodeGenProperties",
            TokenType::Key => "Key",
            TokenType::Public => "Public",
            TokenType::Private => "Private",
            TokenType::ClientValue => "ClientValue",
            TokenType::LabelText => "LabelText",
            TokenType::Column => "Column",
            TokenType::View => "View",
            TokenType::Flags => "Flags",
            TokenType::Datatype => "Datatype",
            TokenType::Prompt => "Prompt",
            TokenType::Ref => "Ref",
            TokenType::Index => "Index",
            TokenType::Unique => "Unique",
            TokenType::Sequence => "Sequence",
            TokenType::Table => "Table",
            TokenType::Primary => "Primary",
            TokenType::Constraint => "Constraint",
            TokenType::Search => "Search",
            TokenType::Replace => "Replace",
            TokenType::Append => "Append",
            TokenType::Prepend => "Prepend",
            TokenType::TextSearch => "TextSearch",
            TokenType::TextReplace => "TextReplace",
            TokenType::TextAppend => "TextAppend",
            TokenType::TextPrepend => "TextPrepend",
            TokenType::Error => "Error",
        }
    }

    /// Whitespace, newlines and comments: what a parser steps over.
    pub open spec fn trivia(self) -> bool {
        self == TokenType::Whitespace || self == TokenType::Newline || self == TokenType::Comment
    }

    /// Executable form of `trivia`.
    pub fn is_trivia(&self) -> (b: bool)
        ensures
            b == self.trivia(),
    {
        match self {
            TokenType::Whitespace | TokenType::Newline | TokenType::Comment => true,
            _ => false,
        }
    }

    /// How the kind reads in a message: a plain word for the common kinds,
    /// the kind's name for the others.
    pub open spec fn description(self) -> Seq<char> {
        match self {
            TokenType::Identifier => "identifier"@,
            TokenType::Number => "number"@,
            TokenType::String => "string"@,
            TokenType::Comment => "comment"@,
            TokenType::Whitespace => "whitespace"@,
            TokenType::Newline => "newline"@,
            TokenType::Eof => "end of file"@,
            _ => self.name(),
        }
    }

    /// The kind as it reads in a message.
    pub fn to_string(&self) -> (r: String)
        ensures
            r@ == self.description(),
    {
        match self {
            TokenType::Identifier => "identifier".to_owned(),
            TokenType::Number => "number".to_owned(),
            TokenType::String => "string".to_owned(),
            TokenType::Comment => "comment".to_owned(),
            TokenType::Whitespace => "whitespace".to_owned(),
            TokenType::Newline => "newline".to_owned(),
            TokenType::Eof => "end of file".to_owned(),
            _ => self.name_str().to_owned(),
        }
    }
}

/// A set of characters that a scanning rule runs over.
#[derive(Debug, Clone, Copy, PartialEq, Eq, Structural)]
pub enum CharClass {
    /// Space, tab, carriage return and form feed.
    InlineSpace,
    /// `0` to `9`.
    Digit,
    /// ASCII letters and digits.
    Alnum,
    /// ASCII letters, digits and the underscore.
    Word,
    /// Everything but a newline.
    LineRest,
    /// Everything but a single quote.
    StringBody,
}

pub open spec fn is_digit(c: char) -> bool {
    '0' <= c && c <= '9'
}

pub open spec fn is_alpha(c: char) -> bool {
    ('a' <= c && c <= 'z') || ('A' <= c && c <= 'Z')
}

pub open spec fn is_alnum(c: char) -> bool {
    is_digit(c) || is_alpha(c)
}

fn digit(c: char) -> (b: bool)
    ensures
        b == is_digit(c),
{
    '0' <= c && c <= '9'
}

fn alpha(c: char) -> (b: bool)
    ensures
        b == is_alpha(c),
{
    ('a' <= c && c <= 'z') || ('A' <= c && c <= 'Z')
}

impl CharClass {
    /// Whether `c` belongs to the class.
    pub open spec fn holds(self, c: char) -> bool {
        match self {
            CharClass::InlineSpace => c == ' ' || c == '\t' || c == '\r' || c == '\x0C',
            CharClass::Digit => is_digit(c),
            CharClass::Alnum => is_alnum(c),
            CharClass::Word => is_alnum(c) || c == '_',
            CharClass::LineRest => c != '\n',
            CharClass::StringBody => c != '\'',
        }
    }

    fn test(&self, c: char) -> (b: bool)
        ensures
            b == self.holds(c),
    {
        match self {
            CharClass::InlineSpace => c == ' ' || c == '\t' || c == '\r' || c == '\x0C',
            CharClass::Digit => digit(c),
            CharClass::Alnum => digit(c) || alpha(c),
            CharClass::Word => digit(c) || alpha(c) || c == '_',
            CharClass::LineRest => c != '\n',
            CharClass::StringBody => c != '\'',
        }
    }
}

/// The character at index `i`, or NUL past either end.
pub open spec fn char_at(s: Seq<char>, i: int) -> char {
    if 0 <= i < s.len() {
        s[i]
    } else {
        '\0'
    }
}

/// The first index at or after `i` whose character is outside `class`, or the
/// length of `s` where there is none.
pub open spec fn scan_while(s: Seq<char>, i: int, class: CharClass) -> int
    decreases s.len() - i,
{
    if 0 <= i < s.len() && class.holds(s[i]) {
        scan_while(s, i + 1, class)
    } else {
        i
    }
}

/// Where a block comment whose body starts at `i` ends: just after the first
/// `*/` at or after `i`, or at the end of `s` where the comment is not closed.
pub open spec fn comment_end(s: Seq<char>, i: int) -> int
    decreases s.len() - i,
{
    if i < 0 || i >= s.len() {
        i
    } else if s[i] == '*' && char_at(s, i + 1) == '/' {
        i + 2
    } else {
        comment_end(s, i + 1)
    }
}

/// A string literal starts at `i` and no quote closes it.
pub open spec fn open_string_at(s: Seq<char>, i: int) -> bool {
    0 <= i < s.len() && s[i] == '\'' && scan_while(s, i + 1, CharClass::StringBody) >= s.len()
}

/// Where the token that starts at `i` ends (the index after its last
/// character), for `0 <= i < s.len()`.
pub open spec fn token_end(s: Seq<char>, i: int) -> int {
    let c = s[i];
    let n = char_at(s, i + 1);
    if c == ' ' || c == '\t' || c == '\r' {
        scan_while(s, i + 1, CharClass::InlineSpace)
    } else if c == '-' && n == '-' {
        scan_while(s, i + 2, CharClass::LineRest)
    } else if c == '/' && n == '*' {
        comment_end(s, i + 2)
    } else if c == ':' && n == '=' {
        i + 2
    } else if c == '<' && (n == '=' || n == '>') {
        i + 2
    } else if c == '>' && n == '=' {
        i + 2
    } else if c == '\'' {
        let q = scan_while(s, i + 1, CharClass::StringBody);
        if q < s.len() {
            q + 1
        } else {
            q
        }
    } else if is_digit(c) {
        let d = scan_while(s, i + 1, CharClass::Digit);
        if char_at(s, d) == '.' && is_digit(char_at(s, d + 1)) {
            scan_while(s, d + 1, CharClass::Digit)
        } else {
            d
        }
    } else if (c == '@' || c == '$') && is_alpha(n) {
        scan_while(s, i + 1, CharClass::Alnum)
    } else if is_alpha(c) || c == '_' {
        scan_while(s, i + 1, CharClass::Word)
    } else {
        i + 1
    }
}

/// The characters of the token that starts at `i`.
pub open spec fn lexeme(s: Seq<char>, i: int) -> Seq<char> {
    s.subrange(i, token_end(s, i))
}

/// The kind of the word `w`, given in small letters: the keyword it spells, or `Identifier`.
pub open spec fn keyword_kind(w: Seq<char>) -> TokenType {
    if w == "package"@ {
        TokenType::Package
    } else if w == "body"@ {
        TokenType::Body
    } else if w == "is"@ {
        TokenType::Is
    } else if w == "procedure"@ {
        TokenType::Procedure
    } else if w == "function"@ {
        TokenType::Function
    } else if w == "begin"@ {
        TokenType::Begin
    } else if w == "end"@ {
        TokenType::End
    } else if w == "if"@ {
        TokenType::If
    } else if w == "then"@ {
        TokenType::Then
    } else if w == "else"@ {
        TokenType::Else
    } else if w == "elsif"@ {
        TokenType::ElseIf
    } else if w == "loop"@ {
        TokenType::Loop
    } else if w == "while"@ {
        TokenType::While
    } else if w == "for"@ {
        TokenType::For
    } else if w == "return"@ {
        TokenType::Return
    } else if w == "declare"@ {
        TokenType::Declare
    } else if w == "variable"@ {
        TokenType::Variable
    } else if w == "constant"@ {
        TokenType::Constant
    } else if w == "exception"@ {
        TokenType::Exception
    } else if w == "cursor"@ {
        TokenType::Cursor
    } else if w == "type"@ {
        TokenType::Type
    } else if w == "record"@ {
        TokenType::Record
    } else if w == "select"@ {
        TokenType::Select
    } else if w == "from"@ {
        TokenType::From
    } else if w == "where"@ {
        TokenType::Where
    } else if w == "group"@ {
        TokenType::GroupBy
    } else if w == "having"@ {
        TokenType::Having
    } else if w == "order"@ {
        TokenType::OrderBy
    } else if w == "union"@ {
        TokenType::Union
    } else if w == "join"@ {
        TokenType::Join
    } else if w == "inner"@ {
        TokenType::Inner
    } else if w == "left"@ {
        TokenType::Left
    } else if w == "right"@ {
        TokenType::Right
    } else if w == "full"@ {
        TokenType::Full
    } else if w == "on"@ {
        TokenType::On
    } else if w == "as"@ {
        TokenType::As
    } else if w == "distinct"@ {
        TokenType::Distinct
    } else if w == "override"@ {
        TokenType::Override
    } else if w == "overtake"@ {
        TokenType::Overtake
    } else if w == "uncheckedaccess"@ {
        TokenType::UncheckedAccess
    } else if w == "super"@ {
        TokenType::Super
    } else if w == "layer"@ {
        TokenType::Layer
    } else if w == "component"@ {
        TokenType::Component
    } else if w == "entityname"@ {
        TokenType::EntityName
    } else if w == "enumerationname"@ {
        TokenType::EnumerationName
    } else if w == "attributes"@ {
        TokenType::Attributes
    } else if w == "values"@ {
        TokenType::Values
    } else if w == "references"@ {
        TokenType::References
    } else if w == "keys"@ {
        TokenType::Keys
    } else if w == "codegenproperties"@ {
        TokenType::CodeGenProperties
    } else if w == "key"@ {
        TokenType::Key
    } else if w == "public"@ {
        TokenType::Public
    } else if w == "private"@ {
        TokenType::Private
    } else if w == "clientvalue"@ {
        TokenType::ClientValue
    } else if w == "labeltext"@ {
        TokenType::LabelText
    } else if w == "column"@ {
        TokenType::Column
    } else if w == "view"@ {
        TokenType::View
    } else if w == "flags"@ {
        TokenType::Flags
    } else if w == "datatype"@ {
        TokenType::Datatype
    } else if w == "prompt"@ {
        TokenType::Prompt
    } else if w == "ref"@ {
        TokenType::Ref
    } else if w == "index"@ {
        TokenType::Index
    } else if w == "unique"@ {
        TokenType::Unique
    } else if w == "sequence"@ {
        TokenType::Sequence
    } else if w == "table"@ {
        TokenType::Table
    } else if w == "primary"@ {
        TokenType::Primary
    } else if w == "constraint"@ {
        TokenType::Constraint
    } else if w == "search"@ {
        TokenType::Search
    } else if w == "replace"@ {
        TokenType::Replace
    } else if w == "append"@ {
        TokenType::Append
    } else if w == "prepend"@ {
        TokenType::Prepend
    } else if w == "textsearch"@ {
        TokenType::TextSearch
    } else if w == "textreplace"@ {
        TokenType::TextReplace
    } else if w == "textappend"@ {
        TokenType::TextAppend
    } else if w == "textprepend"@ {
        TokenType::TextPrepend
    } else {
        TokenType::Identifier
    }
}

/// The kind of the annotation word `w`, given in small letters with its `@`.
pub open spec fn annotation_kind(w: Seq<char>) -> TokenType {
    if w == "@override"@ {
        TokenType::Override
    } else if w == "@overtake"@ {
        TokenType::Overtake
    } else if w == "@uncheckedaccess"@ {
        TokenType::UncheckedAccess
    } else {
        TokenType::Identifier
    }
}

/// The kind of the directive word `w`, given in small letters with its `$`.
pub open spec fn directive_kind(w: Seq<char>) -> TokenType {
    if w == "$search"@ {
        TokenType::Search
    } else if w == "$replace"@ {
        TokenType::Replace
    } else if w == "$append"@ {
        TokenType::Append
    } else if w == "$prepend"@ {
        TokenType::Prepend
    } else if w == "$textsearch"@ {
        TokenType::TextSearch
    } else if w == "$textreplace"@ {
        TokenType::TextReplace
    } else if w == "$textappend"@ {
        TokenType::TextAppend
    } else if w == "$textprepend"@ {
        TokenType::TextPrepend
    } else if w == "$end"@ {
        TokenType::End
    } else {
        TokenType::Identifier
    }
}

/// The kind of the token that starts at `i`, for `0 <= i < s.len()`.
pub open spec fn token_kind(s: Seq<char>, i: int) -> TokenType {
    let c = s[i];
    let n = char_at(s, i + 1);
    if c == ' ' || c == '\t' || c == '\r' {
        TokenType::Whitespace
    } else if c == '\n' {
        TokenType::Newline
    } else if c == '(' {
        TokenType::LeftParen
    } else if c == ')' {
        TokenType::RightParen
    } else if c == '{' {
        TokenType::LeftBrace
    } else if c == '}' {
        TokenType::RightBrace
    } else if c == '[' {
        TokenType::LeftBracket
    } else if c == ']' {
        TokenType::RightBracket
    } else if c == ';' {
        TokenType::Semicolon
    } else if c == ',' {
        TokenType::Comma
    } else if c == '.' {
        TokenType::Dot
    } else if c == '+' {
        TokenType::Plus
    } else if c == '-' {
        if n == '-' {
            TokenType::Comment
        } else {
            TokenType::Minus
        }
    } else if c == '*' {
        TokenType::Multiply
    } else if c == '/' {
        if n == '*' {
            TokenType::Comment
        } else {
            TokenType::Divide
        }
    } else if c == ':' {
        if n == '=' {
            TokenType::Assignment
        } else {
            TokenType::Colon
        }
    } else if c == '=' {
        TokenType::Equal
    } else if c == '<' {
        if n == '=' {
            TokenType::LessThanOrEqual
        } else if n == '>' {
            TokenType::NotEqual
        } else {
            TokenType::LessThan
        }
    } else if c == '>' {
        if n == '=' {
            TokenType::GreaterThanOrEqual
        } else {
            TokenType::GreaterThan
        }
    } else if c == '\'' {
        if open_string_at(s, i) {
            TokenType::Error
        } else {
            TokenType::String
        }
    } else if is_digit(c) {
        TokenType::Number
    } else if c == '@' {
        if is_alpha(n) {
            annotation_kind(lower(lexeme(s, i)))
        } else {
            TokenType::Error
        }
    } else if c == '$' {
        if is_alpha(n) {
            directive_kind(lower(lexeme(s, i)))
        } else {
            TokenType::Error
        }
    } else if is_alpha(c) || c == '_' {
        keyword_kind(lower(lexeme(s, i)))
    } else {
        TokenType::Error
    }
}

/// The message carried by the token of a string literal that is not closed.
pub open spec fn unterminated_message() -> Seq<char> {
    "Unterminated string"@
}

/// The text of the token that starts at `i`: the characters it covers, or a
/// message where it is a string literal that is not closed.
pub open spec fn token_text(s: Seq<char>, i: int) -> Seq<char> {
    if open_string_at(s, i) {
        unterminated_message()
    } else {
        lexeme(s, i)
    }
}

/// Bytes that `c` takes in UTF-8.
pub open spec fn utf8_width(c: char) -> int {
    if (c as u32) < 0x80 {
        1
    } else if (c as u32) < 0x800 {
        2
    } else if (c as u32) < 0x10000 {
        3
    } else {
        4
    }
}

/// Bytes that the first `i` characters of `s` take in UTF-8.
pub open spec fn byte_offset(s: Seq<char>, i: int) -> int
    decreases i,
{
    if i <= 0 || i > s.len() {
        0
    } else {
        byte_offset(s, i - 1) + utf8_width(s[i - 1])
    }
}

/// The one-based line on which index `i` of `s` lies.
pub open spec fn line_at(s: Seq<char>, i: int) -> int
    decreases i,
{
    if i <= 0 || i > s.len() {
        1
    } else if s[i - 1] == '\n' {
        line_at(s, i - 1) + 1
    } else {
        line_at(s, i - 1)
    }
}

/// The one-based column at which index `i` of `s` lies, counted in
/// characters.
pub open spec fn column_at(s: Seq<char>, i: int) -> int
    decreases i,
{
    if i <= 0 || i > s.len() {
        1
    } else if s[i - 1] == '\n' {
        1
    } else {
        column_at(s, i - 1) + 1
    }
}

/// Line, column and byte offset of index `i` of `s`.
pub open spec fn position_at(s: Seq<char>, i: int) -> TokenPosition {
    TokenPosition {
        line: line_at(s, i) as usize,
        column: column_at(s, i) as usize,
        offset: byte_offset(s, i) as usize,
    }
}

/// The token found at index `i` of `s`: the end-of-input token at or past the
/// end, else the token that starts at `i`.
pub open spec fn token_at(s: Seq<char>, i: int) -> TokenView {
    if 0 <= i < s.len() {
        TokenView { kind: token_kind(s, i), text: token_text(s, i), position: position_at(s, i) }
    } else {
        TokenView {
            kind: TokenType::Eof,
            text: Seq::empty(),
            position: position_at(s, s.len() as int),
        }
    }
}

/// Where the lexer stands after the token at `i`: at `token_end`, which lies
/// after `i` and no further than the end of `s`.
pub open spec fn next_start(s: Seq<char>, i: int) -> int {
    let e = token_end(s, i);
    if e <= i {
        i + 1
    } else if e > s.len() {
        s.len() as int
    } else {
        e
    }
}

/// The tokens of `s` from index `i` on, the end-of-input token last.
pub open spec fn tokens_from(s: Seq<char>, i: int) -> Seq<TokenView>
    decreases s.len() - i,
{
    if 0 <= i < s.len() {
        seq![token_at(s, i)] + tokens_from(s, next_start(s, i))
    } else {
        seq![token_at(s, i)]
    }
}

/// The token stream of the whole of `s`.
pub open spec fn token_stream(s: Seq<char>) -> Seq<TokenView> {
    tokens_from(s, 0)
}

/// The texts of `ts`, joined in order.
pub open spec fn joined_text(ts: Seq<TokenView>) -> Seq<char>
    decreases ts.len(),
{
    if ts.len() == 0 {
        Seq::empty()
    } else {
        ts[0].text + joined_text(ts.drop_first())
    }
}

/// Lexing `s` from index `i` on meets a string literal that no quote closes.
pub open spec fn open_string_from(s: Seq<char>, i: int) -> bool
    decreases s.len() - i,
{
    if 0 <= i < s.len() {
        open_string_at(s, i) || open_string_from(s, next_start(s, i))
    } else {
        false
    }
}

/// The views of a sequence of tokens.
pub open spec fn views(ts: Seq<Token>) -> Seq<TokenView> {
    Seq::new(ts.len(), |k: int| ts[k]@)
}

/// A scan never moves backwards and never leaves the text.
pub proof fn lemma_scan_bounds(s: Seq<char>, i: int, class: CharClass)
    requires
        0 <= i <= s.len(),
    ensures
        i <= scan_while(s, i, class) <= s.len(),
        scan_while(s, i, class) < s.len() ==> !class.holds(s[scan_while(s, i, class)]),
    decreases s.len() - i,
{
    if i < s.len() && class.holds(s[i]) {
        lemma_scan_bounds(s, i + 1, class);
    }
}

/// A block comment ends after its start and inside the text.
pub proof fn lemma_comment_end_bounds(s: Seq<char>, i: int)
    requires
        0 <= i <= s.len(),
    ensures
        i <= comment_end(s, i) <= s.len(),
    decreases s.len() - i,
{
    if i < s.len() && !(s[i] == '*' && char_at(s, i + 1) == '/') {
        lemma_comment_end_bounds(s, i + 1);
    }
}

/// Every token holds at least one character and ends inside the text, so the
/// lexer advances with each token and stops at the end.
pub proof fn lemma_token_end_bounds(s: Seq<char>, i: int)
    requires
        0 <= i < s.len(),
    ensures
        i < token_end(s, i) <= s.len(),
        next_start(s, i) == token_end(s, i),
{
    lemma_scan_bounds(s, i + 1, CharClass::InlineSpace);
    lemma_scan_bounds(s, i + 1, CharClass::StringBody);
    lemma_scan_bounds(s, i + 1, CharClass::Digit);
    lemma_scan_bounds(s, i + 1, CharClass::Alnum);
    lemma_scan_bounds(s, i + 1, CharClass::Word);
    if i + 2 <= s.len() {
        lemma_scan_bounds(s, i + 2, CharClass::LineRest);
        lemma_comment_end_bounds(s, i + 2);
    }
    let d = scan_while(s, i + 1, CharClass::Digit);
    if d + 1 <= s.len() {
        lemma_scan_bounds(s, d + 1, CharClass::Digit);
    }
}

/// The stream from `i` ends with the end-of-input token, and holds no other.
pub proof fn lemma_stream_ends_with_eof(s: Seq<char>, i: int)
    requires
        0 <= i <= s.len(),
    ensures
        tokens_from(s, i).len() >= 1,
        tokens_from(s, i).last().kind == TokenType::Eof,
        forall|k: int|
            0 <= k < tokens_from(s, i).len() - 1 ==> (#[trigger] tokens_from(s, i)[k]).kind
                != TokenType::Eof,
    decreases s.len() - i,
{
    if i < s.len() {
        lemma_token_end_bounds(s, i);
        lemma_stream_ends_with_eof(s, next_start(s, i));
        lemma_kind_is_not_eof(s, i);
        let rest = tokens_from(s, next_start(s, i));
        assert forall|k: int| 0 <= k < tokens_from(s, i).len() - 1 implies (#[trigger] tokens_from(
            s,
            i,
        )[k]).kind != TokenType::Eof by {
            if k > 0 {
                assert(tokens_from(s, i)[k] == rest[k - 1]);
            }
        }
    }
}

/// No token that starts inside the text is the end-of-input token.
pub proof fn lemma_kind_is_not_eof(s: Seq<char>, i: int)
    requires
        0 <= i < s.len(),
    ensures
        token_kind(s, i) != TokenType::Eof,
{
}

/// Lossless lexing from an index: where no string literal is left open, the
/// texts of the tokens from `i` on, joined in order, are the source from `i`
/// on.
pub proof fn lemma_lossless_from(s: Seq<char>, i: int)
    requires
        0 <= i <= s.len(),
        !open_string_from(s, i),
    ensures
        joined_text(tokens_from(s, i)) == s.skip(i),
    decreases s.len() - i,
{
    let ts = tokens_from(s, i);
    if i < s.len() {
        lemma_token_end_bounds(s, i);
        let e = next_start(s, i);
        lemma_lossless_from(s, e);
        let rest = tokens_from(s, e);
        assert(ts.drop_first() =~= rest);
        assert(ts[0].text == s.subrange(i, e));
        assert(s.subrange(i, e) + s.skip(e) =~= s.skip(i));
    } else {
        assert(ts.drop_first() =~= Seq::<TokenView>::empty());
        assert(joined_text(ts.drop_first()) =~= Seq::<char>::empty());
        assert(joined_text(ts) =~= Seq::<char>::empty());
        assert(s.skip(i) =~= Seq::<char>::empty());
    }
}

/// Lossless lexing: for every source text in which no string literal is left
/// open, joining the texts of all tokens of its stream, in order, gives the
/// source back.
pub proof fn lemma_lossless(s: Seq<char>)
    requires
        !open_string_from(s, 0),
    ensures
        joined_text(token_stream(s)) == s,
{
    lemma_lossless_from(s, 0);
    assert(s.skip(0) =~= s);
}

/// A position of the lexer as the parts that order it.
pub open spec fn at_or_before(a: TokenPosition, b: TokenPosition) -> bool {
    &&& a.offset <= b.offset
    &&& (a.line < b.line || (a.line == b.line && a.column <= b.column))
}

/// Line, column and byte offset stay within the bounds that the length of
/// the text sets.
pub proof fn lemma_position_bounds(s: Seq<char>, i: int)
    requires
        0 <= i <= s.len(),
    ensures
        1 <= line_at(s, i) <= i + 1,
        1 <= column_at(s, i) <= i + 1,
        0 <= byte_offset(s, i) <= 4 * i,
    decreases i,
{
    if i > 0 {
        lemma_position_bounds(s, i - 1);
    }
}

/// Positions rise along the text: a later index is on a later line, or on
/// the same line in a later column, and at a larger byte offset.
pub proof fn lemma_positions_rise(s: Seq<char>, a: int, b: int)
    requires
        0 <= a <= b <= s.len(),
    ensures
        byte_offset(s, a) <= byte_offset(s, b),
        line_at(s, a) < line_at(s, b) || (line_at(s, a) == line_at(s, b) && column_at(s, a)
            <= column_at(s, b)),
    decreases b - a,
{
    if a < b {
        lemma_positions_rise(s, a, b - 1);
        lemma_position_bounds(s, b - 1);
    }
}

/// In a text whose offsets fit the machine's word, the position of a later
/// index is at or after the position of an earlier one.
pub proof fn lemma_position_at_rises(s: Seq<char>, a: int, b: int)
    requires
        0 <= a <= b <= s.len(),
        4 * s.len() < usize::MAX,
    ensures
        at_or_before(position_at(s, a), position_at(s, b)),
{
    lemma_positions_rise(s, a, b);
    lemma_position_bounds(s, a);
    lemma_position_bounds(s, b);
}

/// Every token of the stream from `i` starts at an index of the text at or
/// after `i`, and the tokens start one after the other.
pub proof fn lemma_stream_rises(s: Seq<char>, i: int)
    requires
        0 <= i <= s.len(),
        4 * s.len() < usize::MAX,
    ensures
        forall|k: int|
            0 <= k < tokens_from(s, i).len() ==> at_or_before(
                position_at(s, i),
                (#[trigger] tokens_from(s, i)[k]).position,
            ),
        forall|a: int, b: int|
            0 <= a <= b < tokens_from(s, i).len() ==> at_or_before(
                (#[trigger] tokens_from(s, i)[a]).position,
                (#[trigger] tokens_from(s, i)[b]).position,
            ),
    decreases s.len() - i,
{
    let ts = tokens_from(s, i);
    lemma_position_at_rises(s, i, i);
    if i < s.len() {
        lemma_token_end_bounds(s, i);
        let e = next_start(s, i);
        lemma_stream_rises(s, e);
        lemma_position_at_rises(s, i, e);
        let rest = tokens_from(s, e);
        assert forall|k: int| 0 <= k < ts.len() implies at_or_before(
            position_at(s, i),
            (#[trigger] ts[k]).position,
        ) by {
            if k > 0 {
                assert(ts[k] == rest[k - 1]);
                assert(at_or_before(position_at(s, e), rest[k - 1].position));
            }
        }
        assert forall|a: int, b: int| 0 <= a <= b < ts.len() implies at_or_before(
            (#[trigger] ts[a]).position,
            (#[trigger] ts[b]).position,
        ) by {
            if a > 0 {
                assert(ts[a] == rest[a - 1]);
                assert(ts[b] == rest[b - 1]);
            } else if b > 0 {
                assert(ts[b] == rest[b - 1]);
                assert(at_or_before(position_at(s, e), rest[b - 1].position));
            }
        }
    }
}

/// The lexer: a source text and a cursor into it.
pub struct Lexer {
    input: String,
    chars: Vec<char>,
    index: usize,
    offset: usize,
    line: usize,
    column: usize,
    language: Language,
}

impl Lexer {
    /// The source text, as characters.
    pub closed spec fn source(&self) -> Seq<char> {
        self.input@
    }

    /// The index of the next character to read.
    pub closed spec fn cursor(&self) -> int {
        self.index as int
    }

    /// The dialect the lexer was made for.
    pub closed spec fn dialect(&self) -> Language {
        self.language
    }

    /// The lexer's fields agree with each other: the cursor lies in the text
    /// and the tracked line, column and byte offset are those of the cursor.
    pub closed spec fn wf(&self) -> bool {
        &&& self.chars@ == self.input@
        &&& 4 * self.chars@.len() < usize::MAX
        &&& self.index <= self.chars@.len()
        &&& self.offset == byte_offset(self.chars@, self.index as int)
        &&& self.line == line_at(self.chars@, self.index as int)
        &&& self.column == column_at(self.chars@, self.index as int)
        &&& self.offset <= 4 * self.index
        &&& self.line <= self.index + 1
        &&& self.column <= self.index + 1
    }

    /// A lexer at the start of `input`.
    ///
    /// The text must be short enough for every byte offset in it to fit the
    /// machine's word.
    pub fn new(input: String, language: Language) -> (r: Lexer)
        requires
            4 * input@.len() < usize::MAX,
        ensures
            r.wf(),
            r.source() == input@,
            r.cursor() == 0,
            r.dialect() == language,
    {
        let chars = crate::text::to_chars(input.as_str());
        Lexer { input, chars, index: 0, offset: 0, line: 1, column: 1, language }
    }

    /// Whether the whole text has been read.
    fn is_at_end(&self) -> (b: bool)
        requires
            self.wf(),
        ensures
            b == (self.cursor() >= self.source().len()),
    {
        self.index >= self.chars.len()
    }

    /// Reads one character and moves past it.
    fn advance(&mut self) -> (c: char)
        requires
            old(self).wf(),
            old(self).cursor() < old(self).source().len(),
        ensures
            final(self).wf(),
            final(self).source() == old(self).source(),
            final(self).dialect() == old(self).dialect(),
            final(self).cursor() == old(self).cursor() + 1,
            c == old(self).source()[old(self).cursor()],
    {
        let c = self.chars[self.index];
        let w: usize = if (c as u32) < 0x80 {
            1
        } else if (c as u32) < 0x800 {
            2
        } else if (c as u32) < 0x10000 {
            3
        } else {
            4
        };
        self.index = self.index + 1;
        self.offset = self.offset + w;
        if c == '\n' {
            self.line = self.line + 1;
            self.column = 1;
        } else {
            self.column = self.column + 1;
        }
        c
    }

    /// The next character, or NUL at the end.
    fn peek(&self) -> (c: char)
        requires
            self.wf(),
        ensures
            c == char_at(self.source(), self.cursor()),
    {
        if self.index < self.chars.len() {
            self.chars[self.index]
        } else {
            '\0'
        }
    }

    /// The character after the next, or NUL past the end.
    fn peek_next(&self) -> (c: char)
        requires
            self.wf(),
        ensures
            c == char_at(self.source(), self.cursor() + 1),
    {
        if self.index < self.chars.len() && self.index + 1 < self.chars.len() {
            self.chars[self.index + 1]
        } else {
            '\0'
        }
    }

    /// Line, column and byte offset of the cursor.
    fn current_position(&self) -> (p: TokenPosition)
        requires
            self.wf(),
        ensures
            p == position_at(self.source(), self.cursor()),
    {
        TokenPosition { line: self.line, column: self.column, offset: self.offset }
    }

    fn make_token(token_type: TokenType, value: String, position: TokenPosition) -> (t: Token)
        ensures
            t@ == (TokenView { kind: token_type, text: value@, position }),
    {
        Token { token_type, value, position }
    }

    /// Moves the cursor past every character of `class`.
    fn skip_class(&mut self, class: CharClass)
        requires
            old(self).wf(),
        ensures
            final(self).wf(),
            final(self).source() == old(self).source(),
            final(self).dialect() == old(self).dialect(),
            final(self).cursor() == scan_while(old(self).source(), old(self).cursor(), class),
            final(self).cursor() >= old(self).cursor(),
    {
        let ghost src = self.source();
        let ghost start = self.cursor();
        let ghost lang = self.dialect();
        while self.index < self.chars.len() && class.test(self.chars[self.index])
            invariant
                self.wf(),
                self.source() == src,
                self.dialect() == lang,
                start <= self.cursor(),
                scan_while(src, start, class) == scan_while(src, self.cursor(), class),
            decreases self.chars.len() - self.index,
        {
            self.advance();
        }
    }

    /// Moves the cursor to the end of a block comment whose body starts at
    /// the cursor.
    fn skip_block_comment(&mut self)
        requires
            old(self).wf(),
        ensures
            final(self).wf(),
            final(self).source() == old(self).source(),
            final(self).dialect() == old(self).dialect(),
            final(self).cursor() == comment_end(old(self).source(), old(self).cursor()),
            final(self).cursor() >= old(self).cursor(),
    {
        let ghost src = self.source();
        let ghost start = self.cursor();
        let ghost lang = self.dialect();
        while self.index < self.chars.len()
            invariant_except_break
                comment_end(src, start) == comment_end(src, self.cursor()),
            invariant
                self.wf(),
                self.source() == src,
                self.dialect() == lang,
                start <= self.cursor(),
            ensures
                self.cursor() == comment_end(src, start),
            decreases self.chars.len() - self.index,
        {
            if self.peek() == '*' && self.peek_next() == '/' {
                self.advance();
                self.advance();
                break ;
            }
            self.advance();
        }
    }

    /// The characters from index `from` up to `to`, as a string.
    fn slice_text(&self, from: usize, to: usize) -> (r: String)
        requires
            self.wf(),
            from <= to <= self.source().len(),
        ensures
            r@ == self.source().subrange(from as int, to as int),
    {
        self.input.as_str().substring_char(from, to).to_owned()
    }

    /// The characters from index `from` up to `to`, capitals folded.
    fn lower_slice(&self, from: usize, to: usize) -> (r: Vec<char>)
        requires
            self.wf(),
            from <= to <= self.source().len(),
        ensures
            r@ == lower(self.source().subrange(from as int, to as int)),
    {
        let mut out: Vec<char> = Vec::new();
        let mut k: usize = from;
        while k < to
            invariant
                self.wf(),
                from <= k <= to <= self.source().len(),
                out@ == lower(self.source().subrange(from as int, k as int)),
            decreases to - k,
        {
            out.push(to_lower_char(self.chars[k]));
            assert(out@ =~= lower(self.source().subrange(from as int, k + 1)));
            k += 1;
        }
        out
    }

    /// The kind of a word: a keyword, matched without regard to case, or an
    /// identifier.
    fn keyword_or_identifier(&self, from: usize, to: usize) -> (r: TokenType)
        requires
            self.wf(),
            from <= to <= self.source().len(),
        ensures
            r == keyword_kind(lower(self.source().subrange(from as int, to as int))),
    {
        let w = self.lower_slice(from, to);
        keyword_lookup(&w)
    }

    /// Reads the next token and moves past it. At the end of the text the
    /// token is the end-of-input token and the cursor stays.
    pub fn next_token(&mut self) -> (t: Token)
        requires
            old(self).wf(),
        ensures
            final(self).wf(),
            final(self).source() == old(self).source(),
            final(self).dialect() == old(self).dialect(),
            t@ == token_at(old(self).source(), old(self).cursor()),
            old(self).cursor() < old(self).source().len() ==> final(self).cursor() == token_end(
                old(self).source(),
                old(self).cursor(),
            ) && final(self).cursor() > old(self).cursor(),
            old(self).cursor() >= old(self).source().len() ==> final(self).cursor() == old(
                self,
            ).cursor(),
    {
        let position = self.current_position();
        if self.is_at_end() {
            return Lexer::make_token(TokenType::Eof, String::new(), position);
        }
        let ghost src = self.source();
        let start: usize = self.index;
        let c = self.advance();
        let n = self.peek();
        let mut unterminated = false;
        let kind: TokenType = if c == ' ' || c == '\t' || c == '\r' {
            self.skip_class(CharClass::InlineSpace);
            TokenType::Whitespace
        } else if c == '\n' {
            TokenType::Newline
        } else if c == '(' {
            TokenType::LeftParen
        } else if c == ')' {
            TokenType::RightParen
        } else if c == '{' {
            TokenType::LeftBrace
        } else if c == '}' {
            TokenType::RightBrace
        } else if c == '[' {
            TokenType::LeftBracket
        } else if c == ']' {
            TokenType::RightBracket
        } else if c == ';' {
            TokenType::Semicolon
        } else if c == ',' {
            TokenType::Comma
        } else if c == '.' {
            TokenType::Dot
        } else if c == '+' {
            TokenType::Plus
        } else if c == '-' {
            if n == '-' {
                self.advance();
                self.skip_class(CharClass::LineRest);
                TokenType::Comment
            } else {
                TokenType::Minus
            }
        } else if c == '*' {
            TokenType::Multiply
        } else if c == '/' {
            if n == '*' {
                self.advance();
                self.skip_block_comment();
                TokenType::Comment
            } else {
                TokenType::Divide
            }
        } else if c == ':' {
            if n == '=' {
                self.advance();
                TokenType::Assignment
            } else {
                TokenType::Colon
            }
        } else if c == '=' {
            TokenType::Equal
        } else if c == '<' {
            if n == '=' {
                self.advance();
                TokenType::LessThanOrEqual
            } else if n == '>' {
                self.advance();
                TokenType::NotEqual
            } else {
                TokenType::LessThan
            }
        } else if c == '>' {
            if n == '=' {
                self.advance();
                TokenType::GreaterThanOrEqual
            } else {
                TokenType::GreaterThan
            }
        } else if c == '\'' {
            self.skip_class(CharClass::StringBody);
            if self.is_at_end() {
                unterminated = true;
                TokenType::Error
            } else {
                self.advance();
                TokenType::String
            }
        } else if digit(c) {
            self.skip_class(CharClass::Digit);
            if self.peek() == '.' && digit(self.peek_next()) {
                self.advance();
                self.skip_class(CharClass::Digit);
            }
            TokenType::Number
        } else if c == '@' {
            if alpha(n) {
                self.skip_class(CharClass::Alnum);
                let w = self.lower_slice(start, self.index);
                annotation_lookup(&w)
            } else {
                TokenType::Error
            }
        } else if c == '$' {
            if alpha(n) {
                self.skip_class(CharClass::Alnum);
                let w = self.lower_slice(start, self.index);
                directive_lookup(&w)
            } else {
                TokenType::Error
            }
        } else if alpha(c) || c == '_' {
            self.skip_class(CharClass::Word);
            self.keyword_or_identifier(start, self.index)
        } else {
            TokenType::Error
        };
        assert(self.cursor() == token_end(src, start as int));
        assert(kind == token_kind(src, start as int));
        let value = if unterminated {
            "Unterminated string".to_owned()
        } else {
            self.slice_text(start, self.index)
        };
        Lexer::make_token(kind, value, position)
    }

    /// Reads every remaining token, the end-of-input token included.
    pub fn tokenize(&mut self) -> (tokens: Vec<Token>)
        requires
            old(self).wf(),
        ensures
            final(self).wf(),
            final(self).source() == old(self).source(),
            final(self).dialect() == old(self).dialect(),
            final(self).cursor() == old(self).source().len(),
            views(tokens@) == tokens_from(old(self).source(), old(self).cursor()),
    {
        let mut tokens: Vec<Token> = Vec::new();
        let ghost src = self.source();
        let ghost start = self.cursor();
        let ghost lang = self.dialect();
        assert(views(tokens@) + tokens_from(src, start) =~= tokens_from(src, start));
        while !self.is_at_end()
            invariant
                self.wf(),
                self.source() == src,
                self.dialect() == lang,
                0 <= start <= self.cursor() <= src.len(),
                views(tokens@) + tokens_from(src, self.cursor()) == tokens_from(src, start),
            decreases src.len() - self.cursor(),
        {
            let ghost before = self.cursor();
            let ghost seen = tokens@;
            let token = self.next_token();
            tokens.push(token);
            proof {
                lemma_token_end_bounds(src, before);
                assert(views(tokens@) =~= views(seen) + seq![token@]);
                assert(views(tokens@) + tokens_from(src, self.cursor()) =~= views(seen) + (
                seq![token@] + tokens_from(src, self.cursor())));
            }
        }
        let ghost seen = tokens@;
        let eof = self.next_token();
        tokens.push(eof);
        proof {
            assert(views(tokens@) =~= views(seen) + seq![eof@]);
        }
        tokens
    }
}

/// Looks the word up in the keyword table.
fn keyword_lookup(w: &Vec<char>) -> (r: TokenType)
    ensures
        r == keyword_kind(w@),
{
    if chars_eq_str(w, "package") {
        TokenType::Package
    } else if chars_eq_str(w, "body") {
        TokenType::Body
    } else if chars_eq_str(w, "is") {
        TokenType::Is
    } else if chars_eq_str(w, "procedure") {
        TokenType::Procedure
    } else if chars_eq_str(w, "function") {
        TokenType::Function
    } else if chars_eq_str(w, "begin") {
        TokenType::Begin
    } else if chars_eq_str(w, "end") {
        TokenType::End
    } else if chars_eq_str(w, "if") {
        TokenType::If
    } else if chars_eq_str(w, "then") {
        TokenType::Then
    } else if chars_eq_str(w, "else") {
        TokenType::Else
    } else if chars_eq_str(w, "elsif") {
        TokenType::ElseIf
    } else if chars_eq_str(w, "loop") {
        TokenType::Loop
    } else if chars_eq_str(w, "while") {
        TokenType::While
    } else if chars_eq_str(w, "for") {
        TokenType::For
    } else if chars_eq_str(w, "return") {
        TokenType::Return
    } else if chars_eq_str(w, "declare") {
        TokenType::Declare
    } else if chars_eq_str(w, "variable") {
        TokenType::Variable
    } else if chars_eq_str(w, "constant") {
        TokenType::Constant
    } else if chars_eq_str(w, "exception") {
        TokenType::Exception
    } else if chars_eq_str(w, "cursor") {
        TokenType::Cursor
    } else if chars_eq_str(w, "type") {
        TokenType::Type
    } else if chars_eq_str(w, "record") {
        TokenType::Record
    } else if chars_eq_str(w, "select") {
        TokenType::Select
    } else if chars_eq_str(w, "from") {
        TokenType::From
    } else if chars_eq_str(w, "where") {
        TokenType::Where
    } else if chars_eq_str(w, "group") {
        TokenType::GroupBy
    } else if chars_eq_str(w, "having") {
        TokenType::Having
    } else if chars_eq_str(w, "order") {
        TokenType::OrderBy
    } else if chars_eq_str(w, "union") {
        TokenType::Union
    } else if chars_eq_str(w, "join") {
        TokenType::Join
    } else if chars_eq_str(w, "inner") {
        TokenType::Inner
    } else if chars_eq_str(w, "left") {
        TokenType::Left
    } else if chars_eq_str(w, "right") {
        TokenType::Right
    } else if chars_eq_str(w, "full") {
        TokenType::Full
    } else if chars_eq_str(w, "on") {
        TokenType::On
    } else if chars_eq_str(w, "as") {
        TokenType::As
    } else if chars_eq_str(w, "distinct") {
        TokenType::Distinct
    } else if chars_eq_str(w, "override") {
        TokenType::Override
    } else if chars_eq_str(w, "overtake") {
        TokenType::Overtake
    } else if chars_eq_str(w, "uncheckedaccess") {
        TokenType::UncheckedAccess
    } else if chars_eq_str(w, "super") {
        TokenType::Super
    } else if chars_eq_str(w, "layer") {
        TokenType::Layer
    } else if chars_eq_str(w, "component") {
        TokenType::Component
    } else if chars_eq_str(w, "entityname") {
        TokenType::EntityName
    } else if chars_eq_str(w, "enumerationname") {
        TokenType::EnumerationName
    } else if chars_eq_str(w, "attributes") {
        TokenType::Attributes
    } else if chars_eq_str(w, "values") {
        TokenType::Values
    } else if chars_eq_str(w, "references") {
        TokenType::References
    } else if chars_eq_str(w, "keys") {
        TokenType::Keys
    } else if chars_eq_str(w, "codegenproperties") {
        TokenType::CodeGenProperties
    } else if chars_eq_str(w, "key") {
        TokenType::Key
    } else if chars_eq_str(w, "public") {
        TokenType::Public
    } else if chars_eq_str(w, "private") {
        TokenType::Private
    } else if chars_eq_str(w, "clientvalue") {
        TokenType::ClientValue
    } else if chars_eq_str(w, "labeltext") {
        TokenType::LabelText
    } else if chars_eq_str(w, "column") {
        TokenType::Column
    } else if chars_eq_str(w, "view") {
        TokenType::View
    } else if chars_eq_str(w, "flags") {
        TokenType::Flags
    } else if chars_eq_str(w, "datatype") {
        TokenType::Datatype
    } else if chars_eq_str(w, "prompt") {
        TokenType::Prompt
    } else if chars_eq_str(w, "ref") {
        TokenType::Ref
    } else if chars_eq_str(w, "index") {
        TokenType::Index
    } else if chars_eq_str(w, "unique") {
        TokenType::Unique
    } else if chars_eq_str(w, "sequence") {
        TokenType::Sequence
    } else if chars_eq_str(w, "table") {
        TokenType::Table
    } else if chars_eq_str(w, "primary") {
        TokenType::Primary
    } else if chars_eq_str(w, "constraint") {
        TokenType::Constraint
    } else if chars_eq_str(w, "search") {
        TokenType::Search
    } else if chars_eq_str(w, "replace") {
        TokenType::Replace
    } else if chars_eq_str(w, "append") {
        TokenType::Append
    } else if chars_eq_str(w, "prepend") {
        TokenType::Prepend
    } else if chars_eq_str(w, "textsearch") {
        TokenType::TextSearch
    } else if chars_eq_str(w, "textreplace") {
        TokenType::TextReplace
    } else if chars_eq_str(w, "textappend") {
        TokenType::TextAppend
    } else if chars_eq_str(w, "textprepend") {
        TokenType::TextPrepend
    } else {
        TokenType::Identifier
    }
}

/// Looks the word up among the annotations.
fn annotation_lookup(w: &Vec<char>) -> (r: TokenType)
    ensures
        r == annotation_kind(w@),
{
    if chars_eq_str(w, "@override") {
        TokenType::Override
    } else if chars_eq_str(w, "@overtake") {
        TokenType::Overtake
    } else if chars_eq_str(w, "@uncheckedaccess") {
        TokenType::UncheckedAccess
    } else {
        TokenType::Identifier
    }
}

/// Looks the word up among the layering directives.
fn directive_lookup(w: &Vec<char>) -> (r: TokenType)
    ensures
        r == directive_kind(w@),
{
    if chars_eq_str(w, "$search") {
        TokenType::Search
    } else if chars_eq_str(w, "$replace") {
        TokenType::Replace
    } else if chars_eq_str(w, "$append") {
        TokenType::Append
    } else if chars_eq_str(w, "$prepend") {
        TokenType::Prepend
    } else if chars_eq_str(w, "$textsearch") {
        TokenType::TextSearch
    } else if chars_eq_str(w, "$textreplace") {
        TokenType::TextReplace
    } else if chars_eq_str(w, "$textappend") {
        TokenType::TextAppend
    } else if chars_eq_str(w, "$textprepend") {
        TokenType::TextPrepend
    } else if chars_eq_str(w, "$end") {
        TokenType::End
    } else {
        TokenType::Identifier
    }
}

} // verus!
