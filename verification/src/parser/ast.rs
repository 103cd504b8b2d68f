//! The syntax tree shared by all dialects.
//!
//! Every node carries the `Span` of source text it was built from. The tree is
//! a closed tagged union: `AstNode` has exactly one variant per dialect.

use crate::parser::statements::{
    expressions_view, lemma_expressions_view_push, lemma_statements_view_push, statements_view,
};
use vstd::prelude::*;

verus! {

/// A place in source text: one-based line and column, and a byte offset.
#[derive(Debug, Clone, Copy, PartialEq, Eq, Structural)]
pub struct Position {
    pub line: usize,
    pub column: usize,
    pub offset: usize,
}

/// A range of source text between two positions.
#[derive(Debug, Clone, Copy, PartialEq, Eq, Structural)]
pub struct Span {
    pub start: Position,
    pub end: Position,
}

impl Position {
    /// `self` is at or before `other`: no later in byte offset, and no later
    /// in (line, column) read as a pair.
    pub open spec fn at_or_before(self, other: Position) -> bool {
        &&& self.offset <= other.offset
        &&& (self.line < other.line || (self.line == other.line && self.column <= other.column))
    }

    /// Executable form of `at_or_before`.
    pub fn is_at_or_before(&self, other: &Position) -> (b: bool)
        ensures
            b == self.at_or_before(*other),
    {
        self.offset <= other.offset && (self.line < other.line || (self.line == other.line
            && self.column <= other.column))
    }
}

impl Span {
    /// The start is at or before the end.
    pub open spec fn well_formed(self) -> bool {
        self.start.at_or_before(self.end)
    }

    /// `inner` lies within `self`: it starts no earlier and ends no later.
    pub open spec fn encloses(self, inner: Span) -> bool {
        self.start.at_or_before(inner.start) && inner.end.at_or_before(self.end)
    }

    /// The point (`line`, `column`) lies between the start and the end, both
    /// included, reading (line, column) as a pair.
    pub open spec fn covers(self, line: usize, column: usize) -> bool {
        &&& (self.start.line < line || (self.start.line == line && self.start.column <= column))
        &&& (line < self.end.line || (line == self.end.line && column <= self.end.column))
    }

    /// The number of bytes between start and end; zero where the span is not
    /// well formed.
    pub open spec fn extent(self) -> nat {
        if self.start.offset <= self.end.offset {
            (self.end.offset - self.start.offset) as nat
        } else {
            0
        }
    }

    /// Executable form of `well_formed`.
    pub fn is_well_formed(&self) -> (b: bool)
        ensures
            b == self.well_formed(),
    {
        self.start.is_at_or_before(&self.end)
    }

    /// Executable form of `encloses`.
    pub fn is_enclosing(&self, inner: &Span) -> (b: bool)
        ensures
            b == self.encloses(*inner),
    {
        self.start.is_at_or_before(&inner.start) && inner.end.is_at_or_before(&self.end)
    }

    /// Executable form of `covers`.
    pub fn is_covering(&self, line: usize, column: usize) -> (b: bool)
        ensures
            b == self.covers(line, column),
    {
        (self.start.line < line || (self.start.line == line && self.start.column <= column)) && (
        line < self.end.line || (line == self.end.line && column <= self.end.column))
    }

    /// Executable form of `extent`.
    pub fn byte_extent(&self) -> (n: usize)
        ensures
            n == self.extent(),
    {
        if self.start.offset <= self.end.offset {
            self.end.offset - self.start.offset
        } else {
            0
        }
    }
}

/// Enclosure is transitive, and every span encloses itself when well formed.
pub proof fn lemma_encloses_transitive(a: Span, b: Span, c: Span)
    requires
        a.encloses(b),
        b.encloses(c),
    ensures
        a.encloses(c),
{
}

/// A name together with the place where it is written.
#[derive(Debug, Clone, PartialEq, Eq)]
pub struct Identifier {
    pub name: String,
    pub span: Span,
}

/// Root of a syntax tree: one variant per dialect.
#[derive(Debug, Clone, PartialEq)]
pub enum AstNode {
    PlSql(PlSqlNode),
    Entity(EntityNode),
    Enumeration(EnumerationNode),
    Views(ViewsNode),
    Storage(StorageNode),
    MarbleProjection(MarbleProjectionNode),
    MarbleClient(MarbleClientNode),
}

/// A top-level construct of the procedural dialect.
#[allow(inconsistent_fields)]
#[derive(Debug, Clone, PartialEq)]
pub enum PlSqlNode {
    Package {
        name: Identifier,
        component: Option<String>,
        annotations: Vec<IfsAnnotation>,
        declarations: Vec<PlSqlDeclaration>,
        body: Option<Vec<PlSqlStatement>>,
        span: Span,
    },
    Procedure {
        name: Identifier,
        visibility: ProcedureVisibility,
        annotations: Vec<IfsAnnotation>,
        parameters: Vec<Parameter>,
        body: Vec<PlSqlStatement>,
        directives: Vec<OvertakeDirective>,
        span: Span,
    },
    Function {
        name: Identifier,
        visibility: ProcedureVisibility,
        annotations: Vec<IfsAnnotation>,
        parameters: Vec<Parameter>,
        return_type: Type,
        body: Vec<PlSqlStatement>,
        directives: Vec<OvertakeDirective>,
        span: Span,
    },
}

/// An annotation written before a declaration.
#[derive(Debug, Clone, Copy, PartialEq, Eq, Structural)]
pub enum IfsAnnotation {
    Override,
    Overtake,
    UncheckedAccess,
}

/// Accessibility of a routine, read off the underscores that end its name.
#[derive(Debug, Clone, Copy, PartialEq, Eq, Structural)]
pub enum ProcedureVisibility {
    /// No trailing underscores.
    Public,
    /// Exactly two trailing underscores.
    Protected,
    /// Three or more trailing underscores.
    Private,
}

/// One region of a layering directive block, with the source text it holds.
#[allow(inconsistent_fields)]
#[derive(Debug, Clone, PartialEq)]
pub enum OvertakeDirective {
    Search { code: String, span: Span },
    Replace { code: String, span: Span },
    Append { code: String, span: Span },
    Prepend { code: String, span: Span },
    TextSearch { text: String, span: Span },
    TextReplace { text: String, span: Span },
    TextAppend { text: String, span: Span },
    TextPrepend { text: String, span: Span },
}

#[allow(inconsistent_fields)]
#[derive(Debug, Clone, PartialEq)]
pub enum PlSqlDeclaration {
    Variable { name: Identifier, var_type: Type, default_value: Option<Expression>, span: Span },
    Cursor { name: Identifier, query: String, span: Span },
    Exception { name: Identifier, span: Span },
}

#[allow(inconsistent_fields)]
#[derive(Debug, PartialEq)]
pub enum PlSqlStatement {
    Assignment { target: Identifier, value: Expression, span: Span },
    If {
        condition: Expression,
        then_branch: Vec<PlSqlStatement>,
        else_branch: Option<Vec<PlSqlStatement>>,
        span: Span,
    },
    Loop { body: Vec<PlSqlStatement>, span: Span },
    Return { value: Option<Expression>, span: Span },
    Call { name: Identifier, arguments: Vec<Expression>, span: Span },
}

/// An entity definition.
#[derive(Debug, Clone, PartialEq)]
pub struct EntityNode {
    pub entity_name: Identifier,
    pub component: String,
    pub code_gen_properties: Option<CodeGenProperties>,
    pub attributes: Vec<EntityAttribute>,
    pub keys: Vec<EntityKey>,
    pub references: Vec<EntityReference>,
    pub state_machine: Option<StateMachine>,
    pub span: Span,
}

#[derive(Debug, Clone, PartialEq)]
pub struct CodeGenProperties {
    pub properties: Vec<(String, String)>,
    pub span: Span,
}

#[derive(Debug, Clone, PartialEq)]
pub struct EntityAttribute {
    pub visibility: AttributeVisibility,
    pub name: Identifier,
    pub data_type: String,
    /// Flag letters such as `AMI-L`.
    pub flags: String,
    pub properties: Vec<(String, String)>,
    pub span: Span,
}

#[derive(Debug, Clone, Copy, PartialEq, Eq, Structural)]
pub enum AttributeVisibility {
    Public,
    Private,
    Key,
}

#[derive(Debug, Clone, PartialEq)]
pub struct EntityKey {
    pub name: Identifier,
    pub columns: Vec<Identifier>,
    pub is_primary: bool,
    pub span: Span,
}

#[derive(Debug, Clone, PartialEq)]
pub struct EntityReference {
    pub name: Identifier,
    pub referenced_entity: Identifier,
    pub foreign_key_columns: Vec<Identifier>,
    pub span: Span,
}

#[derive(Debug, Clone, PartialEq)]
pub struct StateMachine {
    pub states: Vec<State>,
    pub transitions: Vec<StateTransition>,
    pub span: Span,
}

#[derive(Debug, Clone, PartialEq)]
pub struct State {
    pub name: Identifier,
    pub state_type: StateType,
    pub span: Span,
}

#[derive(Debug, Clone, Copy, PartialEq, Eq, Structural)]
pub enum StateType {
    Initial,
    Normal,
    Final,
}

#[derive(Debug, Clone, PartialEq)]
pub struct StateTransition {
    pub from_state: Identifier,
    pub to_state: Identifier,
    pub event: Option<String>,
    pub span: Span,
}

/// An enumeration definition.
#[derive(Debug, Clone, PartialEq)]
pub struct EnumerationNode {
    pub enumeration_name: Identifier,
    pub component: String,
    pub values: Vec<EnumerationValue>,
    pub span: Span,
}

#[derive(Debug, Clone, PartialEq)]
pub struct EnumerationValue {
    pub name: Identifier,
    pub client_value: Option<String>,
    pub properties: Vec<(String, String)>,
    pub span: Span,
}

/// A file of view definitions.
#[derive(Debug, Clone, PartialEq)]
pub struct ViewsNode {
    pub layer: Option<String>,
    pub column_definitions: Vec<ColumnDefinition>,
    pub views: Vec<ViewDefinition>,
    pub span: Span,
}

#[derive(Debug, Clone, PartialEq)]
pub struct ColumnDefinition {
    pub name: Identifier,
    pub flags: Option<String>,
    pub datatype: Option<String>,
    pub prompt: Option<String>,
    pub reference: Option<String>,
    pub properties: Vec<(String, String)>,
    pub span: Span,
}

#[derive(Debug, Clone, PartialEq)]
pub struct ViewDefinition {
    pub name: Identifier,
    pub annotations: Vec<IfsAnnotation>,
    pub columns: Vec<ColumnDefinition>,
    pub query: SqlQuery,
    pub span: Span,
}

/// A file of storage definitions.
#[derive(Debug, Clone, PartialEq)]
pub struct StorageNode {
    pub layer: Option<String>,
    pub definitions: Vec<StorageDefinition>,
    pub span: Span,
}

#[allow(inconsistent_fields)]
#[derive(Debug, Clone, PartialEq)]
pub enum StorageDefinition {
    Index {
        name: Identifier,
        is_unique: bool,
        table_name: Identifier,
        columns: Vec<Identifier>,
        span: Span,
    },
    Sequence { name: Identifier, properties: Vec<(String, String)>, span: Span },
    Table {
        name: Identifier,
        columns: Vec<TableColumn>,
        constraints: Vec<TableConstraint>,
        span: Span,
    },
}

#[derive(Debug, Clone, PartialEq)]
pub struct TableColumn {
    pub name: Identifier,
    pub data_type: String,
    pub nullable: bool,
    pub default_value: Option<String>,
    pub span: Span,
}

#[allow(inconsistent_fields)]
#[derive(Debug, Clone, PartialEq)]
pub enum TableConstraint {
    PrimaryKey { name: Identifier, columns: Vec<Identifier>, span: Span },
    UniqueConstraint { name: Identifier, columns: Vec<Identifier>, span: Span },
}

#[derive(Debug, Clone, PartialEq)]
pub struct SqlQuery {
    pub select: Vec<SelectItem>,
    pub from: Vec<FromItem>,
    pub where_clause: Option<Expression>,
    pub group_by: Vec<Expression>,
    pub having: Option<Expression>,
    pub order_by: Vec<OrderByItem>,
    pub span: Span,
}

#[derive(Debug, Clone, PartialEq)]
pub struct SelectItem {
    pub expression: Expression,
    pub alias: Option<Identifier>,
    pub span: Span,
}

#[derive(Debug, Clone, PartialEq)]
pub struct FromItem {
    pub table: Identifier,
    pub alias: Option<Identifier>,
    pub span: Span,
}

#[derive(Debug, Clone, PartialEq)]
pub struct OrderByItem {
    pub expression: Expression,
    pub direction: OrderDirection,
    pub span: Span,
}

#[derive(Debug, Clone, Copy, PartialEq, Eq, Structural)]
pub enum OrderDirection {
    Asc,
    Desc,
}

/// A server-side projection.
#[derive(Debug, Clone, PartialEq)]
pub struct MarbleProjectionNode {
    pub name: Identifier,
    pub entity: Identifier,
    pub attributes: Vec<ProjectionAttribute>,
    pub actions: Vec<ProjectionAction>,
    pub span: Span,
}

#[derive(Debug, Clone, PartialEq)]
pub struct ProjectionAttribute {
    pub name: Identifier,
    pub source: Option<Identifier>,
    pub data_type: Option<String>,
    pub span: Span,
}

#[derive(Debug, Clone, PartialEq)]
pub struct ProjectionAction {
    pub name: Identifier,
    pub parameters: Vec<Parameter>,
    pub span: Span,
}

/// A client layout.
#[derive(Debug, Clone, PartialEq)]
pub struct MarbleClientNode {
    pub name: Identifier,
    pub layout: Vec<LayoutElement>,
    pub commands: Vec<ClientCommand>,
    pub span: Span,
}

#[allow(inconsistent_fields)]
#[derive(Debug, PartialEq)]
pub enum LayoutElement {
    Group { name: Identifier, elements: Vec<LayoutElement>, span: Span },
    Field { name: Identifier, binding: Identifier, span: Span },
    List { name: Identifier, source: Identifier, columns: Vec<Identifier>, span: Span },
}

#[derive(Debug, Clone, PartialEq)]
pub struct ClientCommand {
    pub name: Identifier,
    pub action: String,
    pub parameters: Vec<(String, String)>,
    pub span: Span,
}

/// A formal parameter of a routine or action.
#[derive(Debug, Clone, PartialEq)]
pub struct Parameter {
    pub name: Identifier,
    pub param_type: Type,
    pub mode: ParameterMode,
    pub default_value: Option<Expression>,
    pub span: Span,
}

/// Direction in which a parameter passes its value.
#[derive(Debug, Clone, Copy, PartialEq, Eq, Structural)]
pub enum ParameterMode {
    In,
    Out,
    InOut,
}

/// A type as written in source: its name and any arguments in parentheses.
#[derive(Debug, Clone, PartialEq)]
pub struct Type {
    pub name: String,
    pub parameters: Vec<String>,
    pub span: Span,
}

#[allow(inconsistent_fields)]
#[derive(Debug, PartialEq)]
pub enum Expression {
    Identifier(Identifier),
    Literal { value: String, span: Span },
    Binary { left: Box<Expression>, operator: BinaryOperator, right: Box<Expression>, span: Span },
    Unary { operator: UnaryOperator, operand: Box<Expression>, span: Span },
    FunctionCall { name: Identifier, arguments: Vec<Expression>, span: Span },
}

#[derive(Debug, Clone, Copy, PartialEq, Eq, Structural)]
pub enum BinaryOperator {
    Add,
    Subtract,
    Multiply,
    Divide,
    Equal,
    NotEqual,
    LessThan,
    LessThanOrEqual,
    GreaterThan,
    GreaterThanOrEqual,
    And,
    Or,
    Like,
    In,
}

#[derive(Debug, Clone, Copy, PartialEq, Eq, Structural)]
pub enum UnaryOperator {
    Not,
    Minus,
    Plus,
}

impl Expression {
    /// A copy of the whole expression tree.
    pub fn duplicate(&self) -> (r: Expression)
        ensures
            r@ == self@,
        decreases self,
    {
        match self {
            Expression::Identifier(id) => Expression::Identifier(id.duplicate()),
            Expression::Literal { value, span } => Expression::Literal {
                value: value.clone(),
                span: *span,
            },
            Expression::Binary { left, operator, right, span } => Expression::Binary {
                left: Box::new((**left).duplicate()),
                operator: *operator,
                right: Box::new((**right).duplicate()),
                span: *span,
            },
            Expression::Unary { operator, operand, span } => Expression::Unary {
                operator: *operator,
                operand: Box::new((**operand).duplicate()),
                span: *span,
            },
            Expression::FunctionCall { name, arguments, span } => {
                let mut copies: Vec<Expression> = Vec::new();
                let mut i: usize = 0;
                assert(arguments@.take(0) =~= Seq::<Expression>::empty());
                while i < arguments.len()
                    invariant
                        i <= arguments.len(),
                        self matches Expression::FunctionCall { arguments: a, .. } && a == arguments,
                        expressions_view(copies@) == expressions_view(arguments@.take(i as int)),
                    decreases arguments.len() - i,
                {
                    let ghost before = copies@;
                    let c = arguments[i].duplicate();
                    copies.push(c);
                    proof {
                        lemma_expressions_view_push(before, c);
                        lemma_expressions_view_push(arguments@.take(i as int), arguments@[i as int]);
                        assert(arguments@.take(i + 1) =~= arguments@.take(i as int).push(
                            arguments@[i as int],
                        ));
                    }
                    i += 1;
                }
                assert(arguments@.take(arguments@.len() as int) =~= arguments@);
                Expression::FunctionCall { name: name.duplicate(), arguments: copies, span: *span }
            },
        }
    }

    /// A copy of a sequence of expressions.
    pub fn duplicate_all(expressions: &Vec<Expression>) -> (r: Vec<Expression>)
        ensures
            expressions_view(r@) == expressions_view(expressions@),
    {
        let mut copies: Vec<Expression> = Vec::new();
        let mut i: usize = 0;
        assert(expressions@.take(0) =~= Seq::<Expression>::empty());
        while i < expressions.len()
            invariant
                i <= expressions.len(),
                expressions_view(copies@) == expressions_view(expressions@.take(i as int)),
            decreases expressions.len() - i,
        {
            let ghost before = copies@;
            let c = expressions[i].duplicate();
            copies.push(c);
            proof {
                lemma_expressions_view_push(before, c);
                lemma_expressions_view_push(expressions@.take(i as int), expressions@[i as int]);
                assert(expressions@.take(i + 1) =~= expressions@.take(i as int).push(
                    expressions@[i as int],
                ));
            }
            i += 1;
        }
        assert(expressions@.take(expressions@.len() as int) =~= expressions@);
        copies
    }

    /// The extent of the expression.
    pub fn extent(&self) -> (s: Span)
        ensures
            s == self@.span(),
    {
        match self {
            Expression::Identifier(id) => id.span,
            Expression::Literal { value, span } => *span,
            Expression::Binary { left, operator, right, span } => *span,
            Expression::Unary { operator, operand, span } => *span,
            Expression::FunctionCall { name, arguments, span } => *span,
        }
    }
}

impl Clone for Expression {
    fn clone(&self) -> (r: Expression)
        ensures
            r@ == self@,
    {
        self.duplicate()
    }
}

impl PlSqlStatement {
    /// A copy of the statement and of everything nested in it.
    pub fn duplicate(&self) -> (r: PlSqlStatement)
        ensures
            r@ == self@,
        decreases self, 0nat,
    {
        match self {
            PlSqlStatement::Assignment { target, value, span } => PlSqlStatement::Assignment {
                target: target.duplicate(),
                value: value.duplicate(),
                span: *span,
            },
            PlSqlStatement::If { condition, then_branch, else_branch, span } => {
                let else_copy = match else_branch {
                    Some(stmts) => Some(PlSqlStatement::duplicate_all(stmts)),
                    None => None,
                };
                PlSqlStatement::If {
                    condition: condition.duplicate(),
                    then_branch: PlSqlStatement::duplicate_all(then_branch),
                    else_branch: else_copy,
                    span: *span,
                }
            },
            PlSqlStatement::Loop { body, span } => PlSqlStatement::Loop {
                body: PlSqlStatement::duplicate_all(body),
                span: *span,
            },
            PlSqlStatement::Return { value, span } => {
                let value_copy = match value {
                    Some(e) => Some(e.duplicate()),
                    None => None,
                };
                PlSqlStatement::Return { value: value_copy, span: *span }
            },
            PlSqlStatement::Call { name, arguments, span } => PlSqlStatement::Call {
                name: name.duplicate(),
                arguments: Expression::duplicate_all(arguments),
                span: *span,
            },
        }
    }

    /// A copy of a statement sequence.
    pub fn duplicate_all(stmts: &Vec<PlSqlStatement>) -> (r: Vec<PlSqlStatement>)
        ensures
            r.len() == stmts.len(),
            statements_view(r@) == statements_view(stmts@),
        decreases stmts, 1nat,
    {
        let mut copies: Vec<PlSqlStatement> = Vec::new();
        let mut i: usize = 0;
        assert(stmts@.take(0) =~= Seq::<PlSqlStatement>::empty());
        while i < stmts.len()
            invariant
                i <= stmts.len(),
                copies.len() == i,
                statements_view(copies@) == statements_view(stmts@.take(i as int)),
            decreases stmts.len() - i,
        {
            let ghost before = copies@;
            let c = stmts[i].duplicate();
            copies.push(c);
            proof {
                lemma_statements_view_push(before, c);
                lemma_statements_view_push(stmts@.take(i as int), stmts@[i as int]);
                assert(stmts@.take(i + 1) =~= stmts@.take(i as int).push(stmts@[i as int]));
            }
            i += 1;
        }
        assert(stmts@.take(stmts@.len() as int) =~= stmts@);
        copies
    }
}

impl Clone for PlSqlStatement {
    fn clone(&self) -> (r: PlSqlStatement)
        ensures
            r@ == self@,
    {
        self.duplicate()
    }
}

} // verus!
