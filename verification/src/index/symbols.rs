//! Symbols and references, and their extraction from a syntax tree.
//!
//! Extraction walks the tree depth first. Every declaration becomes a symbol,
//! its children become symbols that name it as their parent, and every
//! assignment target and call target becomes a reference. What extraction
//! gives is fixed by `ast_symbols` and `ast_references`.

use crate::parser::ast::{
    AstNode, EntityNode, EnumerationNode, MarbleClientNode, MarbleProjectionNode, Parameter,
    ParameterMode, PlSqlDeclaration, PlSqlNode, PlSqlStatement, Span, StorageDefinition,
    StorageNode, TableConstraint, ViewDefinition, ViewsNode,
};
use crate::text::{chars_eq_str, to_chars};
use vstd::prelude::*;
use vstd::string::StringExecFns;

verus! {

/// What kind of thing a symbol names.
#[derive(Debug, Clone, Copy, PartialEq, Eq, Hash, Structural)]
pub enum SymbolKind {
    Package,
    Procedure,
    Function,
    Variable,
    Parameter,
    Type,
    Constant,
    Exception,
    Cursor,
    Entity,
    EntityAttribute,
    EntityKey,
    Enumeration,
    EnumerationValue,
    View,
    ViewColumn,
    Projection,
    ProjectionAttribute,
    ProjectionAction,
    Client,
    ClientLayout,
    ClientCommand,
}

impl SymbolKind {
    /// The kind as it reads in a message and in a stored row.
    pub open spec fn label(self) -> Seq<char> {
        match self {
            SymbolKind::Package => "Package"@,
            SymbolKind::Procedure => "Procedure"@,
            SymbolKind::Function => "Function"@,
            SymbolKind::Variable => "Variable"@,
            SymbolKind::Parameter => "Parameter"@,
            SymbolKind::Type => "Type"@,
            SymbolKind::Constant => "Constant"@,
            SymbolKind::Exception => "Exception"@,
            SymbolKind::Cursor => "Cursor"@,
            SymbolKind::Entity => "Entity"@,
            SymbolKind::EntityAttribute => "Entity Attribute"@,
            SymbolKind::EntityKey => "Entity Key"@,
            SymbolKind::Enumeration => "Enumeration"@,
            SymbolKind::EnumerationValue => "Enumeration Value"@,
            SymbolKind::View => "View"@,
            SymbolKind::ViewColumn => "View Column"@,
            SymbolKind::Projection => "Projection"@,
            SymbolKind::ProjectionAttribute => "Projection Attribute"@,
            SymbolKind::ProjectionAction => "Projection Action"@,
            SymbolKind::Client => "Client"@,
            SymbolKind::ClientLayout => "Client Layout"@,
            SymbolKind::ClientCommand => "Client Command"@,
        }
    }

    /// The kind whose label is `s`, letter for letter.
    pub open spec fn of_label(s: Seq<char>) -> Option<SymbolKind> {
        if s == "Package"@ {
            Some(SymbolKind::Package)
        } else if s == "Procedure"@ {
            Some(SymbolKind::Procedure)
        } else if s == "Function"@ {
            Some(SymbolKind::Function)
        } else if s == "Variable"@ {
            Some(SymbolKind::Variable)
        } else if s == "Parameter"@ {
            Some(SymbolKind::Parameter)
        } else if s == "Type"@ {
            Some(SymbolKind::Type)
        } else if s == "Constant"@ {
            Some(SymbolKind::Constant)
        } else if s == "Exception"@ {
            Some(SymbolKind::Exception)
        } else if s == "Cursor"@ {
            Some(SymbolKind::Cursor)
        } else if s == "Entity"@ {
            Some(SymbolKind::Entity)
        } else if s == "Entity Attribute"@ {
            Some(SymbolKind::EntityAttribute)
        } else if s == "Entity Key"@ {
            Some(SymbolKind::EntityKey)
        } else if s == "Enumeration"@ {
            Some(SymbolKind::Enumeration)
        } else if s == "Enumeration Value"@ {
            Some(SymbolKind::EnumerationValue)
        } else if s == "View"@ {
            Some(SymbolKind::View)
        } else if s == "View Column"@ {
            Some(SymbolKind::ViewColumn)
        } else if s == "Projection"@ {
            Some(SymbolKind::Projection)
        } else if s == "Projection Attribute"@ {
            Some(SymbolKind::ProjectionAttribute)
        } else if s == "Projection Action"@ {
            Some(SymbolKind::ProjectionAction)
        } else if s == "Client"@ {
            Some(SymbolKind::Client)
        } else if s == "Client Layout"@ {
            Some(SymbolKind::ClientLayout)
        } else if s == "Client Command"@ {
            Some(SymbolKind::ClientCommand)
        } else {
            None
        }
    }

    /// Executable form of `label`.
    pub fn label_str(&self) -> (r: &'static str)
        ensures
            r@ == self.label(),
    {
        match self {
            SymbolKind::Package => "Package",
            SymbolKind::Procedure => "Procedure",
            SymbolKind::Function => "Function",
            SymbolKind::Variable => "Variable",
            SymbolKind::Parameter => "Parameter",
            SymbolKind::Type => "Type",
            SymbolKind::Constant => "Constant",
            SymbolKind::Exception => "Exception",
            SymbolKind::Cursor => "Cursor",
            SymbolKind::Entity => "Entity",
            SymbolKind::EntityAttribute => "Entity Attribute",
            SymbolKind::EntityKey => "Entity Key",
            SymbolKind::Enumeration => "Enumeration",
            SymbolKind::EnumerationValue => "Enumeration Value",
            SymbolKind::View => "View",
            SymbolKind::ViewColumn => "View Column",
            SymbolKind::Projection => "Projection",
            SymbolKind::ProjectionAttribute => "Projection Attribute",
            SymbolKind::ProjectionAction => "Projection Action",
            SymbolKind::Client => "Client",
            SymbolKind::ClientLayout => "Client Layout",
            SymbolKind::ClientCommand => "Client Command",
        }
    }

    /// The kind as it reads in a message and in a stored row.
    pub fn to_string(&self) -> (r: String)
        ensures
            r@ == self.label(),
    {
        self.label_str().to_owned()
    }

    /// The kind that the label `s` names.
    pub fn from_label(s: &str) -> (r: Option<SymbolKind>)
        ensures
            r == SymbolKind::of_label(s@),
    {
        let v = to_chars(s);
        if chars_eq_str(&v, "Package") {
            Some(SymbolKind::Package)
        } else if chars_eq_str(&v, "Procedure") {
            Some(SymbolKind::Procedure)
        } else if chars_eq_str(&v, "Function") {
            Some(SymbolKind::Function)
        } else if chars_eq_str(&v, "Variable") {
            Some(SymbolKind::Variable)
        } else if chars_eq_str(&v, "Parameter") {
            Some(SymbolKind::Parameter)
        } else if chars_eq_str(&v, "Type") {
            Some(SymbolKind::Type)
        } else if chars_eq_str(&v, "Constant") {
            Some(SymbolKind::Constant)
        } else if chars_eq_str(&v, "Exception") {
            Some(SymbolKind::Exception)
        } else if chars_eq_str(&v, "Cursor") {
            Some(SymbolKind::Cursor)
        } else if chars_eq_str(&v, "Entity") {
            Some(SymbolKind::Entity)
        } else if chars_eq_str(&v, "Entity Attribute") {
            Some(SymbolKind::EntityAttribute)
        } else if chars_eq_str(&v, "Entity Key") {
            Some(SymbolKind::EntityKey)
        } else if chars_eq_str(&v, "Enumeration") {
            Some(SymbolKind::Enumeration)
        } else if chars_eq_str(&v, "Enumeration Value") {
            Some(SymbolKind::EnumerationValue)
        } else if chars_eq_str(&v, "View") {
            Some(SymbolKind::View)
        } else if chars_eq_str(&v, "View Column") {
            Some(SymbolKind::ViewColumn)
        } else if chars_eq_str(&v, "Projection") {
            Some(SymbolKind::Projection)
        } else if chars_eq_str(&v, "Projection Attribute") {
            Some(SymbolKind::ProjectionAttribute)
        } else if chars_eq_str(&v, "Projection Action") {
            Some(SymbolKind::ProjectionAction)
        } else if chars_eq_str(&v, "Client") {
            Some(SymbolKind::Client)
        } else if chars_eq_str(&v, "Client Layout") {
            Some(SymbolKind::ClientLayout)
        } else if chars_eq_str(&v, "Client Command") {
            Some(SymbolKind::ClientCommand)
        } else {
            None
        }
    }

    /// Every kind is found again from its label.
    pub proof fn lemma_label_round_trip(self)
        ensures
            SymbolKind::of_label(self.label()) == Some(self),
    {
        reveal_strlit("Package");
        assert("Package"@.len() == 7);
        assert("Package"@[1] == 'a');
        reveal_strlit("Procedure");
        assert("Procedure"@.len() == 9);
        assert("Procedure"@[1] == 'r');
        reveal_strlit("Function");
        assert("Function"@.len() == 8);
        assert("Function"@[1] == 'u');
        reveal_strlit("Variable");
        assert("Variable"@.len() == 8);
        assert("Variable"@[1] == 'a');
        reveal_strlit("Parameter");
        assert("Parameter"@.len() == 9);
        assert("Parameter"@[1] == 'a');
        reveal_strlit("Type");
        assert("Type"@.len() == 4);
        assert("Type"@[1] == 'y');
        reveal_strlit("Constant");
        assert("Constant"@.len() == 8);
        assert("Constant"@[1] == 'o');
        reveal_strlit("Exception");
        assert("Exception"@.len() == 9);
        assert("Exception"@[1] == 'x');
        reveal_strlit("Cursor");
        assert("Cursor"@.len() == 6);
        assert("Cursor"@[1] == 'u');
        reveal_strlit("Entity");
        assert("Entity"@.len() == 6);
        assert("Entity"@[1] == 'n');
        reveal_strlit("Entity Attribute");
        assert("Entity Attribute"@.len() == 16);
        assert("Entity Attribute"@[1] == 'n');
        reveal_strlit("Entity Key");
        assert("Entity Key"@.len() == 10);
        assert("Entity Key"@[1] == 'n');
        reveal_strlit("Enumeration");
        assert("Enumeration"@.len() == 11);
        assert("Enumeration"@[1] == 'n');
        reveal_strlit("Enumeration Value");
        assert("Enumeration Value"@.len() == 17);
        assert("Enumeration Value"@[1] == 'n');
        reveal_strlit("View");
        assert("View"@.len() == 4);
        assert("View"@[1] == 'i');
        reveal_strlit("View Column");
        assert("View Column"@.len() == 11);
        assert("View Column"@[1] == 'i');
        reveal_strlit("Projection");
        assert("Projection"@.len() == 10);
        assert("Projection"@[1] == 'r');
        reveal_strlit("Projection Attribute");
        assert("Projection Attribute"@.len() == 20);
        assert("Projection Attribute"@[1] == 'r');
        reveal_strlit("Projection Action");
        assert("Projection Action"@.len() == 17);
        assert("Projection Action"@[1] == 'r');
        reveal_strlit("Client");
        assert("Client"@.len() == 6);
        assert("Client"@[1] == 'l');
        reveal_strlit("Client Layout");
        assert("Client Layout"@.len() == 13);
        assert("Client Layout"@[1] == 'l');
        reveal_strlit("Client Command");
        assert("Client Command"@.len() == 14);
        assert("Client Command"@[1] == 'l');
    }
}

/// How a reference uses the name it points at.
#[derive(Debug, Clone, Copy, PartialEq, Eq, Hash, Structural)]
pub enum ReferenceKind {
    Definition,
    Usage,
    Call,
    Assignment,
    Declaration,
}

impl ReferenceKind {
    /// The kind as it reads in a message and in a stored row.
    pub open spec fn label(self) -> Seq<char> {
        match self {
            ReferenceKind::Definition => "Definition"@,
            ReferenceKind::Usage => "Usage"@,
            ReferenceKind::Call => "Call"@,
            ReferenceKind::Assignment => "Assignment"@,
            ReferenceKind::Declaration => "Declaration"@,
        }
    }

    /// The kind whose label is `s`, letter for letter.
    pub open spec fn of_label(s: Seq<char>) -> Option<ReferenceKind> {
        if s == "Definition"@ {
            Some(ReferenceKind::Definition)
        } else if s == "Usage"@ {
            Some(ReferenceKind::Usage)
        } else if s == "Call"@ {
            Some(ReferenceKind::Call)
        } else if s == "Assignment"@ {
            Some(ReferenceKind::Assignment)
        } else if s == "Declaration"@ {
            Some(ReferenceKind::Declaration)
        } else {
            None
        }
    }

    /// Executable form of `label`.
    pub fn label_str(&self) -> (r: &'static str)
        ensures
            r@ == self.label(),
    {
        match self {
            ReferenceKind::Definition => "Definition",
            ReferenceKind::Usage => "Usage",
            ReferenceKind::Call => "Call",
            ReferenceKind::Assignment => "Assignment",
            ReferenceKind::Declaration => "Declaration",
        }
    }

    /// The kind as it reads in a message and in a stored row.
    pub fn to_string(&self) -> (r: String)
        ensures
            r@ == self.label(),
    {
        self.label_str().to_owned()
    }

    /// The kind that the label `s` names.
    pub fn from_label(s: &str) -> (r: Option<ReferenceKind>)
        ensures
            r == ReferenceKind::of_label(s@),
    {
        let v = to_chars(s);
        if chars_eq_str(&v, "Definition") {
            Some(ReferenceKind::Definition)
        } else if chars_eq_str(&v, "Usage") {
            Some(ReferenceKind::Usage)
        } else if chars_eq_str(&v, "Call") {
            Some(ReferenceKind::Call)
        } else if chars_eq_str(&v, "Assignment") {
            Some(ReferenceKind::Assignment)
        } else if chars_eq_str(&v, "Declaration") {
            Some(ReferenceKind::Declaration)
        } else {
            None
        }
    }

    /// Every kind is found again from its label.
    pub proof fn lemma_label_round_trip(self)
        ensures
            ReferenceKind::of_label(self.label()) == Some(self),
    {
        reveal_strlit("Definition");
        assert("Definition"@.len() == 10);
        assert("Definition"@[0] == 'D');
        reveal_strlit("Usage");
        assert("Usage"@.len() == 5);
        assert("Usage"@[0] == 'U');
        reveal_strlit("Call");
        assert("Call"@.len() == 4);
        assert("Call"@[0] == 'C');
        reveal_strlit("Assignment");
        assert("Assignment"@.len() == 10);
        assert("Assignment"@[0] == 'A');
        reveal_strlit("Declaration");
        assert("Declaration"@.len() == 11);
        assert("Declaration"@[0] == 'D');
    }
}

/// A stored symbol as queries hand it out. The parent is named by its id.
#[derive(Debug, Clone, PartialEq)]
pub struct SymbolInfo {
    pub id: Option<i64>,
    pub name: String,
    pub kind: SymbolKind,
    pub span: Span,
    pub file_path: String,
    pub signature: Option<String>,
    pub documentation: Option<String>,
    pub parent: Option<i64>,
}

/// A stored reference together with the symbol that owns it.
#[derive(Debug, Clone, PartialEq)]
pub struct SymbolReference {
    pub symbol: SymbolInfo,
    pub span: Span,
    pub file_path: String,
    pub reference_kind: ReferenceKind,
}

/// A symbol found in a syntax tree, before a store has given it an id. The
/// parent is named by its index in the sequence of records of the tree.
#[derive(Debug, Clone, PartialEq)]
pub struct SymbolRecord {
    pub name: String,
    pub kind: SymbolKind,
    pub span: Span,
    pub parent: Option<usize>,
    pub signature: Option<String>,
    pub documentation: Option<String>,
}

/// A symbol record with its texts read as characters.
pub struct SymbolModel {
    pub name: Seq<char>,
    pub kind: SymbolKind,
    pub span: Span,
    pub parent: Option<int>,
    pub signature: Option<Seq<char>>,
    pub documentation: Option<Seq<char>>,
}

/// The characters of an optional string.
pub open spec fn text_of(o: Option<String>) -> Option<Seq<char>> {
    match o {
        Some(s) => Some(s@),
        None => None,
    }
}

impl View for SymbolRecord {
    type V = SymbolModel;

    open spec fn view(&self) -> SymbolModel {
        SymbolModel {
            name: self.name@,
            kind: self.kind,
            span: self.span,
            parent: match self.parent {
                Some(p) => Some(p as int),
                None => None,
            },
            signature: text_of(self.signature),
            documentation: text_of(self.documentation),
        }
    }
}

/// The views of a sequence of symbol records.
pub open spec fn record_views(rs: Seq<SymbolRecord>) -> Seq<SymbolModel> {
    Seq::new(rs.len(), |k: int| rs[k]@)
}

/// A use of a name found in a syntax tree: where it stands and how the name
/// is used.
#[derive(Debug, Clone, Copy, PartialEq, Eq, Structural)]
pub struct ReferenceRecord {
    pub span: Span,
    pub kind: ReferenceKind,
}

/// A symbol without a parent.
pub open spec fn top_symbol(
    name: Seq<char>,
    kind: SymbolKind,
    span: Span,
    signature: Option<Seq<char>>,
) -> SymbolModel {
    SymbolModel { name, kind, span, parent: None, signature, documentation: None }
}

/// A symbol whose parent is the record at index `parent`.
pub open spec fn child_symbol(
    name: Seq<char>,
    kind: SymbolKind,
    span: Span,
    signature: Option<Seq<char>>,
    parent: int,
) -> SymbolModel {
    SymbolModel { name, kind, span, parent: Some(parent), signature, documentation: None }
}

/// How a parameter mode reads in a signature.
pub open spec fn mode_label(m: ParameterMode) -> Seq<char> {
    match m {
        ParameterMode::In => "In"@,
        ParameterMode::Out => "Out"@,
        ParameterMode::InOut => "InOut"@,
    }
}

/// A parameter's part of a routine's signature: name, mode and type.
pub open spec fn parameter_fragment(p: Parameter) -> Seq<char> {
    p.name.name@ + " "@ + mode_label(p.mode) + " "@ + p.param_type.name@
}

/// The fragments of `ps`, separated by a comma and a space.
pub open spec fn parameter_fragments(ps: Seq<Parameter>) -> Seq<char>
    decreases ps.len(),
{
    if ps.len() == 0 {
        Seq::empty()
    } else if ps.len() == 1 {
        parameter_fragment(ps[0])
    } else {
        parameter_fragments(ps.drop_last()) + ", "@ + parameter_fragment(ps.last())
    }
}

/// The signature of a procedure: `name(fragments)`.
pub open spec fn procedure_signature(name: Seq<char>, ps: Seq<Parameter>) -> Seq<char> {
    name + "("@ + parameter_fragments(ps) + ")"@
}

/// The signature of a function: `name(fragments) RETURN type`.
pub open spec fn function_signature(name: Seq<char>, ps: Seq<Parameter>, ret: Seq<char>) -> Seq<
    char,
> {
    procedure_signature(name, ps) + " RETURN "@ + ret
}

/// The signature of a parameter's own symbol: type and mode.
pub open spec fn parameter_signature(p: Parameter) -> Seq<char> {
    p.param_type.name@ + " "@ + mode_label(p.mode)
}

/// The symbols of the parameters `ps`, children of the record at `parent`.
pub open spec fn parameter_symbols(ps: Seq<Parameter>, parent: int) -> Seq<SymbolModel> {
    Seq::new(
        ps.len(),
        |k: int|
            child_symbol(
                ps[k].name.name@,
                SymbolKind::Parameter,
                ps[k].span,
                Some(parameter_signature(ps[k])),
                parent,
            ),
    )
}

/// The symbol of a declaration, child of the record at `parent`.
pub open spec fn declaration_symbol(d: PlSqlDeclaration, parent: int) -> SymbolModel {
    match d {
        PlSqlDeclaration::Variable { name, var_type, default_value, span } => child_symbol(
            name.name@,
            SymbolKind::Variable,
            span,
            Some(var_type.name@),
            parent,
        ),
        PlSqlDeclaration::Cursor { name, query, span } => child_symbol(
            name.name@,
            SymbolKind::Cursor,
            span,
            Some(query@),
            parent,
        ),
        PlSqlDeclaration::Exception { name, span } => child_symbol(
            name.name@,
            SymbolKind::Exception,
            span,
            None,
            parent,
        ),
    }
}

/// The symbols of the declarations `ds`, children of the record at `parent`.
pub open spec fn declaration_symbols(ds: Seq<PlSqlDeclaration>, parent: int) -> Seq<SymbolModel> {
    Seq::new(ds.len(), |k: int| declaration_symbol(ds[k], parent))
}

/// The symbols of a construct of the procedural dialect: the construct, then
/// its declarations or parameters.
pub open spec fn plsql_symbols(n: PlSqlNode) -> Seq<SymbolModel> {
    match n {
        PlSqlNode::Package { name, component, annotations, declarations, body, span } => seq![
            top_symbol(name.name@, SymbolKind::Package, span, None),
        ] + declaration_symbols(declarations@, 0),
        PlSqlNode::Procedure {
            name,
            visibility,
            annotations,
            parameters,
            body,
            directives,
            span,
        } => seq![
            top_symbol(
                name.name@,
                SymbolKind::Procedure,
                span,
                Some(procedure_signature(name.name@, parameters@)),
            ),
        ] + parameter_symbols(parameters@, 0),
        PlSqlNode::Function {
            name,
            visibility,
            annotations,
            parameters,
            return_type,
            body,
            directives,
            span,
        } => seq![
            top_symbol(
                name.name@,
                SymbolKind::Function,
                span,
                Some(function_signature(name.name@, parameters@, return_type.name@)),
            ),
        ] + parameter_symbols(parameters@, 0),
    }
}

/// The references of a statement: its own, where it is an assignment or a
/// call, and those of the statements nested in it, in source order.
pub open spec fn statement_references(s: PlSqlStatement) -> Seq<ReferenceRecord>
    decreases s, 0nat,
{
    match s {
        PlSqlStatement::Assignment { target, value, span } => seq![
            ReferenceRecord { span: target.span, kind: ReferenceKind::Assignment },
        ],
        PlSqlStatement::If { condition, then_branch, else_branch, span } => {
            statements_references(then_branch@) + (match else_branch {
                Some(stmts) => statements_references(stmts@),
                None => Seq::empty(),
            })
        },
        PlSqlStatement::Loop { body, span } => statements_references(body@),
        PlSqlStatement::Return { value, span } => Seq::empty(),
        PlSqlStatement::Call { name, arguments, span } => seq![
            ReferenceRecord { span: name.span, kind: ReferenceKind::Call },
        ],
    }
}

/// The references of a sequence of statements, in source order.
pub open spec fn statements_references(l: Seq<PlSqlStatement>) -> Seq<ReferenceRecord>
    decreases l, 1nat,
{
    if l.len() == 0 {
        Seq::empty()
    } else {
        statements_references(l.drop_last()) + statement_references(l.last())
    }
}

/// The references of a construct of the procedural dialect: those of its
/// body.
pub open spec fn plsql_references(n: PlSqlNode) -> Seq<ReferenceRecord> {
    match n {
        PlSqlNode::Package { name, component, annotations, declarations, body, span } => match body {
            Some(stmts) => statements_references(stmts@),
            None => Seq::empty(),
        },
        PlSqlNode::Procedure {
            name,
            visibility,
            annotations,
            parameters,
            body,
            directives,
            span,
        } => statements_references(body@),
        PlSqlNode::Function {
            name,
            visibility,
            annotations,
            parameters,
            return_type,
            body,
            directives,
            span,
        } => statements_references(body@),
    }
}

/// The symbols of an entity: the entity, its attributes, its keys.
pub open spec fn entity_symbols(n: EntityNode) -> Seq<SymbolModel> {
    seq![top_symbol(n.entity_name.name@, SymbolKind::Entity, n.span, None)] + Seq::new(
        n.attributes@.len(),
        |k: int|
            child_symbol(
                n.attributes@[k].name.name@,
                SymbolKind::EntityAttribute,
                n.attributes@[k].span,
                Some(n.attributes@[k].data_type@),
                0,
            ),
    ) + Seq::new(
        n.keys@.len(),
        |k: int|
            child_symbol(n.keys@[k].name.name@, SymbolKind::EntityKey, n.keys@[k].span, None, 0),
    )
}

/// The signature of an enumeration value: its client value, or nothing.
pub open spec fn client_value_text(o: Option<String>) -> Seq<char> {
    match o {
        Some(s) => s@,
        None => Seq::empty(),
    }
}

/// The symbols of an enumeration: the enumeration, then its values.
pub open spec fn enumeration_symbols(n: EnumerationNode) -> Seq<SymbolModel> {
    seq![top_symbol(n.enumeration_name.name@, SymbolKind::Enumeration, n.span, None)] + Seq::new(
        n.values@.len(),
        |k: int|
            child_symbol(
                n.values@[k].name.name@,
                SymbolKind::EnumerationValue,
                n.values@[k].span,
                Some(client_value_text(n.values@[k].client_value)),
                0,
            ),
    )
}

/// The symbols of one view, the view standing at index `at`: the view, then
/// its columns.
pub open spec fn view_symbols(v: ViewDefinition, at: int) -> Seq<SymbolModel> {
    seq![top_symbol(v.name.name@, SymbolKind::View, v.span, None)] + Seq::new(
        v.columns@.len(),
        |k: int|
            child_symbol(
                v.columns@[k].name.name@,
                SymbolKind::ViewColumn,
                v.columns@[k].span,
                text_of(v.columns@[k].datatype),
                at,
            ),
    )
}

/// The symbols of a sequence of views, view by view.
pub open spec fn views_symbols(vs: Seq<ViewDefinition>) -> Seq<SymbolModel>
    decreases vs.len(),
{
    if vs.len() == 0 {
        Seq::empty()
    } else {
        let before = views_symbols(vs.drop_last());
        before + view_symbols(vs.last(), before.len() as int)
    }
}

/// The symbol of a table constraint, child of the record at `parent`.
pub open spec fn constraint_symbol(c: TableConstraint, parent: int) -> SymbolModel {
    match c {
        TableConstraint::PrimaryKey { name, columns, span } => child_symbol(
            name.name@,
            SymbolKind::EntityKey,
            span,
            None,
            parent,
        ),
        TableConstraint::UniqueConstraint { name, columns, span } => child_symbol(
            name.name@,
            SymbolKind::EntityKey,
            span,
            None,
            parent,
        ),
    }
}

/// The symbols of one storage definition standing at index `at`. A table
/// gives itself, its columns and its constraints; an index or a sequence
/// gives itself. Tables, indexes and sequences are entered as entities,
/// columns as entity attributes, constraints as entity keys.
pub open spec fn definition_symbols(d: StorageDefinition, at: int) -> Seq<SymbolModel> {
    match d {
        StorageDefinition::Table { name, columns, constraints, span } => seq![
            top_symbol(name.name@, SymbolKind::Entity, span, None),
        ] + Seq::new(
            columns@.len(),
            |k: int|
                child_symbol(
                    columns@[k].name.name@,
                    SymbolKind::EntityAttribute,
                    columns@[k].span,
                    Some(columns@[k].data_type@),
                    at,
                ),
        ) + Seq::new(constraints@.len(), |k: int| constraint_symbol(constraints@[k], at)),
        StorageDefinition::Index { name, is_unique, table_name, columns, span } => seq![
            top_symbol(name.name@, SymbolKind::Entity, span, None),
        ],
        StorageDefinition::Sequence { name, properties, span } => seq![
            top_symbol(name.name@, SymbolKind::Entity, span, None),
        ],
    }
}

/// The symbols of a sequence of storage definitions, one after the other.
pub open spec fn definitions_symbols(ds: Seq<StorageDefinition>) -> Seq<SymbolModel>
    decreases ds.len(),
{
    if ds.len() == 0 {
        Seq::empty()
    } else {
        let before = definitions_symbols(ds.drop_last());
        before + definition_symbols(ds.last(), before.len() as int)
    }
}

/// The symbols of a projection: the projection, its attributes, its actions.
pub open spec fn projection_symbols(n: MarbleProjectionNode) -> Seq<SymbolModel> {
    seq![top_symbol(n.name.name@, SymbolKind::Projection, n.span, None)] + Seq::new(
        n.attributes@.len(),
        |k: int|
            child_symbol(
                n.attributes@[k].name.name@,
                SymbolKind::ProjectionAttribute,
                n.attributes@[k].span,
                text_of(n.attributes@[k].data_type),
                0,
            ),
    ) + Seq::new(
        n.actions@.len(),
        |k: int|
            child_symbol(
                n.actions@[k].name.name@,
                SymbolKind::ProjectionAction,
                n.actions@[k].span,
                None,
                0,
            ),
    )
}

/// The symbols of a client: the client, then its commands.
pub open spec fn client_symbols(n: MarbleClientNode) -> Seq<SymbolModel> {
    seq![top_symbol(n.name.name@, SymbolKind::Client, n.span, None)] + Seq::new(
        n.commands@.len(),
        |k: int|
            child_symbol(
                n.commands@[k].name.name@,
                SymbolKind::ClientCommand,
                n.commands@[k].span,
                Some(n.commands@[k].action@),
                0,
            ),
    )
}

/// The symbols of a syntax tree, in depth-first order.
pub open spec fn ast_symbols(ast: AstNode) -> Seq<SymbolModel> {
    match ast {
        AstNode::PlSql(n) => plsql_symbols(n),
        AstNode::Entity(n) => entity_symbols(n),
        AstNode::Enumeration(n) => enumeration_symbols(n),
        AstNode::Views(n) => views_symbols(n.views@),
        AstNode::Storage(n) => definitions_symbols(n.definitions@),
        AstNode::MarbleProjection(n) => projection_symbols(n),
        AstNode::MarbleClient(n) => client_symbols(n),
    }
}

/// The references of a syntax tree, in source order. Only the procedural
/// dialect has any.
pub open spec fn ast_references(ast: AstNode) -> Seq<ReferenceRecord> {
    match ast {
        AstNode::PlSql(n) => plsql_references(n),
        _ => Seq::empty(),
    }
}

fn mode_name(m: ParameterMode) -> (r: &'static str)
    ensures
        r@ == mode_label(m),
{
    match m {
        ParameterMode::In => "In",
        ParameterMode::Out => "Out",
        ParameterMode::InOut => "InOut",
    }
}

fn clone_text(o: &Option<String>) -> (r: Option<String>)
    ensures
        text_of(r) == text_of(*o),
{
    match o {
        Some(s) => Some(s.clone()),
        None => None,
    }
}

/// Collects the symbols and references of a syntax tree.
pub struct SymbolIndexer {
    pub symbols: Vec<SymbolRecord>,
    pub references: Vec<ReferenceRecord>,
}

impl SymbolIndexer {
    /// An indexer that holds nothing.
    pub fn new() -> (r: SymbolIndexer)
        ensures
            r.symbols@.len() == 0,
            r.references@.len() == 0,
    {
        SymbolIndexer { symbols: Vec::new(), references: Vec::new() }
    }

    /// Extracts the symbols and references of `ast`, in place of whatever the
    /// indexer held.
    pub fn index_ast(&mut self, ast: &AstNode)
        ensures
            record_views(final(self).symbols@) == ast_symbols(*ast),
            final(self).references@ == ast_references(*ast),
    {
        self.symbols = Vec::new();
        self.references = Vec::new();
        assert(record_views(self.symbols@) =~= Seq::<SymbolModel>::empty());
        match ast {
            AstNode::PlSql(node) => self.index_plsql_node(node),
            AstNode::Entity(node) => self.index_entity_node(node),
            AstNode::Enumeration(node) => self.index_enumeration_node(node),
            AstNode::Views(node) => self.index_views_node(node),
            AstNode::Storage(node) => self.index_storage_node(node),
            AstNode::MarbleProjection(node) => self.index_marble_projection_node(node),
            AstNode::MarbleClient(node) => self.index_marble_client_node(node),
        }
    }

    fn index_plsql_node(&mut self, node: &PlSqlNode)
        requires
            old(self).symbols@.len() == 0,
            old(self).references@.len() == 0,
        ensures
            record_views(final(self).symbols@) == plsql_symbols(*node),
            final(self).references@ == plsql_references(*node),
    {
        assert(record_views(self.symbols@) =~= Seq::<SymbolModel>::empty());
        match node {
            PlSqlNode::Package { name, component, annotations, declarations, body, span } => {
                self.store_symbol(name.name.as_str(), SymbolKind::Package, *span, None, None);
                let mut i: usize = 0;
                while i < declarations.len()
                    invariant
                        i <= declarations.len(),
                        self.references@.len() == 0,
                        record_views(self.symbols@) == seq![
                            top_symbol(name.name@, SymbolKind::Package, *span, None),
                        ] + declaration_symbols(declarations@.take(i as int), 0),
                    decreases declarations.len() - i,
                {
                    self.index_plsql_declaration(&declarations[i], 0);
                    assert(declaration_symbols(declarations@.take(i + 1), 0)
                        =~= declaration_symbols(declarations@.take(i as int), 0).push(
                        declaration_symbol(declarations@[i as int], 0),
                    ));
                    i += 1;
                }
                assert(declarations@.take(declarations@.len() as int) =~= declarations@);
                match body {
                    Some(stmts) => {
                        self.index_statements(stmts);
                    },
                    None => {},
                }
            },
            PlSqlNode::Procedure {
                name,
                visibility,
                annotations,
                parameters,
                body,
                directives,
                span,
            } => {
                let signature = SymbolIndexer::build_procedure_signature(
                    name.name.as_str(),
                    parameters,
                );
                self.store_symbol(
                    name.name.as_str(),
                    SymbolKind::Procedure,
                    *span,
                    None,
                    Some(signature),
                );
                self.index_parameters(parameters, 0);
                self.index_statements(body);
            },
            PlSqlNode::Function {
                name,
                visibility,
                annotations,
                parameters,
                return_type,
                body,
                directives,
                span,
            } => {
                let signature = SymbolIndexer::build_function_signature(
                    name.name.as_str(),
                    parameters,
                    return_type.name.as_str(),
                );
                self.store_symbol(
                    name.name.as_str(),
                    SymbolKind::Function,
                    *span,
                    None,
                    Some(signature),
                );
                self.index_parameters(parameters, 0);
                self.index_statements(body);
            },
        }
    }

    fn index_plsql_declaration(&mut self, declaration: &PlSqlDeclaration, parent: usize)
        ensures
            record_views(final(self).symbols@) == record_views(old(self).symbols@).push(
                declaration_symbol(*declaration, parent as int),
            ),
            final(self).references@ == old(self).references@,
    {
        match declaration {
            PlSqlDeclaration::Variable { name, var_type, default_value, span } => {
                self.store_symbol(
                    name.name.as_str(),
                    SymbolKind::Variable,
                    *span,
                    Some(parent),
                    Some(var_type.name.clone()),
                );
            },
            PlSqlDeclaration::Cursor { name, query, span } => {
                self.store_symbol(
                    name.name.as_str(),
                    SymbolKind::Cursor,
                    *span,
                    Some(parent),
                    Some(query.clone()),
                );
            },
            PlSqlDeclaration::Exception { name, span } => {
                self.store_symbol(
                    name.name.as_str(),
                    SymbolKind::Exception,
                    *span,
                    Some(parent),
                    None,
                );
            },
        }
    }

    fn index_plsql_statement(&mut self, statement: &PlSqlStatement)
        ensures
            final(self).symbols@ == old(self).symbols@,
            final(self).references@ == old(self).references@ + statement_references(*statement),
        decreases statement, 0nat,
    {
        match statement {
            PlSqlStatement::Assignment { target, value, span } => {
                self.store_reference(target.span, ReferenceKind::Assignment);
            },
            PlSqlStatement::If { condition, then_branch, else_branch, span } => {
                let ghost start = self.references@;
                self.index_statements(then_branch);
                match else_branch {
                    Some(stmts) => {
                        self.index_statements(stmts);
                        assert(self.references@ =~= start + (statements_references(then_branch@)
                            + statements_references(stmts@)));
                    },
                    None => {
                        assert(self.references@ =~= start + (statements_references(then_branch@)
                            + Seq::<ReferenceRecord>::empty()));
                    },
                }
            },
            PlSqlStatement::Loop { body, span } => {
                self.index_statements(body);
            },
            PlSqlStatement::Return { value, span } => {
                assert(self.references@ =~= self.references@ + Seq::<ReferenceRecord>::empty());
            },
            PlSqlStatement::Call { name, arguments, span } => {
                self.store_reference(name.span, ReferenceKind::Call);
            },
        }
    }

    fn index_statements(&mut self, statements: &Vec<PlSqlStatement>)
        ensures
            final(self).symbols@ == old(self).symbols@,
            final(self).references@ == old(self).references@ + statements_references(statements@),
        decreases statements, 1nat,
    {
        let ghost start = self.references@;
        let ghost syms = self.symbols@;
        let mut i: usize = 0;
        assert(self.references@ =~= start + statements_references(statements@.take(0)));
        while i < statements.len()
            invariant
                i <= statements.len(),
                self.symbols@ == syms,
                self.references@ == start + statements_references(statements@.take(i as int)),
            decreases statements.len() - i,
        {
            self.index_plsql_statement(&statements[i]);
            proof {
                let next = statements@.take(i + 1);
                assert(next.drop_last() =~= statements@.take(i as int));
                assert(next.last() == statements@[i as int]);
                assert(self.references@ =~= start + statements_references(next));
            }
            i += 1;
        }
        assert(statements@.take(statements@.len() as int) =~= statements@);
    }

    fn index_parameters(&mut self, parameters: &Vec<Parameter>, parent: usize)
        ensures
            record_views(final(self).symbols@) == record_views(old(self).symbols@)
                + parameter_symbols(parameters@, parent as int),
            final(self).references@ == old(self).references@,
    {
        let ghost start = record_views(self.symbols@);
        let ghost refs = self.references@;
        let mut i: usize = 0;
        assert(record_views(self.symbols@) =~= start + parameter_symbols(
            parameters@.take(0),
            parent as int,
        ));
        while i < parameters.len()
            invariant
                i <= parameters.len(),
                self.references@ == refs,
                record_views(self.symbols@) == start + parameter_symbols(
                    parameters@.take(i as int),
                    parent as int,
                ),
            decreases parameters.len() - i,
        {
            self.index_parameter(&parameters[i], parent);
            assert(record_views(self.symbols@) =~= start + parameter_symbols(
                parameters@.take(i + 1),
                parent as int,
            ));
            i += 1;
        }
        assert(parameters@.take(parameters@.len() as int) =~= parameters@);
    }

    fn index_parameter(&mut self, parameter: &Parameter, parent: usize)
        ensures
            record_views(final(self).symbols@) == record_views(old(self).symbols@).push(
                child_symbol(
                    parameter.name.name@,
                    SymbolKind::Parameter,
                    parameter.span,
                    Some(parameter_signature(*parameter)),
                    parent as int,
                ),
            ),
            final(self).references@ == old(self).references@,
    {
        let mut signature = parameter.param_type.name.clone();
        signature.append(" ");
        signature.append(mode_name(parameter.mode));
        self.store_symbol(
            parameter.name.name.as_str(),
            SymbolKind::Parameter,
            parameter.span,
            Some(parent),
            Some(signature),
        );
    }

    #[verifier::loop_isolation(false)]
    fn index_entity_node(&mut self, node: &EntityNode)
        requires
            old(self).symbols@.len() == 0,
            old(self).references@.len() == 0,
        ensures
            record_views(final(self).symbols@) == entity_symbols(*node),
            final(self).references@.len() == 0,
    {
        assert(record_views(self.symbols@) =~= Seq::<SymbolModel>::empty());
        self.store_symbol(
            node.entity_name.name.as_str(),
            SymbolKind::Entity,
            node.span,
            None,
            None,
        );
        let ghost top = record_views(self.symbols@);
        let ghost attrs = Seq::new(
            node.attributes@.len(),
            |k: int|
                child_symbol(
                    node.attributes@[k].name.name@,
                    SymbolKind::EntityAttribute,
                    node.attributes@[k].span,
                    Some(node.attributes@[k].data_type@),
                    0,
                ),
        );
        let ghost keys = Seq::new(
            node.keys@.len(),
            |k: int|
                child_symbol(
                    node.keys@[k].name.name@,
                    SymbolKind::EntityKey,
                    node.keys@[k].span,
                    None,
                    0,
                ),
        );
        let mut i: usize = 0;
        assert(record_views(self.symbols@) =~= top + attrs.take(0));
        while i < node.attributes.len()
            invariant
                i <= node.attributes.len(),
                attrs.len() == node.attributes@.len(),
                self.references@.len() == 0,
                record_views(self.symbols@) == top + attrs.take(i as int),
            decreases node.attributes.len() - i,
        {
            let a = &node.attributes[i];
            self.store_symbol(
                a.name.name.as_str(),
                SymbolKind::EntityAttribute,
                a.span,
                Some(0),
                Some(a.data_type.clone()),
            );
            assert(attrs.take(i + 1) =~= attrs.take(i as int).push(attrs[i as int]));
            assert(record_views(self.symbols@) =~= top + attrs.take(i + 1));
            i += 1;
        }
        assert(attrs.take(attrs.len() as int) =~= attrs);
        let mut j: usize = 0;
        assert(record_views(self.symbols@) =~= top + attrs + keys.take(0));
        while j < node.keys.len()
            invariant
                j <= node.keys.len(),
                keys.len() == node.keys@.len(),
                self.references@.len() == 0,
                record_views(self.symbols@) == top + attrs + keys.take(j as int),
            decreases node.keys.len() - j,
        {
            let key = &node.keys[j];
            self.store_symbol(key.name.name.as_str(), SymbolKind::EntityKey, key.span, Some(0), None);
            assert(keys.take(j + 1) =~= keys.take(j as int).push(keys[j as int]));
            assert(record_views(self.symbols@) =~= top + attrs + keys.take(j + 1));
            j += 1;
        }
        assert(keys.take(keys.len() as int) =~= keys);
    }

    #[verifier::loop_isolation(false)]
    fn index_enumeration_node(&mut self, node: &EnumerationNode)
        requires
            old(self).symbols@.len() == 0,
            old(self).references@.len() == 0,
        ensures
            record_views(final(self).symbols@) == enumeration_symbols(*node),
            final(self).references@.len() == 0,
    {
        assert(record_views(self.symbols@) =~= Seq::<SymbolModel>::empty());
        self.store_symbol(
            node.enumeration_name.name.as_str(),
            SymbolKind::Enumeration,
            node.span,
            None,
            None,
        );
        let ghost top = record_views(self.symbols@);
        let ghost values = Seq::new(
            node.values@.len(),
            |k: int|
                child_symbol(
                    node.values@[k].name.name@,
                    SymbolKind::EnumerationValue,
                    node.values@[k].span,
                    Some(client_value_text(node.values@[k].client_value)),
                    0,
                ),
        );
        let mut i: usize = 0;
        assert(record_views(self.symbols@) =~= top + values.take(0));
        while i < node.values.len()
            invariant
                i <= node.values.len(),
                values.len() == node.values@.len(),
                self.references@.len() == 0,
                record_views(self.symbols@) == top + values.take(i as int),
            decreases node.values.len() - i,
        {
            let v = &node.values[i];
            let signature = match &v.client_value {
                Some(s) => s.clone(),
                None => String::new(),
            };
            self.store_symbol(
                v.name.name.as_str(),
                SymbolKind::EnumerationValue,
                v.span,
                Some(0),
                Some(signature),
            );
            assert(values.take(i + 1) =~= values.take(i as int).push(values[i as int]));
            assert(record_views(self.symbols@) =~= top + values.take(i + 1));
            i += 1;
        }
        assert(values.take(values.len() as int) =~= values);
    }

    #[verifier::loop_isolation(false)]
    fn index_views_node(&mut self, node: &ViewsNode)
        requires
            old(self).symbols@.len() == 0,
            old(self).references@.len() == 0,
        ensures
            record_views(final(self).symbols@) == views_symbols(node.views@),
            final(self).references@.len() == 0,
    {
        assert(record_views(self.symbols@) =~= Seq::<SymbolModel>::empty());
        let mut i: usize = 0;
        assert(node.views@.take(0) =~= Seq::<ViewDefinition>::empty());
        while i < node.views.len()
            invariant
                i <= node.views.len(),
                self.references@.len() == 0,
                record_views(self.symbols@) == views_symbols(node.views@.take(i as int)),
            decreases node.views.len() - i,
        {
            let view = &node.views[i];
            let at: usize = self.symbols.len();
            let ghost before = record_views(self.symbols@);
            self.store_symbol(view.name.name.as_str(), SymbolKind::View, view.span, None, None);
            let ghost columns = Seq::new(
                view.columns@.len(),
                |k: int|
                    child_symbol(
                        view.columns@[k].name.name@,
                        SymbolKind::ViewColumn,
                        view.columns@[k].span,
                        text_of(view.columns@[k].datatype),
                        at as int,
                    ),
            );
            let ghost top = record_views(self.symbols@);
            let mut j: usize = 0;
            assert(record_views(self.symbols@) =~= top + columns.take(0));
            while j < view.columns.len()
                invariant
                    j <= view.columns.len(),
                    columns.len() == view.columns@.len(),
                    self.references@.len() == 0,
                    record_views(self.symbols@) == top + columns.take(j as int),
                decreases view.columns.len() - j,
            {
                let c = &view.columns[j];
                self.store_symbol(
                    c.name.name.as_str(),
                    SymbolKind::ViewColumn,
                    c.span,
                    Some(at),
                    clone_text(&c.datatype),
                );
                assert(columns.take(j + 1) =~= columns.take(j as int).push(columns[j as int]));
                assert(record_views(self.symbols@) =~= top + columns.take(j + 1));
                j += 1;
            }
            proof {
                assert(columns.take(columns.len() as int) =~= columns);
                let next = node.views@.take(i + 1);
                assert(next.drop_last() =~= node.views@.take(i as int));
                assert(next.last() == *view);
                assert(record_views(self.symbols@) =~= before + view_symbols(*view, at as int));
            }
            i += 1;
        }
        assert(node.views@.take(node.views@.len() as int) =~= node.views@);
    }

    #[verifier::loop_isolation(false)]
    fn index_storage_node(&mut self, node: &StorageNode)
        requires
            old(self).symbols@.len() == 0,
            old(self).references@.len() == 0,
        ensures
            record_views(final(self).symbols@) == definitions_symbols(node.definitions@),
            final(self).references@.len() == 0,
    {
        assert(record_views(self.symbols@) =~= Seq::<SymbolModel>::empty());
        let mut i: usize = 0;
        assert(node.definitions@.take(0) =~= Seq::<StorageDefinition>::empty());
        while i < node.definitions.len()
            invariant
                i <= node.definitions.len(),
                self.references@.len() == 0,
                record_views(self.symbols@) == definitions_symbols(
                    node.definitions@.take(i as int),
                ),
            decreases node.definitions.len() - i,
        {
            let definition = &node.definitions[i];
            let at: usize = self.symbols.len();
            let ghost before = record_views(self.symbols@);
            match definition {
                StorageDefinition::Table { name, columns, constraints, span } => {
                    self.store_symbol(name.name.as_str(), SymbolKind::Entity, *span, None, None);
                    let ghost top = record_views(self.symbols@);
                    let ghost cols = Seq::new(
                        columns@.len(),
                        |k: int|
                            child_symbol(
                                columns@[k].name.name@,
                                SymbolKind::EntityAttribute,
                                columns@[k].span,
                                Some(columns@[k].data_type@),
                                at as int,
                            ),
                    );
                    let ghost cons = Seq::new(
                        constraints@.len(),
                        |k: int| constraint_symbol(constraints@[k], at as int),
                    );
                    let mut j: usize = 0;
                    assert(record_views(self.symbols@) =~= top + cols.take(0));
                    while j < columns.len()
                        invariant
                            j <= columns.len(),
                            cols.len() == columns@.len(),
                            self.references@.len() == 0,
                            record_views(self.symbols@) == top + cols.take(j as int),
                        decreases columns.len() - j,
                    {
                        let c = &columns[j];
                        self.store_symbol(
                            c.name.name.as_str(),
                            SymbolKind::EntityAttribute,
                            c.span,
                            Some(at),
                            Some(c.data_type.clone()),
                        );
                        assert(cols.take(j + 1) =~= cols.take(j as int).push(cols[j as int]));
                        assert(record_views(self.symbols@) =~= top + cols.take(j + 1));
                        j += 1;
                    }
                    assert(cols.take(cols.len() as int) =~= cols);
                    let mut m: usize = 0;
                    assert(record_views(self.symbols@) =~= top + cols + cons.take(0));
                    while m < constraints.len()
                        invariant
                            m <= constraints.len(),
                            cons.len() == constraints@.len(),
                            self.references@.len() == 0,
                            record_views(self.symbols@) == top + cols + cons.take(m as int),
                        decreases constraints.len() - m,
                    {
                        match &constraints[m] {
                            TableConstraint::PrimaryKey { name, columns, span } => {
                                self.store_symbol(
                                    name.name.as_str(),
                                    SymbolKind::EntityKey,
                                    *span,
                                    Some(at),
                                    None,
                                );
                            },
                            TableConstraint::UniqueConstraint { name, columns, span } => {
                                self.store_symbol(
                                    name.name.as_str(),
                                    SymbolKind::EntityKey,
                                    *span,
                                    Some(at),
                                    None,
                                );
                            },
                        }
                        assert(cons.take(m + 1) =~= cons.take(m as int).push(cons[m as int]));
                        assert(record_views(self.symbols@) =~= top + cols + cons.take(m + 1));
                        m += 1;
                    }
                    assert(cons.take(cons.len() as int) =~= cons);
                    assert(record_views(self.symbols@) =~= before + definition_symbols(
                        *definition,
                        at as int,
                    ));
                },
                StorageDefinition::Index { name, is_unique, table_name, columns, span } => {
                    self.store_symbol(name.name.as_str(), SymbolKind::Entity, *span, None, None);
                    assert(record_views(self.symbols@) =~= before + definition_symbols(
                        *definition,
                        at as int,
                    ));
                },
                StorageDefinition::Sequence { name, properties, span } => {
                    self.store_symbol(name.name.as_str(), SymbolKind::Entity, *span, None, None);
                    assert(record_views(self.symbols@) =~= before + definition_symbols(
                        *definition,
                        at as int,
                    ));
                },
            }
            proof {
                let next = node.definitions@.take(i + 1);
                assert(next.drop_last() =~= node.definitions@.take(i as int));
                assert(next.last() == *definition);
            }
            i += 1;
        }
        assert(node.definitions@.take(node.definitions@.len() as int) =~= node.definitions@);
    }

    #[verifier::loop_isolation(false)]
    fn index_marble_projection_node(&mut self, node: &MarbleProjectionNode)
        requires
            old(self).symbols@.len() == 0,
            old(self).references@.len() == 0,
        ensures
            record_views(final(self).symbols@) == projection_symbols(*node),
            final(self).references@.len() == 0,
    {
        assert(record_views(self.symbols@) =~= Seq::<SymbolModel>::empty());
        self.store_symbol(node.name.name.as_str(), SymbolKind::Projection, node.span, None, None);
        let ghost top = record_views(self.symbols@);
        let ghost attrs = Seq::new(
            node.attributes@.len(),
            |k: int|
                child_symbol(
                    node.attributes@[k].name.name@,
                    SymbolKind::ProjectionAttribute,
                    node.attributes@[k].span,
                    text_of(node.attributes@[k].data_type),
                    0,
                ),
        );
        let ghost actions = Seq::new(
            node.actions@.len(),
            |k: int|
                child_symbol(
                    node.actions@[k].name.name@,
                    SymbolKind::ProjectionAction,
                    node.actions@[k].span,
                    None,
                    0,
                ),
        );
        let mut i: usize = 0;
        assert(record_views(self.symbols@) =~= top + attrs.take(0));
        while i < node.attributes.len()
            invariant
                i <= node.attributes.len(),
                attrs.len() == node.attributes@.len(),
                self.references@.len() == 0,
                record_views(self.symbols@) == top + attrs.take(i as int),
            decreases node.attributes.len() - i,
        {
            let a = &node.attributes[i];
            self.store_symbol(
                a.name.name.as_str(),
                SymbolKind::ProjectionAttribute,
                a.span,
                Some(0),
                clone_text(&a.data_type),
            );
            assert(attrs.take(i + 1) =~= attrs.take(i as int).push(attrs[i as int]));
            assert(record_views(self.symbols@) =~= top + attrs.take(i + 1));
            i += 1;
        }
        assert(attrs.take(attrs.len() as int) =~= attrs);
        let mut j: usize = 0;
        assert(record_views(self.symbols@) =~= top + attrs + actions.take(0));
        while j < node.actions.len()
            invariant
                j <= node.actions.len(),
                actions.len() == node.actions@.len(),
                self.references@.len() == 0,
                record_views(self.symbols@) == top + attrs + actions.take(j as int),
            decreases node.actions.len() - j,
        {
            let a = &node.actions[j];
            self.store_symbol(
                a.name.name.as_str(),
                SymbolKind::ProjectionAction,
                a.span,
                Some(0),
                None,
            );
            assert(actions.take(j + 1) =~= actions.take(j as int).push(actions[j as int]));
            assert(record_views(self.symbols@) =~= top + attrs + actions.take(j + 1));
            j += 1;
        }
        assert(actions.take(actions.len() as int) =~= actions);
    }

    #[verifier::loop_isolation(false)]
    fn index_marble_client_node(&mut self, node: &MarbleClientNode)
        requires
            old(self).symbols@.len() == 0,
            old(self).references@.len() == 0,
        ensures
            record_views(final(self).symbols@) == client_symbols(*node),
            final(self).references@.len() == 0,
    {
        assert(record_views(self.symbols@) =~= Seq::<SymbolModel>::empty());
        self.store_symbol(node.name.name.as_str(), SymbolKind::Client, node.span, None, None);
        let ghost top = record_views(self.symbols@);
        let ghost commands = Seq::new(
            node.commands@.len(),
            |k: int|
                child_symbol(
                    node.commands@[k].name.name@,
                    SymbolKind::ClientCommand,
                    node.commands@[k].span,
                    Some(node.commands@[k].action@),
                    0,
                ),
        );
        let mut i: usize = 0;
        assert(record_views(self.symbols@) =~= top + commands.take(0));
        while i < node.commands.len()
            invariant
                i <= node.commands.len(),
                commands.len() == node.commands@.len(),
                self.references@.len() == 0,
                record_views(self.symbols@) == top + commands.take(i as int),
            decreases node.commands.len() - i,
        {
            let c = &node.commands[i];
            self.store_symbol(
                c.name.name.as_str(),
                SymbolKind::ClientCommand,
                c.span,
                Some(0),
                Some(c.action.clone()),
            );
            assert(commands.take(i + 1) =~= commands.take(i as int).push(commands[i as int]));
            assert(record_views(self.symbols@) =~= top + commands.take(i + 1));
            i += 1;
        }
        assert(commands.take(commands.len() as int) =~= commands);
    }

    /// Adds a symbol record.
    fn store_symbol(
        &mut self,
        name: &str,
        kind: SymbolKind,
        span: Span,
        parent: Option<usize>,
        signature: Option<String>,
    )
        ensures
            record_views(final(self).symbols@) == record_views(old(self).symbols@).push(
                SymbolModel {
                    name: name@,
                    kind,
                    span,
                    parent: match parent {
                        Some(p) => Some(p as int),
                        None => None,
                    },
                    signature: text_of(signature),
                    documentation: None,
                },
            ),
            final(self).symbols@.len() == old(self).symbols@.len() + 1,
            final(self).references@ == old(self).references@,
    {
        let record = SymbolRecord {
            name: name.to_owned(),
            kind,
            span,
            parent,
            signature,
            documentation: None,
        };
        self.symbols.push(record);
        assert(record_views(self.symbols@) =~= record_views(old(self).symbols@).push(record@));
    }

    /// Adds a reference record.
    fn store_reference(&mut self, span: Span, kind: ReferenceKind)
        ensures
            final(self).symbols@ == old(self).symbols@,
            final(self).references@ == old(self).references@ + seq![ReferenceRecord { span, kind }],
    {
        self.references.push(ReferenceRecord { span, kind });
        assert(self.references@ =~= old(self).references@ + seq![ReferenceRecord { span, kind }]);
    }

    fn build_parameter_fragments(parameters: &Vec<Parameter>) -> (r: String)
        ensures
            r@ == parameter_fragments(parameters@),
    {
        let mut s = String::new();
        let mut i: usize = 0;
        assert(parameter_fragments(parameters@.take(0)) =~= Seq::<char>::empty());
        while i < parameters.len()
            invariant
                i <= parameters.len(),
                s@ == parameter_fragments(parameters@.take(i as int)),
            decreases parameters.len() - i,
        {
            let p = &parameters[i];
            let ghost before = s@;
            if i > 0 {
                s.append(", ");
            }
            s.append(p.name.name.as_str());
            s.append(" ");
            s.append(mode_name(p.mode));
            s.append(" ");
            s.append(p.param_type.name.as_str());
            proof {
                let next = parameters@.take(i + 1);
                assert(next.drop_last() =~= parameters@.take(i as int));
                assert(next.last() == *p);
                if i == 0 {
                    assert(next[0] == *p);
                    assert(s@ =~= parameter_fragment(*p));
                } else {
                    assert(s@ =~= before + ", "@ + parameter_fragment(*p));
                }
            }
            i += 1;
        }
        assert(parameters@.take(parameters@.len() as int) =~= parameters@);
        s
    }

    fn build_procedure_signature(name: &str, parameters: &Vec<Parameter>) -> (r: String)
        ensures
            r@ == procedure_signature(name@, parameters@),
    {
        let mut s = name.to_owned();
        s.append("(");
        let fragments = SymbolIndexer::build_parameter_fragments(parameters);
        s.append(fragments.as_str());
        s.append(")");
        s
    }

    fn build_function_signature(name: &str, parameters: &Vec<Parameter>, return_type: &str) -> (r:
        String)
        ensures
            r@ == function_signature(name@, parameters@, return_type@),
    {
        let mut s = SymbolIndexer::build_procedure_signature(name, parameters);
        s.append(" RETURN ");
        s.append(return_type);
        s
    }
}

} // verus!
