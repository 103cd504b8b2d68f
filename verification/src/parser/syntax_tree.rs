//! Syntax trees of a grammar-based parser, and their conversion to the
//! syntax tree of this library.
//!
//! A grammar-based parser hands out a generic tree: every node has a kind,
//! the text it covers, its place, and children. The conversion reads the
//! kinds that stand for packages, procedures, functions and entities, takes
//! the name from the first child of kind `identifier` and the annotations
//! from the children of kind `annotation`, and gives everything else the
//! form of a package without a name.

use crate::parser::ast::{
    AstNode, EntityNode, Identifier, IfsAnnotation, PlSqlNode, Position, Span,
    Type,
};
use crate::parser::parser::{determine_visibility, visibility_of, IdentifierView};
use crate::text::{chars_eq_str, to_chars};
use vstd::prelude::*;

verus! {

/// A place in a generic syntax tree: zero-based row and column, and the
/// byte offset.
#[derive(Debug, Clone, Copy, PartialEq, Eq, Structural)]
pub struct SyntaxPoint {
    pub row: usize,
    pub column: usize,
    pub byte: usize,
}

/// A node of a generic syntax tree.
#[derive(Debug, PartialEq)]
pub struct SyntaxNode {
    pub kind: String,
    pub text: String,
    pub start: SyntaxPoint,
    pub end: SyntaxPoint,
    pub children: Vec<SyntaxNode>,
}

/// `n + 1`, or the largest number where that does not fit.
pub open spec fn next_up(n: usize) -> usize {
    if n == usize::MAX {
        usize::MAX
    } else {
        (n + 1) as usize
    }
}

/// The position that a point of a generic tree stands for: rows and columns
/// count from one.
pub open spec fn position_of_point(p: SyntaxPoint) -> Position {
    Position { line: next_up(p.row), column: next_up(p.column), offset: p.byte }
}

/// The extent of a node.
pub open spec fn span_of_node(node: SyntaxNode) -> Span {
    Span { start: position_of_point(node.start), end: position_of_point(node.end) }
}

/// The index of the first of `children` whose kind is `identifier`, or
/// `None`.
pub open spec fn first_identifier(children: Seq<SyntaxNode>) -> Option<int>
    decreases children.len(),
{
    if children.len() == 0 {
        None
    } else {
        match first_identifier(children.drop_last()) {
            Some(k) => Some(k),
            None => if children.last().kind@ == "identifier"@ {
                Some(children.len() - 1)
            } else {
                None
            },
        }
    }
}

/// The annotation that a text spells, letter for letter.
pub open spec fn annotation_spelled(text: Seq<char>) -> Option<IfsAnnotation> {
    if text == "@Override"@ {
        Some(IfsAnnotation::Override)
    } else if text == "@Overtake"@ {
        Some(IfsAnnotation::Overtake)
    } else if text == "@UncheckedAccess"@ {
        Some(IfsAnnotation::UncheckedAccess)
    } else {
        None
    }
}

/// The annotations among `children`: those of kind `annotation` whose text
/// spells one, in their order.
pub open spec fn annotations_among(children: Seq<SyntaxNode>) -> Seq<IfsAnnotation>
    decreases children.len(),
{
    if children.len() == 0 {
        Seq::empty()
    } else {
        let before = annotations_among(children.drop_last());
        let c = children.last();
        if c.kind@ == "annotation"@ {
            match annotation_spelled(c.text@) {
                Some(a) => before.push(a),
                None => before,
            }
        } else {
            before
        }
    }
}

/// The name of a declaration node: its first child of kind `identifier`,
/// with that child's text and extent, or `fallback` with the extent of the
/// node.
pub open spec fn name_of_node(node: SyntaxNode, fallback: Seq<char>) -> IdentifierView {
    match first_identifier(node.children@) {
        Some(k) => IdentifierView {
            name: node.children@[k].text@,
            span: span_of_node(node.children@[k]),
        },
        None => IdentifierView { name: fallback, span: span_of_node(node) },
    }
}

/// What a kind of node stands for.
#[derive(Debug, Clone, Copy, PartialEq, Eq, Structural)]
pub enum NodeClass {
    SourceFile,
    Package,
    Procedure,
    Function,
    Entity,
    Other,
}

/// The class of a kind.
pub open spec fn class_of(kind: Seq<char>) -> NodeClass {
    if kind == "source_file"@ {
        NodeClass::SourceFile
    } else if kind == "package_declaration"@ || kind == "package"@ {
        NodeClass::Package
    } else if kind == "procedure_declaration"@ || kind == "procedure"@ {
        NodeClass::Procedure
    } else if kind == "function_declaration"@ || kind == "function"@ {
        NodeClass::Function
    } else if kind == "entity_declaration"@ || kind == "entity"@ {
        NodeClass::Entity
    } else {
        NodeClass::Other
    }
}

/// `r` is the package that `node` becomes, named `name`.
pub open spec fn is_package_of(r: AstNode, node: SyntaxNode, name: IdentifierView, annotations: Seq<
    IfsAnnotation,
>) -> bool {
    r matches AstNode::PlSql(
        PlSqlNode::Package { name: n, component, annotations: a, declarations, body, span },
    ) && n@ == name && component is None && a@ == annotations && declarations@.len() == 0
        && body is None && span == span_of_node(node)
}

/// `r` is what `node` becomes. A source file becomes what its first child
/// becomes; a package, procedure or function gets its name and annotations
/// from its children and its visibility from its name, and has neither
/// parameters nor body, a function returning `VARCHAR2`; an entity is named
/// `entity`; everything else, and a source file without children, becomes a
/// package named `unnamed_package`.
pub open spec fn converts_to(node: SyntaxNode, r: AstNode) -> bool
    decreases node,
{
    let annotations = annotations_among(node.children@);
    match class_of(node.kind@) {
        NodeClass::SourceFile => {
            if node.children@.len() > 0 {
                converts_to(node.children@[0], r)
            } else {
                is_package_of(
                    r,
                    node,
                    IdentifierView { name: "unnamed_package"@, span: span_of_node(node) },
                    Seq::empty(),
                )
            }
        },
        NodeClass::Package => is_package_of(
            r,
            node,
            name_of_node(node, "unnamed_package"@),
            annotations,
        ),
        NodeClass::Procedure => {
            let name = name_of_node(node, "unnamed_procedure"@);
            r matches AstNode::PlSql(
                PlSqlNode::Procedure {
                    name: n,
                    visibility,
                    annotations: a,
                    parameters,
                    body,
                    directives,
                    span,
                },
            ) && n@ == name && visibility == visibility_of(name.name) && a@ == annotations
                && parameters@.len() == 0 && body@.len() == 0 && directives@.len() == 0 && span
                == span_of_node(node)
        },
        NodeClass::Function => {
            let name = name_of_node(node, "unnamed_function"@);
            r matches AstNode::PlSql(
                PlSqlNode::Function {
                    name: n,
                    visibility,
                    annotations: a,
                    parameters,
                    return_type,
                    body,
                    directives,
                    span,
                },
            ) && n@ == name && visibility == visibility_of(name.name) && a@ == annotations
                && parameters@.len() == 0 && return_type.name@ == "VARCHAR2"@
                && return_type.parameters@.len() == 0 && return_type.span == span_of_node(node)
                && body@.len() == 0 && directives@.len() == 0 && span == span_of_node(node)
        },
        NodeClass::Entity => {
            r matches AstNode::Entity(e) && e.entity_name@ == (IdentifierView {
                name: "entity"@,
                span: span_of_node(node),
            }) && e.component@ == "unknown"@ && e.code_gen_properties is None
                && e.attributes@.len() == 0 && e.keys@.len() == 0 && e.references@.len() == 0
                && e.state_machine is None && e.span == span_of_node(node)
        },
        NodeClass::Other => is_package_of(
            r,
            node,
            IdentifierView { name: "unnamed_package"@, span: span_of_node(node) },
            Seq::empty(),
        ),
    }
}

fn up(n: usize) -> (r: usize)
    ensures
        r == next_up(n),
{
    if n == usize::MAX {
        usize::MAX
    } else {
        n + 1
    }
}

/// The extent of a node.
pub fn node_to_span(node: &SyntaxNode) -> (s: Span)
    ensures
        s == span_of_node(*node),
{
    Span {
        start: Position { line: up(node.start.row), column: up(node.start.column), offset: node.start.byte },
        end: Position { line: up(node.end.row), column: up(node.end.column), offset: node.end.byte },
    }
}

fn classify(kind: &str) -> (r: NodeClass)
    ensures
        r == class_of(kind@),
{
    let k = to_chars(kind);
    if chars_eq_str(&k, "source_file") {
        NodeClass::SourceFile
    } else if chars_eq_str(&k, "package_declaration") || chars_eq_str(&k, "package") {
        NodeClass::Package
    } else if chars_eq_str(&k, "procedure_declaration") || chars_eq_str(&k, "procedure") {
        NodeClass::Procedure
    } else if chars_eq_str(&k, "function_declaration") || chars_eq_str(&k, "function") {
        NodeClass::Function
    } else if chars_eq_str(&k, "entity_declaration") || chars_eq_str(&k, "entity") {
        NodeClass::Entity
    } else {
        NodeClass::Other
    }
}

/// The annotation that the text of `node` spells.
pub fn convert_annotation(node: &SyntaxNode) -> (r: Option<IfsAnnotation>)
    ensures
        r == annotation_spelled(node.text@),
{
    let t = to_chars(node.text.as_str());
    if chars_eq_str(&t, "@Override") {
        Some(IfsAnnotation::Override)
    } else if chars_eq_str(&t, "@Overtake") {
        Some(IfsAnnotation::Overtake)
    } else if chars_eq_str(&t, "@UncheckedAccess") {
        Some(IfsAnnotation::UncheckedAccess)
    } else {
        None
    }
}

fn read_children(node: &SyntaxNode, fallback: &str) -> (r: (Identifier, Vec<IfsAnnotation>))
    ensures
        r.0@ == name_of_node(*node, fallback@),
        r.1@ == annotations_among(node.children@),
{
    let mut name: Option<Identifier> = None;
    let mut annotations: Vec<IfsAnnotation> = Vec::new();
    let mut i: usize = 0;
    assert(node.children@.take(0) =~= Seq::<SyntaxNode>::empty());
    while i < node.children.len()
        invariant
            i <= node.children.len(),
            annotations@ == annotations_among(node.children@.take(i as int)),
            match first_identifier(node.children@.take(i as int)) {
                Some(k) => name matches Some(id) && 0 <= k < i && id@ == (IdentifierView {
                    name: node.children@[k].text@,
                    span: span_of_node(node.children@[k]),
                }),
                None => name is None,
            },
        decreases node.children.len() - i,
    {
        assert(node.children@.take(i + 1).drop_last() =~= node.children@.take(i as int));
        let child = &node.children[i];
        let kind = to_chars(child.kind.as_str());
        if chars_eq_str(&kind, "identifier") {
            if name.is_none() {
                name = Some(Identifier { name: child.text.clone(), span: node_to_span(child) });
            }
        } else if chars_eq_str(&kind, "annotation") {
            match convert_annotation(child) {
                Some(a) => {
                    annotations.push(a);
                },
                None => {},
            }
        }
        proof {
            reveal_strlit("identifier");
            reveal_strlit("annotation");
            if child.kind@ == "identifier"@ {
                assert("identifier"@[0] == 'i');
                assert("annotation"@[0] == 'a');
                assert(child.kind@ != "annotation"@);
            }
        }
        i += 1;
    }
    assert(node.children@.take(node.children@.len() as int) =~= node.children@);
    let name = match name {
        Some(id) => id,
        None => Identifier { name: fallback.to_owned(), span: node_to_span(node) },
    };
    (name, annotations)
}

fn default_package(node: &SyntaxNode) -> (r: AstNode)
    ensures
        is_package_of(
            r,
            *node,
            IdentifierView { name: "unnamed_package"@, span: span_of_node(*node) },
            Seq::empty(),
        ),
{
    let span = node_to_span(node);
    AstNode::PlSql(
        PlSqlNode::Package {
            name: Identifier { name: "unnamed_package".to_owned(), span },
            component: None,
            annotations: Vec::new(),
            declarations: Vec::new(),
            body: None,
            span,
        },
    )
}

/// Converts a generic syntax tree.
pub fn convert_node(node: &SyntaxNode) -> (r: AstNode)
    ensures
        converts_to(*node, r),
    decreases node,
{
    match classify(node.kind.as_str()) {
        NodeClass::SourceFile => {
            if node.children.len() > 0 {
                convert_node(&node.children[0])
            } else {
                default_package(node)
            }
        },
        NodeClass::Package => {
            let (name, annotations) = read_children(node, "unnamed_package");
            AstNode::PlSql(
                PlSqlNode::Package {
                    name,
                    component: None,
                    annotations,
                    declarations: Vec::new(),
                    body: None,
                    span: node_to_span(node),
                },
            )
        },
        NodeClass::Procedure => {
            let (name, annotations) = read_children(node, "unnamed_procedure");
            let visibility = determine_visibility(name.name.as_str());
            AstNode::PlSql(
                PlSqlNode::Procedure {
                    name,
                    visibility,
                    annotations,
                    parameters: Vec::new(),
                    body: Vec::new(),
                    directives: Vec::new(),
                    span: node_to_span(node),
                },
            )
        },
        NodeClass::Function => {
            let (name, annotations) = read_children(node, "unnamed_function");
            let visibility = determine_visibility(name.name.as_str());
            let span = node_to_span(node);
            AstNode::PlSql(
                PlSqlNode::Function {
                    name,
                    visibility,
                    annotations,
                    parameters: Vec::new(),
                    return_type: Type { name: "VARCHAR2".to_owned(), parameters: Vec::new(), span },
                    body: Vec::new(),
                    directives: Vec::new(),
                    span,
                },
            )
        },
        NodeClass::Entity => {
            let span = node_to_span(node);
            AstNode::Entity(
                EntityNode {
                    entity_name: Identifier { name: "entity".to_owned(), span },
                    component: "unknown".to_owned(),
                    code_gen_properties: None,
                    attributes: Vec::new(),
                    keys: Vec::new(),
                    references: Vec::new(),
                    state_machine: None,
                    span,
                },
            )
        },
        NodeClass::Other => default_package(node),
    }
}

} // verus!
