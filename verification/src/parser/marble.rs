//! The projection and client dialects.
//!
//! A projection source reads
//!
//! ```text
//! projection OrderHandling;
//! entity     CustomerOrder;
//! attribute  OrderNo TEXT;
//! attribute  Customer TEXT CustomerNo;
//! action     Cancel { parameter Reason TEXT; parameter Result TEXT out; }
//! ```
//!
//! and a client source
//!
//! ```text
//! client OrderHandling;
//! group Main {
//!    field OrderNo OrderNo;
//!    list  Lines OrderLines(LineNo, Quantity);
//!    group Details { field Notes Notes; }
//! }
//! command Cancel CancelOrder { confirm 'yes'; }
//! ```

use crate::parser::ast::{
    ClientCommand, Identifier, LayoutElement, MarbleClientNode, MarbleProjectionNode, Parameter,
    ParameterMode, ProjectionAction, ProjectionAttribute, Span, Type,
};
use crate::parser::members::{
    all_read, bag, begins, check_known, declared, first_fault, has_word, header, lacking, lacks,
    name_of, optional_identifier, optional_text, or_empty, pairs_view, read_all, read_bag,
    read_declared, read_header, read_name, read_names, read_word, text_or_empty, unknown,
    unknown_record, first_word, word_at, word_is, Declared, Vocabulary,
};
use crate::parser::parser::{
    string_views, IdentifierView, ParameterView, ParseError, ParseErrorView, TypeView,
};
use crate::parser::records::{
    identifier_views, lemma_record_views_index, record_views, Record, RecordView,
};
use vstd::prelude::*;

verus! {

/// The names of a list of identifiers.
pub open spec fn names_of(ids: Seq<IdentifierView>) -> Seq<Seq<char>> {
    Seq::new(ids.len(), |k: int| ids[k].name)
}

fn read_texts(ids: &Vec<Identifier>) -> (v: Vec<String>)
    ensures
        string_views(v@) == names_of(identifier_views(ids@)),
{
    let mut out: Vec<String> = Vec::new();
    let mut k: usize = 0;
    while k < ids.len()
        invariant
            k <= ids.len(),
            out@.len() == k,
            forall|j: int| 0 <= j < k ==> (#[trigger] out@[j])@ == ids@[j].name@,
        decreases ids.len() - k,
    {
        out.push(ids[k].name.clone());
        k += 1;
    }
    assert(string_views(out@) =~= names_of(identifier_views(ids@)));
    out
}

/// The direction that the fourth word of a parameter states: `out`,
/// `inout`, or in with every other word and with none.
pub open spec fn direction(r: RecordView) -> ParameterMode {
    if has_word(r, 3, "out"@) {
        ParameterMode::Out
    } else if has_word(r, 3, "inout"@) {
        ParameterMode::InOut
    } else {
        ParameterMode::In
    }
}

/// The parameter that a record with a name and a type states.
pub open spec fn parameter_of(r: RecordView) -> ParameterView {
    ParameterView {
        name: name_of(r),
        mode: direction(r),
        param_type: TypeView {
            name: r.items[2].name.name,
            parameters: names_of(r.items[2].arguments),
            span: r.items[2].name.span,
        },
        has_default: false,
        span: r.span,
    }
}

impl Declared for Parameter {
    open spec fn takes(r: RecordView) -> bool {
        true
    }

    open spec fn fault(r: RecordView) -> Option<ParseErrorView> {
        if r.items.len() < 2 {
            Some(lacking("parameter name"@))
        } else if r.items.len() < 3 {
            Some(lacking("parameter type"@))
        } else {
            None
        }
    }

    open spec fn reads(r: RecordView, d: Parameter) -> bool {
        d@ == parameter_of(r)
    }

    fn accepts(r: &Record) -> (b: bool) {
        true
    }

    fn read(r: &Record) -> (res: Result<Parameter, ParseError>) {
        if r.items.len() < 2 {
            return Err(lacks("parameter name"));
        }
        if r.items.len() < 3 {
            return Err(lacks("parameter type"));
        }
        let mode = if word_is(r, 3, "out") {
            ParameterMode::Out
        } else if word_is(r, 3, "inout") {
            ParameterMode::InOut
        } else {
            ParameterMode::In
        };
        let param_type = Type {
            name: r.items[2].name.name.clone(),
            parameters: read_texts(&r.items[2].arguments),
            span: r.items[2].name.span,
        };
        assert(param_type@.parameters =~= names_of(r@.items[2].arguments));
        Ok(Parameter { name: read_name(r), param_type, mode, default_value: None, span: r.span })
    }
}

impl Declared for ProjectionAttribute {
    open spec fn takes(r: RecordView) -> bool {
        begins(r, "attribute"@)
    }

    open spec fn fault(r: RecordView) -> Option<ParseErrorView> {
        if r.items.len() < 2 {
            Some(lacking("attribute name"@))
        } else {
            None
        }
    }

    open spec fn reads(r: RecordView, d: ProjectionAttribute) -> bool {
        &&& d.name@ == name_of(r)
        &&& optional_text(d.data_type) == declared(r)
        &&& optional_identifier(d.source) == word_at(r, 3)
        &&& d.span == r.span
    }

    fn accepts(r: &Record) -> (b: bool) {
        word_is(r, 0, "attribute")
    }

    fn read(r: &Record) -> (res: Result<ProjectionAttribute, ParseError>) {
        if r.items.len() < 2 {
            return Err(lacks("attribute name"));
        }
        Ok(
            ProjectionAttribute {
                name: read_name(r),
                source: read_word(r, 3),
                data_type: read_declared(r),
                span: r.span,
            },
        )
    }
}

impl Declared for ProjectionAction {
    open spec fn takes(r: RecordView) -> bool {
        begins(r, "action"@)
    }

    open spec fn fault(r: RecordView) -> Option<ParseErrorView> {
        if r.items.len() < 2 {
            Some(lacking("action name"@))
        } else {
            first_fault::<Parameter>(r.children, 0)
        }
    }

    open spec fn reads(r: RecordView, d: ProjectionAction) -> bool {
        &&& d.name@ == name_of(r)
        &&& all_read::<Parameter>(r.children, d.parameters@)
        &&& d.span == r.span
    }

    fn accepts(r: &Record) -> (b: bool) {
        word_is(r, 0, "action")
    }

    fn read(r: &Record) -> (res: Result<ProjectionAction, ParseError>) {
        if r.items.len() < 2 {
            return Err(lacks("action name"));
        }
        let parameters = read_all::<Parameter>(&r.children)?;
        Ok(ProjectionAction { name: read_name(r), parameters, span: r.span })
    }
}

impl Vocabulary for MarbleProjectionNode {
    open spec fn knows(r: RecordView) -> bool {
        begins(r, "projection"@) || begins(r, "entity"@) || begins(r, "attribute"@) || begins(
            r,
            "action"@,
        )
    }

    fn known(r: &Record) -> (b: bool) {
        word_is(r, 0, "projection") || word_is(r, 0, "entity") || word_is(r, 0, "attribute")
            || word_is(r, 0, "action")
    }
}

/// Why the records state no projection, or `None` where they do. The faults
/// are looked for in this order: a record of another dialect, the name, the
/// entity, the attributes, the actions.
pub open spec fn projection_fault(rs: Seq<RecordView>) -> Option<ParseErrorView> {
    if unknown::<MarbleProjectionNode>(rs) is Some {
        unknown::<MarbleProjectionNode>(rs)
    } else if header(rs, "projection"@) is None {
        Some(lacking("projection name"@))
    } else if header(rs, "entity"@) is None {
        Some(lacking("projected entity"@))
    } else if first_fault::<ProjectionAttribute>(rs, 0) is Some {
        first_fault::<ProjectionAttribute>(rs, 0)
    } else {
        first_fault::<ProjectionAction>(rs, 0)
    }
}

/// `n` is the projection that the records state, `whole` being the extent
/// of the source.
pub open spec fn projection_reads(rs: Seq<RecordView>, whole: Span, n: MarbleProjectionNode) -> bool {
    &&& Some(n.name@) == header(rs, "projection"@)
    &&& Some(n.entity@) == header(rs, "entity"@)
    &&& all_read::<ProjectionAttribute>(rs, n.attributes@)
    &&& all_read::<ProjectionAction>(rs, n.actions@)
    &&& n.span == whole
}

/// The projection that the records state.
pub fn read_projection(rs: &Vec<Record>, whole: Span) -> (res: Result<
    MarbleProjectionNode,
    ParseError,
>)
    ensures
        match projection_fault(record_views(rs@)) {
            Some(e) => res matches Err(x) && x@ == e,
            None => res matches Ok(n) && projection_reads(record_views(rs@), whole, n),
        },
{
    check_known::<MarbleProjectionNode>(rs)?;
    let name = match read_header(rs, "projection") {
        Some(name) => name,
        None => {
            return Err(lacks("projection name"));
        },
    };
    let entity = match read_header(rs, "entity") {
        Some(name) => name,
        None => {
            return Err(lacks("projected entity"));
        },
    };
    let attributes = read_all::<ProjectionAttribute>(rs)?;
    let actions = read_all::<ProjectionAction>(rs)?;
    Ok(MarbleProjectionNode { name, entity, attributes, actions, span: whole })
}

/// An element of a layout with its texts read as characters.
pub enum LayoutView {
    Group { name: IdentifierView, elements: Seq<LayoutView>, span: Span },
    Field { name: IdentifierView, binding: IdentifierView, span: Span },
    List { name: IdentifierView, source: IdentifierView, columns: Seq<IdentifierView>, span: Span },
}

/// The element with its texts read as characters.
pub open spec fn layout_view(e: LayoutElement) -> LayoutView
    decreases e, 0nat,
{
    match e {
        LayoutElement::Group { name, elements, span } => LayoutView::Group {
            name: name@,
            elements: layouts_view(elements@),
            span,
        },
        LayoutElement::Field { name, binding, span } => LayoutView::Field {
            name: name@,
            binding: binding@,
            span,
        },
        LayoutElement::List { name, source, columns, span } => LayoutView::List {
            name: name@,
            source: source@,
            columns: identifier_views(columns@),
            span,
        },
    }
}

/// The views of a sequence of elements.
pub open spec fn layouts_view(es: Seq<LayoutElement>) -> Seq<LayoutView>
    decreases es, 1nat,
{
    if es.len() == 0 {
        Seq::empty()
    } else {
        layouts_view(es.drop_last()).push(layout_view(es.last()))
    }
}

impl View for LayoutElement {
    type V = LayoutView;

    open spec fn view(&self) -> LayoutView {
        layout_view(*self)
    }
}

impl LayoutElement {
    /// A copy of the element and of everything nested in it.
    #[verifier::loop_isolation(false)]
    pub fn duplicate(&self) -> (r: LayoutElement)
        ensures
            r@ == self@,
        decreases self,
    {
        match self {
            LayoutElement::Group { name, elements, span } => {
                let mut copies: Vec<LayoutElement> = Vec::new();
                let mut i: usize = 0;
                assert(elements@.take(0) =~= Seq::<LayoutElement>::empty());
                while i < elements.len()
                    invariant
                        i <= elements.len(),
                        layouts_view(copies@) == layouts_view(elements@.take(i as int)),
                    decreases elements.len() - i,
                {
                    let ghost before = copies@;
                    let copy = elements[i].duplicate();
                    copies.push(copy);
                    proof {
                        assert(copies@.drop_last() =~= before);
                        assert(elements@.take(i + 1).drop_last() =~= elements@.take(i as int));
                    }
                    i += 1;
                }
                assert(elements@.take(elements@.len() as int) =~= elements@);
                LayoutElement::Group { name: name.duplicate(), elements: copies, span: *span }
            },
            LayoutElement::Field { name, binding, span } => LayoutElement::Field {
                name: name.duplicate(),
                binding: binding.duplicate(),
                span: *span,
            },
            LayoutElement::List { name, source, columns, span } => LayoutElement::List {
                name: name.duplicate(),
                source: source.duplicate(),
                columns: read_names(columns),
                span: *span,
            },
        }
    }
}

impl Clone for LayoutElement {
    fn clone(&self) -> (r: LayoutElement) {
        self.duplicate()
    }
}

/// What a record lacks to state an element of a layout, if anything. In a
/// group the fault is that of its first element that lacks something.
pub open spec fn layout_fault(r: RecordView) -> Option<ParseErrorView>
    decreases r, 0nat,
{
    if r.items.len() < 2 {
        Some(lacking("element name"@))
    } else if begins(r, "group"@) {
        layouts_fault(r.children)
    } else if begins(r, "field"@) {
        if r.items.len() < 3 {
            Some(lacking("field binding"@))
        } else {
            None
        }
    } else if begins(r, "list"@) {
        if r.items.len() < 3 {
            Some(lacking("list source"@))
        } else {
            None
        }
    } else {
        Some(unknown_record(r))
    }
}

/// The fault of the first of the records that lacks something to state an
/// element of a layout.
pub open spec fn layouts_fault(rs: Seq<RecordView>) -> Option<ParseErrorView>
    decreases rs, 1nat,
{
    if rs.len() == 0 {
        None
    } else {
        match layouts_fault(rs.drop_last()) {
            Some(e) => Some(e),
            None => layout_fault(rs.last()),
        }
    }
}

/// `e` is the element that the record states.
pub open spec fn layout_reads(r: RecordView, e: LayoutElement) -> bool
    decreases e, 0nat,
{
    match e {
        LayoutElement::Group { name, elements, span } => begins(r, "group"@) && name@ == name_of(r)
            && layouts_read(r.children, elements@) && span == r.span,
        LayoutElement::Field { name, binding, span } => !begins(r, "group"@) && begins(
            r,
            "field"@,
        ) && name@ == name_of(r) && binding@ == r.items[2].name && span == r.span,
        LayoutElement::List { name, source, columns, span } => !begins(r, "group"@) && !begins(
            r,
            "field"@,
        ) && name@ == name_of(r) && source@ == r.items[2].name && identifier_views(columns@)
            == r.items[2].arguments && span == r.span,
    }
}

/// `es` are the elements that the records state, one for each record.
pub open spec fn layouts_read(rs: Seq<RecordView>, es: Seq<LayoutElement>) -> bool
    decreases es, 1nat,
{
    es.len() == rs.len() && (es.len() == 0 || (layouts_read(rs.drop_last(), es.drop_last())
        && layout_reads(rs.last(), es.last())))
}

/// The element of a layout that the record states.
#[verifier::loop_isolation(false)]
pub fn read_layout(r: &Record) -> (res: Result<LayoutElement, ParseError>)
    ensures
        match layout_fault(r@) {
            Some(e) => res matches Err(x) && x@ == e,
            None => res matches Ok(d) && layout_reads(r@, d),
        },
    decreases r,
{
    if r.items.len() < 2 {
        return Err(lacks("element name"));
    }
    if word_is(r, 0, "group") {
        let ghost all = r@.children;
        let mut elements: Vec<LayoutElement> = Vec::new();
        let mut k: usize = 0;
        proof {
            lemma_record_views_index(r.children@);
            assert(all.take(0) =~= Seq::<RecordView>::empty());
        }
        while k < r.children.len()
            invariant
                k <= r.children.len(),
                layouts_fault(all.take(k as int)) is None,
                layouts_read(all.take(k as int), elements@),
            decreases r.children.len() - k,
        {
            let ghost before = elements@;
            proof {
                assert(all.take(k + 1).drop_last() =~= all.take(k as int));
                assert(all.take(k + 1).last() == r.children@[k as int]@);
                assert(all.take(all.len() as int) =~= all);
            }
            match read_layout(&r.children[k]) {
                Ok(e) => {
                    elements.push(e);
                    assert(elements@.drop_last() =~= before);
                },
                Err(x) => {
                    proof {
                        lemma_layouts_fault_stays(all, k as int + 1);
                    }
                    return Err(x);
                },
            }
            k += 1;
        }
        assert(all.take(all.len() as int) =~= all);
        Ok(LayoutElement::Group { name: read_name(r), elements, span: r.span })
    } else if word_is(r, 0, "field") {
        if r.items.len() < 3 {
            return Err(lacks("field binding"));
        }
        Ok(
            LayoutElement::Field {
                name: read_name(r),
                binding: r.items[2].name.duplicate(),
                span: r.span,
            },
        )
    } else if word_is(r, 0, "list") {
        if r.items.len() < 3 {
            return Err(lacks("list source"));
        }
        Ok(
            LayoutElement::List {
                name: read_name(r),
                source: r.items[2].name.duplicate(),
                columns: read_names(&r.items[2].arguments),
                span: r.span,
            },
        )
    } else {
        let found = r.items[0].name.name.clone();
        assert(found@ =~= first_word(r@));
        Err(ParseError::UnexpectedToken { expected: "declaration".to_owned(), found })
    }
}

/// A fault among the first `n` records is the fault of them all.
pub proof fn lemma_layouts_fault_stays(rs: Seq<RecordView>, n: int)
    requires
        0 <= n <= rs.len(),
        layouts_fault(rs.take(n)) is Some,
    ensures
        layouts_fault(rs) == layouts_fault(rs.take(n)),
    decreases rs.len() - n,
{
    if n == rs.len() {
        assert(rs.take(n) =~= rs);
    } else {
        assert(rs.take(n + 1).drop_last() =~= rs.take(n));
        lemma_layouts_fault_stays(rs, n + 1);
    }
}

impl Declared for LayoutElement {
    open spec fn takes(r: RecordView) -> bool {
        begins(r, "group"@) || begins(r, "field"@) || begins(r, "list"@)
    }

    open spec fn fault(r: RecordView) -> Option<ParseErrorView> {
        layout_fault(r)
    }

    open spec fn reads(r: RecordView, d: LayoutElement) -> bool {
        layout_reads(r, d)
    }

    fn accepts(r: &Record) -> (b: bool) {
        word_is(r, 0, "group") || word_is(r, 0, "field") || word_is(r, 0, "list")
    }

    fn read(r: &Record) -> (res: Result<LayoutElement, ParseError>) {
        read_layout(r)
    }
}

impl Declared for ClientCommand {
    open spec fn takes(r: RecordView) -> bool {
        begins(r, "command"@)
    }

    open spec fn fault(r: RecordView) -> Option<ParseErrorView> {
        if r.items.len() < 2 {
            Some(lacking("command name"@))
        } else {
            None
        }
    }

    open spec fn reads(r: RecordView, d: ClientCommand) -> bool {
        &&& d.name@ == name_of(r)
        &&& d.action@ == text_or_empty(declared(r))
        &&& pairs_view(d.parameters@) == bag(r.children)
        &&& d.span == r.span
    }

    fn accepts(r: &Record) -> (b: bool) {
        word_is(r, 0, "command")
    }

    fn read(r: &Record) -> (res: Result<ClientCommand, ParseError>) {
        if r.items.len() < 2 {
            return Err(lacks("command name"));
        }
        Ok(
            ClientCommand {
                name: read_name(r),
                action: or_empty(read_declared(r)),
                parameters: read_bag(&r.children),
                span: r.span,
            },
        )
    }
}

impl Vocabulary for MarbleClientNode {
    open spec fn knows(r: RecordView) -> bool {
        begins(r, "client"@) || begins(r, "command"@) || begins(r, "group"@) || begins(
            r,
            "field"@,
        ) || begins(r, "list"@)
    }

    fn known(r: &Record) -> (b: bool) {
        word_is(r, 0, "client") || word_is(r, 0, "command") || word_is(r, 0, "group") || word_is(
            r,
            0,
            "field",
        ) || word_is(r, 0, "list")
    }
}

/// Why the records state no client, or `None` where they do. The faults are
/// looked for in this order: a record of another dialect, the name, the
/// layout, the commands.
pub open spec fn client_fault(rs: Seq<RecordView>) -> Option<ParseErrorView> {
    if unknown::<MarbleClientNode>(rs) is Some {
        unknown::<MarbleClientNode>(rs)
    } else if header(rs, "client"@) is None {
        Some(lacking("client name"@))
    } else if first_fault::<LayoutElement>(rs, 0) is Some {
        first_fault::<LayoutElement>(rs, 0)
    } else {
        first_fault::<ClientCommand>(rs, 0)
    }
}

/// `n` is the client that the records state, `whole` being the extent of
/// the source.
pub open spec fn client_reads(rs: Seq<RecordView>, whole: Span, n: MarbleClientNode) -> bool {
    &&& Some(n.name@) == header(rs, "client"@)
    &&& all_read::<LayoutElement>(rs, n.layout@)
    &&& all_read::<ClientCommand>(rs, n.commands@)
    &&& n.span == whole
}

/// The client that the records state.
pub fn read_client(rs: &Vec<Record>, whole: Span) -> (res: Result<MarbleClientNode, ParseError>)
    ensures
        match client_fault(record_views(rs@)) {
            Some(e) => res matches Err(x) && x@ == e,
            None => res matches Ok(n) && client_reads(record_views(rs@), whole, n),
        },
{
    check_known::<MarbleClientNode>(rs)?;
    let name = match read_header(rs, "client") {
        Some(name) => name,
        None => {
            return Err(lacks("client name"));
        },
    };
    let layout = read_all::<LayoutElement>(rs)?;
    let commands = read_all::<ClientCommand>(rs)?;
    Ok(MarbleClientNode { name, layout, commands, span: whole })
}

} // verus!
