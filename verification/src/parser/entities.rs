//! The entity and enumeration dialects.
//!
//! An entity source reads
//!
//! ```text
//! entityname CustomerOrder;
//! component  ORDER;
//! codegenproperties { DbTableName 'CUSTOMER_ORDER_TAB'; }
//! attributes {
//!    key     OrderNo TEXT(12) KMI-L { label 'Order No'; }
//!    public  Notes   TEXT(2000) A-IU-;
//!    private RowKey  TEXT(50);
//! }
//! keys { primary Pk(OrderNo); unique Uk(Notes); }
//! references { reference CustomerRef(CustomerNo) Customer; }
//! statemachine {
//!    initial Planned; state Released; final Closed;
//!    transition Planned Released Release;
//! }
//! ```
//!
//! and an enumeration source
//!
//! ```text
//! enumerationname OrderType;
//! component       ORDER;
//! values { value Normal 'Normal order' { label 'Normal'; } value Rush; }
//! ```

use crate::parser::ast::{
    AttributeVisibility, CodeGenProperties, EntityAttribute, EntityKey, EntityNode,
    EntityReference, EnumerationNode, EnumerationValue, Span, State, StateMachine,
    StateTransition, StateType,
};
use crate::parser::members::{
    all_read, bag, begins, check_known, declared, find_first, first_fault, first_with, flags,
    has_word, header, lacking, lacks, name_of, optional_text, or_empty, pairs_view, read_bag, read_declared, read_flags, read_header, read_name, read_names, read_said,
    read_section, said, section, text_or_empty, unknown, unquote, unquoted, word_is, Declared,
    Vocabulary,
};
use crate::parser::members::{item_text, text_of_item};
use crate::parser::parser::{ParseError, ParseErrorView};
use crate::parser::records::{
    identifier_views, lemma_record_views_index, record_views, Record, RecordView,
};
use vstd::prelude::*;

verus! {

/// The visibility that the keyword of an attribute states: `private`, `key`,
/// or public with every other word.
pub open spec fn attribute_visibility(r: RecordView) -> AttributeVisibility {
    if has_word(r, 0, "private"@) {
        AttributeVisibility::Private
    } else if has_word(r, 0, "key"@) {
        AttributeVisibility::Key
    } else {
        AttributeVisibility::Public
    }
}

impl Declared for EntityAttribute {
    open spec fn takes(r: RecordView) -> bool {
        true
    }

    open spec fn fault(r: RecordView) -> Option<ParseErrorView> {
        if r.items.len() < 2 {
            Some(lacking("attribute name"@))
        } else {
            None
        }
    }

    open spec fn reads(r: RecordView, d: EntityAttribute) -> bool {
        &&& d.visibility == attribute_visibility(r)
        &&& d.name@ == name_of(r)
        &&& d.data_type@ == text_or_empty(declared(r))
        &&& d.flags@ == text_or_empty(flags(r))
        &&& pairs_view(d.properties@) == bag(r.children)
        &&& d.span == r.span
    }

    fn accepts(r: &Record) -> (b: bool) {
        true
    }

    fn read(r: &Record) -> (res: Result<EntityAttribute, ParseError>) {
        if r.items.len() < 2 {
            return Err(lacks("attribute name"));
        }
        let visibility = if word_is(r, 0, "private") {
            AttributeVisibility::Private
        } else if word_is(r, 0, "key") {
            AttributeVisibility::Key
        } else {
            AttributeVisibility::Public
        };
        Ok(
            EntityAttribute {
                visibility,
                name: read_name(r),
                data_type: or_empty(read_declared(r)),
                flags: or_empty(read_flags(r)),
                properties: read_bag(&r.children),
                span: r.span,
            },
        )
    }
}

impl Declared for EntityKey {
    open spec fn takes(r: RecordView) -> bool {
        true
    }

    open spec fn fault(r: RecordView) -> Option<ParseErrorView> {
        if r.items.len() < 2 {
            Some(lacking("key name"@))
        } else {
            None
        }
    }

    open spec fn reads(r: RecordView, d: EntityKey) -> bool {
        &&& d.name@ == name_of(r)
        &&& identifier_views(d.columns@) == r.items[1].arguments
        &&& d.is_primary == has_word(r, 0, "primary"@)
        &&& d.span == r.span
    }

    fn accepts(r: &Record) -> (b: bool) {
        true
    }

    fn read(r: &Record) -> (res: Result<EntityKey, ParseError>) {
        if r.items.len() < 2 {
            return Err(lacks("key name"));
        }
        Ok(
            EntityKey {
                name: read_name(r),
                columns: read_names(&r.items[1].arguments),
                is_primary: word_is(r, 0, "primary"),
                span: r.span,
            },
        )
    }
}

impl Declared for EntityReference {
    open spec fn takes(r: RecordView) -> bool {
        true
    }

    open spec fn fault(r: RecordView) -> Option<ParseErrorView> {
        if r.items.len() < 2 {
            Some(lacking("reference name"@))
        } else if r.items.len() < 3 {
            Some(lacking("referenced entity"@))
        } else {
            None
        }
    }

    open spec fn reads(r: RecordView, d: EntityReference) -> bool {
        &&& d.name@ == name_of(r)
        &&& d.referenced_entity@ == r.items[2].name
        &&& identifier_views(d.foreign_key_columns@) == r.items[1].arguments
        &&& d.span == r.span
    }

    fn accepts(r: &Record) -> (b: bool) {
        true
    }

    fn read(r: &Record) -> (res: Result<EntityReference, ParseError>) {
        if r.items.len() < 2 {
            return Err(lacks("reference name"));
        }
        if r.items.len() < 3 {
            return Err(lacks("referenced entity"));
        }
        Ok(
            EntityReference {
                name: read_name(r),
                referenced_entity: r.items[2].name.duplicate(),
                foreign_key_columns: read_names(&r.items[1].arguments),
                span: r.span,
            },
        )
    }
}

/// The kind of state that the keyword of a state states: `initial`, `final`,
/// or normal with every other word.
pub open spec fn state_kind(r: RecordView) -> StateType {
    if has_word(r, 0, "initial"@) {
        StateType::Initial
    } else if has_word(r, 0, "final"@) {
        StateType::Final
    } else {
        StateType::Normal
    }
}

impl Declared for State {
    open spec fn takes(r: RecordView) -> bool {
        !begins(r, "transition"@)
    }

    open spec fn fault(r: RecordView) -> Option<ParseErrorView> {
        if r.items.len() < 2 {
            Some(lacking("state name"@))
        } else {
            None
        }
    }

    open spec fn reads(r: RecordView, d: State) -> bool {
        &&& d.name@ == name_of(r)
        &&& d.state_type == state_kind(r)
        &&& d.span == r.span
    }

    fn accepts(r: &Record) -> (b: bool) {
        !word_is(r, 0, "transition")
    }

    fn read(r: &Record) -> (res: Result<State, ParseError>) {
        if r.items.len() < 2 {
            return Err(lacks("state name"));
        }
        let state_type = if word_is(r, 0, "initial") {
            StateType::Initial
        } else if word_is(r, 0, "final") {
            StateType::Final
        } else {
            StateType::Normal
        };
        Ok(State { name: read_name(r), state_type, span: r.span })
    }
}

/// The event of a transition: its fourth word as it is written.
pub open spec fn event_of(r: RecordView) -> Option<Seq<char>> {
    if r.items.len() > 3 {
        Some(item_text(r.items[3]))
    } else {
        None
    }
}

impl Declared for StateTransition {
    open spec fn takes(r: RecordView) -> bool {
        begins(r, "transition"@)
    }

    open spec fn fault(r: RecordView) -> Option<ParseErrorView> {
        if r.items.len() < 3 {
            Some(lacking("states of a transition"@))
        } else {
            None
        }
    }

    open spec fn reads(r: RecordView, d: StateTransition) -> bool {
        &&& d.from_state@ == r.items[1].name
        &&& d.to_state@ == r.items[2].name
        &&& optional_text(d.event) == event_of(r)
        &&& d.span == r.span
    }

    fn accepts(r: &Record) -> (b: bool) {
        word_is(r, 0, "transition")
    }

    fn read(r: &Record) -> (res: Result<StateTransition, ParseError>) {
        if r.items.len() < 3 {
            return Err(lacks("states of a transition"));
        }
        let event = if r.items.len() > 3 {
            Some(text_of_item(&r.items[3]))
        } else {
            None
        };
        Ok(
            StateTransition {
                from_state: r.items[1].name.duplicate(),
                to_state: r.items[2].name.duplicate(),
                event,
                span: r.span,
            },
        )
    }
}

impl Vocabulary for EntityNode {
    open spec fn knows(r: RecordView) -> bool {
        begins(r, "entityname"@) || begins(r, "component"@) || begins(r, "codegenproperties"@)
            || begins(r, "attributes"@) || begins(r, "keys"@) || begins(r, "references"@)
            || begins(r, "statemachine"@)
    }

    fn known(r: &Record) -> (b: bool) {
        word_is(r, 0, "entityname") || word_is(r, 0, "component") || word_is(
            r,
            0,
            "codegenproperties",
        ) || word_is(r, 0, "attributes") || word_is(r, 0, "keys") || word_is(r, 0, "references")
            || word_is(r, 0, "statemachine")
    }
}

/// Why the records state no entity, or `None` where they do. The faults are
/// looked for in this order: a record of another dialect, the name, the
/// attributes, the keys, the references, the states, the transitions.
pub open spec fn entity_fault(rs: Seq<RecordView>) -> Option<ParseErrorView> {
    if unknown::<EntityNode>(rs) is Some {
        unknown::<EntityNode>(rs)
    } else if header(rs, "entityname"@) is None {
        Some(lacking("entity name"@))
    } else if first_fault::<EntityAttribute>(section(rs, "attributes"@), 0) is Some {
        first_fault::<EntityAttribute>(section(rs, "attributes"@), 0)
    } else if first_fault::<EntityKey>(section(rs, "keys"@), 0) is Some {
        first_fault::<EntityKey>(section(rs, "keys"@), 0)
    } else if first_fault::<EntityReference>(section(rs, "references"@), 0) is Some {
        first_fault::<EntityReference>(section(rs, "references"@), 0)
    } else if first_fault::<State>(section(rs, "statemachine"@), 0) is Some {
        first_fault::<State>(section(rs, "statemachine"@), 0)
    } else {
        first_fault::<StateTransition>(section(rs, "statemachine"@), 0)
    }
}

/// `c` holds the properties of the first `codegenproperties` record, if
/// there is one.
pub open spec fn code_gen_reads(rs: Seq<RecordView>, c: Option<CodeGenProperties>) -> bool {
    match first_with(rs, "codegenproperties"@, 0) {
        Some(k) => c matches Some(p) && pairs_view(p.properties@) == bag(rs[k].children)
            && p.span == rs[k].span,
        None => c is None,
    }
}

/// `m` holds the states and transitions of the first `statemachine` record,
/// if there is one.
pub open spec fn state_machine_reads(rs: Seq<RecordView>, m: Option<StateMachine>) -> bool {
    match first_with(rs, "statemachine"@, 0) {
        Some(k) => m matches Some(s) && all_read::<State>(rs[k].children, s.states@)
            && all_read::<StateTransition>(rs[k].children, s.transitions@) && s.span == rs[k].span,
        None => m is None,
    }
}

/// `n` is the entity that the records state, `whole` being the extent of the
/// source.
pub open spec fn entity_reads(rs: Seq<RecordView>, whole: Span, n: EntityNode) -> bool {
    &&& Some(n.entity_name@) == header(rs, "entityname"@)
    &&& n.component@ == text_or_empty(said(rs, "component"@))
    &&& code_gen_reads(rs, n.code_gen_properties)
    &&& all_read::<EntityAttribute>(section(rs, "attributes"@), n.attributes@)
    &&& all_read::<EntityKey>(section(rs, "keys"@), n.keys@)
    &&& all_read::<EntityReference>(section(rs, "references"@), n.references@)
    &&& state_machine_reads(rs, n.state_machine)
    &&& n.span == whole
}

/// The entity that the records state.
pub fn read_entity(rs: &Vec<Record>, whole: Span) -> (res: Result<EntityNode, ParseError>)
    ensures
        match entity_fault(record_views(rs@)) {
            Some(e) => res matches Err(x) && x@ == e,
            None => res matches Ok(n) && entity_reads(record_views(rs@), whole, n),
        },
{
    proof {
        lemma_record_views_index(rs@);
    }
    check_known::<EntityNode>(rs)?;
    let entity_name = match read_header(rs, "entityname") {
        Some(name) => name,
        None => {
            return Err(lacks("entity name"));
        },
    };
    let attributes = read_section::<EntityAttribute>(rs, "attributes")?;
    let keys = read_section::<EntityKey>(rs, "keys")?;
    let references = read_section::<EntityReference>(rs, "references")?;
    let states = read_section::<State>(rs, "statemachine")?;
    let transitions = read_section::<StateTransition>(rs, "statemachine")?;
    let code_gen_properties = match find_first(rs, "codegenproperties") {
        Some(k) => Some(
            CodeGenProperties { properties: read_bag(&rs[k].children), span: rs[k].span },
        ),
        None => None,
    };
    let state_machine = match find_first(rs, "statemachine") {
        Some(k) => Some(StateMachine { states, transitions, span: rs[k].span }),
        None => None,
    };
    Ok(
        EntityNode {
            entity_name,
            component: or_empty(read_said(rs, "component")),
            code_gen_properties,
            attributes,
            keys,
            references,
            state_machine,
            span: whole,
        },
    )
}

/// The client value of an enumeration value: its third word as it is
/// written, without quotes around it.
pub open spec fn client_value_of(r: RecordView) -> Option<Seq<char>> {
    if r.items.len() > 2 {
        Some(unquoted(item_text(r.items[2])))
    } else {
        None
    }
}

impl Declared for EnumerationValue {
    open spec fn takes(r: RecordView) -> bool {
        true
    }

    open spec fn fault(r: RecordView) -> Option<ParseErrorView> {
        if r.items.len() < 2 {
            Some(lacking("value name"@))
        } else {
            None
        }
    }

    open spec fn reads(r: RecordView, d: EnumerationValue) -> bool {
        &&& d.name@ == name_of(r)
        &&& optional_text(d.client_value) == client_value_of(r)
        &&& pairs_view(d.properties@) == bag(r.children)
        &&& d.span == r.span
    }

    fn accepts(r: &Record) -> (b: bool) {
        true
    }

    fn read(r: &Record) -> (res: Result<EnumerationValue, ParseError>) {
        if r.items.len() < 2 {
            return Err(lacks("value name"));
        }
        let client_value = if r.items.len() > 2 {
            Some(unquote(text_of_item(&r.items[2])))
        } else {
            None
        };
        Ok(
            EnumerationValue {
                name: read_name(r),
                client_value,
                properties: read_bag(&r.children),
                span: r.span,
            },
        )
    }
}

impl Vocabulary for EnumerationNode {
    open spec fn knows(r: RecordView) -> bool {
        begins(r, "enumerationname"@) || begins(r, "component"@) || begins(r, "values"@)
    }

    fn known(r: &Record) -> (b: bool) {
        word_is(r, 0, "enumerationname") || word_is(r, 0, "component") || word_is(r, 0, "values")
    }
}

/// Why the records state no enumeration, or `None` where they do. The faults
/// are looked for in this order: a record of another dialect, the name, the
/// values.
pub open spec fn enumeration_fault(rs: Seq<RecordView>) -> Option<ParseErrorView> {
    if unknown::<EnumerationNode>(rs) is Some {
        unknown::<EnumerationNode>(rs)
    } else if header(rs, "enumerationname"@) is None {
        Some(lacking("enumeration name"@))
    } else {
        first_fault::<EnumerationValue>(section(rs, "values"@), 0)
    }
}

/// `n` is the enumeration that the records state, `whole` being the extent
/// of the source.
pub open spec fn enumeration_reads(rs: Seq<RecordView>, whole: Span, n: EnumerationNode) -> bool {
    &&& Some(n.enumeration_name@) == header(rs, "enumerationname"@)
    &&& n.component@ == text_or_empty(said(rs, "component"@))
    &&& all_read::<EnumerationValue>(section(rs, "values"@), n.values@)
    &&& n.span == whole
}

/// The enumeration that the records state.
pub fn read_enumeration(rs: &Vec<Record>, whole: Span) -> (res: Result<
    EnumerationNode,
    ParseError,
>)
    ensures
        match enumeration_fault(record_views(rs@)) {
            Some(e) => res matches Err(x) && x@ == e,
            None => res matches Ok(n) && enumeration_reads(record_views(rs@), whole, n),
        },
{
    check_known::<EnumerationNode>(rs)?;
    let enumeration_name = match read_header(rs, "enumerationname") {
        Some(name) => name,
        None => {
            return Err(lacks("enumeration name"));
        },
    };
    let values = read_section::<EnumerationValue>(rs, "values")?;
    Ok(
        EnumerationNode {
            enumeration_name,
            component: or_empty(read_said(rs, "component")),
            values,
            span: whole,
        },
    )
}

} // verus!
