use ifs_parser::index::symbols::{SymbolIndexer, SymbolKind};
use ifs_parser::index::Index;
use ifs_parser::parser::ast::{
    AstNode, AttributeVisibility, LayoutElement, ParameterMode, StateType, StorageDefinition,
    TableConstraint,
};
use ifs_parser::parser::parser::{parse_source, ParseError};
use ifs_parser::parser::Language;

const ENTITY: &str = "entityname CustomerOrder;
component  ORDER;
codegenproperties { DbTableName 'CUSTOMER_ORDER_TAB'; }
attributes {
   key     OrderNo TEXT(12) KMI-L { label 'Order No'; maxlength = 12; }
   public  Notes   TEXT(2000) A-IU-;
   private RowKey  TEXT(50);
}
keys { primary Pk(OrderNo); unique Uk(Notes, RowKey); }
references { reference CustomerRef(CustomerNo) Customer; }
statemachine {
   initial Planned; state Released; final Closed;
   transition Planned Released Release;
}
";

fn pair(k: &str, v: &str) -> (String, String) {
    (k.to_string(), v.to_string())
}

#[test]
fn entity_source_gives_its_declarations() {
    let ast = parse_source(ENTITY, Language::Entity).unwrap();
    let AstNode::Entity(n) = ast else { panic!("expected an entity") };
    assert_eq!(n.entity_name.name, "CustomerOrder");
    assert_eq!(n.component, "ORDER");
    let code_gen = n.code_gen_properties.unwrap();
    assert_eq!(code_gen.properties, vec![pair("DbTableName", "CUSTOMER_ORDER_TAB")]);

    assert_eq!(n.attributes.len(), 3);
    let a = &n.attributes[0];
    assert_eq!(a.visibility, AttributeVisibility::Key);
    assert_eq!(a.name.name, "OrderNo");
    assert_eq!(a.data_type, "TEXT(12)");
    assert_eq!(a.flags, "KMI-L");
    assert_eq!(a.properties, vec![pair("label", "Order No"), pair("maxlength", "12")]);
    assert_eq!(a.span.start.offset, ENTITY.find("key ").unwrap());
    assert_eq!(a.span.start.line, 5);
    assert_eq!(a.span.start.column, 4);
    let b = &n.attributes[1];
    assert_eq!(b.visibility, AttributeVisibility::Public);
    assert_eq!(b.name.name, "Notes");
    assert_eq!(b.data_type, "TEXT(2000)");
    assert_eq!(b.flags, "A-IU-");
    assert!(b.properties.is_empty());
    assert_eq!(b.span.start.offset, ENTITY.find("public").unwrap());
    assert_eq!(b.span.end.offset, ENTITY.find("private").unwrap());
    let c = &n.attributes[2];
    assert_eq!(c.visibility, AttributeVisibility::Private);
    assert_eq!(c.data_type, "TEXT(50)");
    assert_eq!(c.flags, "");

    assert_eq!(n.keys.len(), 2);
    assert!(n.keys[0].is_primary);
    assert_eq!(n.keys[0].name.name, "Pk");
    assert_eq!(n.keys[0].columns.len(), 1);
    assert_eq!(n.keys[0].columns[0].name, "OrderNo");
    assert!(!n.keys[1].is_primary);
    let columns: Vec<&str> = n.keys[1].columns.iter().map(|c| c.name.as_str()).collect();
    assert_eq!(columns, vec!["Notes", "RowKey"]);

    assert_eq!(n.references.len(), 1);
    assert_eq!(n.references[0].name.name, "CustomerRef");
    assert_eq!(n.references[0].referenced_entity.name, "Customer");
    assert_eq!(n.references[0].foreign_key_columns[0].name, "CustomerNo");

    let machine = n.state_machine.unwrap();
    let states: Vec<(&str, StateType)> =
        machine.states.iter().map(|s| (s.name.name.as_str(), s.state_type)).collect();
    assert_eq!(
        states,
        vec![
            ("Planned", StateType::Initial),
            ("Released", StateType::Normal),
            ("Closed", StateType::Final)
        ]
    );
    assert_eq!(machine.transitions.len(), 1);
    assert_eq!(machine.transitions[0].from_state.name, "Planned");
    assert_eq!(machine.transitions[0].to_state.name, "Released");
    assert_eq!(machine.transitions[0].event.as_deref(), Some("Release"));

    assert_eq!(n.span.start.offset, 0);
    assert!(n.span.is_enclosing(&a.span));
}

#[test]
fn entity_without_sections_is_bare() {
    let ast = parse_source("entityname X;", Language::Entity).unwrap();
    let AstNode::Entity(n) = ast else { panic!("expected an entity") };
    assert_eq!(n.entity_name.name, "X");
    assert_eq!(n.component, "");
    assert!(n.code_gen_properties.is_none());
    assert!(n.attributes.is_empty());
    assert!(n.keys.is_empty());
    assert!(n.references.is_empty());
    assert!(n.state_machine.is_none());
}

#[test]
fn keywords_of_records_are_read_in_any_case() {
    let ast = parse_source("EntityName X; ATTRIBUTES { PRIVATE A NUMBER; }", Language::Entity)
        .unwrap();
    let AstNode::Entity(n) = ast else { panic!("expected an entity") };
    assert_eq!(n.entity_name.name, "X");
    assert_eq!(n.attributes[0].visibility, AttributeVisibility::Private);
}

#[test]
fn entity_faults_come_in_order() {
    assert_eq!(
        parse_source("", Language::Entity),
        Err(ParseError::InvalidSyntax { message: "entity name".to_string() })
    );
    assert_eq!(
        parse_source("entityname;", Language::Entity),
        Err(ParseError::InvalidSyntax { message: "entity name".to_string() })
    );
    assert_eq!(
        parse_source("entityname X; colour Red;", Language::Entity),
        Err(ParseError::UnexpectedToken {
            expected: "declaration".to_string(),
            found: "colour".to_string()
        })
    );
    assert_eq!(
        parse_source("attributes { public; } colour Red;", Language::Entity),
        Err(ParseError::UnexpectedToken {
            expected: "declaration".to_string(),
            found: "colour".to_string()
        })
    );
    assert_eq!(
        parse_source("entityname X; attributes { public; }", Language::Entity),
        Err(ParseError::InvalidSyntax { message: "attribute name".to_string() })
    );
    assert_eq!(
        parse_source(
            "entityname X; references { reference R(a); } keys { primary; }",
            Language::Entity
        ),
        Err(ParseError::InvalidSyntax { message: "key name".to_string() })
    );
    assert_eq!(
        parse_source("entityname X; references { reference R(a); }", Language::Entity),
        Err(ParseError::InvalidSyntax { message: "referenced entity".to_string() })
    );
    assert_eq!(
        parse_source("entityname X; statemachine { transition A; }", Language::Entity),
        Err(ParseError::InvalidSyntax { message: "states of a transition".to_string() })
    );
}

#[test]
fn records_fail_on_the_first_token_out_of_place() {
    assert_eq!(
        parse_source("entityname X", Language::Entity),
        Err(ParseError::UnexpectedToken {
            expected: "Semicolon".to_string(),
            found: "Eof".to_string()
        })
    );
    assert_eq!(
        parse_source("entityname X; attributes { public A TEXT(; }", Language::Entity),
        Err(ParseError::UnexpectedToken {
            expected: "name".to_string(),
            found: "Semicolon".to_string()
        })
    );
    assert_eq!(
        parse_source("entityname X; attributes { public A TEXT(1 2); }", Language::Entity),
        Err(ParseError::UnexpectedToken {
            expected: "RightParen".to_string(),
            found: "Number".to_string()
        })
    );
    assert_eq!(
        parse_source("entityname X; attributes { public A;", Language::Entity),
        Err(ParseError::UnexpectedToken {
            expected: "RightBrace".to_string(),
            found: "Eof".to_string()
        })
    );
    assert_eq!(
        parse_source("entityname X; }", Language::Entity),
        Err(ParseError::UnexpectedToken {
            expected: "Eof".to_string(),
            found: "RightBrace".to_string()
        })
    );
    assert_eq!(
        parse_source("; entityname X;", Language::Entity),
        Err(ParseError::UnexpectedToken {
            expected: "name".to_string(),
            found: "Semicolon".to_string()
        })
    );
}

#[test]
fn a_block_may_be_closed_with_or_without_a_semicolon() {
    let with = parse_source("entityname X; keys { primary Pk(a); };", Language::Entity).unwrap();
    let without = parse_source("entityname X; keys { primary Pk(a); }", Language::Entity).unwrap();
    let (AstNode::Entity(a), AstNode::Entity(b)) = (with, without) else { panic!() };
    assert_eq!(a.keys.len(), 1);
    assert_eq!(a.keys[0].name, b.keys[0].name);
    assert_eq!(a.keys[0].columns, b.keys[0].columns);
}

#[test]
fn comments_between_records_are_stepped_over() {
    let source = "-- head\nenumerationname Colour; /* of things */\nvalues { value Red; }";
    let AstNode::Enumeration(n) = parse_source(source, Language::Enumeration).unwrap() else {
        panic!()
    };
    assert_eq!(n.enumeration_name.name, "Colour");
    assert_eq!(n.values.len(), 1);
    assert_eq!(n.span.start.offset, source.find("enumerationname").unwrap());
    assert_eq!(n.span.start.line, 2);
}

#[test]
fn enumeration_source_gives_its_values() {
    let source = "enumerationname OrderType;
component ORDER;
values {
   value Normal 'Normal order' { label 'Normal'; }
   value Rush;
}";
    let AstNode::Enumeration(n) = parse_source(source, Language::Enumeration).unwrap() else {
        panic!()
    };
    assert_eq!(n.enumeration_name.name, "OrderType");
    assert_eq!(n.component, "ORDER");
    assert_eq!(n.values.len(), 2);
    assert_eq!(n.values[0].name.name, "Normal");
    assert_eq!(n.values[0].client_value.as_deref(), Some("Normal order"));
    assert_eq!(n.values[0].properties, vec![pair("label", "Normal")]);
    assert_eq!(n.values[1].name.name, "Rush");
    assert_eq!(n.values[1].client_value, None);
    assert_eq!(
        parse_source("component X;", Language::Enumeration),
        Err(ParseError::InvalidSyntax { message: "enumeration name".to_string() })
    );
    assert_eq!(
        parse_source("enumerationname E; values { value; }", Language::Enumeration),
        Err(ParseError::InvalidSyntax { message: "value name".to_string() })
    );
    assert_eq!(
        parse_source("enumerationname E; attributes { }", Language::Enumeration),
        Err(ParseError::UnexpectedToken {
            expected: "declaration".to_string(),
            found: "attributes".to_string()
        })
    );
}

#[test]
fn views_source_gives_views_and_columns() {
    let source = "layer Core;
column Objid STRING 'A----' { prompt 'Object id'; }
view Customer_Info {
   column Customer_Id STRING 'A----' { prompt 'Customer'; reference 'CustomerRef'; width 20; }
   column Name;
   select customer_id CustomerId;
   select name;
   from   customer_tab c;
}
view Empty_Info { }
";
    let AstNode::Views(n) = parse_source(source, Language::Views).unwrap() else { panic!() };
    assert_eq!(n.layer.as_deref(), Some("Core"));
    assert_eq!(n.column_definitions.len(), 1);
    assert_eq!(n.column_definitions[0].name.name, "Objid");
    assert_eq!(n.column_definitions[0].datatype.as_deref(), Some("STRING"));
    assert_eq!(n.column_definitions[0].flags.as_deref(), Some("A----"));
    assert_eq!(n.column_definitions[0].prompt.as_deref(), Some("Object id"));
    assert_eq!(n.column_definitions[0].reference, None);
    assert_eq!(n.views.len(), 2);
    let v = &n.views[0];
    assert_eq!(v.name.name, "Customer_Info");
    assert!(v.annotations.is_empty());
    assert_eq!(v.columns.len(), 2);
    assert_eq!(v.columns[0].name.name, "Customer_Id");
    assert_eq!(v.columns[0].prompt.as_deref(), Some("Customer"));
    assert_eq!(v.columns[0].reference.as_deref(), Some("CustomerRef"));
    assert_eq!(
        v.columns[0].properties,
        vec![pair("prompt", "Customer"), pair("reference", "CustomerRef"), pair("width", "20")]
    );
    assert_eq!(v.columns[1].name.name, "Name");
    assert_eq!(v.columns[1].datatype, None);
    assert_eq!(v.columns[1].flags, None);
    assert_eq!(v.query.select.len(), 2);
    assert_eq!(v.query.select[0].alias.as_ref().map(|a| a.name.as_str()), Some("CustomerId"));
    assert!(v.query.select[1].alias.is_none());
    assert_eq!(v.query.from.len(), 1);
    assert_eq!(v.query.from[0].table.name, "customer_tab");
    assert_eq!(v.query.from[0].alias.as_ref().map(|a| a.name.as_str()), Some("c"));
    assert!(v.query.where_clause.is_none());
    assert!(v.span.is_enclosing(&v.columns[0].span));
    assert!(n.views[1].columns.is_empty());

    assert_eq!(
        parse_source("view V { where x; }", Language::Views),
        Err(ParseError::UnexpectedToken {
            expected: "declaration".to_string(),
            found: "where".to_string()
        })
    );
    assert_eq!(
        parse_source("view V { column; }", Language::Views),
        Err(ParseError::InvalidSyntax { message: "column name".to_string() })
    );
    let AstNode::Views(none) = parse_source("", Language::Views).unwrap() else { panic!() };
    assert!(none.layer.is_none() && none.views.is_empty() && none.column_definitions.is_empty());
}

#[test]
fn storage_source_gives_tables_indexes_and_sequences() {
    let source = "layer Core;
table customer_tab {
   column customer_id VARCHAR2(20) not null;
   column name        VARCHAR2(100) default 'none';
   column credit      NUMBER(10,2);
   primary customer_pk(customer_id);
   unique  customer_uk(name);
}
index customer_ix customer_tab(name, credit) unique;
index plain_ix customer_tab(credit);
sequence customer_seq { start 1; increment = 5; }
";
    let AstNode::Storage(n) = parse_source(source, Language::Storage).unwrap() else { panic!() };
    assert_eq!(n.layer.as_deref(), Some("Core"));
    assert_eq!(n.definitions.len(), 4);
    let StorageDefinition::Table { name, columns, constraints, span } = &n.definitions[0] else {
        panic!("expected a table")
    };
    assert_eq!(name.name, "customer_tab");
    assert_eq!(columns.len(), 3);
    assert_eq!(columns[0].name.name, "customer_id");
    assert_eq!(columns[0].data_type, "VARCHAR2(20)");
    assert!(!columns[0].nullable);
    assert_eq!(columns[0].default_value, None);
    assert!(columns[1].nullable);
    assert_eq!(columns[1].default_value.as_deref(), Some("none"));
    assert_eq!(columns[2].data_type, "NUMBER(10,2)");
    assert_eq!(constraints.len(), 2);
    assert!(
        matches!(&constraints[0], TableConstraint::PrimaryKey { name, columns, .. } if name.name == "customer_pk" && columns[0].name == "customer_id")
    );
    assert!(
        matches!(&constraints[1], TableConstraint::UniqueConstraint { name, .. } if name.name == "customer_uk")
    );
    assert!(span.is_enclosing(&columns[2].span));
    let StorageDefinition::Index { name, is_unique, table_name, columns, .. } = &n.definitions[1]
    else {
        panic!("expected an index")
    };
    assert_eq!(name.name, "customer_ix");
    assert!(*is_unique);
    assert_eq!(table_name.name, "customer_tab");
    assert_eq!(columns.len(), 2);
    assert!(
        matches!(&n.definitions[2], StorageDefinition::Index { is_unique, .. } if !*is_unique)
    );
    let StorageDefinition::Sequence { name, properties, .. } = &n.definitions[3] else {
        panic!("expected a sequence")
    };
    assert_eq!(name.name, "customer_seq");
    assert_eq!(properties, &vec![pair("start", "1"), pair("increment", "5")]);

    assert_eq!(
        parse_source("index i;", Language::Storage),
        Err(ParseError::InvalidSyntax { message: "indexed table".to_string() })
    );
    assert_eq!(
        parse_source("table t { check c; }", Language::Storage),
        Err(ParseError::UnexpectedToken {
            expected: "declaration".to_string(),
            found: "check".to_string()
        })
    );
    assert_eq!(
        parse_source("table;", Language::Storage),
        Err(ParseError::InvalidSyntax { message: "definition name".to_string() })
    );
}

#[test]
fn projection_source_gives_attributes_and_actions() {
    let source = "projection OrderHandling;
entity     CustomerOrder;
attribute  OrderNo TEXT;
attribute  Customer TEXT(100) CustomerNo;
attribute  Bare;
action     Cancel { parameter Reason TEXT(200); parameter Result NUMBER out; parameter Both TEXT inout; }
action     Release;
";
    let AstNode::MarbleProjection(n) = parse_source(source, Language::MarbleProjection).unwrap()
    else {
        panic!()
    };
    assert_eq!(n.name.name, "OrderHandling");
    assert_eq!(n.entity.name, "CustomerOrder");
    assert_eq!(n.attributes.len(), 3);
    assert_eq!(n.attributes[0].data_type.as_deref(), Some("TEXT"));
    assert!(n.attributes[0].source.is_none());
    assert_eq!(n.attributes[1].data_type.as_deref(), Some("TEXT(100)"));
    assert_eq!(n.attributes[1].source.as_ref().map(|s| s.name.as_str()), Some("CustomerNo"));
    assert_eq!(n.attributes[2].data_type, None);
    assert_eq!(n.actions.len(), 2);
    let p = &n.actions[0].parameters;
    assert_eq!(p.len(), 3);
    assert_eq!(p[0].name.name, "Reason");
    assert_eq!(p[0].param_type.name, "TEXT");
    assert_eq!(p[0].param_type.parameters, vec!["200".to_string()]);
    assert_eq!(p[0].mode, ParameterMode::In);
    assert!(p[0].default_value.is_none());
    assert_eq!(p[1].mode, ParameterMode::Out);
    assert_eq!(p[2].mode, ParameterMode::InOut);
    assert!(n.actions[1].parameters.is_empty());

    assert_eq!(
        parse_source("projection P;", Language::MarbleProjection),
        Err(ParseError::InvalidSyntax { message: "projected entity".to_string() })
    );
    assert_eq!(
        parse_source("entity E;", Language::MarbleProjection),
        Err(ParseError::InvalidSyntax { message: "projection name".to_string() })
    );
    assert_eq!(
        parse_source("projection P; entity E; action A { parameter X; }", Language::MarbleProjection),
        Err(ParseError::InvalidSyntax { message: "parameter type".to_string() })
    );
}

#[test]
fn client_source_gives_layout_and_commands() {
    let source = "client OrderHandling;
group Main {
   field OrderNo OrderNo;
   list  Lines OrderLines(LineNo, Quantity);
   group Details { field Notes Notes; }
}
field Loose Binding;
command Cancel CancelOrder { confirm 'yes'; }
command Plain;
";
    let AstNode::MarbleClient(n) = parse_source(source, Language::MarbleClient).unwrap() else {
        panic!()
    };
    assert_eq!(n.name.name, "OrderHandling");
    assert_eq!(n.layout.len(), 2);
    let LayoutElement::Group { name, elements, span } = &n.layout[0] else { panic!() };
    assert_eq!(name.name, "Main");
    assert_eq!(elements.len(), 3);
    assert!(
        matches!(&elements[0], LayoutElement::Field { name, binding, .. } if name.name == "OrderNo" && binding.name == "OrderNo")
    );
    assert!(
        matches!(&elements[1], LayoutElement::List { name, source, columns, .. } if name.name == "Lines" && source.name == "OrderLines" && columns.len() == 2 && columns[1].name == "Quantity")
    );
    let LayoutElement::Group { name: inner, elements: nested, span: inner_span } = &elements[2]
    else {
        panic!()
    };
    assert_eq!(inner.name, "Details");
    assert_eq!(nested.len(), 1);
    assert!(span.is_enclosing(inner_span));
    assert!(matches!(&n.layout[1], LayoutElement::Field { name, .. } if name.name == "Loose"));
    assert_eq!(n.commands.len(), 2);
    assert_eq!(n.commands[0].name.name, "Cancel");
    assert_eq!(n.commands[0].action, "CancelOrder");
    assert_eq!(n.commands[0].parameters, vec![pair("confirm", "yes")]);
    assert_eq!(n.commands[1].action, "");

    assert_eq!(
        parse_source("client C; group G { field F; }", Language::MarbleClient),
        Err(ParseError::InvalidSyntax { message: "field binding".to_string() })
    );
    assert_eq!(
        parse_source("client C; group G { list L; }", Language::MarbleClient),
        Err(ParseError::InvalidSyntax { message: "list source".to_string() })
    );
    assert_eq!(
        parse_source("client C; group G { command X Y; }", Language::MarbleClient),
        Err(ParseError::UnexpectedToken {
            expected: "declaration".to_string(),
            found: "command".to_string()
        })
    );
    assert_eq!(
        parse_source("group G { }", Language::MarbleClient),
        Err(ParseError::InvalidSyntax { message: "client name".to_string() })
    );
}

#[test]
fn declarations_of_every_dialect_are_indexed() {
    let mut index = Index::in_memory().unwrap();
    index.index_file("order.entity", &parse_source(ENTITY, Language::Entity).unwrap()).unwrap();
    let names: Vec<(String, SymbolKind)> = index
        .get_file_symbols("order.entity")
        .unwrap()
        .into_iter()
        .map(|s| (s.name, s.kind))
        .collect();
    assert!(names.contains(&("CustomerOrder".to_string(), SymbolKind::Entity)));
    assert!(names.contains(&("OrderNo".to_string(), SymbolKind::EntityAttribute)));
    assert!(names.contains(&("Notes".to_string(), SymbolKind::EntityAttribute)));
    assert!(names.contains(&("Pk".to_string(), SymbolKind::EntityKey)));
    assert_eq!(names.len(), 6);

    let storage = "table t { column a NUMBER; primary pk(a); } sequence s { start 1; }";
    index.index_file("t.storage", &parse_source(storage, Language::Storage).unwrap()).unwrap();
    let symbols = index.get_file_symbols("t.storage").unwrap();
    assert_eq!(symbols.len(), 4);
    let table = symbols.iter().find(|s| s.name == "t").unwrap();
    let column = symbols.iter().find(|s| s.name == "a").unwrap();
    assert_eq!(column.parent, table.id);
    assert!(table.span.is_enclosing(&column.span));

    let views = "view V { column A STRING; column B; } view W { column C; }";
    index.index_file("v.views", &parse_source(views, Language::Views).unwrap()).unwrap();
    let symbols = index.get_file_symbols("v.views").unwrap();
    assert_eq!(symbols.len(), 5);
    let w = symbols.iter().find(|s| s.name == "W").unwrap();
    let c = symbols.iter().find(|s| s.name == "C").unwrap();
    assert_eq!(c.parent, w.id);
    assert_eq!(c.kind, SymbolKind::ViewColumn);

    let found = index.search_symbols("OrderNo").unwrap();
    assert_eq!(found.len(), 1);
    assert_eq!(found[0].file_path, "order.entity");

    let mut indexer = SymbolIndexer::new();
    indexer.index_ast(&parse_source("client C; command Go Run;", Language::MarbleClient).unwrap());
    assert_eq!(indexer.symbols.len(), 2);
}

#[test]
fn a_property_stated_twice_counts_once_with_its_last_value() {
    let source = "enumerationname E; values { value A { label 'one'; width 3; label 'two'; Label 'x'; } }";
    let AstNode::Enumeration(n) = parse_source(source, Language::Enumeration).unwrap() else {
        panic!()
    };
    assert_eq!(
        n.values[0].properties,
        vec![pair("label", "two"), pair("width", "3"), pair("Label", "x")]
    );
}
