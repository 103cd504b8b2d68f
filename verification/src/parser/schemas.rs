//! The view and storage dialects.
//!
//! A view source reads
//!
//! ```text
//! layer Core;
//! column Objid STRING 'A----' { prompt 'Object id'; }
//! view Customer_Info {
//!    column Customer_Id STRING 'A----' { prompt 'Customer'; reference 'CustomerRef'; }
//!    select customer_id CustomerId;
//!    from   customer_tab c;
//! }
//! ```
//!
//! and a storage source
//!
//! ```text
//! layer Core;
//! table customer_tab {
//!    column customer_id VARCHAR2(20) not null;
//!    column name        VARCHAR2(100) default 'none';
//!    primary customer_pk(customer_id);
//!    unique  customer_uk(name);
//! }
//! index customer_ix customer_tab(name) unique;
//! sequence customer_seq { start 1; }
//! ```

use crate::parser::ast::{
    ColumnDefinition, Expression, FromItem, SelectItem, Span, SqlQuery, StorageDefinition,
    StorageNode, TableColumn, TableConstraint, ViewDefinition, ViewsNode,
};
use crate::parser::members::{
    all_read, bag, begins, check_known, declared, first_fault, flags, following, has_word,
    is_mentioned, lacking, lacks, looked_up, look_up, mentions, name_of, optional_identifier,
    optional_text, or_empty, pairs_view, read_all, read_bag, read_declared, read_flags,
    read_following, read_name, read_names, read_said, read_word, said, text_or_empty, unknown,
    word_at, word_is, Declared, Vocabulary,
};
use crate::parser::parser::{ParseError, ParseErrorView};
use crate::parser::records::{
    identifier_views, record_views, Record, RecordView,
};
use crate::parser::statements::{expression_view, ExpressionView};
use vstd::prelude::*;

verus! {

impl Declared for ColumnDefinition {
    open spec fn takes(r: RecordView) -> bool {
        begins(r, "column"@)
    }

    open spec fn fault(r: RecordView) -> Option<ParseErrorView> {
        if r.items.len() < 2 {
            Some(lacking("column name"@))
        } else {
            None
        }
    }

    open spec fn reads(r: RecordView, d: ColumnDefinition) -> bool {
        &&& d.name@ == name_of(r)
        &&& optional_text(d.datatype) == declared(r)
        &&& optional_text(d.flags) == flags(r)
        &&& optional_text(d.prompt) == looked_up(bag(r.children), "prompt"@, 0)
        &&& optional_text(d.reference) == looked_up(bag(r.children), "reference"@, 0)
        &&& pairs_view(d.properties@) == bag(r.children)
        &&& d.span == r.span
    }

    fn accepts(r: &Record) -> (b: bool) {
        word_is(r, 0, "column")
    }

    fn read(r: &Record) -> (res: Result<ColumnDefinition, ParseError>) {
        if r.items.len() < 2 {
            return Err(lacks("column name"));
        }
        let properties = read_bag(&r.children);
        Ok(
            ColumnDefinition {
                name: read_name(r),
                flags: read_flags(r),
                datatype: read_declared(r),
                prompt: look_up(&properties, "prompt"),
                reference: look_up(&properties, "reference"),
                properties,
                span: r.span,
            },
        )
    }
}

impl Declared for SelectItem {
    open spec fn takes(r: RecordView) -> bool {
        begins(r, "select"@)
    }

    open spec fn fault(r: RecordView) -> Option<ParseErrorView> {
        if r.items.len() < 2 {
            Some(lacking("selected column"@))
        } else {
            None
        }
    }

    open spec fn reads(r: RecordView, d: SelectItem) -> bool {
        &&& expression_view(d.expression) == ExpressionView::Identifier(name_of(r))
        &&& optional_identifier(d.alias) == word_at(r, 2)
        &&& d.span == r.span
    }

    fn accepts(r: &Record) -> (b: bool) {
        word_is(r, 0, "select")
    }

    fn read(r: &Record) -> (res: Result<SelectItem, ParseError>) {
        if r.items.len() < 2 {
            return Err(lacks("selected column"));
        }
        Ok(
            SelectItem {
                expression: Expression::Identifier(read_name(r)),
                alias: read_word(r, 2),
                span: r.span,
            },
        )
    }
}

impl Declared for FromItem {
    open spec fn takes(r: RecordView) -> bool {
        begins(r, "from"@)
    }

    open spec fn fault(r: RecordView) -> Option<ParseErrorView> {
        if r.items.len() < 2 {
            Some(lacking("table name"@))
        } else {
            None
        }
    }

    open spec fn reads(r: RecordView, d: FromItem) -> bool {
        &&& d.table@ == name_of(r)
        &&& optional_identifier(d.alias) == word_at(r, 2)
        &&& d.span == r.span
    }

    fn accepts(r: &Record) -> (b: bool) {
        word_is(r, 0, "from")
    }

    fn read(r: &Record) -> (res: Result<FromItem, ParseError>) {
        if r.items.len() < 2 {
            return Err(lacks("table name"));
        }
        Ok(FromItem { table: read_name(r), alias: read_word(r, 2), span: r.span })
    }
}

impl Vocabulary for ViewDefinition {
    open spec fn knows(r: RecordView) -> bool {
        begins(r, "column"@) || begins(r, "select"@) || begins(r, "from"@)
    }

    fn known(r: &Record) -> (b: bool) {
        word_is(r, 0, "column") || word_is(r, 0, "select") || word_is(r, 0, "from")
    }
}

/// `q` is the query that the records state: what they select and from
/// where. Conditions, grouping and ordering are not part of a record source.
pub open spec fn query_reads(rs: Seq<RecordView>, span: Span, q: SqlQuery) -> bool {
    &&& all_read::<SelectItem>(rs, q.select@)
    &&& all_read::<FromItem>(rs, q.from@)
    &&& q.where_clause is None
    &&& q.group_by@.len() == 0
    &&& q.having is None
    &&& q.order_by@.len() == 0
    &&& q.span == span
}

impl Declared for ViewDefinition {
    open spec fn takes(r: RecordView) -> bool {
        begins(r, "view"@)
    }

    open spec fn fault(r: RecordView) -> Option<ParseErrorView> {
        if r.items.len() < 2 {
            Some(lacking("view name"@))
        } else if unknown::<ViewDefinition>(r.children) is Some {
            unknown::<ViewDefinition>(r.children)
        } else if first_fault::<ColumnDefinition>(r.children, 0) is Some {
            first_fault::<ColumnDefinition>(r.children, 0)
        } else if first_fault::<SelectItem>(r.children, 0) is Some {
            first_fault::<SelectItem>(r.children, 0)
        } else {
            first_fault::<FromItem>(r.children, 0)
        }
    }

    open spec fn reads(r: RecordView, d: ViewDefinition) -> bool {
        &&& d.name@ == name_of(r)
        &&& d.annotations@.len() == 0
        &&& all_read::<ColumnDefinition>(r.children, d.columns@)
        &&& query_reads(r.children, r.span, d.query)
        &&& d.span == r.span
    }

    fn accepts(r: &Record) -> (b: bool) {
        word_is(r, 0, "view")
    }

    fn read(r: &Record) -> (res: Result<ViewDefinition, ParseError>) {
        if r.items.len() < 2 {
            return Err(lacks("view name"));
        }
        check_known::<ViewDefinition>(&r.children)?;
        let columns = read_all::<ColumnDefinition>(&r.children)?;
        let select = read_all::<SelectItem>(&r.children)?;
        let from = read_all::<FromItem>(&r.children)?;
        Ok(
            ViewDefinition {
                name: read_name(r),
                annotations: Vec::new(),
                columns,
                query: SqlQuery {
                    select,
                    from,
                    where_clause: None,
                    group_by: Vec::new(),
                    having: None,
                    order_by: Vec::new(),
                    span: r.span,
                },
                span: r.span,
            },
        )
    }
}

impl Vocabulary for ViewsNode {
    open spec fn knows(r: RecordView) -> bool {
        begins(r, "layer"@) || begins(r, "column"@) || begins(r, "view"@)
    }

    fn known(r: &Record) -> (b: bool) {
        word_is(r, 0, "layer") || word_is(r, 0, "column") || word_is(r, 0, "view")
    }
}

/// Why the records state no views, or `None` where they do. The faults are
/// looked for in this order: a record of another dialect, the columns, the
/// views.
pub open spec fn views_fault(rs: Seq<RecordView>) -> Option<ParseErrorView> {
    if unknown::<ViewsNode>(rs) is Some {
        unknown::<ViewsNode>(rs)
    } else if first_fault::<ColumnDefinition>(rs, 0) is Some {
        first_fault::<ColumnDefinition>(rs, 0)
    } else {
        first_fault::<ViewDefinition>(rs, 0)
    }
}

/// `n` holds the views that the records state, `whole` being the extent of
/// the source.
pub open spec fn views_reads(rs: Seq<RecordView>, whole: Span, n: ViewsNode) -> bool {
    &&& optional_text(n.layer) == said(rs, "layer"@)
    &&& all_read::<ColumnDefinition>(rs, n.column_definitions@)
    &&& all_read::<ViewDefinition>(rs, n.views@)
    &&& n.span == whole
}

/// The views that the records state.
pub fn read_views(rs: &Vec<Record>, whole: Span) -> (res: Result<ViewsNode, ParseError>)
    ensures
        match views_fault(record_views(rs@)) {
            Some(e) => res matches Err(x) && x@ == e,
            None => res matches Ok(n) && views_reads(record_views(rs@), whole, n),
        },
{
    check_known::<ViewsNode>(rs)?;
    let column_definitions = read_all::<ColumnDefinition>(rs)?;
    let views = read_all::<ViewDefinition>(rs)?;
    Ok(ViewsNode { layer: read_said(rs, "layer"), column_definitions, views, span: whole })
}

impl Declared for TableColumn {
    open spec fn takes(r: RecordView) -> bool {
        begins(r, "column"@)
    }

    open spec fn fault(r: RecordView) -> Option<ParseErrorView> {
        if r.items.len() < 2 {
            Some(lacking("column name"@))
        } else {
            None
        }
    }

    open spec fn reads(r: RecordView, d: TableColumn) -> bool {
        &&& d.name@ == name_of(r)
        &&& d.data_type@ == text_or_empty(declared(r))
        &&& d.nullable == !mentions(r, 3, "not"@)
        &&& optional_text(d.default_value) == following(r, 3, "default"@)
        &&& d.span == r.span
    }

    fn accepts(r: &Record) -> (b: bool) {
        word_is(r, 0, "column")
    }

    fn read(r: &Record) -> (res: Result<TableColumn, ParseError>) {
        if r.items.len() < 2 {
            return Err(lacks("column name"));
        }
        Ok(
            TableColumn {
                name: read_name(r),
                data_type: or_empty(read_declared(r)),
                nullable: !is_mentioned(r, 3, "not"),
                default_value: read_following(r, 3, "default"),
                span: r.span,
            },
        )
    }
}

impl Declared for TableConstraint {
    open spec fn takes(r: RecordView) -> bool {
        begins(r, "primary"@) || begins(r, "unique"@)
    }

    open spec fn fault(r: RecordView) -> Option<ParseErrorView> {
        if r.items.len() < 2 {
            Some(lacking("constraint name"@))
        } else {
            None
        }
    }

    open spec fn reads(r: RecordView, d: TableConstraint) -> bool {
        match d {
            TableConstraint::PrimaryKey { name, columns, span } => begins(r, "primary"@) && name@
                == name_of(r) && identifier_views(columns@) == r.items[1].arguments && span
                == r.span,
            TableConstraint::UniqueConstraint { name, columns, span } => !begins(r, "primary"@)
                && name@ == name_of(r) && identifier_views(columns@) == r.items[1].arguments
                && span == r.span,
        }
    }

    fn accepts(r: &Record) -> (b: bool) {
        word_is(r, 0, "primary") || word_is(r, 0, "unique")
    }

    fn read(r: &Record) -> (res: Result<TableConstraint, ParseError>) {
        if r.items.len() < 2 {
            return Err(lacks("constraint name"));
        }
        let name = read_name(r);
        let columns = read_names(&r.items[1].arguments);
        if word_is(r, 0, "primary") {
            Ok(TableConstraint::PrimaryKey { name, columns, span: r.span })
        } else {
            Ok(TableConstraint::UniqueConstraint { name, columns, span: r.span })
        }
    }
}

/// The words that the records of a table begin with.
pub struct TableWords;

impl Vocabulary for TableWords {
    open spec fn knows(r: RecordView) -> bool {
        begins(r, "column"@) || begins(r, "primary"@) || begins(r, "unique"@)
    }

    fn known(r: &Record) -> (b: bool) {
        word_is(r, 0, "column") || word_is(r, 0, "primary") || word_is(r, 0, "unique")
    }
}

/// What a table record lacks, if anything: a name, or something in its
/// block.
pub open spec fn table_fault(r: RecordView) -> Option<ParseErrorView> {
    if unknown::<TableWords>(r.children) is Some {
        unknown::<TableWords>(r.children)
    } else if first_fault::<TableColumn>(r.children, 0) is Some {
        first_fault::<TableColumn>(r.children, 0)
    } else {
        first_fault::<TableConstraint>(r.children, 0)
    }
}

impl Declared for StorageDefinition {
    open spec fn takes(r: RecordView) -> bool {
        begins(r, "table"@) || begins(r, "index"@) || begins(r, "sequence"@)
    }

    open spec fn fault(r: RecordView) -> Option<ParseErrorView> {
        if r.items.len() < 2 {
            Some(lacking("definition name"@))
        } else if begins(r, "table"@) {
            table_fault(r)
        } else if begins(r, "index"@) && r.items.len() < 3 {
            Some(lacking("indexed table"@))
        } else {
            None
        }
    }

    open spec fn reads(r: RecordView, d: StorageDefinition) -> bool {
        match d {
            StorageDefinition::Table { name, columns, constraints, span } => begins(r, "table"@)
                && name@ == name_of(r) && all_read::<TableColumn>(r.children, columns@)
                && all_read::<TableConstraint>(r.children, constraints@) && span == r.span,
            StorageDefinition::Index { name, is_unique, table_name, columns, span } => !begins(
                r,
                "table"@,
            ) && begins(r, "index"@) && name@ == name_of(r) && is_unique == has_word(
                r,
                3,
                "unique"@,
            ) && table_name@ == r.items[2].name && identifier_views(columns@)
                == r.items[2].arguments && span == r.span,
            StorageDefinition::Sequence { name, properties, span } => !begins(r, "table"@)
                && !begins(r, "index"@) && name@ == name_of(r) && pairs_view(properties@) == bag(
                r.children,
            ) && span == r.span,
        }
    }

    fn accepts(r: &Record) -> (b: bool) {
        word_is(r, 0, "table") || word_is(r, 0, "index") || word_is(r, 0, "sequence")
    }

    fn read(r: &Record) -> (res: Result<StorageDefinition, ParseError>) {
        if r.items.len() < 2 {
            return Err(lacks("definition name"));
        }
        if word_is(r, 0, "table") {
            check_known::<TableWords>(&r.children)?;
            let columns = read_all::<TableColumn>(&r.children)?;
            let constraints = read_all::<TableConstraint>(&r.children)?;
            Ok(StorageDefinition::Table { name: read_name(r), columns, constraints, span: r.span })
        } else if word_is(r, 0, "index") {
            if r.items.len() < 3 {
                return Err(lacks("indexed table"));
            }
            Ok(
                StorageDefinition::Index {
                    name: read_name(r),
                    is_unique: word_is(r, 3, "unique"),
                    table_name: r.items[2].name.duplicate(),
                    columns: read_names(&r.items[2].arguments),
                    span: r.span,
                },
            )
        } else {
            Ok(
                StorageDefinition::Sequence {
                    name: read_name(r),
                    properties: read_bag(&r.children),
                    span: r.span,
                },
            )
        }
    }
}

impl Vocabulary for StorageNode {
    open spec fn knows(r: RecordView) -> bool {
        begins(r, "layer"@) || begins(r, "table"@) || begins(r, "index"@) || begins(
            r,
            "sequence"@,
        )
    }

    fn known(r: &Record) -> (b: bool) {
        word_is(r, 0, "layer") || word_is(r, 0, "table") || word_is(r, 0, "index") || word_is(
            r,
            0,
            "sequence",
        )
    }
}

/// Why the records state no storage definitions, or `None` where they do:
/// a record of another dialect, or the fault of the first definition that
/// lacks something.
pub open spec fn storage_fault(rs: Seq<RecordView>) -> Option<ParseErrorView> {
    if unknown::<StorageNode>(rs) is Some {
        unknown::<StorageNode>(rs)
    } else {
        first_fault::<StorageDefinition>(rs, 0)
    }
}

/// `n` holds the storage definitions that the records state, `whole` being
/// the extent of the source.
pub open spec fn storage_reads(rs: Seq<RecordView>, whole: Span, n: StorageNode) -> bool {
    &&& optional_text(n.layer) == said(rs, "layer"@)
    &&& all_read::<StorageDefinition>(rs, n.definitions@)
    &&& n.span == whole
}

/// The storage definitions that the records state.
pub fn read_storage(rs: &Vec<Record>, whole: Span) -> (res: Result<StorageNode, ParseError>)
    ensures
        match storage_fault(record_views(rs@)) {
            Some(e) => res matches Err(x) && x@ == e,
            None => res matches Ok(n) && storage_reads(record_views(rs@), whole, n),
        },
{
    check_known::<StorageNode>(rs)?;
    let definitions = read_all::<StorageDefinition>(rs)?;
    Ok(StorageNode { layer: read_said(rs, "layer"), definitions, span: whole })
}

} // verus!
