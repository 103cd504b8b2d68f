//! Parsing the declarative dialects: a source is read as records, and the
//! records as the definitions of its dialect.

use crate::index::database::placed_at;
use crate::index::symbols::{
    ast_references, ast_symbols, definition_symbols, definitions_symbols, view_symbols,
    views_symbols, SymbolModel,
};
use crate::parser::ast::{
    AstNode, ClientCommand, ColumnDefinition, EntityAttribute, EntityKey, EntityNode,
    EnumerationNode, EnumerationValue, MarbleClientNode, MarbleProjectionNode, ProjectionAction,
    ProjectionAttribute, Span, StorageDefinition, StorageNode, TableColumn, TableConstraint,
    ViewDefinition, ViewsNode,
};
use crate::parser::entities::{
    entity_fault, entity_reads, enumeration_fault, enumeration_reads, read_entity,
    read_enumeration,
};
use crate::parser::marble::{
    client_fault, client_reads, projection_fault, projection_reads, read_client, read_projection,
};
use crate::parser::members::{first_with, lemma_first_with, section, taken, Declared};
use crate::parser::lexer::Token;
use crate::parser::parser::{between, rising, well_placed, ParseError, Parsed, Parser};
use crate::parser::records::{
    document_from, lemma_between_encloses, lemma_records_nested_index,
    lemma_records_nested_wider, record_nested, record_views, records_nested, Record, RecordView,
};
use crate::parser::schemas::{
    read_storage, read_views, storage_fault, storage_reads, views_fault, views_reads,
};
use vstd::prelude::*;

verus! {

/// Where records are nested within a span, so are those of them that state
/// a declaration of the kind `D`.
pub proof fn lemma_taken_nested<D: Declared>(outer: Span, rs: Seq<RecordView>)
    requires
        records_nested(outer, rs),
    ensures
        taken::<D>(rs).len() <= rs.len(),
        forall|k: int|
            0 <= k < taken::<D>(rs).len() ==> record_nested(outer, #[trigger] taken::<D>(rs)[k]),
    decreases rs.len(),
{
    reveal_with_fuel(records_nested, 2);
    if rs.len() > 0 {
        lemma_taken_nested::<D>(outer, rs.drop_last());
    }
}

/// Where records are nested within a span, so are the records in the block
/// of any of them.
pub proof fn lemma_section_nested(outer: Span, rs: Seq<RecordView>, word: Seq<char>)
    requires
        records_nested(outer, rs),
    ensures
        records_nested(outer, section(rs, word)),
{
    reveal_with_fuel(records_nested, 2);
    lemma_first_with(rs, word, 0);
    match first_with(rs, word, 0) {
        Some(k) => {
            lemma_records_nested_index(outer, rs, k);
            lemma_records_nested_wider(outer, rs[k].span, rs[k].children);
        },
        None => {},
    }
}

/// Every span of the records is well formed, and every record with a parent
/// comes after it and lies within it.
pub open spec fn sound(recs: Seq<SymbolModel>) -> bool {
    forall|k: int| 0 <= k < recs.len() ==> #[trigger] sound_at(recs, k)
}

/// The span of the record at index `k` is well formed, and the record comes
/// after its parent and lies within it where it has one.
pub open spec fn sound_at(recs: Seq<SymbolModel>, k: int) -> bool {
    recs[k].span.well_formed() && placed_at(recs, k)
}

/// Sound records without references are what the index takes.
pub proof fn lemma_sound_is_well_placed(ast: AstNode)
    requires
        sound(ast_symbols(ast)),
        ast_references(ast).len() == 0,
    ensures
        well_placed(ast),
{
    let recs = ast_symbols(ast);
    assert forall|k: int| 0 <= k < recs.len() implies (#[trigger] recs[k]).span.well_formed() by {
        assert(sound_at(recs, k));
    }
    assert forall|k: int| 0 <= k < recs.len() implies #[trigger] placed_at(recs, k) by {
        assert(sound_at(recs, k));
    }
}

/// A record without a parent, followed by records that lie within it and
/// name it as their parent, may follow sound records.
pub proof fn lemma_group_sound(before: Seq<SymbolModel>, group: Seq<SymbolModel>)
    requires
        sound(before),
        group.len() >= 1,
        group[0].parent is None,
        group[0].span.well_formed(),
        forall|k: int|
            1 <= k < group.len() ==> (#[trigger] group[k]).parent == Some(before.len() as int)
                && group[k].span.well_formed() && group[0].span.encloses(group[k].span),
    ensures
        sound(before + group),
{
    let all = before + group;
    assert forall|k: int| 0 <= k < all.len() implies #[trigger] sound_at(all, k) by {
        if k < before.len() {
            assert(sound_at(before, k));
            assert(all[k] == before[k]);
            if before[k].parent is Some {
                assert(all[before[k].parent->Some_0] == before[before[k].parent->Some_0]);
            }
        } else {
            assert(all[k] == group[k - before.len()]);
            assert(all[before.len() as int] == group[0]);
        }
    }
}

/// The declarations of the kind `D` read off records nested within a span
/// have the extents of records nested within it.
pub open spec fn extents_nested(outer: Span, spans: Seq<Span>) -> bool {
    forall|k: int|
        0 <= k < spans.len() ==> (#[trigger] spans[k]).well_formed() && outer.encloses(spans[k])
}

/// An entity read off records nested within the source is what the index
/// takes.
pub proof fn lemma_entity_placed(rs: Seq<RecordView>, whole: Span, n: EntityNode)
    requires
        records_nested(whole, rs),
        whole.well_formed(),
        entity_reads(rs, whole, n),
    ensures
        well_placed(AstNode::Entity(n)),
{
    let ast = AstNode::Entity(n);
    let recs = ast_symbols(ast);
    let attributes = section(rs, "attributes"@);
    let keys = section(rs, "keys"@);
    lemma_section_nested(whole, rs, "attributes"@);
    lemma_section_nested(whole, rs, "keys"@);
    lemma_taken_nested::<EntityAttribute>(whole, attributes);
    lemma_taken_nested::<EntityKey>(whole, keys);
    assert forall|k: int| 0 <= k < recs.len() implies #[trigger] sound_at(recs, k) by {
        if 1 <= k <= n.attributes@.len() {
            let j = k - 1;
            assert(EntityAttribute::reads(taken::<EntityAttribute>(attributes)[j], n.attributes@[j]));
            assert(record_nested(whole, taken::<EntityAttribute>(attributes)[j]));
        } else if k > n.attributes@.len() {
            let j = k - 1 - n.attributes@.len();
            assert(EntityKey::reads(taken::<EntityKey>(keys)[j], n.keys@[j]));
            assert(record_nested(whole, taken::<EntityKey>(keys)[j]));
        }
    }
    lemma_sound_is_well_placed(ast);
}

/// An enumeration read off records nested within the source is what the
/// index takes.
pub proof fn lemma_enumeration_placed(rs: Seq<RecordView>, whole: Span, n: EnumerationNode)
    requires
        records_nested(whole, rs),
        whole.well_formed(),
        enumeration_reads(rs, whole, n),
    ensures
        well_placed(AstNode::Enumeration(n)),
{
    let ast = AstNode::Enumeration(n);
    let recs = ast_symbols(ast);
    let values = section(rs, "values"@);
    lemma_section_nested(whole, rs, "values"@);
    lemma_taken_nested::<EnumerationValue>(whole, values);
    assert forall|k: int| 0 <= k < recs.len() implies #[trigger] sound_at(recs, k) by {
        if k >= 1 {
            let j = k - 1;
            assert(EnumerationValue::reads(taken::<EnumerationValue>(values)[j], n.values@[j]));
            assert(record_nested(whole, taken::<EnumerationValue>(values)[j]));
        }
    }
    lemma_sound_is_well_placed(ast);
}

/// A projection read off records nested within the source is what the index
/// takes.
pub proof fn lemma_projection_placed(rs: Seq<RecordView>, whole: Span, n: MarbleProjectionNode)
    requires
        records_nested(whole, rs),
        whole.well_formed(),
        projection_reads(rs, whole, n),
    ensures
        well_placed(AstNode::MarbleProjection(n)),
{
    let ast = AstNode::MarbleProjection(n);
    let recs = ast_symbols(ast);
    lemma_taken_nested::<ProjectionAttribute>(whole, rs);
    lemma_taken_nested::<ProjectionAction>(whole, rs);
    assert forall|k: int| 0 <= k < recs.len() implies #[trigger] sound_at(recs, k) by {
        if 1 <= k <= n.attributes@.len() {
            let j = k - 1;
            assert(ProjectionAttribute::reads(taken::<ProjectionAttribute>(rs)[j], n.attributes@[j]));
            assert(record_nested(whole, taken::<ProjectionAttribute>(rs)[j]));
        } else if k > n.attributes@.len() {
            let j = k - 1 - n.attributes@.len();
            assert(ProjectionAction::reads(taken::<ProjectionAction>(rs)[j], n.actions@[j]));
            assert(record_nested(whole, taken::<ProjectionAction>(rs)[j]));
        }
    }
    lemma_sound_is_well_placed(ast);
}

/// A client read off records nested within the source is what the index
/// takes.
pub proof fn lemma_client_placed(rs: Seq<RecordView>, whole: Span, n: MarbleClientNode)
    requires
        records_nested(whole, rs),
        whole.well_formed(),
        client_reads(rs, whole, n),
    ensures
        well_placed(AstNode::MarbleClient(n)),
{
    let ast = AstNode::MarbleClient(n);
    let recs = ast_symbols(ast);
    lemma_taken_nested::<ClientCommand>(whole, rs);
    assert forall|k: int| 0 <= k < recs.len() implies #[trigger] sound_at(recs, k) by {
        if k >= 1 {
            let j = k - 1;
            assert(ClientCommand::reads(taken::<ClientCommand>(rs)[j], n.commands@[j]));
            assert(record_nested(whole, taken::<ClientCommand>(rs)[j]));
        }
    }
    lemma_sound_is_well_placed(ast);
}

/// The extent of the view is well formed and encloses the well-formed
/// extents of its columns.
pub open spec fn view_placed(v: ViewDefinition) -> bool {
    v.span.well_formed() && forall|j: int|
        0 <= j < v.columns@.len() ==> (#[trigger] v.columns@[j]).span.well_formed()
            && v.span.encloses(v.columns@[j].span)
}

/// The symbols of views that are placed are sound.
pub proof fn lemma_views_sound(vs: Seq<ViewDefinition>)
    requires
        forall|k: int| 0 <= k < vs.len() ==> view_placed(#[trigger] vs[k]),
    ensures
        sound(views_symbols(vs)),
    decreases vs.len(),
{
    if vs.len() > 0 {
        let front = vs.drop_last();
        assert forall|k: int| 0 <= k < front.len() implies view_placed(#[trigger] front[k]) by {
            assert(front[k] == vs[k]);
        }
        lemma_views_sound(front);
        let before = views_symbols(front);
        let v = vs.last();
        assert(view_placed(v));
        let group = view_symbols(v, before.len() as int);
        assert forall|k: int| 1 <= k < group.len() implies (#[trigger] group[k]).parent == Some(
            before.len() as int,
        ) && group[k].span.well_formed() && group[0].span.encloses(group[k].span) by {
            assert(group[k].span == v.columns@[k - 1].span);
        }
        lemma_group_sound(before, group);
    }
}

/// A view read off a record nested within a span is placed.
pub proof fn lemma_view_placed(outer: Span, r: RecordView, v: ViewDefinition)
    requires
        record_nested(outer, r),
        ViewDefinition::reads(r, v),
    ensures
        view_placed(v),
{
    reveal_with_fuel(record_nested, 2);
    lemma_taken_nested::<ColumnDefinition>(r.span, r.children);
    assert forall|j: int| 0 <= j < v.columns@.len() implies (#[trigger] v.columns@[j]).span.well_formed()
        && v.span.encloses(v.columns@[j].span) by {
        assert(ColumnDefinition::reads(taken::<ColumnDefinition>(r.children)[j], v.columns@[j]));
        assert(record_nested(r.span, taken::<ColumnDefinition>(r.children)[j]));
    }
}

/// Views read off records nested within the source are what the index
/// takes.
pub proof fn lemma_views_placed(rs: Seq<RecordView>, whole: Span, n: ViewsNode)
    requires
        records_nested(whole, rs),
        views_reads(rs, whole, n),
    ensures
        well_placed(AstNode::Views(n)),
{
    let ast = AstNode::Views(n);
    lemma_taken_nested::<ViewDefinition>(whole, rs);
    assert forall|k: int| 0 <= k < n.views@.len() implies view_placed(#[trigger] n.views@[k]) by {
        assert(ViewDefinition::reads(taken::<ViewDefinition>(rs)[k], n.views@[k]));
        lemma_view_placed(whole, taken::<ViewDefinition>(rs)[k], n.views@[k]);
    }
    lemma_views_sound(n.views@);
    lemma_sound_is_well_placed(ast);
}

/// The extent of the definition is well formed and, for a table, encloses
/// the well-formed extents of its columns and constraints.
pub open spec fn definition_placed(d: StorageDefinition) -> bool {
    match d {
        StorageDefinition::Table { name, columns, constraints, span } => span.well_formed() && (
        forall|j: int|
            0 <= j < columns@.len() ==> (#[trigger] columns@[j]).span.well_formed()
                && span.encloses(columns@[j].span)) && (forall|j: int|
            0 <= j < constraints@.len() ==> constraint_extent(
                #[trigger] constraints@[j],
            ).well_formed() && span.encloses(constraint_extent(constraints@[j]))),
        StorageDefinition::Index { name, is_unique, table_name, columns, span } => span.well_formed(),
        StorageDefinition::Sequence { name, properties, span } => span.well_formed(),
    }
}

/// The extent of a table constraint.
pub open spec fn constraint_extent(c: TableConstraint) -> Span {
    match c {
        TableConstraint::PrimaryKey { name, columns, span } => span,
        TableConstraint::UniqueConstraint { name, columns, span } => span,
    }
}

/// The symbols of storage definitions that are placed are sound.
pub proof fn lemma_definitions_sound(ds: Seq<StorageDefinition>)
    requires
        forall|k: int| 0 <= k < ds.len() ==> definition_placed(#[trigger] ds[k]),
    ensures
        sound(definitions_symbols(ds)),
    decreases ds.len(),
{
    if ds.len() > 0 {
        let front = ds.drop_last();
        assert forall|k: int| 0 <= k < front.len() implies definition_placed(
            #[trigger] front[k],
        ) by {
            assert(front[k] == ds[k]);
        }
        lemma_definitions_sound(front);
        let before = definitions_symbols(front);
        let d = ds.last();
        assert(definition_placed(d));
        let group = definition_symbols(d, before.len() as int);
        assert forall|k: int| 1 <= k < group.len() implies (#[trigger] group[k]).parent == Some(
            before.len() as int,
        ) && group[k].span.well_formed() && group[0].span.encloses(group[k].span) by {
            match d {
                StorageDefinition::Table { name, columns, constraints, span } => {
                    if k <= columns@.len() {
                        assert(group[k].span == columns@[k - 1].span);
                    } else {
                        let j = k - 1 - columns@.len();
                        assert(group[k].span == constraint_extent(constraints@[j]));
                    }
                },
                _ => {},
            }
        }
        lemma_group_sound(before, group);
    }
}

/// A storage definition read off a record nested within a span is placed.
pub proof fn lemma_definition_placed(outer: Span, r: RecordView, d: StorageDefinition)
    requires
        record_nested(outer, r),
        StorageDefinition::reads(r, d),
    ensures
        definition_placed(d),
{
    reveal_with_fuel(record_nested, 2);
    match d {
        StorageDefinition::Table { name, columns, constraints, span } => {
            lemma_taken_nested::<TableColumn>(r.span, r.children);
            lemma_taken_nested::<TableConstraint>(r.span, r.children);
            assert forall|j: int| 0 <= j < columns@.len() implies (#[trigger] columns@[j]).span.well_formed()
                && span.encloses(columns@[j].span) by {
                assert(TableColumn::reads(taken::<TableColumn>(r.children)[j], columns@[j]));
                assert(record_nested(r.span, taken::<TableColumn>(r.children)[j]));
            }
            assert forall|j: int| 0 <= j < constraints@.len() implies constraint_extent(
                #[trigger] constraints@[j],
            ).well_formed() && span.encloses(constraint_extent(constraints@[j])) by {
                assert(TableConstraint::reads(
                    taken::<TableConstraint>(r.children)[j],
                    constraints@[j],
                ));
                assert(record_nested(r.span, taken::<TableConstraint>(r.children)[j]));
            }
        },
        _ => {},
    }
}

/// Storage definitions read off records nested within the source are what
/// the index takes.
pub proof fn lemma_storage_placed(rs: Seq<RecordView>, whole: Span, n: StorageNode)
    requires
        records_nested(whole, rs),
        storage_reads(rs, whole, n),
    ensures
        well_placed(AstNode::Storage(n)),
{
    let ast = AstNode::Storage(n);
    lemma_taken_nested::<StorageDefinition>(whole, rs);
    assert forall|k: int| 0 <= k < n.definitions@.len() implies definition_placed(
        #[trigger] n.definitions@[k],
    ) by {
        assert(StorageDefinition::reads(taken::<StorageDefinition>(rs)[k], n.definitions@[k]));
        lemma_definition_placed(whole, taken::<StorageDefinition>(rs)[k], n.definitions@[k]);
    }
    lemma_definitions_sound(n.definitions@);
    lemma_sound_is_well_placed(ast);
}

/// The extent of a source whose first significant token stands at index
/// `i`: from that token to the end of the stream.
pub open spec fn source_span(ts: Seq<Token>, i: int) -> Span {
    between(ts, i, ts.len() as int)
}

/// `r` is what reading the tokens from index `i` on as an entity gives.
pub open spec fn entity_parses(ts: Seq<Token>, i: int, r: Result<AstNode, ParseError>) -> bool {
    match document_from(ts, i) {
        Parsed::Failed(e) => r matches Err(x) && x@ == e,
        Parsed::Done(rs, j) => match entity_fault(rs) {
            Some(e) => r matches Err(x) && x@ == e,
            None => r matches Ok(AstNode::Entity(n)) && entity_reads(rs, source_span(ts, i), n),
        },
    }
}

/// `r` is what reading the tokens from index `i` on as an enumeration gives.
pub open spec fn enumeration_parses(ts: Seq<Token>, i: int, r: Result<AstNode, ParseError>) -> bool {
    match document_from(ts, i) {
        Parsed::Failed(e) => r matches Err(x) && x@ == e,
        Parsed::Done(rs, j) => match enumeration_fault(rs) {
            Some(e) => r matches Err(x) && x@ == e,
            None => r matches Ok(AstNode::Enumeration(n)) && enumeration_reads(
                rs,
                source_span(ts, i),
                n,
            ),
        },
    }
}

/// `r` is what reading the tokens from index `i` on as views gives.
pub open spec fn views_parses(ts: Seq<Token>, i: int, r: Result<AstNode, ParseError>) -> bool {
    match document_from(ts, i) {
        Parsed::Failed(e) => r matches Err(x) && x@ == e,
        Parsed::Done(rs, j) => match views_fault(rs) {
            Some(e) => r matches Err(x) && x@ == e,
            None => r matches Ok(AstNode::Views(n)) && views_reads(rs, source_span(ts, i), n),
        },
    }
}

/// `r` is what reading the tokens from index `i` on as storage definitions
/// gives.
pub open spec fn storage_parses(ts: Seq<Token>, i: int, r: Result<AstNode, ParseError>) -> bool {
    match document_from(ts, i) {
        Parsed::Failed(e) => r matches Err(x) && x@ == e,
        Parsed::Done(rs, j) => match storage_fault(rs) {
            Some(e) => r matches Err(x) && x@ == e,
            None => r matches Ok(AstNode::Storage(n)) && storage_reads(rs, source_span(ts, i), n),
        },
    }
}

/// `r` is what reading the tokens from index `i` on as a projection gives.
pub open spec fn projection_parses(ts: Seq<Token>, i: int, r: Result<AstNode, ParseError>) -> bool {
    match document_from(ts, i) {
        Parsed::Failed(e) => r matches Err(x) && x@ == e,
        Parsed::Done(rs, j) => match projection_fault(rs) {
            Some(e) => r matches Err(x) && x@ == e,
            None => r matches Ok(AstNode::MarbleProjection(n)) && projection_reads(
                rs,
                source_span(ts, i),
                n,
            ),
        },
    }
}

/// `r` is what reading the tokens from index `i` on as a client gives.
pub open spec fn client_parses(ts: Seq<Token>, i: int, r: Result<AstNode, ParseError>) -> bool {
    match document_from(ts, i) {
        Parsed::Failed(e) => r matches Err(x) && x@ == e,
        Parsed::Done(rs, j) => match client_fault(rs) {
            Some(e) => r matches Err(x) && x@ == e,
            None => r matches Ok(AstNode::MarbleClient(n)) && client_reads(
                rs,
                source_span(ts, i),
                n,
            ),
        },
    }
}

impl Parser {
    /// Reads the source as records, and gives them with the extent of the
    /// source.
    fn parse_source_records(&mut self) -> (r: Result<(Vec<Record>, Span), ParseError>)
        requires
            old(self).wf(),
        ensures
            final(self).wf(),
            final(self).stream() == old(self).stream(),
            final(self).dialect() == old(self).dialect(),
            match document_from(old(self).stream(), old(self).cursor()) {
                Parsed::Done(v, j) => r matches Ok(p) && record_views(p.0@) == v && p.1
                    == source_span(old(self).stream(), old(self).cursor()),
                Parsed::Failed(x) => r matches Err(e) && e@ == x,
            },
            rising(old(self).stream()) ==> (r matches Ok(p) ==> p.1.well_formed()
                && records_nested(p.1, record_views(p.0@))),
    {
        let ghost ts = self.stream();
        let first = self.index();
        let start = self.current_position();
        let records = self.parse_document()?;
        let whole = Span { start, end: self.position_at(self.token_count()) };
        proof {
            if rising(ts) {
                lemma_between_encloses(
                    ts,
                    first as int,
                    ts.len() as int,
                    first as int,
                    ts.len() as int,
                );
            }
        }
        Ok((records, whole))
    }

    /// Parses a source of the entity dialect.
    pub(crate) fn parse_entity(&mut self) -> (r: Result<AstNode, ParseError>)
        requires
            old(self).wf(),
        ensures
            final(self).wf(),
            final(self).stream() == old(self).stream(),
            final(self).dialect() == old(self).dialect(),
            entity_parses(old(self).stream(), old(self).cursor(), r),
            rising(old(self).stream()) ==> (r matches Ok(ast) ==> well_placed(ast)),
    {
        let (records, whole) = self.parse_source_records()?;
        let n = read_entity(&records, whole)?;
        proof {
            if rising(self.stream()) {
                lemma_entity_placed(record_views(records@), whole, n);
            }
        }
        Ok(AstNode::Entity(n))
    }

    /// Parses a source of the enumeration dialect.
    pub(crate) fn parse_enumeration(&mut self) -> (r: Result<AstNode, ParseError>)
        requires
            old(self).wf(),
        ensures
            final(self).wf(),
            final(self).stream() == old(self).stream(),
            final(self).dialect() == old(self).dialect(),
            enumeration_parses(old(self).stream(), old(self).cursor(), r),
            rising(old(self).stream()) ==> (r matches Ok(ast) ==> well_placed(ast)),
    {
        let (records, whole) = self.parse_source_records()?;
        let n = read_enumeration(&records, whole)?;
        proof {
            if rising(self.stream()) {
                lemma_enumeration_placed(record_views(records@), whole, n);
            }
        }
        Ok(AstNode::Enumeration(n))
    }

    /// Parses a source of the views dialect.
    pub(crate) fn parse_views(&mut self) -> (r: Result<AstNode, ParseError>)
        requires
            old(self).wf(),
        ensures
            final(self).wf(),
            final(self).stream() == old(self).stream(),
            final(self).dialect() == old(self).dialect(),
            views_parses(old(self).stream(), old(self).cursor(), r),
            rising(old(self).stream()) ==> (r matches Ok(ast) ==> well_placed(ast)),
    {
        let (records, whole) = self.parse_source_records()?;
        let n = read_views(&records, whole)?;
        proof {
            if rising(self.stream()) {
                lemma_views_placed(record_views(records@), whole, n);
            }
        }
        Ok(AstNode::Views(n))
    }

    /// Parses a source of the storage dialect.
    pub(crate) fn parse_storage(&mut self) -> (r: Result<AstNode, ParseError>)
        requires
            old(self).wf(),
        ensures
            final(self).wf(),
            final(self).stream() == old(self).stream(),
            final(self).dialect() == old(self).dialect(),
            storage_parses(old(self).stream(), old(self).cursor(), r),
            rising(old(self).stream()) ==> (r matches Ok(ast) ==> well_placed(ast)),
    {
        let (records, whole) = self.parse_source_records()?;
        let n = read_storage(&records, whole)?;
        proof {
            if rising(self.stream()) {
                lemma_storage_placed(record_views(records@), whole, n);
            }
        }
        Ok(AstNode::Storage(n))
    }

    /// Parses a source of the projection dialect.
    pub(crate) fn parse_marble_projection(&mut self) -> (r: Result<AstNode, ParseError>)
        requires
            old(self).wf(),
        ensures
            final(self).wf(),
            final(self).stream() == old(self).stream(),
            final(self).dialect() == old(self).dialect(),
            projection_parses(old(self).stream(), old(self).cursor(), r),
            rising(old(self).stream()) ==> (r matches Ok(ast) ==> well_placed(ast)),
    {
        let (records, whole) = self.parse_source_records()?;
        let n = read_projection(&records, whole)?;
        proof {
            if rising(self.stream()) {
                lemma_projection_placed(record_views(records@), whole, n);
            }
        }
        Ok(AstNode::MarbleProjection(n))
    }

    /// Parses a source of the client dialect.
    pub(crate) fn parse_marble_client(&mut self) -> (r: Result<AstNode, ParseError>)
        requires
            old(self).wf(),
        ensures
            final(self).wf(),
            final(self).stream() == old(self).stream(),
            final(self).dialect() == old(self).dialect(),
            client_parses(old(self).stream(), old(self).cursor(), r),
            rising(old(self).stream()) ==> (r matches Ok(ast) ==> well_placed(ast)),
    {
        let (records, whole) = self.parse_source_records()?;
        let n = read_client(&records, whole)?;
        proof {
            if rising(self.stream()) {
                lemma_client_placed(record_views(records@), whole, n);
            }
        }
        Ok(AstNode::MarbleClient(n))
    }
}

} // verus!
