//! The store: files, symbols and references held as three tables.
//!
//! Rows enter the store one file at a time. Entering a file replaces whatever
//! the store held for its path: the old rows leave and the new rows come in
//! as one step, or nothing changes at all. The store gives every row its id,
//! counting upwards and never using an id twice.
//!
//! A store that is `well_formed` keeps the promises of the data model: a path
//! names one file, every symbol and reference belongs to a file of the store,
//! a symbol's parent is a symbol of the same file whose span encloses its
//! own, and no file holds two symbols with the same name and span.

use crate::index::symbols::{
    text_of, ReferenceKind, ReferenceRecord, SymbolKind, SymbolModel, SymbolRecord,
};
use crate::parser::ast::{Position, Span};
use crate::parser::Language;
use crate::filtering::{kept, lemma_kept_members, lemma_kept_rising};
use crate::sorting::{
    ascending, lemma_sorted_ascending, lemma_sorted_permutes, ranks_by_levels, sort, sorted, Ranked,
};
use crate::text::{
    comes_before, lemma_comes_before_irreflexive, lemma_comes_before_total,
    lemma_comes_before_transitive, lower, lower_chars, occurs_in, str_comes_before, str_eq,
    vec_occurs_in,
};
use vstd::prelude::*;

verus! {

/// A file of the store.
#[derive(Debug, Clone, PartialEq)]
pub struct FileRow {
    pub id: i64,
    pub path: String,
    pub language: Language,
}

/// A symbol of the store.
#[derive(Debug, Clone, PartialEq)]
pub struct SymbolRow {
    pub id: i64,
    pub file_id: i64,
    pub file_path: String,
    pub name: String,
    pub kind: String,
    pub start_line: usize,
    pub start_column: usize,
    pub end_line: usize,
    pub end_column: usize,
    pub start_offset: usize,
    pub end_offset: usize,
    pub parent_id: Option<i64>,
    pub signature: Option<String>,
    pub documentation: Option<String>,
}

/// A reference of the store. The owning symbol stays unset until a query
/// resolves it.
#[derive(Debug, Clone, PartialEq)]
pub struct ReferenceRow {
    pub id: i64,
    pub symbol_id: Option<i64>,
    pub file_id: i64,
    pub file_path: String,
    pub start_line: usize,
    pub start_column: usize,
    pub end_line: usize,
    pub end_column: usize,
    pub start_offset: usize,
    pub end_offset: usize,
    pub reference_kind: String,
}

/// Why the store did not take a file.
#[derive(Debug, Clone, Copy, PartialEq, Eq, Structural)]
pub enum IndexError {
    /// A symbol or reference whose span ends before it starts.
    InvalidSpan,
    /// A symbol whose parent does not come before it, or whose span the
    /// parent's span does not enclose.
    MisplacedChild,
    /// Two symbols with the same name and span.
    DuplicateSymbol,
    /// The store has no ids left for the rows.
    StoreFull,
}

impl IndexError {
    /// The error as a message for people.
    pub open spec fn message(self) -> Seq<char> {
        match self {
            IndexError::InvalidSpan => "A span ends before it starts"@,
            IndexError::MisplacedChild => "A symbol lies outside its parent"@,
            IndexError::DuplicateSymbol => "Two symbols share a name and a span"@,
            IndexError::StoreFull => "The store has no ids left"@,
        }
    }

    /// The error as a message for people.
    pub fn to_string(&self) -> (r: String)
        ensures
            r@ == self.message(),
    {
        match self {
            IndexError::InvalidSpan => "A span ends before it starts".to_owned(),
            IndexError::MisplacedChild => "A symbol lies outside its parent".to_owned(),
            IndexError::DuplicateSymbol => "Two symbols share a name and a span".to_owned(),
            IndexError::StoreFull => "The store has no ids left".to_owned(),
        }
    }
}

/// A file row with its path read as characters.
pub struct FileEntry {
    pub id: i64,
    pub path: Seq<char>,
    pub language: Language,
}

impl View for FileRow {
    type V = FileEntry;

    open spec fn view(&self) -> FileEntry {
        FileEntry { id: self.id, path: self.path@, language: self.language }
    }
}

/// A symbol row with its texts read as characters and its span put together.
pub struct SymbolEntry {
    pub id: i64,
    pub file_id: i64,
    pub file_path: Seq<char>,
    pub name: Seq<char>,
    pub kind: Seq<char>,
    pub span: Span,
    pub parent_id: Option<i64>,
    pub signature: Option<Seq<char>>,
    pub documentation: Option<Seq<char>>,
}

impl SymbolRow {
    /// The span that the row's six position columns spell.
    pub open spec fn span(&self) -> Span {
        Span {
            start: Position {
                line: self.start_line,
                column: self.start_column,
                offset: self.start_offset,
            },
            end: Position { line: self.end_line, column: self.end_column, offset: self.end_offset },
        }
    }

    /// Executable form of `span`.
    pub fn to_span(&self) -> (s: Span)
        ensures
            s == self.span(),
    {
        Span {
            start: Position {
                line: self.start_line,
                column: self.start_column,
                offset: self.start_offset,
            },
            end: Position { line: self.end_line, column: self.end_column, offset: self.end_offset },
        }
    }

    /// A copy of the row.
    pub fn duplicate(&self) -> (r: SymbolRow)
        ensures
            r == *self,
    {
        SymbolRow {
            id: self.id,
            file_id: self.file_id,
            file_path: self.file_path.clone(),
            name: self.name.clone(),
            kind: self.kind.clone(),
            start_line: self.start_line,
            start_column: self.start_column,
            end_line: self.end_line,
            end_column: self.end_column,
            start_offset: self.start_offset,
            end_offset: self.end_offset,
            parent_id: self.parent_id,
            signature: copy_text(&self.signature),
            documentation: copy_text(&self.documentation),
        }
    }
}

impl View for SymbolRow {
    type V = SymbolEntry;

    open spec fn view(&self) -> SymbolEntry {
        SymbolEntry {
            id: self.id,
            file_id: self.file_id,
            file_path: self.file_path@,
            name: self.name@,
            kind: self.kind@,
            span: self.span(),
            parent_id: self.parent_id,
            signature: text_of(self.signature),
            documentation: text_of(self.documentation),
        }
    }
}

/// A reference row with its texts read as characters and its span put
/// together.
pub struct ReferenceEntry {
    pub id: i64,
    pub symbol_id: Option<i64>,
    pub file_id: i64,
    pub file_path: Seq<char>,
    pub span: Span,
    pub kind: Seq<char>,
}

impl ReferenceRow {
    /// The span that the row's six position columns spell.
    pub open spec fn span(&self) -> Span {
        Span {
            start: Position {
                line: self.start_line,
                column: self.start_column,
                offset: self.start_offset,
            },
            end: Position { line: self.end_line, column: self.end_column, offset: self.end_offset },
        }
    }

    /// Executable form of `span`.
    pub fn to_span(&self) -> (s: Span)
        ensures
            s == self.span(),
    {
        Span {
            start: Position {
                line: self.start_line,
                column: self.start_column,
                offset: self.start_offset,
            },
            end: Position { line: self.end_line, column: self.end_column, offset: self.end_offset },
        }
    }

    /// A copy of the row.
    pub fn duplicate(&self) -> (r: ReferenceRow)
        ensures
            r == *self,
    {
        ReferenceRow {
            id: self.id,
            symbol_id: self.symbol_id,
            file_id: self.file_id,
            file_path: self.file_path.clone(),
            start_line: self.start_line,
            start_column: self.start_column,
            end_line: self.end_line,
            end_column: self.end_column,
            start_offset: self.start_offset,
            end_offset: self.end_offset,
            reference_kind: self.reference_kind.clone(),
        }
    }
}

impl View for ReferenceRow {
    type V = ReferenceEntry;

    open spec fn view(&self) -> ReferenceEntry {
        ReferenceEntry {
            id: self.id,
            symbol_id: self.symbol_id,
            file_id: self.file_id,
            file_path: self.file_path@,
            span: self.span(),
            kind: self.reference_kind@,
        }
    }
}

impl FileRow {
    /// A copy of the row.
    pub fn duplicate(&self) -> (r: FileRow)
        ensures
            r == *self,
    {
        FileRow { id: self.id, path: self.path.clone(), language: self.language }
    }
}

fn copy_text(o: &Option<String>) -> (r: Option<String>)
    ensures
        r == *o,
{
    match o {
        Some(s) => Some(s.clone()),
        None => None,
    }
}

/// The views of a sequence of symbol rows.
pub open spec fn symbol_entries(rows: Seq<SymbolRow>) -> Seq<SymbolEntry> {
    Seq::new(rows.len(), |k: int| rows[k]@)
}

/// The views of a sequence of reference rows.
pub open spec fn reference_entries(rows: Seq<ReferenceRow>) -> Seq<ReferenceEntry> {
    Seq::new(rows.len(), |k: int| rows[k]@)
}

/// The three tables of a store and the ids it will give out next.
pub struct Tables {
    pub files: Seq<FileRow>,
    pub symbols: Seq<SymbolRow>,
    pub references: Seq<ReferenceRow>,
    pub next_file_id: i64,
    pub next_symbol_id: i64,
    pub next_reference_id: i64,
}

/// The file rows whose path is not `path`.
pub open spec fn file_outside(path: Seq<char>) -> spec_fn(FileRow) -> bool {
    |r: FileRow| r.path@ != path
}

/// The symbol rows of files other than `path`.
pub open spec fn symbol_outside(path: Seq<char>) -> spec_fn(SymbolRow) -> bool {
    |r: SymbolRow| r.file_path@ != path
}

/// The symbol rows of the file `path`.
pub open spec fn symbol_inside(path: Seq<char>) -> spec_fn(SymbolRow) -> bool {
    |r: SymbolRow| r.file_path@ == path
}

/// The reference rows of files other than `path`.
pub open spec fn reference_outside(path: Seq<char>) -> spec_fn(ReferenceRow) -> bool {
    |r: ReferenceRow| r.file_path@ != path
}

/// The symbol rows whose name holds `pattern`, letters compared without
/// regard to ASCII case.
pub open spec fn name_holds(pattern: Seq<char>) -> spec_fn(SymbolRow) -> bool {
    |r: SymbolRow| occurs_in(lower(pattern), lower(r.name@))
}

/// The table of files holds a file with this id and path.
pub open spec fn has_file(files: Seq<FileRow>, id: i64, path: Seq<char>) -> bool {
    exists|f: int| 0 <= f < files.len() && (#[trigger] files[f]).id == id && files[f].path@ == path
}

/// Two symbol rows name the same thing: same file, same name, same span.
pub open spec fn same_symbol(a: SymbolRow, b: SymbolRow) -> bool {
    a.file_path@ == b.file_path@ && a.name@ == b.name@ && a.span() == b.span()
}

/// The symbol row `s` keeps the promises of the data model within the
/// tables `t`: it belongs to a file of the store, its span is well formed,
/// its kind is the label of a symbol kind, and where it has a parent, the
/// parent is an older symbol of the same file whose span encloses its own.
pub open spec fn symbol_sound(t: Tables, s: SymbolRow) -> bool {
    &&& has_file(t.files, s.file_id, s.file_path@)
    &&& s.span().well_formed()
    &&& SymbolKind::of_label(s.kind@) is Some
    &&& s.parent_id matches Some(p) ==> p < s.id && exists|j: int|
        0 <= j < t.symbols.len() && (#[trigger] t.symbols[j]).id == p && t.symbols[j].file_path@
            == s.file_path@ && t.symbols[j].span().encloses(s.span())
}

/// The reference row `r` keeps the promises of the data model within the
/// tables `t`: it belongs to a file of the store, its span is well formed,
/// its kind is the label of a reference kind, and where its owner is set,
/// the owner is a symbol of the same file.
pub open spec fn reference_sound(t: Tables, r: ReferenceRow) -> bool {
    &&& has_file(t.files, r.file_id, r.file_path@)
    &&& r.span().well_formed()
    &&& ReferenceKind::of_label(r.reference_kind@) is Some
    &&& r.symbol_id matches Some(p) ==> exists|j: int|
        0 <= j < t.symbols.len() && (#[trigger] t.symbols[j]).id == p && t.symbols[j].file_path@
            == r.file_path@
}

/// File ids rise along the table and lie below the next id, which is
/// positive.
#[verifier::opaque]
pub open spec fn files_ordered(t: Tables) -> bool {
    &&& forall|i: int, j: int|
        0 <= i < j < t.files.len() ==> (#[trigger] t.files[i]).id < (#[trigger] t.files[j]).id
    &&& forall|i: int| 0 <= i < t.files.len() ==> (#[trigger] t.files[i]).id < t.next_file_id
    &&& 0 < t.next_file_id
}

/// Symbol ids rise along the table and lie below the next id, which is
/// positive.
#[verifier::opaque]
pub open spec fn symbols_ordered(t: Tables) -> bool {
    &&& forall|i: int, j: int|
        0 <= i < j < t.symbols.len() ==> (#[trigger] t.symbols[i]).id < (#[trigger] t.symbols[j]).id
    &&& forall|i: int| 0 <= i < t.symbols.len() ==> (#[trigger] t.symbols[i]).id < t.next_symbol_id
    &&& 0 < t.next_symbol_id
}

/// Reference ids rise along the table and lie below the next id, which is
/// positive.
#[verifier::opaque]
pub open spec fn references_ordered(t: Tables) -> bool {
    &&& forall|i: int, j: int|
        0 <= i < j < t.references.len() ==> (#[trigger] t.references[i]).id < (
        #[trigger] t.references[j]).id
    &&& forall|i: int|
        0 <= i < t.references.len() ==> (#[trigger] t.references[i]).id < t.next_reference_id
    &&& 0 < t.next_reference_id
}

/// No two file rows have the same path.
#[verifier::opaque]
pub open spec fn paths_distinct(t: Tables) -> bool {
    forall|i: int, j: int|
        0 <= i < j < t.files.len() ==> (#[trigger] t.files[i]).path@ != (#[trigger] t.files[j]).path@
}

/// The symbol row at index `k` is sound.
pub open spec fn symbol_sound_at(t: Tables, k: int) -> bool {
    symbol_sound(t, t.symbols[k])
}

/// The reference row at index `k` is sound.
pub open spec fn reference_sound_at(t: Tables, k: int) -> bool {
    reference_sound(t, t.references[k])
}

/// Every symbol row is sound.
#[verifier::opaque]
pub open spec fn symbols_sound(t: Tables) -> bool {
    forall|k: int| 0 <= k < t.symbols.len() ==> #[trigger] symbol_sound_at(t, k)
}

/// Every reference row is sound.
#[verifier::opaque]
pub open spec fn references_sound(t: Tables) -> bool {
    forall|k: int| 0 <= k < t.references.len() ==> #[trigger] reference_sound_at(t, k)
}

/// No two symbol rows have the same file, name and span.
#[verifier::opaque]
pub open spec fn symbols_distinct_in(t: Tables) -> bool {
    forall|i: int, j: int|
        0 <= i < j < t.symbols.len() ==> !same_symbol(#[trigger] t.symbols[i], #[trigger] t.symbols[j])
}

/// The tables keep the promises of the data model.
pub open spec fn well_formed(t: Tables) -> bool {
    &&& files_ordered(t)
    &&& symbols_ordered(t)
    &&& references_ordered(t)
    &&& paths_distinct(t)
    &&& symbols_sound(t)
    &&& references_sound(t)
    &&& symbols_distinct_in(t)
}

/// The row that a symbol record becomes: the `k`-th record of a file gets
/// the id `base + k`, and its parent, named by index, is named by id.
pub open spec fn new_symbol_entry(
    r: SymbolModel,
    k: int,
    file_id: i64,
    path: Seq<char>,
    base: i64,
) -> SymbolEntry {
    SymbolEntry {
        id: (base + k) as i64,
        file_id,
        file_path: path,
        name: r.name,
        kind: r.kind.label(),
        span: r.span,
        parent_id: match r.parent {
            Some(p) => Some((base + p) as i64),
            None => None,
        },
        signature: r.signature,
        documentation: r.documentation,
    }
}

/// The rows that the symbol records of a file become.
pub open spec fn new_symbol_entries(
    recs: Seq<SymbolModel>,
    file_id: i64,
    path: Seq<char>,
    base: i64,
) -> Seq<SymbolEntry> {
    Seq::new(recs.len(), |k: int| new_symbol_entry(recs[k], k, file_id, path, base))
}

/// The row that a reference record becomes. Its owner is left unset.
pub open spec fn new_reference_entry(
    r: ReferenceRecord,
    k: int,
    file_id: i64,
    path: Seq<char>,
    base: i64,
) -> ReferenceEntry {
    ReferenceEntry {
        id: (base + k) as i64,
        symbol_id: None,
        file_id,
        file_path: path,
        span: r.span,
        kind: r.kind.label(),
    }
}

/// The rows that the reference records of a file become.
pub open spec fn new_reference_entries(
    refs: Seq<ReferenceRecord>,
    file_id: i64,
    path: Seq<char>,
    base: i64,
) -> Seq<ReferenceEntry> {
    Seq::new(refs.len(), |k: int| new_reference_entry(refs[k], k, file_id, path, base))
}

/// The tables `new` are the tables `old` with the file `path` replaced: the
/// rows of every other file stay as they are and in their order, the rows
/// that `old` held for `path` are gone, and after the rows that stay come one
/// new file row and the rows that the records become, with fresh ids.
pub open spec fn replaces_file(
    old: Tables,
    new: Tables,
    path: Seq<char>,
    language: Language,
    recs: Seq<SymbolModel>,
    refs: Seq<ReferenceRecord>,
) -> bool {
    let files = kept(old.files, file_outside(path));
    let symbols = kept(old.symbols, symbol_outside(path));
    let references = kept(old.references, reference_outside(path));
    &&& new.files.len() == files.len() + 1
    &&& new.files.take(files.len() as int) == files
    &&& new.files.last()@ == (FileEntry { id: old.next_file_id, path, language })
    &&& new.symbols.len() == symbols.len() + recs.len()
    &&& new.symbols.take(symbols.len() as int) == symbols
    &&& symbol_entries(new.symbols.skip(symbols.len() as int)) == new_symbol_entries(
        recs,
        old.next_file_id,
        path,
        old.next_symbol_id,
    )
    &&& new.references.len() == references.len() + refs.len()
    &&& new.references.take(references.len() as int) == references
    &&& reference_entries(new.references.skip(references.len() as int)) == new_reference_entries(
        refs,
        old.next_file_id,
        path,
        old.next_reference_id,
    )
    &&& new.next_file_id == old.next_file_id + 1
    &&& new.next_symbol_id == old.next_symbol_id + recs.len()
    &&& new.next_reference_id == old.next_reference_id + refs.len()
}

/// Every span of the records is well formed.
pub open spec fn spans_well_formed(recs: Seq<SymbolModel>, refs: Seq<ReferenceRecord>) -> bool {
    &&& forall|k: int| 0 <= k < recs.len() ==> (#[trigger] recs[k]).span.well_formed()
    &&& forall|k: int| 0 <= k < refs.len() ==> (#[trigger] refs[k]).span.well_formed()
}

/// The record at index `k` has no parent, or comes after its parent and
/// lies within the parent's span.
pub open spec fn placed_at(recs: Seq<SymbolModel>, k: int) -> bool {
    recs[k].parent matches Some(p) ==> 0 <= p < k && recs[p].span.encloses(recs[k].span)
}

/// Every record that has a parent comes after it and lies within its span.
pub open spec fn children_placed(recs: Seq<SymbolModel>) -> bool {
    forall|k: int| 0 <= k < recs.len() ==> #[trigger] placed_at(recs, k)
}

/// No two records have the same name and span.
pub open spec fn symbols_distinct(recs: Seq<SymbolModel>) -> bool {
    forall|i: int, j: int|
        0 <= i < j < recs.len() ==> !((#[trigger] recs[i]).name == (#[trigger] recs[j]).name
            && recs[i].span == recs[j].span)
}

/// The store has ids left for one file, `symbols` symbols and `references`
/// references.
pub open spec fn has_room(t: Tables, symbols: nat, references: nat) -> bool {
    &&& t.next_file_id < i64::MAX
    &&& t.next_symbol_id + symbols <= i64::MAX
    &&& t.next_reference_id + references <= i64::MAX
}

/// Why the store refuses the records, or `None` where it takes them. The
/// checks are made in this order: spans, placement of children, duplicates,
/// room.
pub open spec fn rejection(t: Tables, recs: Seq<SymbolModel>, refs: Seq<ReferenceRecord>) -> Option<
    IndexError,
> {
    if !spans_well_formed(recs, refs) {
        Some(IndexError::InvalidSpan)
    } else if !children_placed(recs) {
        Some(IndexError::MisplacedChild)
    } else if !symbols_distinct(recs) {
        Some(IndexError::DuplicateSymbol)
    } else if !has_room(t, recs.len(), refs.len()) {
        Some(IndexError::StoreFull)
    } else {
        None
    }
}

/// The id of a file row, as a key.
pub open spec fn file_key() -> spec_fn(FileRow) -> int {
    |r: FileRow| r.id as int
}

/// The id of a symbol row, as a key.
pub open spec fn symbol_key() -> spec_fn(SymbolRow) -> int {
    |r: SymbolRow| r.id as int
}

/// The id of a reference row, as a key.
pub open spec fn reference_key() -> spec_fn(ReferenceRow) -> int {
    |r: ReferenceRow| r.id as int
}

/// After a file is replaced, a file row of the new tables is either a row
/// that stayed, which the old tables held under another path, or the new
/// file row.
pub proof fn lemma_file_row_after_replace(
    old: Tables,
    new: Tables,
    path: Seq<char>,
    language: Language,
    recs: Seq<SymbolModel>,
    refs: Seq<ReferenceRecord>,
    i: int,
)
    requires
        replaces_file(old, new, path, language, recs, refs),
        0 <= i < new.files.len(),
    ensures
        i < new.files.len() - 1 ==> old.files.contains(new.files[i]) && new.files[i].path@ != path
            && new.files[i] == kept(old.files, file_outside(path))[i],
        i == new.files.len() - 1 ==> new.files[i]@ == (FileEntry {
            id: old.next_file_id,
            path,
            language,
        }),
{
    let files = kept(old.files, file_outside(path));
    lemma_kept_members(old.files, file_outside(path));
    if i < files.len() {
        assert(new.files.take(files.len() as int)[i] == new.files[i]);
        assert(files.contains(files[i]));
    }
}

/// After a file is replaced, a symbol row of the new tables is either a row
/// that stayed, which the old tables held for another file, or the row that
/// a record became.
pub proof fn lemma_symbol_row_after_replace(
    old: Tables,
    new: Tables,
    path: Seq<char>,
    language: Language,
    recs: Seq<SymbolModel>,
    refs: Seq<ReferenceRecord>,
    i: int,
)
    requires
        replaces_file(old, new, path, language, recs, refs),
        0 <= i < new.symbols.len(),
    ensures
        i < new.symbols.len() - recs.len() ==> old.symbols.contains(new.symbols[i])
            && new.symbols[i].file_path@ != path && new.symbols[i] == kept(
            old.symbols,
            symbol_outside(path),
        )[i],
        i >= new.symbols.len() - recs.len() ==> new.symbols[i]@ == new_symbol_entry(
            recs[i - (new.symbols.len() - recs.len())],
            i - (new.symbols.len() - recs.len()),
            old.next_file_id,
            path,
            old.next_symbol_id,
        ),
{
    let symbols = kept(old.symbols, symbol_outside(path));
    lemma_kept_members(old.symbols, symbol_outside(path));
    if i < symbols.len() {
        assert(new.symbols.take(symbols.len() as int)[i] == new.symbols[i]);
        assert(symbols.contains(symbols[i]));
    } else {
        let k = i - symbols.len();
        assert(symbol_entries(new.symbols.skip(symbols.len() as int))[k] == new.symbols.skip(
            symbols.len() as int,
        )[k]@);
    }
}

/// After a file is replaced, a reference row of the new tables is either a
/// row that stayed, which the old tables held for another file, or the row
/// that a record became.
pub proof fn lemma_reference_row_after_replace(
    old: Tables,
    new: Tables,
    path: Seq<char>,
    language: Language,
    recs: Seq<SymbolModel>,
    refs: Seq<ReferenceRecord>,
    i: int,
)
    requires
        replaces_file(old, new, path, language, recs, refs),
        0 <= i < new.references.len(),
    ensures
        i < new.references.len() - refs.len() ==> old.references.contains(new.references[i])
            && new.references[i].file_path@ != path && new.references[i] == kept(
            old.references,
            reference_outside(path),
        )[i],
        i >= new.references.len() - refs.len() ==> new.references[i]@ == new_reference_entry(
            refs[i - (new.references.len() - refs.len())],
            i - (new.references.len() - refs.len()),
            old.next_file_id,
            path,
            old.next_reference_id,
        ),
{
    let references = kept(old.references, reference_outside(path));
    lemma_kept_members(old.references, reference_outside(path));
    if i < references.len() {
        assert(new.references.take(references.len() as int)[i] == new.references[i]);
        assert(references.contains(references[i]));
    } else {
        let k = i - references.len();
        assert(reference_entries(new.references.skip(references.len() as int))[k]
            == new.references.skip(references.len() as int)[k]@);
    }
}

/// After a file is replaced, every row that the old tables held for another
/// file is still there.
pub proof fn lemma_rows_of_other_files_stay(
    old: Tables,
    new: Tables,
    path: Seq<char>,
    language: Language,
    recs: Seq<SymbolModel>,
    refs: Seq<ReferenceRecord>,
)
    requires
        replaces_file(old, new, path, language, recs, refs),
    ensures
        forall|f: FileRow| #[trigger]
            old.files.contains(f) && f.path@ != path ==> new.files.contains(f),
        forall|s: SymbolRow| #[trigger]
            old.symbols.contains(s) && s.file_path@ != path ==> new.symbols.contains(s),
        forall|r: ReferenceRow| #[trigger]
            old.references.contains(r) && r.file_path@ != path ==> new.references.contains(r),
{
    lemma_kept_members(old.files, file_outside(path));
    lemma_kept_members(old.symbols, symbol_outside(path));
    lemma_kept_members(old.references, reference_outside(path));
    let files = kept(old.files, file_outside(path));
    let symbols = kept(old.symbols, symbol_outside(path));
    let references = kept(old.references, reference_outside(path));
    assert forall|f: FileRow| #[trigger] old.files.contains(f) && f.path@ != path implies new.files.contains(
        f,
    ) by {
        assert(files.contains(f));
        let k = choose|k: int| 0 <= k < files.len() && files[k] == f;
        assert(new.files.take(files.len() as int)[k] == new.files[k]);
    }
    assert forall|x: SymbolRow| #[trigger]
        old.symbols.contains(x) && x.file_path@ != path implies new.symbols.contains(x) by {
        assert(symbols.contains(x));
        let k = choose|k: int| 0 <= k < symbols.len() && symbols[k] == x;
        assert(new.symbols.take(symbols.len() as int)[k] == new.symbols[k]);
    }
    assert forall|r: ReferenceRow| #[trigger]
        old.references.contains(r) && r.file_path@ != path implies new.references.contains(r) by {
        assert(references.contains(r));
        let k = choose|k: int| 0 <= k < references.len() && references[k] == r;
        assert(new.references.take(references.len() as int)[k] == new.references[k]);
    }
}

proof fn lemma_replace_file_ids(
    old: Tables,
    new: Tables,
    path: Seq<char>,
    language: Language,
    recs: Seq<SymbolModel>,
    refs: Seq<ReferenceRecord>,
)
    requires
        well_formed(old),
        rejection(old, recs, refs) is None,
        replaces_file(old, new, path, language, recs, refs),
    ensures
        files_ordered(new),
        paths_distinct(new),
{
    reveal(files_ordered);
    reveal(paths_distinct);
    let files = kept(old.files, file_outside(path));
    lemma_kept_members(old.files, file_outside(path));
    lemma_kept_rising(old.files, file_outside(path), file_key());
    assert forall|i: int| 0 <= i < new.files.len() implies (#[trigger] new.files[i]).id
        < new.next_file_id by {
        lemma_file_row_after_replace(old, new, path, language, recs, refs, i);
        if i < files.len() {
            let a = choose|a: int| 0 <= a < old.files.len() && old.files[a] == new.files[i];
            assert(old.files[a].id < old.next_file_id);
        }
    }
    assert forall|i: int, j: int| 0 <= i < j < new.files.len() implies (#[trigger] new.files[i]).id
        < (#[trigger] new.files[j]).id && new.files[i].path@ != new.files[j].path@ by {
        lemma_file_row_after_replace(old, new, path, language, recs, refs, i);
        lemma_file_row_after_replace(old, new, path, language, recs, refs, j);
        let a = choose|a: int| 0 <= a < old.files.len() && old.files[a] == new.files[i];
        assert(old.files[a].id < old.next_file_id);
        if j < files.len() {
            assert(file_key()(files[i]) < file_key()(files[j]));
            let b = choose|b: int| 0 <= b < old.files.len() && old.files[b] == new.files[j];
            if a < b {
                assert(old.files[a].path@ != old.files[b].path@);
            } else if b < a {
                assert(old.files[b].path@ != old.files[a].path@);
            }
        }
    }
}

proof fn lemma_replace_symbol_ids(
    old: Tables,
    new: Tables,
    path: Seq<char>,
    language: Language,
    recs: Seq<SymbolModel>,
    refs: Seq<ReferenceRecord>,
)
    requires
        well_formed(old),
        rejection(old, recs, refs) is None,
        replaces_file(old, new, path, language, recs, refs),
    ensures
        symbols_ordered(new),
{
    reveal(symbols_ordered);
    let symbols = kept(old.symbols, symbol_outside(path));
    lemma_kept_members(old.symbols, symbol_outside(path));
    lemma_kept_rising(old.symbols, symbol_outside(path), symbol_key());
    assert forall|i: int| 0 <= i < new.symbols.len() implies (#[trigger] new.symbols[i]).id
        < new.next_symbol_id by {
        lemma_symbol_row_after_replace(old, new, path, language, recs, refs, i);
        if i < symbols.len() {
            let a = choose|a: int| 0 <= a < old.symbols.len() && old.symbols[a] == new.symbols[i];
            assert(old.symbols[a].id < old.next_symbol_id);
        }
    }
    assert forall|i: int, j: int| 0 <= i < j < new.symbols.len() implies (
    #[trigger] new.symbols[i]).id < (#[trigger] new.symbols[j]).id by {
        lemma_symbol_row_after_replace(old, new, path, language, recs, refs, i);
        lemma_symbol_row_after_replace(old, new, path, language, recs, refs, j);
        if j < symbols.len() {
            assert(symbol_key()(symbols[i]) < symbol_key()(symbols[j]));
        } else if i < symbols.len() {
            let a = choose|a: int| 0 <= a < old.symbols.len() && old.symbols[a] == new.symbols[i];
            assert(old.symbols[a].id < old.next_symbol_id);
        }
    }
}

proof fn lemma_replace_reference_ids(
    old: Tables,
    new: Tables,
    path: Seq<char>,
    language: Language,
    recs: Seq<SymbolModel>,
    refs: Seq<ReferenceRecord>,
)
    requires
        well_formed(old),
        rejection(old, recs, refs) is None,
        replaces_file(old, new, path, language, recs, refs),
    ensures
        references_ordered(new),
{
    reveal(references_ordered);
    let references = kept(old.references, reference_outside(path));
    lemma_kept_members(old.references, reference_outside(path));
    lemma_kept_rising(old.references, reference_outside(path), reference_key());
    assert forall|i: int| 0 <= i < new.references.len() implies (#[trigger] new.references[i]).id
        < new.next_reference_id by {
        lemma_reference_row_after_replace(old, new, path, language, recs, refs, i);
        if i < references.len() {
            let a = choose|a: int|
                0 <= a < old.references.len() && old.references[a] == new.references[i];
            assert(old.references[a].id < old.next_reference_id);
        }
    }
    assert forall|i: int, j: int| 0 <= i < j < new.references.len() implies (
    #[trigger] new.references[i]).id < (#[trigger] new.references[j]).id by {
        lemma_reference_row_after_replace(old, new, path, language, recs, refs, i);
        lemma_reference_row_after_replace(old, new, path, language, recs, refs, j);
        if j < references.len() {
            assert(reference_key()(references[i]) < reference_key()(references[j]));
        } else if i < references.len() {
            let a = choose|a: int|
                0 <= a < old.references.len() && old.references[a] == new.references[i];
            assert(old.references[a].id < old.next_reference_id);
        }
    }
}

proof fn lemma_replace_symbols_sound(
    old: Tables,
    new: Tables,
    path: Seq<char>,
    language: Language,
    recs: Seq<SymbolModel>,
    refs: Seq<ReferenceRecord>,
)
    requires
        well_formed(old),
        rejection(old, recs, refs) is None,
        replaces_file(old, new, path, language, recs, refs),
    ensures
        symbols_sound(new),
{
    reveal(symbols_sound);
    let symbols = kept(old.symbols, symbol_outside(path));
    let ns = symbols.len() as int;
    let nf = new.files.len() - 1;
    lemma_rows_of_other_files_stay(old, new, path, language, recs, refs);
    lemma_file_row_after_replace(old, new, path, language, recs, refs, nf);
    assert forall|k: int| 0 <= k < new.symbols.len() implies #[trigger] symbol_sound_at(
        new,
        k,
    ) by {
        let s = new.symbols[k];
        lemma_symbol_row_after_replace(old, new, path, language, recs, refs, k);
        if k < ns {
            let a = choose|a: int| 0 <= a < old.symbols.len() && old.symbols[a] == s;
            assert(symbol_sound_at(old, a));
            let f = choose|f: int|
                0 <= f < old.files.len() && (#[trigger] old.files[f]).id == s.file_id
                    && old.files[f].path@ == s.file_path@;
            assert(old.files.contains(old.files[f]));
            assert(new.files.contains(old.files[f]));
            let g = choose|g: int| 0 <= g < new.files.len() && new.files[g] == old.files[f];
            assert(new.files[g].id == s.file_id && new.files[g].path@ == s.file_path@);
            if s.parent_id is Some {
                let p = s.parent_id->Some_0;
                let j = choose|j: int|
                    0 <= j < old.symbols.len() && (#[trigger] old.symbols[j]).id == p
                        && old.symbols[j].file_path@ == s.file_path@
                        && old.symbols[j].span().encloses(s.span());
                assert(old.symbols.contains(old.symbols[j]));
                assert(new.symbols.contains(old.symbols[j]));
                let m = choose|m: int| 0 <= m < new.symbols.len() && new.symbols[m] == old.symbols[j];
                assert(new.symbols[m].id == p);
            }
        } else {
            let r = recs[k - ns];
            assert(new.files[nf].id == s.file_id && new.files[nf].path@ == s.file_path@);
            assert(r.span.well_formed());
            r.kind.lemma_label_round_trip();
            if r.parent is Some {
                let p = r.parent->Some_0;
                assert(placed_at(recs, k - ns));
                assert(0 <= p < k - ns && recs[p].span.encloses(r.span));
                lemma_symbol_row_after_replace(old, new, path, language, recs, refs, ns + p);
                assert(new.symbols[ns + p].id == s.parent_id->Some_0);
            }
        }
    }
}

proof fn lemma_replace_references_sound(
    old: Tables,
    new: Tables,
    path: Seq<char>,
    language: Language,
    recs: Seq<SymbolModel>,
    refs: Seq<ReferenceRecord>,
)
    requires
        well_formed(old),
        rejection(old, recs, refs) is None,
        replaces_file(old, new, path, language, recs, refs),
    ensures
        references_sound(new),
{
    reveal(references_sound);
    reveal(symbols_sound);
    let references = kept(old.references, reference_outside(path));
    let nr = references.len() as int;
    let nf = new.files.len() - 1;
    lemma_rows_of_other_files_stay(old, new, path, language, recs, refs);
    lemma_file_row_after_replace(old, new, path, language, recs, refs, nf);
    assert forall|k: int| 0 <= k < new.references.len() implies #[trigger] reference_sound_at(
        new,
        k,
    ) by {
        let s = new.references[k];
        lemma_reference_row_after_replace(old, new, path, language, recs, refs, k);
        if k < nr {
            let a = choose|a: int| 0 <= a < old.references.len() && old.references[a] == s;
            assert(reference_sound_at(old, a));
            let f = choose|f: int|
                0 <= f < old.files.len() && (#[trigger] old.files[f]).id == s.file_id
                    && old.files[f].path@ == s.file_path@;
            assert(old.files.contains(old.files[f]));
            assert(new.files.contains(old.files[f]));
            let g = choose|g: int| 0 <= g < new.files.len() && new.files[g] == old.files[f];
            assert(new.files[g].id == s.file_id && new.files[g].path@ == s.file_path@);
            if s.symbol_id is Some {
                let p = s.symbol_id->Some_0;
                let j = choose|j: int|
                    0 <= j < old.symbols.len() && (#[trigger] old.symbols[j]).id == p
                        && old.symbols[j].file_path@ == s.file_path@;
                assert(old.symbols.contains(old.symbols[j]));
                assert(new.symbols.contains(old.symbols[j]));
                let m = choose|m: int| 0 <= m < new.symbols.len() && new.symbols[m] == old.symbols[j];
                assert(new.symbols[m].id == p);
            }
        } else {
            let r = refs[k - nr];
            assert(new.files[nf].id == s.file_id && new.files[nf].path@ == s.file_path@);
            assert(r.span.well_formed());
            r.kind.lemma_label_round_trip();
        }
    }
}

proof fn lemma_replace_symbols_distinct(
    old: Tables,
    new: Tables,
    path: Seq<char>,
    language: Language,
    recs: Seq<SymbolModel>,
    refs: Seq<ReferenceRecord>,
)
    requires
        well_formed(old),
        rejection(old, recs, refs) is None,
        replaces_file(old, new, path, language, recs, refs),
    ensures
        symbols_distinct_in(new),
{
    reveal(symbols_distinct_in);
    reveal(symbols_ordered);
    let symbols = kept(old.symbols, symbol_outside(path));
    let ns = symbols.len() as int;
    lemma_kept_rising(old.symbols, symbol_outside(path), symbol_key());
    assert forall|i: int, j: int| 0 <= i < j < new.symbols.len() implies !same_symbol(
        #[trigger] new.symbols[i],
        #[trigger] new.symbols[j],
    ) by {
        lemma_symbol_row_after_replace(old, new, path, language, recs, refs, i);
        lemma_symbol_row_after_replace(old, new, path, language, recs, refs, j);
        if j < ns {
            assert(symbol_key()(symbols[i]) < symbol_key()(symbols[j]));
            let a = choose|a: int| 0 <= a < old.symbols.len() && old.symbols[a] == new.symbols[i];
            let b = choose|b: int| 0 <= b < old.symbols.len() && old.symbols[b] == new.symbols[j];
            if a < b {
                assert(!same_symbol(old.symbols[a], old.symbols[b]));
            } else if b < a {
                assert(!same_symbol(old.symbols[b], old.symbols[a]));
            }
        } else if i >= ns {
            assert(!(recs[i - ns].name == recs[j - ns].name && recs[i - ns].span == recs[j
                - ns].span));
        }
    }
}

/// Replacing a file keeps the promises of the data model: where the store
/// was well formed and takes the records, it is well formed afterwards.
pub proof fn lemma_replace_keeps_well_formed(
    old: Tables,
    new: Tables,
    path: Seq<char>,
    language: Language,
    recs: Seq<SymbolModel>,
    refs: Seq<ReferenceRecord>,
)
    requires
        well_formed(old),
        rejection(old, recs, refs) is None,
        replaces_file(old, new, path, language, recs, refs),
    ensures
        well_formed(new),
{
    lemma_replace_file_ids(old, new, path, language, recs, refs);
    lemma_replace_symbol_ids(old, new, path, language, recs, refs);
    lemma_replace_reference_ids(old, new, path, language, recs, refs);
    lemma_replace_symbols_sound(old, new, path, language, recs, refs);
    lemma_replace_references_sound(old, new, path, language, recs, refs);
    lemma_replace_symbols_distinct(old, new, path, language, recs, refs);
}

/// Orders symbol rows by name, character by character.
pub struct ByName;

/// Orders symbol rows by the line, then the column, at which they start.
pub struct ByPosition;

/// Orders reference rows by file path, then by the line and the column at
/// which they start.
pub struct ByPlace;

impl Ranked<ByName> for SymbolRow {
    open spec fn precedes(&self, other: &Self) -> bool {
        comes_before(self.name@, other.name@)
    }

    fn is_before(&self, other: &Self) -> (b: bool) {
        str_comes_before(self.name.as_str(), other.name.as_str())
    }
}

impl Ranked<ByPosition> for SymbolRow {
    open spec fn precedes(&self, other: &Self) -> bool {
        self.start_line < other.start_line || (self.start_line == other.start_line
            && self.start_column < other.start_column)
    }

    fn is_before(&self, other: &Self) -> (b: bool) {
        self.start_line < other.start_line || (self.start_line == other.start_line
            && self.start_column < other.start_column)
    }
}

impl Ranked<ByPlace> for ReferenceRow {
    open spec fn precedes(&self, other: &Self) -> bool {
        comes_before(self.file_path@, other.file_path@) || (self.file_path@ == other.file_path@ && (
        self.start_line < other.start_line || (self.start_line == other.start_line
            && self.start_column < other.start_column)))
    }

    fn is_before(&self, other: &Self) -> (b: bool) {
        if str_comes_before(self.file_path.as_str(), other.file_path.as_str()) {
            true
        } else if str_eq(self.file_path.as_str(), other.file_path.as_str()) {
            self.start_line < other.start_line || (self.start_line == other.start_line
                && self.start_column < other.start_column)
        } else {
            false
        }
    }
}

/// Ordering by name ranks by levels.
pub proof fn lemma_by_name_ranks()
    ensures
        ranks_by_levels::<ByName, SymbolRow>(),
{
    assert forall|a: SymbolRow, b: SymbolRow| #[trigger]
        Ranked::<ByName>::precedes(&a, &b) implies !Ranked::<ByName>::precedes(&b, &a) by {
        lemma_comes_before_total(a.name@, b.name@);
    }
    assert forall|a: SymbolRow, b: SymbolRow, c: SymbolRow|
        !(#[trigger] Ranked::<ByName>::precedes(&a, &b)) && !(#[trigger] Ranked::<
            ByName,
        >::precedes(&b, &c)) implies !Ranked::<ByName>::precedes(&a, &c) by {
        lemma_comes_before_total(a.name@, b.name@);
        lemma_comes_before_total(b.name@, c.name@);
        if comes_before(a.name@, c.name@) {
            if a.name@ != b.name@ {
                lemma_comes_before_transitive(b.name@, a.name@, c.name@);
            }
        }
    }
}

/// Ordering by position ranks by levels.
pub proof fn lemma_by_position_ranks()
    ensures
        ranks_by_levels::<ByPosition, SymbolRow>(),
{
}

/// Ordering by place ranks by levels.
pub proof fn lemma_by_place_ranks()
    ensures
        ranks_by_levels::<ByPlace, ReferenceRow>(),
{
    assert forall|a: ReferenceRow, b: ReferenceRow| #[trigger]
        Ranked::<ByPlace>::precedes(&a, &b) implies !Ranked::<ByPlace>::precedes(&b, &a) by {
        lemma_comes_before_total(a.file_path@, b.file_path@);
        lemma_comes_before_irreflexive(a.file_path@);
    }
    assert forall|a: ReferenceRow, b: ReferenceRow, c: ReferenceRow|
        !(#[trigger] Ranked::<ByPlace>::precedes(&a, &b)) && !(#[trigger] Ranked::<
            ByPlace,
        >::precedes(&b, &c)) implies !Ranked::<ByPlace>::precedes(&a, &c) by {
        lemma_comes_before_total(a.file_path@, b.file_path@);
        lemma_comes_before_total(b.file_path@, c.file_path@);
        lemma_comes_before_total(a.file_path@, c.file_path@);
        lemma_comes_before_irreflexive(a.file_path@);
        lemma_comes_before_irreflexive(b.file_path@);
        if comes_before(a.file_path@, c.file_path@) {
            if a.file_path@ != b.file_path@ {
                lemma_comes_before_transitive(b.file_path@, a.file_path@, c.file_path@);
            }
        } else if a.file_path@ == c.file_path@ {
            if comes_before(b.file_path@, a.file_path@) {
            } else if comes_before(c.file_path@, b.file_path@) {
            }
        }
    }
}

/// The row with the smallest extent among the rows of `rows` that belong to
/// the file `path` and cover the point (`line`, `column`); among rows of
/// equal extent, the one that comes last. `None` where no row covers the
/// point.
pub open spec fn innermost(rows: Seq<SymbolRow>, path: Seq<char>, line: usize, column: usize) -> Option<
    SymbolRow,
>
    decreases rows.len(),
{
    if rows.len() == 0 {
        None
    } else {
        let best = innermost(rows.drop_last(), path, line, column);
        let x = rows.last();
        if x.file_path@ == path && x.span().covers(line, column) && (best matches Some(b)
            ==> x.span().extent() <= b.span().extent()) {
            Some(x)
        } else {
            best
        }
    }
}

/// The symbol that owns a reference: the owner the row names, or, where it
/// names none, the innermost symbol of the reference's file that covers the
/// point at which the reference starts.
pub open spec fn owner_of(symbols: Seq<SymbolRow>, r: ReferenceRow) -> Option<i64> {
    match r.symbol_id {
        Some(id) => Some(id),
        None => match innermost(symbols, r.file_path@, r.start_line, r.start_column) {
            Some(s) => Some(s.id),
            None => None,
        },
    }
}

/// The reference rows whose stored owner is the symbol with id `id`.
pub open spec fn stored_for(id: i64) -> spec_fn(ReferenceRow) -> bool {
    |r: ReferenceRow| r.symbol_id == Some(id)
}

/// The reference rows that the symbol with id `id` owns.
pub open spec fn owned_by(symbols: Seq<SymbolRow>, id: i64) -> spec_fn(ReferenceRow) -> bool {
    |r: ReferenceRow| owner_of(symbols, r) == Some(id)
}

/// The file rows written in dialect `language`.
pub open spec fn file_in(language: Language) -> spec_fn(FileRow) -> bool {
    |r: FileRow| r.language == language
}

/// The symbol rows that belong to a file written in dialect `language`.
pub open spec fn symbol_in(files: Seq<FileRow>, language: Language) -> spec_fn(SymbolRow) -> bool {
    |r: SymbolRow|
        exists|f: int|
            0 <= f < files.len() && (#[trigger] files[f]).id == r.file_id && files[f].language
                == language
}

/// The tables of a new store: no rows, and 1 as the next id of every table.
pub open spec fn empty_tables() -> Tables {
    Tables {
        files: Seq::empty(),
        symbols: Seq::empty(),
        references: Seq::empty(),
        next_file_id: 1,
        next_symbol_id: 1,
        next_reference_id: 1,
    }
}

/// The index of the first reference row from index `from` on whose id is
/// `id`.
pub open spec fn reference_at(refs: Seq<ReferenceRow>, id: i64, from: int) -> Option<int>
    decreases refs.len() - from,
{
    if from < 0 || from >= refs.len() {
        None
    } else if refs[from].id == id {
        Some(from)
    } else {
        reference_at(refs, id, from + 1)
    }
}

/// The store holds a symbol with id `id` in the file `path`.
pub open spec fn has_symbol(symbols: Seq<SymbolRow>, id: i64, path: Seq<char>) -> bool {
    exists|j: int|
        0 <= j < symbols.len() && (#[trigger] symbols[j]).id == id && symbols[j].file_path@ == path
}

/// The tables with the symbol `id` stored as the owner of the reference row
/// at index `k`.
pub open spec fn with_owner(t: Tables, k: int, id: i64) -> Tables {
    Tables {
        references: t.references.update(
            k,
            ReferenceRow { symbol_id: Some(id), ..t.references[k] },
        ),
        ..t
    }
}

/// What `reference_at` finds is a row of the table with that id.
pub proof fn lemma_reference_at(refs: Seq<ReferenceRow>, id: i64, from: int)
    requires
        0 <= from,
    ensures
        reference_at(refs, id, from) matches Some(k) ==> from <= k < refs.len() && refs[k].id == id,
    decreases refs.len() - from,
{
    if from < refs.len() && refs[from].id != id {
        lemma_reference_at(refs, id, from + 1);
    }
}

/// Storing a symbol of the reference's file as the owner of a reference
/// keeps the promises of the data model.
pub proof fn lemma_with_owner_well_formed(t: Tables, k: int, id: i64)
    requires
        well_formed(t),
        0 <= k < t.references.len(),
        has_symbol(t.symbols, id, t.references[k].file_path@),
    ensures
        well_formed(with_owner(t, k, id)),
{
    let n = with_owner(t, k, id);
    reveal(files_ordered);
    reveal(symbols_ordered);
    reveal(references_ordered);
    reveal(paths_distinct);
    reveal(symbols_distinct_in);
    assert(symbols_sound(n)) by {
        reveal(symbols_sound);
        assert forall|i: int| 0 <= i < n.symbols.len() implies #[trigger] symbol_sound_at(n, i) by {
            assert(symbol_sound_at(t, i));
        }
    }
    assert(references_sound(n)) by {
        reveal(references_sound);
        assert forall|i: int| 0 <= i < n.references.len() implies #[trigger] reference_sound_at(
            n,
            i,
        ) by {
            assert(reference_sound_at(t, i));
        }
    }
    assert(references_ordered(n)) by {
        assert forall|i: int, j: int| 0 <= i < j < n.references.len() implies (
        #[trigger] n.references[i]).id < (#[trigger] n.references[j]).id by {
            assert(t.references[i].id < t.references[j].id);
        }
        assert forall|i: int| 0 <= i < n.references.len() implies (#[trigger] n.references[i]).id
            < n.next_reference_id by {
            assert(t.references[i].id < t.next_reference_id);
        }
    }
}

/// The store: three tables behind one interface.
pub struct Database {
    files: Vec<FileRow>,
    symbols: Vec<SymbolRow>,
    references: Vec<ReferenceRow>,
    next_file_id: i64,
    next_symbol_id: i64,
    next_reference_id: i64,
}

impl View for Database {
    type V = Tables;

    closed spec fn view(&self) -> Tables {
        Tables {
            files: self.files@,
            symbols: self.symbols@,
            references: self.references@,
            next_file_id: self.next_file_id,
            next_symbol_id: self.next_symbol_id,
            next_reference_id: self.next_reference_id,
        }
    }
}

fn spans_ok(symbols: &Vec<SymbolRecord>, references: &Vec<ReferenceRecord>) -> (b: bool)
    ensures
        b == spans_well_formed(crate::index::symbols::record_views(symbols@), references@),
{
    let mut i: usize = 0;
    while i < symbols.len()
        invariant
            i <= symbols.len(),
            forall|k: int| 0 <= k < i ==> (#[trigger] symbols@[k]).span.well_formed(),
        decreases symbols.len() - i,
    {
        if !symbols[i].span.is_well_formed() {
            assert(crate::index::symbols::record_views(symbols@)[i as int].span == symbols@[i as int].span);
            return false;
        }
        i += 1;
    }
    let mut j: usize = 0;
    while j < references.len()
        invariant
            j <= references.len(),
            forall|k: int| 0 <= k < j ==> (#[trigger] references@[k]).span.well_formed(),
        decreases references.len() - j,
    {
        if !references[j].span.is_well_formed() {
            return false;
        }
        j += 1;
    }
    assert forall|k: int| 0 <= k < symbols@.len() implies (
    #[trigger] crate::index::symbols::record_views(symbols@)[k]).span.well_formed() by {
        assert(symbols@[k].span.well_formed());
    }
    true
}

fn children_ok(symbols: &Vec<SymbolRecord>) -> (b: bool)
    ensures
        b == children_placed(crate::index::symbols::record_views(symbols@)),
{
    let ghost recs = crate::index::symbols::record_views(symbols@);
    let mut i: usize = 0;
    while i < symbols.len()
        invariant
            i <= symbols.len(),
            recs == crate::index::symbols::record_views(symbols@),
            forall|k: int| 0 <= k < i ==> #[trigger] placed_at(recs, k),
        decreases symbols.len() - i,
    {
        match symbols[i].parent {
            Some(p) => {
                if p >= i || !symbols[p].span.is_enclosing(&symbols[i].span) {
                    assert(!placed_at(recs, i as int));
                    return false;
                }
            },
            None => {},
        }
        assert(placed_at(recs, i as int));
        i += 1;
    }
    true
}

fn distinct_ok(symbols: &Vec<SymbolRecord>) -> (b: bool)
    ensures
        b == symbols_distinct(crate::index::symbols::record_views(symbols@)),
{
    let ghost recs = crate::index::symbols::record_views(symbols@);
    let mut j: usize = 0;
    while j < symbols.len()
        invariant
            j <= symbols.len(),
            recs == crate::index::symbols::record_views(symbols@),
            forall|a: int, b: int|
                0 <= a < b < j ==> !((#[trigger] recs[a]).name == (#[trigger] recs[b]).name
                    && recs[a].span == recs[b].span),
        decreases symbols.len() - j,
    {
        let mut i: usize = 0;
        while i < j
            invariant
                i <= j < symbols.len(),
                recs == crate::index::symbols::record_views(symbols@),
                forall|a: int|
                    0 <= a < i ==> !((#[trigger] recs[a]).name == recs[j as int].name && recs[a].span
                        == recs[j as int].span),
            decreases j - i,
        {
            if symbols[i].span == symbols[j].span && str_eq(
                symbols[i].name.as_str(),
                symbols[j].name.as_str(),
            ) {
                assert(recs[i as int].name == recs[j as int].name && recs[i as int].span
                    == recs[j as int].span);
                return false;
            }
            i += 1;
        }
        j += 1;
    }
    true
}

fn files_outside(rows: &Vec<FileRow>, path: &str) -> (r: Vec<FileRow>)
    ensures
        r@ == kept(rows@, file_outside(path@)),
{
    let mut out: Vec<FileRow> = Vec::new();
    let mut i: usize = 0;
    assert(rows@.take(0) =~= Seq::<FileRow>::empty());
    while i < rows.len()
        invariant
            i <= rows.len(),
            out@ == kept(rows@.take(i as int), file_outside(path@)),
        decreases rows.len() - i,
    {
        assert(rows@.take(i + 1).drop_last() =~= rows@.take(i as int));
        if !str_eq(rows[i].path.as_str(), path) {
            out.push(rows[i].duplicate());
        }
        i += 1;
    }
    assert(rows@.take(rows@.len() as int) =~= rows@);
    out
}

fn symbols_outside(rows: &Vec<SymbolRow>, path: &str) -> (r: Vec<SymbolRow>)
    ensures
        r@ == kept(rows@, symbol_outside(path@)),
{
    let mut out: Vec<SymbolRow> = Vec::new();
    let mut i: usize = 0;
    assert(rows@.take(0) =~= Seq::<SymbolRow>::empty());
    while i < rows.len()
        invariant
            i <= rows.len(),
            out@ == kept(rows@.take(i as int), symbol_outside(path@)),
        decreases rows.len() - i,
    {
        assert(rows@.take(i + 1).drop_last() =~= rows@.take(i as int));
        if !str_eq(rows[i].file_path.as_str(), path) {
            out.push(rows[i].duplicate());
        }
        i += 1;
    }
    assert(rows@.take(rows@.len() as int) =~= rows@);
    out
}

fn symbols_inside(rows: &Vec<SymbolRow>, path: &str) -> (r: Vec<SymbolRow>)
    ensures
        r@ == kept(rows@, symbol_inside(path@)),
{
    let mut out: Vec<SymbolRow> = Vec::new();
    let mut i: usize = 0;
    assert(rows@.take(0) =~= Seq::<SymbolRow>::empty());
    while i < rows.len()
        invariant
            i <= rows.len(),
            out@ == kept(rows@.take(i as int), symbol_inside(path@)),
        decreases rows.len() - i,
    {
        assert(rows@.take(i + 1).drop_last() =~= rows@.take(i as int));
        if str_eq(rows[i].file_path.as_str(), path) {
            out.push(rows[i].duplicate());
        }
        i += 1;
    }
    assert(rows@.take(rows@.len() as int) =~= rows@);
    out
}

fn references_outside(rows: &Vec<ReferenceRow>, path: &str) -> (r: Vec<ReferenceRow>)
    ensures
        r@ == kept(rows@, reference_outside(path@)),
{
    let mut out: Vec<ReferenceRow> = Vec::new();
    let mut i: usize = 0;
    assert(rows@.take(0) =~= Seq::<ReferenceRow>::empty());
    while i < rows.len()
        invariant
            i <= rows.len(),
            out@ == kept(rows@.take(i as int), reference_outside(path@)),
        decreases rows.len() - i,
    {
        assert(rows@.take(i + 1).drop_last() =~= rows@.take(i as int));
        if !str_eq(rows[i].file_path.as_str(), path) {
            out.push(rows[i].duplicate());
        }
        i += 1;
    }
    assert(rows@.take(rows@.len() as int) =~= rows@);
    out
}

fn find_innermost(rows: &Vec<SymbolRow>, path: &str, line: usize, column: usize) -> (r: Option<
    usize,
>)
    ensures
        match r {
            Some(k) => k < rows@.len() && innermost(rows@, path@, line, column) == Some(
                rows@[k as int],
            ),
            None => innermost(rows@, path@, line, column) is None,
        },
{
    let mut best: Option<usize> = None;
    let mut i: usize = 0;
    assert(rows@.take(0) =~= Seq::<SymbolRow>::empty());
    while i < rows.len()
        invariant
            i <= rows.len(),
            match best {
                Some(k) => k < i && innermost(rows@.take(i as int), path@, line, column) == Some(
                    rows@[k as int],
                ),
                None => innermost(rows@.take(i as int), path@, line, column) is None,
            },
        decreases rows.len() - i,
    {
        assert(rows@.take(i + 1).drop_last() =~= rows@.take(i as int));
        let x = &rows[i];
        if str_eq(x.file_path.as_str(), path) && x.to_span().is_covering(line, column) {
            let better = match best {
                Some(k) => x.to_span().byte_extent() <= rows[k].to_span().byte_extent(),
                None => true,
            };
            if better {
                best = Some(i);
            }
        }
        i += 1;
    }
    assert(rows@.take(rows@.len() as int) =~= rows@);
    best
}

impl Database {
    /// An empty store, whose first file, symbol and reference get the id 1.
    /// It never fails: the result leaves room for stores that have to be
    /// opened.
    pub fn in_memory() -> (r: Result<Database, IndexError>)
        ensures
            r matches Ok(db) && well_formed(db@) && db@ == empty_tables(),
    {
        let db = Database {
            files: Vec::new(),
            symbols: Vec::new(),
            references: Vec::new(),
            next_file_id: 1,
            next_symbol_id: 1,
            next_reference_id: 1,
        };
        proof {
            reveal(files_ordered);
            reveal(symbols_ordered);
            reveal(references_ordered);
            reveal(paths_distinct);
            reveal(symbols_sound);
            reveal(references_sound);
            reveal(symbols_distinct_in);
            assert(db@.files =~= Seq::<FileRow>::empty());
            assert(db@.symbols =~= Seq::<SymbolRow>::empty());
            assert(db@.references =~= Seq::<ReferenceRow>::empty());
        }
        Ok(db)
    }

    /// The file rows, in the order of their ids.
    pub fn files(&self) -> (r: &Vec<FileRow>)
        ensures
            r@ == self@.files,
    {
        &self.files
    }

    /// The symbol rows, in the order of their ids.
    pub fn symbols(&self) -> (r: &Vec<SymbolRow>)
        ensures
            r@ == self@.symbols,
    {
        &self.symbols
    }

    /// The reference rows, in the order of their ids.
    pub fn references(&self) -> (r: &Vec<ReferenceRow>)
        ensures
            r@ == self@.references,
    {
        &self.references
    }

    /// Puts the rows of one file into the store in place of whatever the
    /// store held for `path`, and gives the id of the new file row. Where
    /// the records are refused the store stays as it was.
    pub fn replace_file(
        &mut self,
        path: &str,
        language: Language,
        symbols: &Vec<SymbolRecord>,
        references: &Vec<ReferenceRecord>,
    ) -> (r: Result<i64, IndexError>)
        requires
            well_formed(old(self)@),
        ensures
            well_formed(final(self)@),
            match rejection(old(self)@, crate::index::symbols::record_views(symbols@), references@) {
                Some(e) => r == Err::<i64, IndexError>(e) && final(self)@ == old(self)@,
                None => r == Ok::<i64, IndexError>(old(self)@.next_file_id) && replaces_file(
                    old(self)@,
                    final(self)@,
                    path@,
                    language,
                    crate::index::symbols::record_views(symbols@),
                    references@,
                ),
            },
    {
        let ghost recs = crate::index::symbols::record_views(symbols@);
        if !spans_ok(symbols, references) {
            return Err(IndexError::InvalidSpan);
        }
        if !children_ok(symbols) {
            return Err(IndexError::MisplacedChild);
        }
        if !distinct_ok(symbols) {
            return Err(IndexError::DuplicateSymbol);
        }
        proof {
            reveal(files_ordered);
            reveal(symbols_ordered);
            reveal(references_ordered);
        }
        if self.next_file_id == i64::MAX || symbols.len() as u64 > (i64::MAX
            - self.next_symbol_id) as u64 || references.len() as u64 > (i64::MAX
            - self.next_reference_id) as u64 {
            return Err(IndexError::StoreFull);
        }
        let file_id = self.next_file_id;
        let symbol_base = self.next_symbol_id;
        let reference_base = self.next_reference_id;
        let mut files = files_outside(&self.files, path);
        let ghost kept_files = files@;
        files.push(FileRow { id: file_id, path: path.to_owned(), language });
        let mut rows = symbols_outside(&self.symbols, path);
        let ghost kept_symbols = rows@;
        let mut k: usize = 0;
        while k < symbols.len()
            invariant
                k <= symbols.len(),
                recs == crate::index::symbols::record_views(symbols@),
                children_placed(recs),
                0 <= symbol_base,
                symbol_base + symbols.len() <= i64::MAX,
                rows@.len() == kept_symbols.len() + k,
                rows@.take(kept_symbols.len() as int) == kept_symbols,
                symbol_entries(rows@.skip(kept_symbols.len() as int)) == new_symbol_entries(
                    recs.take(k as int),
                    file_id,
                    path@,
                    symbol_base,
                ),
            decreases symbols.len() - k,
        {
            let record = &symbols[k];
            assert(placed_at(recs, k as int));
            let parent_id = match record.parent {
                Some(p) => Some(symbol_base + p as i64),
                None => None,
            };
            let row = SymbolRow {
                id: symbol_base + k as i64,
                file_id,
                file_path: path.to_owned(),
                name: record.name.clone(),
                kind: record.kind.to_string(),
                start_line: record.span.start.line,
                start_column: record.span.start.column,
                end_line: record.span.end.line,
                end_column: record.span.end.column,
                start_offset: record.span.start.offset,
                end_offset: record.span.end.offset,
                parent_id,
                signature: copy_text(&record.signature),
                documentation: copy_text(&record.documentation),
            };
            let ghost before = rows@;
            rows.push(row);
            proof {
                let n0 = kept_symbols.len() as int;
                assert(rows@.take(n0) =~= before.take(n0));
                assert(row@ == new_symbol_entry(recs[k as int], k as int, file_id, path@, symbol_base));
                assert(rows@.skip(n0) =~= before.skip(n0).push(row));
                assert(symbol_entries(rows@.skip(n0)) =~= symbol_entries(before.skip(n0)).push(
                    row@,
                ));
                assert(new_symbol_entries(recs.take(k + 1), file_id, path@, symbol_base)
                    =~= new_symbol_entries(recs.take(k as int), file_id, path@, symbol_base).push(
                    new_symbol_entry(recs[k as int], k as int, file_id, path@, symbol_base),
                ));
                assert(symbol_entries(rows@.skip(n0)) =~= new_symbol_entries(
                    recs.take(k + 1),
                    file_id,
                    path@,
                    symbol_base,
                ));
            }
            k += 1;
        }
        let mut refs = references_outside(&self.references, path);
        let ghost kept_references = refs@;
        let mut m: usize = 0;
        while m < references.len()
            invariant
                m <= references.len(),
                0 <= reference_base,
                reference_base + references.len() <= i64::MAX,
                refs@.len() == kept_references.len() + m,
                refs@.take(kept_references.len() as int) == kept_references,
                reference_entries(refs@.skip(kept_references.len() as int))
                    == new_reference_entries(
                    references@.take(m as int),
                    file_id,
                    path@,
                    reference_base,
                ),
            decreases references.len() - m,
        {
            let record = &references[m];
            let row = ReferenceRow {
                id: reference_base + m as i64,
                symbol_id: None,
                file_id,
                file_path: path.to_owned(),
                start_line: record.span.start.line,
                start_column: record.span.start.column,
                end_line: record.span.end.line,
                end_column: record.span.end.column,
                start_offset: record.span.start.offset,
                end_offset: record.span.end.offset,
                reference_kind: record.kind.to_string(),
            };
            let ghost before = refs@;
            refs.push(row);
            proof {
                let n0 = kept_references.len() as int;
                assert(refs@.take(n0) =~= before.take(n0));
                assert(refs@.skip(n0) =~= before.skip(n0).push(row));
                assert(row@ == new_reference_entry(
                    references@[m as int],
                    m as int,
                    file_id,
                    path@,
                    reference_base,
                ));
                assert(reference_entries(refs@.skip(n0)) =~= reference_entries(
                    before.skip(n0),
                ).push(row@));
                assert(new_reference_entries(references@.take(m + 1), file_id, path@, reference_base)
                    =~= new_reference_entries(
                    references@.take(m as int),
                    file_id,
                    path@,
                    reference_base,
                ).push(
                    new_reference_entry(
                        references@[m as int],
                        m as int,
                        file_id,
                        path@,
                        reference_base,
                    ),
                ));
                assert(reference_entries(refs@.skip(n0)) =~= new_reference_entries(
                    references@.take(m + 1),
                    file_id,
                    path@,
                    reference_base,
                ));
            }
            m += 1;
        }
        proof {
            assert(recs.take(recs.len() as int) =~= recs);
            assert(references@.take(references@.len() as int) =~= references@);
            assert(files@.take(kept_files.len() as int) =~= kept_files);
        }
        self.files = files;
        self.symbols = rows;
        self.references = refs;
        self.next_file_id = file_id + 1;
        self.next_symbol_id = symbol_base + symbols.len() as i64;
        self.next_reference_id = reference_base + references.len() as i64;
        proof {
            lemma_replace_keeps_well_formed(
                old(self)@,
                self@,
                path@,
                language,
                recs,
                references@,
            );
        }
        Ok(file_id)
    }

    /// The id of the file stored under `path`.
    pub fn get_file_id(&self, path: &str) -> (r: Option<i64>)
        ensures
            match r {
                Some(id) => has_file(self@.files, id, path@),
                None => forall|f: int| 0 <= f < self@.files.len() ==> (#[trigger] self@.files[f]).path@
                    != path@,
            },
    {
        let mut i: usize = 0;
        while i < self.files.len()
            invariant
                i <= self.files.len(),
                forall|f: int| 0 <= f < i ==> (#[trigger] self.files@[f]).path@ != path@,
            decreases self.files.len() - i,
        {
            if str_eq(self.files[i].path.as_str(), path) {
                return Some(self.files[i].id);
            }
            i += 1;
        }
        None
    }

    /// The symbols of the file `path`, ordered by the position at which
    /// they start.
    pub fn get_file_symbols(&self, path: &str) -> (r: Vec<SymbolRow>)
        ensures
            r@ == sorted::<ByPosition, SymbolRow>(kept(self@.symbols, symbol_inside(path@))),
            ascending::<ByPosition, SymbolRow>(r@),
            r@.to_multiset() == kept(self@.symbols, symbol_inside(path@)).to_multiset(),
    {
        let rows = symbols_inside(&self.symbols, path);
        proof {
            lemma_by_position_ranks();
            lemma_sorted_ascending::<ByPosition, SymbolRow>(rows@);
            lemma_sorted_permutes::<ByPosition, SymbolRow>(rows@);
        }
        sort::<ByPosition, SymbolRow>(rows)
    }

    /// The symbols whose name holds `pattern`, letters compared without
    /// regard to ASCII case, ordered by name.
    pub fn search_symbols(&self, pattern: &str) -> (r: Vec<SymbolRow>)
        ensures
            r@ == sorted::<ByName, SymbolRow>(kept(self@.symbols, name_holds(pattern@))),
            ascending::<ByName, SymbolRow>(r@),
            r@.to_multiset() == kept(self@.symbols, name_holds(pattern@)).to_multiset(),
    {
        let needle = lower_chars(pattern);
        let mut out: Vec<SymbolRow> = Vec::new();
        let mut i: usize = 0;
        assert(self.symbols@.take(0) =~= Seq::<SymbolRow>::empty());
        while i < self.symbols.len()
            invariant
                i <= self.symbols.len(),
                needle@ == lower(pattern@),
                out@ == kept(self.symbols@.take(i as int), name_holds(pattern@)),
            decreases self.symbols.len() - i,
        {
            assert(self.symbols@.take(i + 1).drop_last() =~= self.symbols@.take(i as int));
            let name = lower_chars(self.symbols[i].name.as_str());
            if vec_occurs_in(&needle, &name) {
                out.push(self.symbols[i].duplicate());
            }
            i += 1;
        }
        proof {
            assert(self.symbols@.take(self.symbols@.len() as int) =~= self.symbols@);
            lemma_by_name_ranks();
            lemma_sorted_ascending::<ByName, SymbolRow>(out@);
            lemma_sorted_permutes::<ByName, SymbolRow>(out@);
        }
        sort::<ByName, SymbolRow>(out)
    }

    /// The reference rows whose stored owner is the symbol with id
    /// `symbol_id`, ordered by file path and then by the position at which
    /// they start. A row without a stored owner is a row of no symbol.
    pub fn find_references(&self, symbol_id: i64) -> (r: Vec<ReferenceRow>)
        ensures
            r@ == sorted::<ByPlace, ReferenceRow>(kept(self@.references, stored_for(symbol_id))),
            ascending::<ByPlace, ReferenceRow>(r@),
            r@.to_multiset() == kept(self@.references, stored_for(symbol_id)).to_multiset(),
    {
        let mut out: Vec<ReferenceRow> = Vec::new();
        let mut i: usize = 0;
        assert(self.references@.take(0) =~= Seq::<ReferenceRow>::empty());
        while i < self.references.len()
            invariant
                i <= self.references.len(),
                out@ == kept(self.references@.take(i as int), stored_for(symbol_id)),
            decreases self.references.len() - i,
        {
            assert(self.references@.take(i + 1).drop_last() =~= self.references@.take(i as int));
            let row = &self.references[i];
            let stored = match row.symbol_id {
                Some(id) => id == symbol_id,
                None => false,
            };
            if stored {
                out.push(row.duplicate());
            }
            i += 1;
        }
        proof {
            assert(self.references@.take(self.references@.len() as int) =~= self.references@);
            lemma_by_place_ranks();
            lemma_sorted_ascending::<ByPlace, ReferenceRow>(out@);
            lemma_sorted_permutes::<ByPlace, ReferenceRow>(out@);
        }
        sort::<ByPlace, ReferenceRow>(out)
    }

    /// The references that the symbol with id `symbol_id` owns, ordered by
    /// file path and then by the position at which they start: the rows
    /// whose stored owner it is, and the rows without a stored owner for
    /// which it is the innermost symbol of their file that covers the point
    /// at which they start.
    pub fn find_enclosed_references(&self, symbol_id: i64) -> (r: Vec<ReferenceRow>)
        ensures
            r@ == sorted::<ByPlace, ReferenceRow>(
                kept(self@.references, owned_by(self@.symbols, symbol_id)),
            ),
            ascending::<ByPlace, ReferenceRow>(r@),
            r@.to_multiset() == kept(
                self@.references,
                owned_by(self@.symbols, symbol_id),
            ).to_multiset(),
    {
        let mut out: Vec<ReferenceRow> = Vec::new();
        let mut i: usize = 0;
        assert(self.references@.take(0) =~= Seq::<ReferenceRow>::empty());
        while i < self.references.len()
            invariant
                i <= self.references.len(),
                out@ == kept(self.references@.take(i as int), owned_by(self.symbols@, symbol_id)),
            decreases self.references.len() - i,
        {
            assert(self.references@.take(i + 1).drop_last() =~= self.references@.take(i as int));
            let row = &self.references[i];
            let owner = match row.symbol_id {
                Some(id) => Some(id),
                None => match find_innermost(
                    &self.symbols,
                    row.file_path.as_str(),
                    row.start_line,
                    row.start_column,
                ) {
                    Some(k) => Some(self.symbols[k].id),
                    None => None,
                },
            };
            let owned = match owner {
                Some(id) => id == symbol_id,
                None => false,
            };
            if owned {
                out.push(row.duplicate());
            }
            i += 1;
        }
        proof {
            assert(self.references@.take(self.references@.len() as int) =~= self.references@);
            lemma_by_place_ranks();
            lemma_sorted_ascending::<ByPlace, ReferenceRow>(out@);
            lemma_sorted_permutes::<ByPlace, ReferenceRow>(out@);
        }
        sort::<ByPlace, ReferenceRow>(out)
    }

    /// Stores the symbol with id `symbol_id` as the owner of the reference
    /// with id `reference_id`, and says whether it did: it does where the
    /// store holds that reference and holds that symbol in the reference's
    /// file. Otherwise the store stays as it is.
    #[verifier::loop_isolation(false)]
    pub fn resolve_reference(&mut self, reference_id: i64, symbol_id: i64) -> (r: bool)
        ensures
            match reference_at(old(self)@.references, reference_id, 0) {
                Some(k) => if has_symbol(
                    old(self)@.symbols,
                    symbol_id,
                    old(self)@.references[k].file_path@,
                ) {
                    r && final(self)@ == with_owner(old(self)@, k, symbol_id)
                } else {
                    !r && final(self)@ == old(self)@
                },
                None => !r && final(self)@ == old(self)@,
            },
            well_formed(old(self)@) ==> well_formed(final(self)@),
    {
        let ghost before = self@;
        let mut k: usize = 0;
        while k < self.references.len() && self.references[k].id != reference_id
            invariant
                k <= self.references.len(),
                self@ == before,
                reference_at(before.references, reference_id, 0) == reference_at(
                    before.references,
                    reference_id,
                    k as int,
                ),
            decreases self.references.len() - k,
        {
            k += 1;
        }
        if k >= self.references.len() {
            return false;
        }
        let mut j: usize = 0;
        while j < self.symbols.len()
            invariant
                j <= self.symbols.len(),
                self@ == before,
                k < self.references.len(),
                forall|i: int|
                    0 <= i < j ==> !((#[trigger] before.symbols[i]).id == symbol_id
                        && before.symbols[i].file_path@ == before.references[k as int].file_path@),
            decreases self.symbols.len() - j,
        {
            if self.symbols[j].id == symbol_id && str_eq(
                self.symbols[j].file_path.as_str(),
                self.references[k].file_path.as_str(),
            ) {
                let mut row = self.references[k].duplicate();
                row.symbol_id = Some(symbol_id);
                self.references.set(k, row);
                proof {
                    assert(self@.references =~= with_owner(before, k as int, symbol_id).references);
                    if well_formed(before) {
                        lemma_with_owner_well_formed(before, k as int, symbol_id);
                    }
                }
                return true;
            }
            j += 1;
        }
        false
    }

    /// The innermost symbol of the file `path` whose span covers the point
    /// (`line`, `column`).
    pub fn find_definition(&self, path: &str, line: usize, column: usize) -> (r: Option<SymbolRow>)
        ensures
            r == innermost(self@.symbols, path@, line, column),
    {
        match find_innermost(&self.symbols, path, line, column) {
            Some(k) => Some(self.symbols[k].duplicate()),
            None => None,
        }
    }

    /// Removes every row. The ids given out so far stay used.
    pub fn clear_all(&mut self)
        requires
            well_formed(old(self)@),
        ensures
            final(self)@.files.len() == 0,
            final(self)@.symbols.len() == 0,
            final(self)@.references.len() == 0,
            final(self)@.next_file_id == old(self)@.next_file_id,
            final(self)@.next_symbol_id == old(self)@.next_symbol_id,
            final(self)@.next_reference_id == old(self)@.next_reference_id,
            well_formed(final(self)@),
    {
        self.files = Vec::new();
        self.symbols = Vec::new();
        self.references = Vec::new();
        proof {
            reveal(files_ordered);
            reveal(symbols_ordered);
            reveal(references_ordered);
            reveal(paths_distinct);
            reveal(symbols_sound);
            reveal(references_sound);
            reveal(symbols_distinct_in);
        }
    }
}

} // verus!
