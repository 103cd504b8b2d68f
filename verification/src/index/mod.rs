//! The symbol index: extraction of symbols from syntax trees, the store that
//! holds them, and the queries over it.

pub mod database;
pub mod laws;
pub mod layers;
pub mod search;
pub mod symbols;

use crate::filtering::kept;
use crate::index::database::{
    file_in, rejection, replaces_file, symbol_in, well_formed, Database, FileRow,
    IndexError, SymbolRow, Tables,
};
use crate::index::search::SymbolSearcher;
use crate::index::symbols::{
    ast_references, ast_symbols, record_views, ReferenceRecord, SymbolIndexer, SymbolInfo,
    SymbolRecord, SymbolReference,
};
use crate::parser::ast::AstNode;
use crate::parser::Language;
use crate::text::{lower, to_chars, to_lower_char};
use crate::utils::file_utils::{
    extension_of, file_name_of, file_name_start, split_name, trimmed, trimmed_chars,
};
use vstd::prelude::*;

verus! {

/// Counts of what an index holds.
#[derive(Debug, Clone, PartialEq)]
pub struct IndexStatistics {
    pub total_files: usize,
    pub total_symbols: usize,
    pub total_references: usize,
    /// For every dialect that has a file in the index, in the order of the
    /// dialects, the number of symbols of its files.
    pub symbols_by_language: Vec<(Language, usize)>,
}

/// The dialect of the file at `path`: the one its extension selects, and the
/// procedural dialect where it has no extension or one that selects none.
pub open spec fn language_of_path(path: Seq<char>) -> Language {
    match extension_of(path) {
        Some(e) => match Language::of_lowered(seq!['.'] + lower(e)) {
            Some(l) => l,
            None => Language::PlSql,
        },
        None => Language::PlSql,
    }
}

/// A separator or a component `.` at the end of a path does not change the
/// dialect that the path selects.
pub proof fn lemma_dialect_ignores_trailing_separator(path: Seq<char>)
    ensures
        language_of_path(path.push('/')) == language_of_path(path),
        language_of_path(path.push('/').push('.')) == language_of_path(path),
{
    crate::utils::file_utils::lemma_trailing_separator(path);
    crate::utils::file_utils::lemma_trailing_dot(path);
}

/// The dialect of the file at `path`.
pub fn detect_language_from_path(path: &str) -> (r: Language)
    ensures
        r == language_of_path(path@),
{
    let v = trimmed_chars(path);
    let total = v.len();
    let (start, found) = split_name(&v);
    let dot = match found {
        Some(d) => d,
        None => {
            return Language::PlSql;
        },
    };
    let ghost ext = file_name_of(path@).skip(dot - start + 1);
    let mut e: Vec<char> = Vec::new();
    e.push('.');
    let mut i: usize = dot + 1;
    assert(e@ =~= seq!['.'] + lower(ext.take(0)));
    while i < v.len()
        invariant
            dot + 1 <= i <= v@.len(),
            start < dot,
            start == file_name_start(v@),
            v@ == trimmed(path@),
            ext == file_name_of(path@).skip(dot - start + 1),
            e@ == seq!['.'] + lower(ext.take(i - dot - 1)),
        decreases v.len() - i,
    {
        e.push(to_lower_char(v[i]));
        assert(e@ =~= seq!['.'] + lower(ext.take(i + 1 - dot - 1)));
        i += 1;
    }
    assert(ext.take(ext.len() as int) =~= ext);
    match Language::from_lowered(&e) {
        Some(l) => l,
        None => Language::PlSql,
    }
}

/// The index: a store, filled from syntax trees and asked by queries.
pub struct Index {
    database: Database,
}

impl View for Index {
    type V = Tables;

    closed spec fn view(&self) -> Tables {
        self.database@
    }
}

/// The entry of `language` in the statistics: its symbol count, where the
/// store has a file of that dialect.
pub open spec fn language_count(
    files: Seq<FileRow>,
    symbols: Seq<SymbolRow>,
    language: Language,
) -> Seq<(Language, usize)> {
    if kept(files, file_in(language)).len() > 0 {
        seq![(language, kept(symbols, symbol_in(files, language)).len() as usize)]
    } else {
        Seq::empty()
    }
}

/// The per-dialect symbol counts of the statistics.
pub open spec fn language_counts(files: Seq<FileRow>, symbols: Seq<SymbolRow>) -> Seq<
    (Language, usize),
> {
    language_count(files, symbols, Language::PlSql) + language_count(
        files,
        symbols,
        Language::Entity,
    ) + language_count(files, symbols, Language::Enumeration) + language_count(
        files,
        symbols,
        Language::Views,
    ) + language_count(files, symbols, Language::Storage) + language_count(
        files,
        symbols,
        Language::MarbleProjection,
    ) + language_count(files, symbols, Language::MarbleClient)
}

fn count_files(files: &Vec<FileRow>, language: Language) -> (n: usize)
    ensures
        n == kept(files@, file_in(language)).len(),
{
    let mut n: usize = 0;
    let mut i: usize = 0;
    assert(files@.take(0) =~= Seq::<FileRow>::empty());
    while i < files.len()
        invariant
            i <= files.len(),
            n <= i,
            n == kept(files@.take(i as int), file_in(language)).len(),
        decreases files.len() - i,
    {
        assert(files@.take(i + 1).drop_last() =~= files@.take(i as int));
        if files[i].language == language {
            n += 1;
        }
        i += 1;
    }
    assert(files@.take(files@.len() as int) =~= files@);
    n
}

fn belongs_to_language(files: &Vec<FileRow>, row: &SymbolRow, language: Language) -> (b: bool)
    ensures
        b == symbol_in(files@, language)(*row),
{
    let mut i: usize = 0;
    while i < files.len()
        invariant
            i <= files.len(),
            forall|f: int|
                0 <= f < i ==> !((#[trigger] files@[f]).id == row.file_id && files@[f].language
                    == language),
        decreases files.len() - i,
    {
        if files[i].id == row.file_id && files[i].language == language {
            return true;
        }
        i += 1;
    }
    false
}

fn count_symbols(files: &Vec<FileRow>, symbols: &Vec<SymbolRow>, language: Language) -> (n: usize)
    ensures
        n == kept(symbols@, symbol_in(files@, language)).len(),
{
    let mut n: usize = 0;
    let mut i: usize = 0;
    assert(symbols@.take(0) =~= Seq::<SymbolRow>::empty());
    while i < symbols.len()
        invariant
            i <= symbols.len(),
            n <= i,
            n == kept(symbols@.take(i as int), symbol_in(files@, language)).len(),
        decreases symbols.len() - i,
    {
        assert(symbols@.take(i + 1).drop_last() =~= symbols@.take(i as int));
        if belongs_to_language(files, &symbols[i], language) {
            n += 1;
        }
        i += 1;
    }
    assert(symbols@.take(symbols@.len() as int) =~= symbols@);
    n
}

fn push_language_count(
    out: &mut Vec<(Language, usize)>,
    files: &Vec<FileRow>,
    symbols: &Vec<SymbolRow>,
    language: Language,
)
    ensures
        final(out)@ == old(out)@ + language_count(files@, symbols@, language),
{
    if count_files(files, language) > 0 {
        let n = count_symbols(files, symbols, language);
        out.push((language, n));
        assert(out@ =~= old(out)@ + seq![(language, n)]);
    } else {
        assert(out@ =~= old(out)@ + Seq::<(Language, usize)>::empty());
    }
}

impl Index {
    /// Whether the index keeps the promises of the data model.
    pub open spec fn wf(&self) -> bool {
        well_formed(self@)
    }

    /// An empty index, whose first file, symbol and reference get the id 1.
    /// It never fails: the result leaves room for indexes that have to be
    /// opened.
    pub fn in_memory() -> (r: Result<Index, IndexError>)
        ensures
            r matches Ok(ix) && ix.wf() && ix@ == crate::index::database::empty_tables(),
    {
        match Database::in_memory() {
            Ok(database) => Ok(Index { database }),
            Err(e) => Err(e),
        }
    }

    /// The store behind the index.
    pub fn database(&self) -> (r: &Database)
        ensures
            r@ == self@,
    {
        &self.database
    }

    /// Indexes the syntax tree of the file at `file_path`: the symbols and
    /// references of the tree take the place of whatever the index held for
    /// that path. Where the tree is refused the index stays as it was.
    pub fn index_file(&mut self, file_path: &str, ast: &AstNode) -> (r: Result<(), IndexError>)
        requires
            old(self).wf(),
        ensures
            final(self).wf(),
            match rejection(old(self)@, ast_symbols(*ast), ast_references(*ast)) {
                Some(e) => r == Err::<(), IndexError>(e) && final(self)@ == old(self)@,
                None => r is Ok && replaces_file(
                    old(self)@,
                    final(self)@,
                    file_path@,
                    language_of_path(file_path@),
                    ast_symbols(*ast),
                    ast_references(*ast),
                ),
            },
    {
        let language = detect_language_from_path(file_path);
        let mut indexer = SymbolIndexer::new();
        indexer.index_ast(ast);
        match self.database.replace_file(
            file_path,
            language,
            &indexer.symbols,
            &indexer.references,
        ) {
            Ok(_) => Ok(()),
            Err(e) => Err(e),
        }
    }

    /// Puts the records of one file into the index in place of whatever the
    /// index held for `file_path`. Where the records are refused the index
    /// stays as it was.
    pub fn load_file(
        &mut self,
        file_path: &str,
        language: Language,
        symbols: &Vec<SymbolRecord>,
        references: &Vec<ReferenceRecord>,
    ) -> (r: Result<(), IndexError>)
        requires
            old(self).wf(),
        ensures
            final(self).wf(),
            match rejection(old(self)@, record_views(symbols@), references@) {
                Some(e) => r == Err::<(), IndexError>(e) && final(self)@ == old(self)@,
                None => r is Ok && replaces_file(
                    old(self)@,
                    final(self)@,
                    file_path@,
                    language,
                    record_views(symbols@),
                    references@,
                ),
            },
    {
        match self.database.replace_file(file_path, language, symbols, references) {
            Ok(_) => Ok(()),
            Err(e) => Err(e),
        }
    }

    /// The symbols whose name holds `query`, best match first.
    pub fn search_symbols(&self, query: &str) -> (r: Result<Vec<SymbolInfo>, IndexError>)
        ensures
            r matches Ok(v) && v@ == crate::index::search::found_by_name(self@.symbols, query@),
    {
        let searcher = SymbolSearcher::new(&self.database);
        searcher.search_by_name(query)
    }

    /// Stores the symbol with id `symbol_id` as the owner of the reference
    /// with id `reference_id`, and says whether it did: it does where the
    /// index holds that reference and holds that symbol in the reference's
    /// file. Otherwise the index stays as it is.
    pub fn resolve_reference(&mut self, reference_id: i64, symbol_id: i64) -> (r: bool)
        requires
            old(self).wf(),
        ensures
            final(self).wf(),
            match crate::index::database::reference_at(old(self)@.references, reference_id, 0) {
                Some(k) => if crate::index::database::has_symbol(
                    old(self)@.symbols,
                    symbol_id,
                    old(self)@.references[k].file_path@,
                ) {
                    r && final(self)@ == crate::index::database::with_owner(
                        old(self)@,
                        k,
                        symbol_id,
                    )
                } else {
                    !r && final(self)@ == old(self)@
                },
                None => !r && final(self)@ == old(self)@,
            },
    {
        self.database.resolve_reference(reference_id, symbol_id)
    }

    /// The references to `symbol`: the reference rows whose stored owner is
    /// its id, ordered by file path and position.
    pub fn find_references(&self, symbol: &SymbolInfo) -> (r: Result<
        Vec<SymbolReference>,
        IndexError,
    >)
        ensures
            r matches Ok(v) && v@ == crate::index::search::references_of(self@, *symbol),
    {
        let searcher = SymbolSearcher::new(&self.database);
        searcher.find_references(symbol)
    }

    /// The references that `symbol` owns, ordered by file path and position:
    /// besides the rows whose stored owner it is, every row without a stored
    /// owner that starts within it and within no smaller symbol of its file.
    pub fn find_enclosed_references(&self, symbol: &SymbolInfo) -> (r: Result<
        Vec<SymbolReference>,
        IndexError,
    >)
        ensures
            r matches Ok(v) && v@ == crate::index::search::enclosed_references_of(self@, *symbol),
    {
        let searcher = SymbolSearcher::new(&self.database);
        searcher.find_enclosed_references(symbol)
    }

    /// The innermost symbol of the file at `file_path` that covers the point
    /// (`line`, `column`).
    pub fn find_definition(&self, file_path: &str, line: usize, column: usize) -> (r: Result<
        Option<SymbolInfo>,
        IndexError,
    >)
        ensures
            r matches Ok(found) && found == crate::index::search::definition_at(
                self@.symbols,
                file_path@,
                line,
                column,
            ),
    {
        let searcher = SymbolSearcher::new(&self.database);
        searcher.find_definition_at_position(file_path, line, column)
    }

    /// The symbols of the file at `file_path`, ordered by position.
    pub fn get_file_symbols(&self, file_path: &str) -> (r: Result<Vec<SymbolInfo>, IndexError>)
        ensures
            r matches Ok(v) && v@ == crate::index::search::symbols_in_file(
                self@.symbols,
                file_path@,
            ),
    {
        let searcher = SymbolSearcher::new(&self.database);
        searcher.get_symbols_in_file(file_path)
    }

    /// Counts of what the index holds.
    pub fn get_statistics(&self) -> (r: Result<IndexStatistics, IndexError>)
        ensures
            r matches Ok(s) && s.total_files == self@.files.len() && s.total_symbols
                == self@.symbols.len() && s.total_references == self@.references.len()
                && s.symbols_by_language@ == language_counts(self@.files, self@.symbols),
    {
        let files = self.database.files();
        let symbols = self.database.symbols();
        let mut by_language: Vec<(Language, usize)> = Vec::new();
        push_language_count(&mut by_language, files, symbols, Language::PlSql);
        push_language_count(&mut by_language, files, symbols, Language::Entity);
        push_language_count(&mut by_language, files, symbols, Language::Enumeration);
        push_language_count(&mut by_language, files, symbols, Language::Views);
        push_language_count(&mut by_language, files, symbols, Language::Storage);
        push_language_count(&mut by_language, files, symbols, Language::MarbleProjection);
        push_language_count(&mut by_language, files, symbols, Language::MarbleClient);
        Ok(
            IndexStatistics {
                total_files: files.len(),
                total_symbols: symbols.len(),
                total_references: self.database.references().len(),
                symbols_by_language: by_language,
            },
        )
    }

    /// Removes everything from the index. The ids given out so far stay
    /// used.
    pub fn clear(&mut self) -> (r: Result<(), IndexError>)
        requires
            old(self).wf(),
        ensures
            r is Ok,
            final(self).wf(),
            final(self)@.files.len() == 0,
            final(self)@.symbols.len() == 0,
            final(self)@.references.len() == 0,
            final(self)@.next_file_id == old(self)@.next_file_id,
            final(self)@.next_symbol_id == old(self)@.next_symbol_id,
            final(self)@.next_reference_id == old(self)@.next_reference_id,
    {
        self.database.clear_all();
        Ok(())
    }
}

} // verus!
