//! Queries over the store: ranked search by name, references of a symbol,
//! the definition at a position, the symbols of a file.
//!
//! Queries read the store and never fail; they return `Ok` so that callers
//! handle them as they handle the operations that can be refused.

use crate::filtering::kept;
use crate::index::database::{
    innermost, owned_by, stored_for, symbol_inside, ByPlace, ByPosition, Database, IndexError,
    ReferenceRow, SymbolRow, Tables,
};
use crate::index::symbols::{ReferenceKind, SymbolInfo, SymbolKind, SymbolReference};
use crate::parser::parser::string_views;
use crate::sorting::{
    ascending, lemma_prefix_ascending, lemma_sorted_ascending, lemma_sorted_permutes,
    ranks_by_levels, sort, sorted, Ranked,
};
use crate::text::{
    comes_before, lemma_comes_before_total, lemma_comes_before_transitive, lower, lower_chars,
    occurs_in, str_comes_before, str_eq, str_occurs_in, vec_occurs_at, vec_occurs_in,
};
use vstd::prelude::*;

verus! {

/// The symbol that a row stands for. A kind that is no label reads as
/// `Variable`.
pub open spec fn info_of(row: SymbolRow) -> SymbolInfo {
    SymbolInfo {
        id: Some(row.id),
        name: row.name,
        kind: match SymbolKind::of_label(row.kind@) {
            Some(kind) => kind,
            None => SymbolKind::Variable,
        },
        span: row.span(),
        file_path: row.file_path,
        signature: row.signature,
        documentation: row.documentation,
        parent: row.parent_id,
    }
}

/// The symbols that a sequence of rows stands for.
pub open spec fn infos_of(rows: Seq<SymbolRow>) -> Seq<SymbolInfo> {
    Seq::new(rows.len(), |k: int| info_of(rows[k]))
}

fn copy_text(o: &Option<String>) -> (r: Option<String>)
    ensures
        r == *o,
{
    match o {
        Some(s) => Some(s.clone()),
        None => None,
    }
}

impl SymbolInfo {
    /// The symbol that `row` stands for.
    pub fn from_row(row: &SymbolRow) -> (r: SymbolInfo)
        ensures
            r == info_of(*row),
    {
        SymbolInfo {
            id: Some(row.id),
            name: row.name.clone(),
            kind: match SymbolKind::from_label(row.kind.as_str()) {
                Some(kind) => kind,
                None => SymbolKind::Variable,
            },
            span: row.to_span(),
            file_path: row.file_path.clone(),
            signature: copy_text(&row.signature),
            documentation: copy_text(&row.documentation),
            parent: row.parent_id,
        }
    }

    /// A copy of the symbol.
    pub fn duplicate(&self) -> (r: SymbolInfo)
        ensures
            r == *self,
    {
        SymbolInfo {
            id: self.id,
            name: self.name.clone(),
            kind: self.kind,
            span: self.span,
            file_path: self.file_path.clone(),
            signature: copy_text(&self.signature),
            documentation: copy_text(&self.documentation),
            parent: self.parent,
        }
    }
}

fn infos_from(rows: &Vec<SymbolRow>) -> (r: Vec<SymbolInfo>)
    ensures
        r@ == infos_of(rows@),
{
    let mut out: Vec<SymbolInfo> = Vec::new();
    let mut i: usize = 0;
    while i < rows.len()
        invariant
            i <= rows.len(),
            out@ == infos_of(rows@.take(i as int)),
        decreases rows.len() - i,
    {
        out.push(SymbolInfo::from_row(&rows[i]));
        assert(out@ =~= infos_of(rows@.take(i + 1)));
        i += 1;
    }
    assert(rows@.take(rows@.len() as int) =~= rows@);
    out
}

/// A symbol found by a search, with the score that ranks it.
#[derive(Debug, Clone, PartialEq)]
pub struct SearchResult {
    pub symbol: SymbolInfo,
    pub score: u32,
    pub context: Option<String>,
}

/// Orders search results by falling score, and by name where scores are
/// equal.
pub struct ByRelevance;

impl Ranked<ByRelevance> for SearchResult {
    open spec fn precedes(&self, other: &Self) -> bool {
        self.score > other.score || (self.score == other.score && comes_before(
            self.symbol.name@,
            other.symbol.name@,
        ))
    }

    fn is_before(&self, other: &Self) -> (b: bool) {
        self.score > other.score || (self.score == other.score && str_comes_before(
            self.symbol.name.as_str(),
            other.symbol.name.as_str(),
        ))
    }
}

/// Ordering by relevance ranks by levels.
pub proof fn lemma_by_relevance_ranks()
    ensures
        ranks_by_levels::<ByRelevance, SearchResult>(),
{
    assert forall|a: SearchResult, b: SearchResult| #[trigger]
        Ranked::<ByRelevance>::precedes(&a, &b) implies !Ranked::<ByRelevance>::precedes(
        &b,
        &a,
    ) by {
        lemma_comes_before_total(a.symbol.name@, b.symbol.name@);
    }
    assert forall|a: SearchResult, b: SearchResult, c: SearchResult|
        !(#[trigger] Ranked::<ByRelevance>::precedes(&a, &b)) && !(#[trigger] Ranked::<
            ByRelevance,
        >::precedes(&b, &c)) implies !Ranked::<ByRelevance>::precedes(&a, &c) by {
        lemma_comes_before_total(a.symbol.name@, b.symbol.name@);
        lemma_comes_before_total(b.symbol.name@, c.symbol.name@);
        if a.score == b.score && b.score == c.score && comes_before(
            a.symbol.name@,
            c.symbol.name@,
        ) {
            if a.symbol.name@ != b.symbol.name@ {
                lemma_comes_before_transitive(b.symbol.name@, a.symbol.name@, c.symbol.name@);
            }
        }
    }
}

/// What a search gives is ranked: no result stands after one with a lower
/// score, nor, among results of one score, after one whose name comes
/// later; and there are no more results than the limit allows.
pub proof fn lemma_ranking_is_ranked(
    symbols: Seq<SymbolRow>,
    pattern: Seq<char>,
    kinds: Option<Seq<Seq<char>>>,
    file_pattern: Option<Seq<char>>,
    docs: bool,
    limit: Option<usize>,
)
    ensures
        ascending::<ByRelevance, SearchResult>(
            ranking(symbols, pattern, kinds, file_pattern, docs, limit),
        ),
        limit matches Some(n) ==> ranking(symbols, pattern, kinds, file_pattern, docs, limit).len()
            <= n,
        ranking(symbols, pattern, kinds, file_pattern, docs, limit).len() <= symbols.len(),
{
    let found = results_of(kept(symbols, accepts(pattern, kinds, file_pattern)), pattern, docs);
    lemma_by_relevance_ranks();
    lemma_sorted_ascending::<ByRelevance, SearchResult>(found);
    lemma_sorted_permutes::<ByRelevance, SearchResult>(found);
    crate::filtering::lemma_kept_members(symbols, accepts(pattern, kinds, file_pattern));
    let all = sorted::<ByRelevance, SearchResult>(found);
    match limit {
        Some(n) => {
            if n < all.len() {
                lemma_prefix_ascending::<ByRelevance, SearchResult>(all, n as int);
            }
        },
        None => {},
    }
}

/// What the spelling of a name earns against a pattern: 100 where the name
/// is the pattern, 75 where it begins with it, 50 where it holds it, letters
/// compared without regard to ASCII case in the last two, and 0 otherwise.
pub open spec fn name_score(name: Seq<char>, pattern: Seq<char>) -> u32 {
    if name == pattern {
        100
    } else if crate::text::begins_with(lower(pattern), lower(name)) {
        75
    } else if occurs_in(lower(pattern), lower(name)) {
        50
    } else {
        0
    }
}

/// What the kind of a symbol earns: containers more than leaves.
pub open spec fn kind_bonus(kind: SymbolKind) -> u32 {
    match kind {
        SymbolKind::Package => 10,
        SymbolKind::Procedure => 8,
        SymbolKind::Function => 8,
        _ => 5,
    }
}

/// The score of a symbol against a pattern.
pub open spec fn relevance(name: Seq<char>, pattern: Seq<char>, kind: SymbolKind) -> u32 {
    (name_score(name, pattern) + kind_bonus(kind)) as u32
}

/// The rows that a search accepts: the name holds `pattern`, the kind's
/// label is one of `kinds` where kinds are given, and the file path holds
/// `file_pattern` where one is given.
pub open spec fn accepts(
    pattern: Seq<char>,
    kinds: Option<Seq<Seq<char>>>,
    file_pattern: Option<Seq<char>>,
) -> spec_fn(SymbolRow) -> bool {
    |r: SymbolRow|
        occurs_in(lower(pattern), lower(r.name@)) && (kinds matches Some(ks) ==> ks.contains(
            info_of(r).kind.label(),
        )) && (file_pattern matches Some(fp) ==> occurs_in(fp, r.file_path@))
}

/// The search result that a row gives: its symbol, without its
/// documentation unless `docs` asks for it, and its score.
pub open spec fn result_of(row: SymbolRow, pattern: Seq<char>, docs: bool) -> SearchResult {
    SearchResult {
        symbol: if docs {
            info_of(row)
        } else {
            SymbolInfo { documentation: None, ..info_of(row) }
        },
        score: relevance(row.name@, pattern, info_of(row).kind),
        context: None,
    }
}

/// The search results that a sequence of rows gives.
pub open spec fn results_of(rows: Seq<SymbolRow>, pattern: Seq<char>, docs: bool) -> Seq<
    SearchResult,
> {
    Seq::new(rows.len(), |k: int| result_of(rows[k], pattern, docs))
}

/// The first `limit` elements of `s`, or all of `s` where it has fewer or no
/// limit is given.
pub open spec fn cut<T>(s: Seq<T>, limit: Option<usize>) -> Seq<T> {
    match limit {
        Some(n) => if n < s.len() {
            s.take(n as int)
        } else {
            s
        },
        None => s,
    }
}

/// What a search gives: the accepted rows as results, best score first and
/// by name among equal scores, cut to the limit.
pub open spec fn ranking(
    symbols: Seq<SymbolRow>,
    pattern: Seq<char>,
    kinds: Option<Seq<Seq<char>>>,
    file_pattern: Option<Seq<char>>,
    docs: bool,
    limit: Option<usize>,
) -> Seq<SearchResult> {
    cut(
        sorted::<ByRelevance, SearchResult>(
            results_of(kept(symbols, accepts(pattern, kinds, file_pattern)), pattern, docs),
        ),
        limit,
    )
}

/// The symbols of a sequence of search results.
pub open spec fn symbols_of(results: Seq<SearchResult>) -> Seq<SymbolInfo> {
    Seq::new(results.len(), |k: int| results[k].symbol)
}

/// What a search by name gives: the hundred best symbols whose name holds
/// `pattern`.
pub open spec fn found_by_name(symbols: Seq<SymbolRow>, pattern: Seq<char>) -> Seq<SymbolInfo> {
    symbols_of(ranking(symbols, pattern, None, None, true, Some(100)))
}

/// The kind that a stored label names; a label that names none reads as
/// `Usage`.
pub open spec fn reference_kind_of(label: Seq<char>) -> ReferenceKind {
    match ReferenceKind::of_label(label) {
        Some(kind) => kind,
        None => ReferenceKind::Usage,
    }
}

/// The reference that a row stands for, owned by `symbol`.
pub open spec fn reference_of(row: ReferenceRow, symbol: SymbolInfo) -> SymbolReference {
    SymbolReference {
        symbol,
        span: row.span(),
        file_path: row.file_path,
        reference_kind: reference_kind_of(row.reference_kind@),
    }
}

/// The references that the rows `rows` stand for, owned by `symbol`.
pub open spec fn references_from(rows: Seq<ReferenceRow>, symbol: SymbolInfo) -> Seq<
    SymbolReference,
> {
    Seq::new(rows.len(), |k: int| reference_of(rows[k], symbol))
}

/// The references to `symbol`: the reference rows whose stored owner is its
/// id, ordered by file path and position. A symbol without an id has none.
pub open spec fn references_of(t: Tables, symbol: SymbolInfo) -> Seq<SymbolReference> {
    match symbol.id {
        Some(id) => references_from(
            sorted::<ByPlace, ReferenceRow>(kept(t.references, stored_for(id))),
            symbol,
        ),
        None => Seq::empty(),
    }
}

/// The references that `symbol` owns, ordered by file path and position:
/// besides the rows whose stored owner it is, the rows without a stored
/// owner for which it is the innermost symbol of their file that covers the
/// point at which they start. A symbol without an id owns none.
pub open spec fn enclosed_references_of(t: Tables, symbol: SymbolInfo) -> Seq<SymbolReference> {
    match symbol.id {
        Some(id) => references_from(
            sorted::<ByPlace, ReferenceRow>(kept(t.references, owned_by(t.symbols, id))),
            symbol,
        ),
        None => Seq::empty(),
    }
}

/// The innermost symbol of the file `path` that covers the point.
pub open spec fn definition_at(
    symbols: Seq<SymbolRow>,
    path: Seq<char>,
    line: usize,
    column: usize,
) -> Option<SymbolInfo> {
    match innermost(symbols, path, line, column) {
        Some(row) => Some(info_of(row)),
        None => None,
    }
}

/// The symbols of the file `path`, ordered by position.
pub open spec fn symbols_in_file(symbols: Seq<SymbolRow>, path: Seq<char>) -> Seq<SymbolInfo> {
    infos_of(sorted::<ByPosition, SymbolRow>(kept(symbols, symbol_inside(path))))
}

/// The rows whose kind's label holds `pattern`.
pub open spec fn kind_holds(pattern: Seq<char>) -> spec_fn(SymbolRow) -> bool {
    |r: SymbolRow| occurs_in(pattern, info_of(r).kind.label())
}

fn score_name(name: &str, pattern: &str) -> (r: u32)
    ensures
        r == name_score(name@, pattern@),
{
    if str_eq(name, pattern) {
        return 100;
    }
    let n = lower_chars(name);
    let p = lower_chars(pattern);
    if vec_occurs_at(&p, &n, 0) {
        75
    } else if vec_occurs_in(&p, &n) {
        50
    } else {
        0
    }
}

fn bonus_of(kind: SymbolKind) -> (r: u32)
    ensures
        r == kind_bonus(kind),
{
    match kind {
        SymbolKind::Package => 10,
        SymbolKind::Procedure => 8,
        SymbolKind::Function => 8,
        _ => 5,
    }
}

fn holds_label(kinds: &Vec<String>, label: &str) -> (b: bool)
    ensures
        b == string_views(kinds@).contains(label@),
{
    let mut i: usize = 0;
    while i < kinds.len()
        invariant
            i <= kinds.len(),
            forall|k: int| 0 <= k < i ==> string_views(kinds@)[k] != label@,
        decreases kinds.len() - i,
    {
        if str_eq(kinds[i].as_str(), label) {
            assert(string_views(kinds@)[i as int] == label@);
            return true;
        }
        i += 1;
    }
    false
}

fn option_view(o: &Option<String>) -> (r: Ghost<Option<Seq<char>>>)
    ensures
        r@ == crate::index::symbols::text_of(*o),
{
    Ghost(crate::index::symbols::text_of(*o))
}

/// The view of an optional list of strings.
pub open spec fn kinds_view(o: Option<Vec<String>>) -> Option<Seq<Seq<char>>> {
    match o {
        Some(v) => Some(string_views(v@)),
        None => None,
    }
}

fn rank(
    database: &Database,
    pattern: &str,
    kinds: &Option<Vec<String>>,
    file_pattern: &Option<String>,
    docs: bool,
    limit: Option<usize>,
) -> (r: Vec<SearchResult>)
    ensures
        r@ == ranking(
            database@.symbols,
            pattern@,
            kinds_view(*kinds),
            crate::index::symbols::text_of(*file_pattern),
            docs,
            limit,
        ),
{
    let rows = database.symbols();
    let needle = lower_chars(pattern);
    let ghost ks = kinds_view(*kinds);
    let ghost fp = crate::index::symbols::text_of(*file_pattern);
    let mut out: Vec<SearchResult> = Vec::new();
    let mut i: usize = 0;
    assert(rows@.take(0) =~= Seq::<SymbolRow>::empty());
    assert(out@ =~= results_of(kept(rows@.take(0), accepts(pattern@, ks, fp)), pattern@, docs));
    while i < rows.len()
        invariant
            i <= rows.len(),
            needle@ == lower(pattern@),
            ks == kinds_view(*kinds),
            fp == crate::index::symbols::text_of(*file_pattern),
            out@ == results_of(
                kept(rows@.take(i as int), accepts(pattern@, ks, fp)),
                pattern@,
                docs,
            ),
        decreases rows.len() - i,
    {
        assert(rows@.take(i + 1).drop_last() =~= rows@.take(i as int));
        let row = &rows[i];
        let name = lower_chars(row.name.as_str());
        let mut accepted = vec_occurs_in(&needle, &name);
        let info = SymbolInfo::from_row(row);
        if accepted {
            match kinds {
                Some(list) => {
                    accepted = holds_label(list, info.kind.label_str());
                },
                None => {},
            }
        }
        if accepted {
            match file_pattern {
                Some(p) => {
                    accepted = str_occurs_in(p.as_str(), row.file_path.as_str());
                },
                None => {},
            }
        }
        if accepted {
            let score = score_name(row.name.as_str(), pattern) + bonus_of(info.kind);
            let symbol = if docs {
                info
            } else {
                SymbolInfo {
                    id: info.id,
                    name: info.name,
                    kind: info.kind,
                    span: info.span,
                    file_path: info.file_path,
                    signature: info.signature,
                    documentation: None,
                    parent: info.parent,
                }
            };
            let ghost before = out@;
            let result = SearchResult { symbol, score, context: None };
            assert(result == result_of(*row, pattern@, docs));
            out.push(result);
            assert(out@ =~= results_of(
                kept(rows@.take(i + 1), accepts(pattern@, ks, fp)),
                pattern@,
                docs,
            ));
        }
        i += 1;
    }
    assert(rows@.take(rows@.len() as int) =~= rows@);
    let mut ranked = sort::<ByRelevance, SearchResult>(out);
    match limit {
        Some(n) => {
            if n < ranked.len() {
                ranked.truncate(n);
            }
        },
        None => {},
    }
    ranked
}

fn take_symbols(results: Vec<SearchResult>) -> (r: Vec<SymbolInfo>)
    ensures
        r@ == symbols_of(results@),
{
    let mut out: Vec<SymbolInfo> = Vec::new();
    let mut i: usize = 0;
    while i < results.len()
        invariant
            i <= results.len(),
            out@ == symbols_of(results@.take(i as int)),
        decreases results.len() - i,
    {
        out.push(results[i].symbol.duplicate());
        assert(out@ =~= symbols_of(results@.take(i + 1)));
        i += 1;
    }
    assert(results@.take(results@.len() as int) =~= results@);
    out
}

/// For each of the references `refs`, in their order, the innermost symbol
/// that covers the point at which the reference starts, where there is one.
pub open spec fn places_of(t: Tables, refs: Seq<SymbolReference>) -> Seq<SymbolInfo>
    decreases refs.len(),
{
    if refs.len() == 0 {
        Seq::empty()
    } else {
        let rest = places_of(t, refs.drop_last());
        match definition_at(
            t.symbols,
            refs.last().file_path@,
            refs.last().span.start.line,
            refs.last().span.start.column,
        ) {
            Some(symbol) => rest.push(symbol),
            None => rest,
        }
    }
}

fn to_references(rows: &Vec<ReferenceRow>, symbol: &SymbolInfo) -> (r: Vec<SymbolReference>)
    ensures
        r@ == references_from(rows@, *symbol),
{
    let mut out: Vec<SymbolReference> = Vec::new();
    let mut i: usize = 0;
    while i < rows.len()
        invariant
            i <= rows.len(),
            out@ == Seq::new(i as nat, |k: int| reference_of(rows@[k], *symbol)),
        decreases rows.len() - i,
    {
        let row = &rows[i];
        let reference = SymbolReference {
            symbol: symbol.duplicate(),
            span: row.to_span(),
            file_path: row.file_path.clone(),
            reference_kind: match ReferenceKind::from_label(row.reference_kind.as_str()) {
                Some(kind) => kind,
                None => ReferenceKind::Usage,
            },
        };
        out.push(reference);
        assert(out@ =~= Seq::new((i + 1) as nat, |k: int| reference_of(rows@[k], *symbol)));
        i += 1;
    }
    assert(out@ =~= references_from(rows@, *symbol));
    out
}

/// Answers the navigation queries over a store.
pub struct SymbolSearcher<'a> {
    database: &'a Database,
}

impl<'a> SymbolSearcher<'a> {
    /// The store that the searcher reads.
    pub closed spec fn tables(&self) -> Tables {
        self.database@
    }

    /// A searcher over `database`.
    pub fn new(database: &'a Database) -> (r: SymbolSearcher<'a>)
        ensures
            r.tables() == database@,
    {
        SymbolSearcher { database }
    }

    /// The hundred best symbols whose name holds `pattern`: exact matches
    /// before names that begin with the pattern, those before names that
    /// merely hold it, containers before leaves, and by name where the
    /// scores are equal.
    pub fn search_by_name(&self, pattern: &str) -> (r: Result<Vec<SymbolInfo>, IndexError>)
        ensures
            r matches Ok(v) && v@ == found_by_name(self.tables().symbols, pattern@),
    {
        let none_kinds: Option<Vec<String>> = None;
        let none_pattern: Option<String> = None;
        let results = rank(self.database, pattern, &none_kinds, &none_pattern, true, Some(100));
        Ok(take_symbols(results))
    }

    /// The references to `symbol`: the reference rows whose stored owner is
    /// its id, ordered by file path and then by position. A row without a
    /// stored owner is a reference to no symbol.
    pub fn find_references(&self, symbol: &SymbolInfo) -> (r: Result<
        Vec<SymbolReference>,
        IndexError,
    >)
        ensures
            r matches Ok(v) && v@ == references_of(self.tables(), *symbol),
    {
        match symbol.id {
            Some(id) => Ok(to_references(&self.database.find_references(id), symbol)),
            None => Ok(Vec::new()),
        }
    }

    /// The references that `symbol` owns, ordered by file path and then by
    /// position: besides the rows whose stored owner it is, every row
    /// without a stored owner for which it is the innermost symbol of the
    /// row's file that covers the point at which the row starts.
    pub fn find_enclosed_references(&self, symbol: &SymbolInfo) -> (r: Result<
        Vec<SymbolReference>,
        IndexError,
    >)
        ensures
            r matches Ok(v) && v@ == enclosed_references_of(self.tables(), *symbol),
    {
        match symbol.id {
            Some(id) => Ok(to_references(&self.database.find_enclosed_references(id), symbol)),
            None => Ok(Vec::new()),
        }
    }

    /// The innermost symbol of the file at `file_path` whose span covers
    /// the point (`line`, `column`).
    pub fn find_definition_at_position(&self, file_path: &str, line: usize, column: usize) -> (r:
        Result<Option<SymbolInfo>, IndexError>)
        ensures
            r matches Ok(found) && found == definition_at(
                self.tables().symbols,
                file_path@,
                line,
                column,
            ),
    {
        match self.database.find_definition(file_path, line, column) {
            Some(row) => Ok(Some(SymbolInfo::from_row(&row))),
            None => Ok(None),
        }
    }

    /// The symbols in which `symbol` is referred to: for each of its
    /// references, in their order, the innermost symbol that covers the
    /// point at which the reference starts.
    pub fn find_incoming_references(&self, symbol: &SymbolInfo) -> (r: Result<
        Vec<SymbolInfo>,
        IndexError,
    >)
        ensures
            r matches Ok(v) && v@ == places_of(
                self.tables(),
                references_of(self.tables(), *symbol),
            ),
    {
        let references = match self.find_references(symbol) {
            Ok(references) => references,
            Err(e) => {
                return Err(e);
            },
        };
        let mut out: Vec<SymbolInfo> = Vec::new();
        let mut i: usize = 0;
        assert(references@.take(0) =~= Seq::<SymbolReference>::empty());
        while i < references.len()
            invariant
                i <= references.len(),
                out@ == places_of(self.tables(), references@.take(i as int)),
            decreases references.len() - i,
        {
            let reference = &references[i];
            assert(references@.take(i + 1).drop_last() =~= references@.take(i as int));
            match self.database.find_definition(
                reference.file_path.as_str(),
                reference.span.start.line,
                reference.span.start.column,
            ) {
                Some(row) => {
                    out.push(SymbolInfo::from_row(&row));
                },
                None => {},
            }
            i += 1;
        }
        assert(references@.take(references@.len() as int) =~= references@);
        Ok(out)
    }

    /// The symbols that `symbol` refers to. The store keeps where a name is
    /// used, not which declaration the name stands for, so none is given.
    pub fn find_outgoing_references(&self, symbol: &SymbolInfo) -> (r: Result<
        Vec<SymbolInfo>,
        IndexError,
    >)
        ensures
            r matches Ok(v) && v@.len() == 0,
    {
        Ok(Vec::new())
    }

    /// The symbols that nothing refers to. The store keeps where a name is
    /// used, not which declaration the name stands for, so none is given.
    pub fn find_unused_symbols(&self) -> (r: Result<Vec<SymbolInfo>, IndexError>)
        ensures
            r matches Ok(v) && v@.len() == 0,
    {
        Ok(Vec::new())
    }

    /// The symbols of the file at `file_path`, ordered by position.
    pub fn get_symbols_in_file(&self, file_path: &str) -> (r: Result<Vec<SymbolInfo>, IndexError>)
        ensures
            r matches Ok(v) && v@ == symbols_in_file(self.tables().symbols, file_path@),
    {
        let rows = self.database.get_file_symbols(file_path);
        Ok(infos_from(&rows))
    }

    /// The symbols whose kind's label holds `kind_pattern`, in the order of
    /// the store.
    pub fn search_by_kind(&self, kind_pattern: &str) -> (r: Result<Vec<SymbolInfo>, IndexError>)
        ensures
            r matches Ok(v) && v@ == infos_of(
                kept(self.tables().symbols, kind_holds(kind_pattern@)),
            ),
    {
        let rows = self.database.symbols();
        let mut out: Vec<SymbolInfo> = Vec::new();
        let mut i: usize = 0;
        assert(rows@.take(0) =~= Seq::<SymbolRow>::empty());
        assert(out@ =~= infos_of(kept(rows@.take(0), kind_holds(kind_pattern@))));
        while i < rows.len()
            invariant
                i <= rows.len(),
                out@ == infos_of(kept(rows@.take(i as int), kind_holds(kind_pattern@))),
            decreases rows.len() - i,
        {
            assert(rows@.take(i + 1).drop_last() =~= rows@.take(i as int));
            let info = SymbolInfo::from_row(&rows[i]);
            if str_occurs_in(kind_pattern, info.kind.label_str()) {
                out.push(info);
                assert(out@ =~= infos_of(kept(rows@.take(i + 1), kind_holds(kind_pattern@))));
            }
            i += 1;
        }
        assert(rows@.take(rows@.len() as int) =~= rows@);
        Ok(out)
    }
}

/// What to search for: a name pattern, kinds, a file-path pattern, a limit,
/// and whether documentation is wanted.
#[derive(Debug, Clone, PartialEq)]
pub struct SearchQuery {
    pub name_pattern: Option<String>,
    pub kind_filter: Option<Vec<String>>,
    pub file_pattern: Option<String>,
    pub limit: Option<usize>,
    pub include_documentation: bool,
}

impl Default for SearchQuery {
    fn default() -> (r: SearchQuery)
        ensures
            r.name_pattern is None,
            r.kind_filter is None,
            r.file_pattern is None,
            r.limit == Some(100usize),
            !r.include_documentation,
    {
        SearchQuery {
            name_pattern: None,
            kind_filter: None,
            file_pattern: None,
            limit: Some(100),
            include_documentation: false,
        }
    }
}

impl SearchQuery {
    /// A query that asks for nothing yet: no pattern, no filter, at most a
    /// hundred results, no documentation.
    pub fn new() -> (r: SearchQuery)
        ensures
            r.name_pattern is None,
            r.kind_filter is None,
            r.file_pattern is None,
            r.limit == Some(100usize),
            !r.include_documentation,
    {
        SearchQuery {
            name_pattern: None,
            kind_filter: None,
            file_pattern: None,
            limit: Some(100),
            include_documentation: false,
        }
    }

    /// The query with the name pattern set.
    pub fn with_name(self, pattern: String) -> (r: SearchQuery)
        ensures
            r == (SearchQuery { name_pattern: Some(pattern), ..self }),
    {
        let mut q = self;
        q.name_pattern = Some(pattern);
        q
    }

    /// The query with the kinds set: labels of the kinds that are wanted.
    pub fn with_kinds(self, kinds: Vec<String>) -> (r: SearchQuery)
        ensures
            r == (SearchQuery { kind_filter: Some(kinds), ..self }),
    {
        let mut q = self;
        q.kind_filter = Some(kinds);
        q
    }

    /// The query with the file-path pattern set.
    pub fn with_file_pattern(self, pattern: String) -> (r: SearchQuery)
        ensures
            r == (SearchQuery { file_pattern: Some(pattern), ..self }),
    {
        let mut q = self;
        q.file_pattern = Some(pattern);
        q
    }

    /// The query with the limit set.
    pub fn with_limit(self, limit: usize) -> (r: SearchQuery)
        ensures
            r == (SearchQuery { limit: Some(limit), ..self }),
    {
        let mut q = self;
        q.limit = Some(limit);
        q
    }

    /// The query with documentation asked for.
    pub fn include_docs(self) -> (r: SearchQuery)
        ensures
            r == (SearchQuery { include_documentation: true, ..self }),
    {
        let mut q = self;
        q.include_documentation = true;
        q
    }
}

/// What a query gives over the symbol rows `symbols`. A query without a name
/// pattern gives nothing.
pub open spec fn searched(symbols: Seq<SymbolRow>, query: SearchQuery) -> Seq<SearchResult> {
    match query.name_pattern {
        Some(pattern) => ranking(
            symbols,
            pattern@,
            kinds_view(query.kind_filter),
            crate::index::symbols::text_of(query.file_pattern),
            query.include_documentation,
            query.limit,
        ),
        None => Seq::empty(),
    }
}

/// Answers queries given as a `SearchQuery`.
pub struct AdvancedSearcher<'a> {
    database: &'a Database,
}

impl<'a> AdvancedSearcher<'a> {
    /// The store that the searcher reads.
    pub closed spec fn tables(&self) -> Tables {
        self.database@
    }

    /// A searcher over `database`.
    pub fn new(database: &'a Database) -> (r: AdvancedSearcher<'a>)
        ensures
            r.tables() == database@,
    {
        AdvancedSearcher { database }
    }

    /// The results of `query`, best score first.
    pub fn search(&self, query: &SearchQuery) -> (r: Result<Vec<SearchResult>, IndexError>)
        ensures
            r matches Ok(v) && v@ == searched(self.tables().symbols, *query),
    {
        match &query.name_pattern {
            Some(pattern) => Ok(
                rank(
                    self.database,
                    pattern.as_str(),
                    &query.kind_filter,
                    &query.file_pattern,
                    query.include_documentation,
                    query.limit,
                ),
            ),
            None => Ok(Vec::new()),
        }
    }
}

} // verus!
