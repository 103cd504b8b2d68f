//! What holds of every well-formed store, and of every replacement of a file.

use crate::filtering::{
    kept, lemma_kept_again, lemma_kept_all_or_none, lemma_kept_members, lemma_kept_of_joined,
};
use crate::index::database::{
    innermost, lemma_replace_keeps_well_formed, placed_at, references_ordered, rejection, reference_entries, reference_outside, replaces_file,
    symbol_entries, symbol_inside, symbol_outside, symbol_sound_at, symbols_ordered,
    symbols_sound, well_formed, ReferenceRow, SymbolRow, Tables,
};
use crate::index::symbols::{ReferenceKind, ReferenceRecord, SymbolKind, SymbolModel, text_of};
use crate::parser::ast::Span;
use crate::parser::Language;
use vstd::prelude::*;

verus! {

/// Span containment: in a well-formed store, every symbol that has a parent
/// starts no earlier than the parent and ends no later.
pub proof fn lemma_span_containment(t: Tables, child: int, parent: int)
    requires
        well_formed(t),
        0 <= child < t.symbols.len(),
        0 <= parent < t.symbols.len(),
        t.symbols[child].parent_id == Some(t.symbols[parent].id),
    ensures
        t.symbols[parent].span().start.at_or_before(t.symbols[child].span().start),
        t.symbols[child].span().end.at_or_before(t.symbols[parent].span().end),
        t.symbols[parent].file_path@ == t.symbols[child].file_path@,
{
    reveal(symbols_sound);
    reveal(symbols_ordered);
    assert(symbol_sound_at(t, child));
    let p = t.symbols[parent].id;
    let j = choose|j: int|
        0 <= j < t.symbols.len() && (#[trigger] t.symbols[j]).id == p && t.symbols[j].file_path@
            == t.symbols[child].file_path@ && t.symbols[j].span().encloses(
            t.symbols[child].span(),
        );
    if j < parent {
        assert(t.symbols[j].id < t.symbols[parent].id);
    } else if parent < j {
        assert(t.symbols[parent].id < t.symbols[j].id);
    }
}

/// In a well-formed store no symbol is its own ancestor: a parent's id is
/// smaller than the id of its child.
pub proof fn lemma_parent_is_older(t: Tables, child: int)
    requires
        well_formed(t),
        0 <= child < t.symbols.len(),
        t.symbols[child].parent_id is Some,
    ensures
        t.symbols[child].parent_id->Some_0 < t.symbols[child].id,
{
    reveal(symbols_sound);
    assert(symbol_sound_at(t, child));
}

/// What a lookup by position finds: a row of the file that covers the
/// point and is no longer than any other row of the file that covers it; and
/// it finds nothing only where no row of the file covers the point.
pub proof fn lemma_innermost_is_smallest(
    rows: Seq<SymbolRow>,
    path: Seq<char>,
    line: usize,
    column: usize,
)
    ensures
        match innermost(rows, path, line, column) {
            Some(r) => {
                &&& rows.contains(r)
                &&& r.file_path@ == path
                &&& r.span().covers(line, column)
                &&& forall|k: int|
                    0 <= k < rows.len() && (#[trigger] rows[k]).file_path@ == path
                        && rows[k].span().covers(line, column) ==> r.span().extent()
                        <= rows[k].span().extent()
            },
            None => forall|k: int|
                0 <= k < rows.len() ==> !((#[trigger] rows[k]).file_path@ == path
                    && rows[k].span().covers(line, column)),
        },
    decreases rows.len(),
{
    if rows.len() > 0 {
        let front = rows.drop_last();
        lemma_innermost_is_smallest(front, path, line, column);
        let best = innermost(front, path, line, column);
        let x = rows.last();
        match innermost(rows, path, line, column) {
            Some(r) => {
                if r == x && x.file_path@ == path && x.span().covers(line, column) && (
                best matches Some(b) ==> x.span().extent() <= b.span().extent()) {
                    assert(rows[rows.len() - 1] == r);
                } else {
                    assert(best == Some(r));
                    let i = choose|i: int| 0 <= i < front.len() && front[i] == r;
                    assert(rows[i] == r);
                }
                assert forall|k: int|
                    0 <= k < rows.len() && (#[trigger] rows[k]).file_path@ == path
                        && rows[k].span().covers(line, column) implies r.span().extent()
                    <= rows[k].span().extent() by {
                    if k < front.len() {
                        assert(front[k] == rows[k]);
                    }
                }
            },
            None => {
                assert forall|k: int| 0 <= k < rows.len() implies !((
                #[trigger] rows[k]).file_path@ == path && rows[k].span().covers(line, column)) by {
                    if k < front.len() {
                        assert(front[k] == rows[k]);
                    }
                }
            },
        }
    }
}

/// Innermost-definition lookup: of two symbols of one file, the inner lying
/// within the outer and being shorter, a point that the inner covers never
/// resolves to the outer; and where these two are the only symbols of the
/// file that cover the point, it resolves to the inner.
pub proof fn lemma_lookup_prefers_inner(
    rows: Seq<SymbolRow>,
    path: Seq<char>,
    line: usize,
    column: usize,
    outer: int,
    inner: int,
)
    requires
        0 <= outer < rows.len(),
        0 <= inner < rows.len(),
        rows[outer].file_path@ == path,
        rows[inner].file_path@ == path,
        rows[outer].span().encloses(rows[inner].span()),
        rows[inner].span().extent() < rows[outer].span().extent(),
        rows[inner].span().covers(line, column),
    ensures
        innermost(rows, path, line, column) is Some,
        innermost(rows, path, line, column) != Some(rows[outer]),
        rows[outer].span().covers(line, column),
        (forall|k: int|
            0 <= k < rows.len() && (#[trigger] rows[k]).file_path@ == path && rows[k].span().covers(
                line,
                column,
            ) ==> k == outer || k == inner) ==> innermost(rows, path, line, column) == Some(
            rows[inner],
        ),
{
    lemma_innermost_is_smallest(rows, path, line, column);
    let found = innermost(rows, path, line, column);
    assert(found is Some);
    let r = found->Some_0;
    assert(r.span().extent() <= rows[inner].span().extent());
    if forall|k: int|
        0 <= k < rows.len() && (#[trigger] rows[k]).file_path@ == path && rows[k].span().covers(
            line,
            column,
        ) ==> k == outer || k == inner {
        let i = choose|i: int| 0 <= i < rows.len() && rows[i] == r;
        assert(rows[i].file_path@ == path && rows[i].span().covers(line, column));
        assert(i == outer || i == inner);
    }
}

/// What a run of symbol rows says once the ids that the store gave are set
/// aside: each row as a record, its parent named by its index in the run.
pub open spec fn described(rows: Seq<SymbolRow>) -> Seq<SymbolModel> {
    Seq::new(
        rows.len(),
        |k: int|
            SymbolModel {
                name: rows[k].name@,
                kind: match SymbolKind::of_label(rows[k].kind@) {
                    Some(kind) => kind,
                    None => SymbolKind::Variable,
                },
                span: rows[k].span(),
                parent: match rows[k].parent_id {
                    Some(p) => Some(p - rows[0].id),
                    None => None,
                },
                signature: text_of(rows[k].signature),
                documentation: text_of(rows[k].documentation),
            },
    )
}

/// What a run of reference rows says once the ids that the store gave are
/// set aside.
pub open spec fn described_references(rows: Seq<ReferenceRow>) -> Seq<ReferenceRecord> {
    Seq::new(
        rows.len(),
        |k: int|
            ReferenceRecord {
                span: rows[k].span(),
                kind: match ReferenceKind::of_label(rows[k].reference_kind@) {
                    Some(kind) => kind,
                    None => ReferenceKind::Usage,
                },
            },
    )
}

/// The reference rows of the file `path`.
pub open spec fn reference_inside(path: Seq<char>) -> spec_fn(ReferenceRow) -> bool {
    |r: ReferenceRow| r.file_path@ == path
}

/// After a file is replaced the store holds for it exactly what was put in:
/// its symbol rows say what the records said, its reference rows likewise,
/// and the rows of every other file are those that were there before.
pub proof fn lemma_store_holds_what_was_put(
    old: Tables,
    new: Tables,
    path: Seq<char>,
    language: Language,
    recs: Seq<SymbolModel>,
    refs: Seq<ReferenceRecord>,
)
    requires
        well_formed(old),
        rejection(old, recs, refs) is None,
        replaces_file(old, new, path, language, recs, refs),
    ensures
        described(kept(new.symbols, symbol_inside(path))) == recs,
        described_references(kept(new.references, reference_inside(path))) == refs,
        kept(new.symbols, symbol_outside(path)) == kept(old.symbols, symbol_outside(path)),
        kept(new.references, reference_outside(path)) == kept(
            old.references,
            reference_outside(path),
        ),
{
    reveal(symbols_ordered);
    reveal(references_ordered);
    let stay = kept(old.symbols, symbol_outside(path));
    let ns = stay.len() as int;
    let added = new.symbols.skip(ns);
    assert(new.symbols =~= new.symbols.take(ns) + added);
    lemma_kept_members(old.symbols, symbol_outside(path));
    assert forall|k: int| 0 <= k < stay.len() implies !symbol_inside(path)(#[trigger] stay[k])
        && symbol_outside(path)(stay[k]) by {
        assert(stay.contains(stay[k]));
    }
    assert forall|k: int| 0 <= k < added.len() implies symbol_inside(path)(#[trigger] added[k])
        && !symbol_outside(path)(added[k]) by {
        assert(symbol_entries(added)[k] == added[k]@);
    }
    lemma_kept_of_joined(stay, added, symbol_inside(path));
    lemma_kept_of_joined(stay, added, symbol_outside(path));
    lemma_kept_all_or_none(stay, symbol_inside(path));
    lemma_kept_all_or_none(stay, symbol_outside(path));
    lemma_kept_all_or_none(added, symbol_inside(path));
    lemma_kept_all_or_none(added, symbol_outside(path));
    assert(kept(new.symbols, symbol_inside(path)) =~= added);
    assert(kept(new.symbols, symbol_outside(path)) =~= stay);
    assert forall|k: int| 0 <= k < recs.len() implies #[trigger] described(added)[k] == recs[k] by {
        assert(symbol_entries(added)[k] == added[k]@);
        assert(symbol_entries(added)[0] == added[0]@);
        assert(placed_at(recs, k));
        recs[k].kind.lemma_label_round_trip();
    }
    assert(described(added) =~= recs);

    let stay_refs = kept(old.references, reference_outside(path));
    let nr = stay_refs.len() as int;
    let added_refs = new.references.skip(nr);
    assert(new.references =~= new.references.take(nr) + added_refs);
    lemma_kept_members(old.references, reference_outside(path));
    assert forall|k: int| 0 <= k < stay_refs.len() implies !reference_inside(path)(
        #[trigger] stay_refs[k],
    ) && reference_outside(path)(stay_refs[k]) by {
        assert(stay_refs.contains(stay_refs[k]));
    }
    assert forall|k: int| 0 <= k < added_refs.len() implies reference_inside(path)(
        #[trigger] added_refs[k],
    ) && !reference_outside(path)(added_refs[k]) by {
        assert(reference_entries(added_refs)[k] == added_refs[k]@);
    }
    lemma_kept_of_joined(stay_refs, added_refs, reference_inside(path));
    lemma_kept_of_joined(stay_refs, added_refs, reference_outside(path));
    lemma_kept_all_or_none(stay_refs, reference_inside(path));
    lemma_kept_all_or_none(stay_refs, reference_outside(path));
    lemma_kept_all_or_none(added_refs, reference_inside(path));
    lemma_kept_all_or_none(added_refs, reference_outside(path));
    assert(kept(new.references, reference_inside(path)) =~= added_refs);
    assert(kept(new.references, reference_outside(path)) =~= stay_refs);
    assert forall|k: int| 0 <= k < refs.len() implies #[trigger] described_references(
        added_refs,
    )[k] == refs[k] by {
        assert(reference_entries(added_refs)[k] == added_refs[k]@);
        refs[k].kind.lemma_label_round_trip();
    }
    assert(described_references(added_refs) =~= refs);
}

/// Idempotent indexing: where the store takes the same records for the same
/// file twice, it has after the second time the rows it had after the
/// first: as many files, symbols and references, the same rows for every
/// other file, and for the file itself rows that say the same.
pub proof fn lemma_indexing_is_idempotent(
    before: Tables,
    once: Tables,
    twice: Tables,
    path: Seq<char>,
    language: Language,
    recs: Seq<SymbolModel>,
    refs: Seq<ReferenceRecord>,
)
    requires
        well_formed(before),
        rejection(before, recs, refs) is None,
        replaces_file(before, once, path, language, recs, refs),
        rejection(once, recs, refs) is None,
        replaces_file(once, twice, path, language, recs, refs),
    ensures
        twice.files.len() == once.files.len(),
        twice.symbols.len() == once.symbols.len(),
        twice.references.len() == once.references.len(),
        described(kept(twice.symbols, symbol_inside(path))) == described(
            kept(once.symbols, symbol_inside(path)),
        ),
        described_references(kept(twice.references, reference_inside(path)))
            == described_references(kept(once.references, reference_inside(path))),
        kept(twice.symbols, symbol_outside(path)) == kept(once.symbols, symbol_outside(path)),
        kept(twice.references, reference_outside(path)) == kept(
            once.references,
            reference_outside(path),
        ),
{
    lemma_replace_keeps_well_formed(before, once, path, language, recs, refs);
    lemma_store_holds_what_was_put(before, once, path, language, recs, refs);
    lemma_store_holds_what_was_put(once, twice, path, language, recs, refs);
    // the rows that stay the second time are the rows that stayed the first time
    let stay_files = kept(before.files, crate::index::database::file_outside(path));
    let nf = stay_files.len() as int;
    assert(once.files =~= once.files.take(nf) + seq![once.files.last()]);
    lemma_kept_of_joined(
        once.files.take(nf),
        seq![once.files.last()],
        crate::index::database::file_outside(path),
    );
    lemma_kept_again(before.files, crate::index::database::file_outside(path));
    assert(kept(seq![once.files.last()], crate::index::database::file_outside(path))
        =~= Seq::<crate::index::database::FileRow>::empty()) by {
        assert(seq![once.files.last()].drop_last() =~= Seq::<
            crate::index::database::FileRow,
        >::empty());
    }
    assert(kept(once.files, crate::index::database::file_outside(path)) =~= stay_files);
}

/// A well-placed tree is refused only where two of its symbols share name
/// and span, or where the store has no ids left.
pub proof fn lemma_well_placed_trees_are_taken(t: Tables, ast: crate::parser::ast::AstNode)
    requires
        crate::parser::parser::well_placed(ast),
    ensures
        rejection(
            t,
            crate::index::symbols::ast_symbols(ast),
            crate::index::symbols::ast_references(ast),
        ) is None || rejection(
            t,
            crate::index::symbols::ast_symbols(ast),
            crate::index::symbols::ast_references(ast),
        ) == Some(crate::index::database::IndexError::DuplicateSymbol) || rejection(
            t,
            crate::index::symbols::ast_symbols(ast),
            crate::index::symbols::ast_references(ast),
        ) == Some(crate::index::database::IndexError::StoreFull),
{
}

/// A new store takes the records of a file exactly where their spans are
/// well formed, every child lies within its parent, no two symbols have the
/// same name and span, and they are fewer than the ids there are.
pub proof fn lemma_new_store_takes(recs: Seq<SymbolModel>, refs: Seq<ReferenceRecord>)
    ensures
        rejection(crate::index::database::empty_tables(), recs, refs) is None <==> (
        crate::index::database::spans_well_formed(recs, refs)
            && crate::index::database::children_placed(recs)
            && crate::index::database::symbols_distinct(recs) && recs.len() < i64::MAX
            && refs.len() < i64::MAX),
{
}

/// A store that took the records of a file takes the same records again
/// exactly where it has ids left for them. So it does where, before the
/// first round, ids were left for two.
pub proof fn lemma_second_round_is_taken(
    before: Tables,
    once: Tables,
    path: Seq<char>,
    language: Language,
    recs: Seq<SymbolModel>,
    refs: Seq<ReferenceRecord>,
)
    requires
        rejection(before, recs, refs) is None,
        replaces_file(before, once, path, language, recs, refs),
    ensures
        rejection(once, recs, refs) is None <==> crate::index::database::has_room(
            once,
            recs.len(),
            refs.len(),
        ),
        before.next_file_id + 1 < i64::MAX && before.next_symbol_id + 2 * recs.len() <= i64::MAX
            && before.next_reference_id + 2 * refs.len() <= i64::MAX ==> rejection(
            once,
            recs,
            refs,
        ) is None,
{
}

/// A store that took one file takes the records of another exactly where
/// they are in order and ids are left for them; the ids that the first file
/// used are those from the old next ids on, one for each of its rows.
pub proof fn lemma_next_file_is_taken(
    before: Tables,
    once: Tables,
    path: Seq<char>,
    language: Language,
    recs: Seq<SymbolModel>,
    refs: Seq<ReferenceRecord>,
    more: Seq<SymbolModel>,
    more_refs: Seq<ReferenceRecord>,
)
    requires
        rejection(before, recs, refs) is None,
        replaces_file(before, once, path, language, recs, refs),
    ensures
        rejection(once, more, more_refs) is None <==> (crate::index::database::spans_well_formed(
            more,
            more_refs,
        ) && crate::index::database::children_placed(more)
            && crate::index::database::symbols_distinct(more) && before.next_file_id + 1
            < i64::MAX && before.next_symbol_id + recs.len() + more.len() <= i64::MAX
            && before.next_reference_id + refs.len() + more_refs.len() <= i64::MAX),
{
}

/// After a file is replaced, no row of the store keeps an id that a symbol
/// of the file had before, and every owner that a reference row names is a
/// symbol of the store: the symbols that the file no longer has are gone
/// with the references to them.
pub proof fn lemma_replaced_rows_are_gone(
    old: Tables,
    new: Tables,
    path: Seq<char>,
    language: Language,
    recs: Seq<SymbolModel>,
    refs: Seq<ReferenceRecord>,
    gone: int,
)
    requires
        well_formed(old),
        rejection(old, recs, refs) is None,
        replaces_file(old, new, path, language, recs, refs),
        0 <= gone < old.symbols.len(),
        old.symbols[gone].file_path@ == path,
    ensures
        well_formed(new),
        forall|k: int| 0 <= k < new.symbols.len() ==> (#[trigger] new.symbols[k]).id
            != old.symbols[gone].id,
        forall|k: int| 0 <= k < new.references.len() ==> (#[trigger] new.references[k]).symbol_id
            != Some(old.symbols[gone].id),
        kept(new.references, crate::index::database::stored_for(old.symbols[gone].id)).len() == 0,
{
    lemma_replace_keeps_well_formed(old, new, path, language, recs, refs);
    let id = old.symbols[gone].id;
    reveal(symbols_ordered);
    assert(id < old.next_symbol_id);
    assert forall|k: int| 0 <= k < new.symbols.len() implies (#[trigger] new.symbols[k]).id
        != id by {
        crate::index::database::lemma_symbol_row_after_replace(
            old,
            new,
            path,
            language,
            recs,
            refs,
            k,
        );
        if k < new.symbols.len() - recs.len() {
            let row = new.symbols[k];
            let at = choose|at: int| 0 <= at < old.symbols.len() && old.symbols[at] == row;
            if at < gone {
                assert(old.symbols[at].id < old.symbols[gone].id);
            } else if gone < at {
                assert(old.symbols[gone].id < old.symbols[at].id);
            }
        }
    }
    assert forall|k: int| 0 <= k < new.references.len() implies (
    #[trigger] new.references[k]).symbol_id != Some(id) by {
        if new.references[k].symbol_id == Some(id) {
            reveal(crate::index::database::references_sound);
            assert(crate::index::database::reference_sound_at(new, k));
        }
    }
    lemma_kept_all_or_none(new.references, crate::index::database::stored_for(id));
}

} // verus!
