//! The text form of the declarative dialects: records.
//!
//! Entity, enumeration, view, storage, projection and client sources are
//! lists of records. A record is a run of items closed by a semicolon, or
//! followed by a block of records in braces, after which the semicolon may
//! be left out:
//!
//! ```text
//! records := record*
//! record  := item+ ( ';' | '{' records '}' [';'] )
//! item    := word [ '(' [ word (',' word)* ] ')' ]
//! ```
//!
//! A word is any token but a semicolon, comma, brace or parenthesis. The
//! extent of a record runs from its first word to the token after it.

use crate::parser::ast::{lemma_encloses_transitive, Identifier, Span};
use crate::parser::lexer::{Token, TokenType};
use crate::parser::parser::{
    between, kind_at, lemma_position_of_rises, remaining, rising, step, text_at,
    token_span, unexpected, IdentifierView, ParseError, Parsed, Parser,
};
use vstd::prelude::*;

verus! {

/// A word of a record, with the words written in parentheses after it.
#[derive(Debug, PartialEq)]
pub struct Item {
    pub name: Identifier,
    pub arguments: Vec<Identifier>,
}

/// A record: its items and the records of its block.
#[derive(Debug, PartialEq)]
pub struct Record {
    pub items: Vec<Item>,
    pub children: Vec<Record>,
    pub span: Span,
}

/// An item with its texts read as characters.
pub struct ItemView {
    pub name: IdentifierView,
    pub arguments: Seq<IdentifierView>,
}

/// A record with its texts read as characters.
pub struct RecordView {
    pub items: Seq<ItemView>,
    pub children: Seq<RecordView>,
    pub span: Span,
}

/// The views of a sequence of identifiers.
pub open spec fn identifier_views(ids: Seq<Identifier>) -> Seq<IdentifierView> {
    Seq::new(ids.len(), |k: int| ids[k]@)
}

impl View for Item {
    type V = ItemView;

    open spec fn view(&self) -> ItemView {
        ItemView { name: self.name@, arguments: identifier_views(self.arguments@) }
    }
}

/// The views of a sequence of items.
pub open spec fn item_views(items: Seq<Item>) -> Seq<ItemView> {
    Seq::new(items.len(), |k: int| items[k]@)
}

/// The record with its texts read as characters.
pub open spec fn record_view(r: Record) -> RecordView
    decreases r, 0nat,
{
    RecordView { items: item_views(r.items@), children: record_views(r.children@), span: r.span }
}

/// The views of a sequence of records.
pub open spec fn record_views(rs: Seq<Record>) -> Seq<RecordView>
    decreases rs, 1nat,
{
    if rs.len() == 0 {
        Seq::empty()
    } else {
        record_views(rs.drop_last()).push(record_view(rs.last()))
    }
}

impl View for Record {
    type V = RecordView;

    open spec fn view(&self) -> RecordView {
        record_view(*self)
    }
}

/// The view of a sequence with one more record.
pub proof fn lemma_record_views_push(rs: Seq<Record>, r: Record)
    ensures
        record_views(rs.push(r)) == record_views(rs).push(record_view(r)),
{
    assert(rs.push(r).drop_last() =~= rs);
}

/// The views of a sequence of records, one for each record.
pub proof fn lemma_record_views_index(rs: Seq<Record>)
    ensures
        record_views(rs).len() == rs.len(),
        forall|k: int| 0 <= k < rs.len() ==> #[trigger] record_views(rs)[k] == record_view(rs[k]),
    decreases rs.len(),
{
    if rs.len() > 0 {
        lemma_record_views_index(rs.drop_last());
        assert forall|k: int| 0 <= k < rs.len() implies #[trigger] record_views(rs)[k]
            == record_view(rs[k]) by {
            if k < rs.len() - 1 {
                assert(rs.drop_last()[k] == rs[k]);
            }
        }
    }
}

/// The span of every record of `rs` lies within `outer`, and so on down the
/// blocks: every record encloses the records of its block.
pub open spec fn records_nested(outer: Span, rs: Seq<RecordView>) -> bool
    decreases rs, 1nat,
{
    if rs.len() == 0 {
        true
    } else {
        records_nested(outer, rs.drop_last()) && record_nested(outer, rs.last())
    }
}

/// The span of `r` is well formed and lies within `outer`, and `r` encloses
/// the records of its block, and so on down.
pub open spec fn record_nested(outer: Span, r: RecordView) -> bool
    decreases r, 0nat,
{
    r.span.well_formed() && outer.encloses(r.span) && records_nested(r.span, r.children)
}

/// Every record of a nested sequence is nested.
pub proof fn lemma_records_nested_index(outer: Span, rs: Seq<RecordView>, k: int)
    requires
        records_nested(outer, rs),
        0 <= k < rs.len(),
    ensures
        record_nested(outer, rs[k]),
    decreases rs.len(),
{
    if k < rs.len() - 1 {
        lemma_records_nested_index(outer, rs.drop_last(), k);
    }
}

/// Records nested within a span are nested within every span that encloses
/// it.
pub proof fn lemma_records_nested_wider(wider: Span, outer: Span, rs: Seq<RecordView>)
    requires
        records_nested(outer, rs),
        wider.encloses(outer),
    ensures
        records_nested(wider, rs),
    decreases rs.len(),
{
    reveal_with_fuel(records_nested, 2);
    reveal_with_fuel(record_nested, 2);
    if rs.len() > 0 {
        lemma_records_nested_wider(wider, outer, rs.drop_last());
        lemma_encloses_transitive(wider, outer, rs.last().span);
    }
}

/// The token kind is a word: not a semicolon, comma, brace, parenthesis or
/// the end of input.
pub open spec fn is_word(k: TokenType) -> bool {
    k != TokenType::Semicolon && k != TokenType::Comma && k != TokenType::LeftBrace && k
        != TokenType::RightBrace && k != TokenType::LeftParen && k != TokenType::RightParen && k
        != TokenType::Eof
}

/// The word at index `i` as an identifier.
pub open spec fn word_at_index(ts: Seq<Token>, i: int) -> IdentifierView {
    IdentifierView { name: text_at(ts, i), span: token_span(ts, i) }
}

/// The words of a list in parentheses from index `i` on, `acc` being those
/// already read: nothing, or words separated by commas. The index yielded is
/// that of the closing parenthesis.
pub open spec fn list_from(ts: Seq<Token>, i: int, acc: Seq<IdentifierView>) -> Parsed<
    Seq<IdentifierView>,
>
    decreases remaining(ts, i),
{
    let k = kind_at(ts, i);
    if k == TokenType::RightParen && acc.len() == 0 {
        Parsed::Done(acc, i)
    } else if 0 <= i < ts.len() && is_word(k) {
        let words = acc.push(word_at_index(ts, i));
        let j = step(ts, i);
        if kind_at(ts, j) == TokenType::Comma {
            list_from(ts, step(ts, j), words)
        } else if kind_at(ts, j) == TokenType::RightParen {
            Parsed::Done(words, j)
        } else {
            Parsed::Failed(unexpected(TokenType::RightParen.name(), ts, j))
        }
    } else {
        Parsed::Failed(unexpected("name"@, ts, i))
    }
}

/// The items from index `i` on, `acc` being those already read: as long as a
/// word stands there, the word and the list in parentheses after it.
pub open spec fn items_from(ts: Seq<Token>, i: int, acc: Seq<ItemView>) -> Parsed<Seq<ItemView>>
    decreases remaining(ts, i),
{
    if 0 <= i < ts.len() && is_word(kind_at(ts, i)) {
        let j = step(ts, i);
        if kind_at(ts, j) == TokenType::LeftParen {
            match list_from(ts, step(ts, j), Seq::empty()) {
                Parsed::Done(arguments, close) => {
                    if close > i {
                        items_from(
                            ts,
                            step(ts, close),
                            acc.push(ItemView { name: word_at_index(ts, i), arguments }),
                        )
                    } else {
                        Parsed::Failed(unexpected(TokenType::RightParen.name(), ts, close))
                    }
                },
                Parsed::Failed(e) => Parsed::Failed(e),
            }
        } else {
            items_from(
                ts,
                j,
                acc.push(ItemView { name: word_at_index(ts, i), arguments: Seq::empty() }),
            )
        }
    } else {
        Parsed::Done(acc, i)
    }
}

/// The record that starts at index `i`.
pub open spec fn record_from(ts: Seq<Token>, i: int) -> Parsed<RecordView>
    decreases remaining(ts, i), 0nat,
{
    match items_from(ts, i, Seq::empty()) {
        Parsed::Done(items, k) => {
            if items.len() == 0 || k <= i {
                Parsed::Failed(unexpected("name"@, ts, i))
            } else if kind_at(ts, k) == TokenType::Semicolon {
                Parsed::Done(
                    RecordView { items, children: Seq::empty(), span: between(ts, i, step(ts, k)) },
                    step(ts, k),
                )
            } else if kind_at(ts, k) == TokenType::LeftBrace {
                match records_from(ts, step(ts, k), Seq::empty()) {
                    Parsed::Done(children, e) => {
                        if kind_at(ts, e) != TokenType::RightBrace {
                            Parsed::Failed(unexpected(TokenType::RightBrace.name(), ts, e))
                        } else {
                            let after = step(ts, e);
                            let end = if kind_at(ts, after) == TokenType::Semicolon {
                                step(ts, after)
                            } else {
                                after
                            };
                            Parsed::Done(
                                RecordView { items, children, span: between(ts, i, end) },
                                end,
                            )
                        }
                    },
                    Parsed::Failed(e) => Parsed::Failed(e),
                }
            } else {
                Parsed::Failed(unexpected(TokenType::Semicolon.name(), ts, k))
            }
        },
        Parsed::Failed(e) => Parsed::Failed(e),
    }
}

/// The records from index `i` up to a closing brace or the end of input,
/// `acc` being those already read.
pub open spec fn records_from(ts: Seq<Token>, i: int, acc: Seq<RecordView>) -> Parsed<
    Seq<RecordView>,
>
    decreases remaining(ts, i), 1nat,
{
    let k = kind_at(ts, i);
    if i < 0 || i >= ts.len() || k == TokenType::Eof || k == TokenType::RightBrace {
        Parsed::Done(acc, i)
    } else {
        match record_from(ts, i) {
            Parsed::Done(r, j) => {
                if j > i {
                    records_from(ts, j, acc.push(r))
                } else {
                    Parsed::Failed(unexpected("name"@, ts, i))
                }
            },
            Parsed::Failed(e) => Parsed::Failed(e),
        }
    }
}

/// A source of records from index `i` on: records up to the end of input.
pub open spec fn document_from(ts: Seq<Token>, i: int) -> Parsed<Seq<RecordView>> {
    match records_from(ts, i, Seq::empty()) {
        Parsed::Done(records, e) => {
            if kind_at(ts, e) == TokenType::Eof {
                Parsed::Done(records, e)
            } else {
                Parsed::Failed(unexpected(TokenType::Eof.name(), ts, e))
            }
        },
        Parsed::Failed(e) => Parsed::Failed(e),
    }
}

fn word_kind(k: TokenType) -> (b: bool)
    ensures
        b == is_word(k),
{
    k != TokenType::Semicolon && k != TokenType::Comma && k != TokenType::LeftBrace && k
        != TokenType::RightBrace && k != TokenType::LeftParen && k != TokenType::RightParen && k
        != TokenType::Eof
}

/// Along a rising stream a span between two indexes encloses every span
/// between indexes that lie between them.
pub proof fn lemma_between_encloses(ts: Seq<Token>, a: int, b: int, c: int, d: int)
    requires
        rising(ts),
        0 <= a <= c <= d <= b,
    ensures
        between(ts, c, d).well_formed(),
        between(ts, a, b).encloses(between(ts, c, d)),
{
    lemma_position_of_rises(ts, a, c);
    lemma_position_of_rises(ts, c, d);
    lemma_position_of_rises(ts, d, b);
}

impl Parser {
    /// Reads the word the parser looks at.
    fn parse_word(&mut self) -> (r: Identifier)
        requires
            old(self).wf(),
            old(self).cursor() < old(self).stream().len(),
        ensures
            final(self).wf(),
            final(self).stream() == old(self).stream(),
            final(self).dialect() == old(self).dialect(),
            r@ == word_at_index(old(self).stream(), old(self).cursor()),
            final(self).cursor() == step(old(self).stream(), old(self).cursor()),
            final(self).cursor() > old(self).cursor(),
    {
        let name = self.text();
        let span = Span { start: self.current_position(), end: self.position_after() };
        self.advance();
        Identifier { name, span }
    }

    /// Reads a list in parentheses up to its closing parenthesis.
    #[verifier::loop_isolation(false)]
    fn parse_list(&mut self) -> (r: Result<Vec<Identifier>, ParseError>)
        requires
            old(self).wf(),
        ensures
            final(self).wf(),
            final(self).stream() == old(self).stream(),
            final(self).dialect() == old(self).dialect(),
            match list_from(old(self).stream(), old(self).cursor(), Seq::empty()) {
                Parsed::Done(v, close) => r matches Ok(w) && identifier_views(w@) == v && final(
                    self
                ).cursor() == close && close >= old(self).cursor() && close < old(
                    self
                ).stream().len(),
                Parsed::Failed(x) => r matches Err(e) && e@ == x,
            },
    {
        let ghost ts = self.stream();
        let ghost first = self.cursor();
        let mut out: Vec<Identifier> = Vec::new();
        assert(identifier_views(out@) =~= Seq::<IdentifierView>::empty());
        if self.check(TokenType::RightParen) {
            return Ok(out);
        }
        loop
            invariant
                self.wf(),
                self.stream() == ts,
                self.dialect() == old(self).dialect(),
                first <= self.cursor(),
                !(kind_at(ts, self.cursor()) == TokenType::RightParen && out@.len() == 0),
                list_from(ts, first, Seq::empty()) == list_from(
                    ts,
                    self.cursor(),
                    identifier_views(out@),
                ),
            decreases remaining(ts, self.cursor()),
        {
            if self.index() >= self.token_count() || !word_kind(self.kind()) {
                return Err(self.unexpected_here("name"));
            }
            let ghost seen = out@;
            let w = self.parse_word();
            out.push(w);
            assert(identifier_views(out@) =~= identifier_views(seen).push(w@));
            if self.check(TokenType::Comma) {
                self.advance();
            } else if self.check(TokenType::RightParen) {
                return Ok(out);
            } else {
                return Err(self.unexpected_here(TokenType::RightParen.name_str()));
            }
        }
    }

    /// Reads the items of a record.
    #[verifier::loop_isolation(false)]
    fn parse_items(&mut self) -> (r: Result<Vec<Item>, ParseError>)
        requires
            old(self).wf(),
        ensures
            final(self).wf(),
            final(self).stream() == old(self).stream(),
            final(self).dialect() == old(self).dialect(),
            match items_from(old(self).stream(), old(self).cursor(), Seq::empty()) {
                Parsed::Done(v, j) => r matches Ok(items) && item_views(items@) == v && final(
                    self
                ).cursor() == j && (v.len() > 0 ==> j > old(self).cursor()) && (v.len() == 0
                    ==> j == old(self).cursor()),
                Parsed::Failed(x) => r matches Err(e) && e@ == x,
            },
    {
        let ghost ts = self.stream();
        let ghost first = self.cursor();
        let mut out: Vec<Item> = Vec::new();
        assert(item_views(out@) =~= Seq::<ItemView>::empty());
        while self.index() < self.token_count() && word_kind(self.kind())
            invariant
                self.wf(),
                self.stream() == ts,
                self.dialect() == old(self).dialect(),
                first <= self.cursor(),
                out@.len() > 0 ==> first < self.cursor(),
                out@.len() == 0 ==> first == self.cursor(),
                items_from(ts, first, Seq::empty()) == items_from(
                    ts,
                    self.cursor(),
                    item_views(out@),
                ),
            decreases remaining(ts, self.cursor()),
        {
            let ghost seen = out@;
            let name = self.parse_word();
            let arguments = if self.check(TokenType::LeftParen) {
                self.advance();
                let list = self.parse_list()?;
                self.advance();
                list
            } else {
                let none: Vec<Identifier> = Vec::new();
                assert(identifier_views(none@) =~= Seq::<IdentifierView>::empty());
                none
            };
            let item = Item { name, arguments };
            out.push(item);
            assert(item_views(out@) =~= item_views(seen).push(item@));
        }
        Ok(out)
    }

    /// Reads one record.
    fn parse_record(&mut self) -> (r: Result<Record, ParseError>)
        requires
            old(self).wf(),
        ensures
            final(self).wf(),
            final(self).stream() == old(self).stream(),
            final(self).dialect() == old(self).dialect(),
            match record_from(old(self).stream(), old(self).cursor()) {
                Parsed::Done(v, j) => r matches Ok(rec) && rec@ == v && final(self).cursor() == j
                    && j > old(self).cursor() && rec.span == between(
                    old(self).stream(),
                    old(self).cursor(),
                    j,
                ),
                Parsed::Failed(x) => r matches Err(e) && e@ == x,
            },
            rising(old(self).stream()) ==> (r matches Ok(rec) ==> records_nested(
                rec.span,
                record_views(rec.children@),
            )),
        decreases remaining(old(self).stream(), old(self).cursor()), 0nat,
    {
        let ghost ts = self.stream();
        let first = self.index();
        let start = self.current_position();
        let items = self.parse_items()?;
        if items.len() == 0 {
            return Err(self.unexpected_here("name"));
        }
        if self.check(TokenType::Semicolon) {
            self.advance();
            let end = self.current_position();
            let children: Vec<Record> = Vec::new();
            assert(children@ =~= Seq::<Record>::empty());
            Ok(Record { items, children, span: Span { start, end } })
        } else if self.check(TokenType::LeftBrace) {
            self.advance();
            let ghost inner = self.cursor();
            let mut children: Vec<Record> = Vec::new();
            assert(children@ =~= Seq::<Record>::empty());
            self.parse_records(&mut children, Ghost(first as int))?;
            if !self.check(TokenType::RightBrace) {
                return Err(self.unexpected_here(TokenType::RightBrace.name_str()));
            }
            let ghost close = self.cursor();
            self.advance();
            if self.check(TokenType::Semicolon) {
                self.advance();
            }
            let end = self.current_position();
            proof {
                if rising(ts) {
                    let span = Span { start, end };
                    lemma_between_encloses(ts, first as int, self.cursor(), first as int, close);
                    lemma_records_nested_wider(
                        span,
                        between(ts, first as int, close),
                        record_views(children@),
                    );
                }
            }
            Ok(Record { items, children, span: Span { start, end } })
        } else {
            Err(self.unexpected_here(TokenType::Semicolon.name_str()))
        }
    }

    /// Reads records up to a closing brace or the end of input and adds them
    /// to `out`.
    #[verifier::loop_isolation(false)]
    pub(crate) fn parse_records(&mut self, out: &mut Vec<Record>, Ghost(lo): Ghost<int>) -> (r:
        Result<(), ParseError>)
        requires
            old(self).wf(),
            0 <= lo <= old(self).cursor(),
        ensures
            final(self).wf(),
            final(self).stream() == old(self).stream(),
            final(self).dialect() == old(self).dialect(),
            match records_from(old(self).stream(), old(self).cursor(), record_views(old(out)@)) {
                Parsed::Done(v, j) => r is Ok && record_views(final(out)@) == v && final(self).cursor() == j && j >= old(self).cursor(),
                Parsed::Failed(x) => r matches Err(e) && e@ == x,
            },
            rising(old(self).stream()) && r is Ok && records_nested(
                between(old(self).stream(), lo, final(self).cursor()),
                record_views(old(out)@),
            ) ==> records_nested(
                between(old(self).stream(), lo, final(self).cursor()),
                record_views(final(out)@),
            ),
            r is Ok ==> final(out)@.len() >= old(out)@.len() && final(out)@.take(
                old(out)@.len() as int,
            ) == old(out)@,
        decreases remaining(old(self).stream(), old(self).cursor()), 1nat,
    {
        let ghost ts = self.stream();
        let ghost first = self.cursor();
        let ghost start = record_views(out@);
        let ghost given = out@;
        let entry = self.index();
        assert(out@.take(given.len() as int) =~= given);
        while self.index() < self.token_count() && !self.check(TokenType::Eof) && !self.check(
            TokenType::RightBrace,
        )
            invariant
                self.wf(),
                self.stream() == ts,
                self.dialect() == old(self).dialect(),
                0 <= lo <= first <= self.cursor(),
                records_from(ts, first, start) == records_from(
                    ts,
                    self.cursor(),
                    record_views(out@),
                ),
                out@.len() >= given.len(),
                out@.take(given.len() as int) == given,
                rising(ts) ==> forall|k: int|
                    given.len() <= k < out@.len() ==> record_nested(
                        between(ts, lo, self.cursor()),
                        #[trigger] record_view(out@[k]),
                    ),
            decreases remaining(ts, self.cursor()),
        {
            let ghost seen = out@;
            let ghost here = self.cursor();
            let record = self.parse_record()?;
            proof {
                lemma_record_views_push(seen, record);
                if rising(ts) {
                    let now = between(ts, lo, self.cursor());
                    lemma_between_encloses(ts, lo, self.cursor(), here, self.cursor());
                    assert forall|k: int| given.len() <= k < seen.len() implies record_nested(
                        now,
                        #[trigger] record_view(seen[k]),
                    ) by {
                        let earlier = between(ts, lo, here);
                        assert(record_nested(earlier, record_view(seen[k])));
                        lemma_between_encloses(ts, lo, self.cursor(), lo, here);
                        lemma_encloses_transitive(now, earlier, seen[k].span);
                    }
                    assert(record_nested(now, record_view(record)));
                }
            }
            out.push(record);
            assert(out@.take(given.len() as int) =~= given);
        }
        proof {
            if rising(ts) && records_nested(between(ts, lo, self.cursor()), record_views(given)) {
                lemma_record_views_index(out@);
                lemma_record_views_index(given);
                assert(record_views(out@).take(given.len() as int) =~= record_views(given));
                assert forall|k: int| given.len() <= k < out@.len() implies #[trigger] record_nested(
                    between(ts, lo, self.cursor()),
                    record_views(out@)[k],
                ) by {
                    assert(record_nested(between(ts, lo, self.cursor()), record_view(out@[k])));
                }
                lemma_nested_all(
                    between(ts, lo, self.cursor()),
                    record_views(out@),
                    given.len() as int,
                );
            }
        }
        Ok(())
    }

    /// Reads a source of records.
    pub(crate) fn parse_document(&mut self) -> (r: Result<Vec<Record>, ParseError>)
        requires
            old(self).wf(),
        ensures
            final(self).wf(),
            final(self).stream() == old(self).stream(),
            final(self).dialect() == old(self).dialect(),
            match document_from(old(self).stream(), old(self).cursor()) {
                Parsed::Done(v, j) => r matches Ok(records) && record_views(records@) == v,
                Parsed::Failed(x) => r matches Err(e) && e@ == x,
            },
            rising(old(self).stream()) ==> (r matches Ok(records) ==> records_nested(
                between(old(self).stream(), old(self).cursor(), old(self).stream().len() as int),
                record_views(records@),
            )),
    {
        let ghost ts = self.stream();
        let first = self.index();
        let mut records: Vec<Record> = Vec::new();
        assert(records@ =~= Seq::<Record>::empty());
        self.parse_records(&mut records, Ghost(first as int))?;
        if !self.check(TokenType::Eof) {
            return Err(self.unexpected_here(TokenType::Eof.name_str()));
        }
        let end = self.index();
        proof {
            if rising(ts) {
                lemma_between_encloses(
                    ts,
                    first as int,
                    ts.len() as int,
                    first as int,
                    self.cursor(),
                );
                lemma_records_nested_wider(
                    between(ts, first as int, ts.len() as int),
                    between(ts, first as int, self.cursor()),
                    record_views(records@),
                );
            }
        }
        Ok(records)
    }
}

/// Records are nested where those up to index `n` are nested as a sequence
/// and the others one by one.
pub proof fn lemma_nested_all(outer: Span, rs: Seq<RecordView>, n: int)
    requires
        0 <= n <= rs.len(),
        records_nested(outer, rs.take(n)),
        forall|k: int| n <= k < rs.len() ==> #[trigger] record_nested(outer, rs[k]),
    ensures
        records_nested(outer, rs),
    decreases rs.len() - n,
{
    reveal_with_fuel(records_nested, 2);
    reveal_with_fuel(record_nested, 2);
    if n == rs.len() {
        assert(rs.take(n) =~= rs);
    } else {
        assert(rs.take(n + 1).drop_last() =~= rs.take(n));
        assert(rs.take(n + 1).last() == rs[n]);
        assert(record_nested(outer, rs[n]));
        assert(records_nested(outer, rs.take(n + 1)));
        lemma_nested_all(outer, rs, n + 1);
    }
}

} // verus!
