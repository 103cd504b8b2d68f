//! Reading declarations off records.
//!
//! A declaration is a record of the form
//!
//! ```text
//! keyword name [type [flags...]] ( ';' | '{' property* '}' )
//! ```
//!
//! Its keyword is its first word, its name the second. The third word, with
//! the list in parentheses after it, is its declared type; the words after
//! that, written one after the other, are its flags. Flags that hold two
//! hyphens in a row stand in quotes, as two hyphens begin a comment. A
//! property is a record `key [=] value ;` of its block; the properties of a
//! block are a bag that holds every key once, with the value stated last.

use crate::parser::ast::Identifier;
use crate::parser::parser::{ParseError, ParseErrorView};
use crate::parser::parser::IdentifierView;
use crate::parser::records::{
    identifier_views, lemma_record_views_index, record_views, Item, ItemView, Record, RecordView,
};
use crate::filtering::kept;
use crate::text::{lower, str_eq, str_eq_ignore_case, to_chars};
use vstd::prelude::*;

verus! {

broadcast use vstd::string::group_string_axioms;

/// The record has a word at index `k`, and it reads `word`, capital and
/// small letters taken alike.
pub open spec fn has_word(r: RecordView, k: int, word: Seq<char>) -> bool {
    0 <= k < r.items.len() && lower(r.items[k].name.name) == lower(word)
}

/// The record begins with `word`.
pub open spec fn begins(r: RecordView, word: Seq<char>) -> bool {
    has_word(r, 0, word)
}

/// Executable form of `has_word`.
pub fn word_is(r: &Record, k: usize, word: &str) -> (b: bool)
    ensures
        b == has_word(r@, k as int, word@),
{
    k < r.items.len() && str_eq_ignore_case(r.items[k].name.name.as_str(), word)
}

/// The names of `ids`, separated by commas.
pub open spec fn joined_names(ids: Seq<IdentifierView>) -> Seq<char>
    decreases ids.len(),
{
    if ids.len() == 0 {
        Seq::empty()
    } else if ids.len() == 1 {
        ids[0].name
    } else {
        joined_names(ids.drop_last()) + seq![','] + ids.last().name
    }
}

/// An item as it is written: its word, and its list in parentheses where it
/// has one.
pub open spec fn item_text(it: ItemView) -> Seq<char> {
    if it.arguments.len() == 0 {
        it.name.name
    } else {
        it.name.name + seq!['('] + joined_names(it.arguments) + seq![')']
    }
}

/// Executable form of `item_text`.
pub fn text_of_item(it: &Item) -> (s: String)
    ensures
        s@ == item_text(it@),
{
    let mut out = it.name.name.clone();
    if it.arguments.len() == 0 {
        return out;
    }
    proof {
        reveal_strlit("(");
        reveal_strlit(")");
        reveal_strlit(",");
    }
    let ghost ids = it@.arguments;
    out.append("(");
    out.append(it.arguments[0].name.as_str());
    let mut k: usize = 1;
    assert(ids.take(1).len() == 1);
    while k < it.arguments.len()
        invariant
            1 <= k <= it.arguments.len(),
            ids == it@.arguments,
            ids.len() == it.arguments.len(),
            out@ == it.name.name@ + seq!['('] + joined_names(ids.take(k as int)),
        decreases it.arguments.len() - k,
    {
        out.append(",");
        out.append(it.arguments[k].name.as_str());
        proof {
            reveal_strlit(",");
            let next = ids.take(k + 1);
            assert(next.drop_last() =~= ids.take(k as int));
            assert(next.last() == ids[k as int]);
            assert(next.len() >= 2);
            assert(ids[k as int].name == it.arguments@[k as int].name@);
            assert(joined_names(next) == joined_names(ids.take(k as int)) + seq![','] + ids[k as int].name);
            assert(out@ =~= it.name.name@ + seq!['('] + joined_names(next));
        }
        k += 1;
    }
    assert(ids.take(ids.len() as int) =~= ids);
    out.append(")");
    assert(out@ =~= item_text(it@));
    out
}

/// The items from index `from` on as they are written, one after the other.
pub open spec fn words_from(items: Seq<ItemView>, from: int) -> Seq<char>
    decreases items.len() - from,
{
    if from < 0 || from >= items.len() {
        Seq::empty()
    } else {
        item_text(items[from]) + words_from(items, from + 1)
    }
}

/// Executable form of `words_from`.
pub fn text_from(r: &Record, from: usize) -> (s: String)
    ensures
        s@ == words_from(r@.items, from as int),
{
    let mut out = String::new();
    let mut k: usize = from;
    assert(out@ =~= Seq::<char>::empty());
    while k < r.items.len()
        invariant
            from <= k,
            words_from(r@.items, from as int) == out@ + words_from(r@.items, k as int),
        decreases r.items.len() - k,
    {
        let ghost before = out@;
        let t = text_of_item(&r.items[k]);
        out.append(t.as_str());
        assert(before + (t@ + words_from(r@.items, k + 1)) =~= (before + t@) + words_from(
            r@.items,
            k + 1,
        ));
        k += 1;
    }
    assert(out@ + Seq::<char>::empty() =~= out@);
    out
}

/// The name of a declaration: its second word.
pub open spec fn name_of(r: RecordView) -> IdentifierView {
    r.items[1].name
}

/// The declared type of a declaration: its third word as it is written.
pub open spec fn declared(r: RecordView) -> Option<Seq<char>> {
    if r.items.len() > 2 {
        Some(item_text(r.items[2]))
    } else {
        None
    }
}

/// The flags of a declaration: what is written after its type, without
/// quotes around it.
pub open spec fn flags(r: RecordView) -> Option<Seq<char>> {
    if r.items.len() > 3 {
        Some(unquoted(words_from(r.items, 3)))
    } else {
        None
    }
}

/// The text of an optional string, empty where there is none.
pub open spec fn text_or_empty(o: Option<Seq<char>>) -> Seq<char> {
    match o {
        Some(s) => s,
        None => Seq::empty(),
    }
}

/// The view of an optional string.
pub open spec fn optional_text(o: Option<String>) -> Option<Seq<char>> {
    match o {
        Some(s) => Some(s@),
        None => None,
    }
}

/// The view of an optional identifier.
pub open spec fn optional_identifier(o: Option<Identifier>) -> Option<IdentifierView> {
    match o {
        Some(s) => Some(s@),
        None => None,
    }
}

/// Executable form of `name_of`.
pub fn read_name(r: &Record) -> (id: Identifier)
    requires
        r@.items.len() >= 2,
    ensures
        id@ == name_of(r@),
{
    r.items[1].name.duplicate()
}

/// The word at index `k` as an identifier, where there is one.
pub open spec fn word_at(r: RecordView, k: int) -> Option<IdentifierView> {
    if 0 <= k < r.items.len() {
        Some(r.items[k].name)
    } else {
        None
    }
}

/// Executable form of `word_at`.
pub fn read_word(r: &Record, k: usize) -> (o: Option<Identifier>)
    ensures
        optional_identifier(o) == word_at(r@, k as int),
{
    if k < r.items.len() {
        Some(r.items[k].name.duplicate())
    } else {
        None
    }
}

/// Executable form of `declared`.
pub fn read_declared(r: &Record) -> (o: Option<String>)
    ensures
        optional_text(o) == declared(r@),
{
    if r.items.len() > 2 {
        Some(text_of_item(&r.items[2]))
    } else {
        None
    }
}

/// Executable form of `flags`.
pub fn read_flags(r: &Record) -> (o: Option<String>)
    ensures
        optional_text(o) == flags(r@),
{
    if r.items.len() > 3 {
        Some(unquote(text_from(r, 3)))
    } else {
        None
    }
}

/// The text of an optional string, empty where there is none.
pub fn or_empty(o: Option<String>) -> (s: String)
    ensures
        s@ == text_or_empty(optional_text(o)),
{
    match o {
        Some(s) => s,
        None => String::new(),
    }
}

/// The copies of a list of identifiers.
pub fn read_names(ids: &Vec<Identifier>) -> (v: Vec<Identifier>)
    ensures
        identifier_views(v@) == identifier_views(
            ids@,
        ),
{
    let mut out: Vec<Identifier> = Vec::new();
    let mut k: usize = 0;
    while k < ids.len()
        invariant
            k <= ids.len(),
            out@.len() == k,
            forall|j: int| 0 <= j < k ==> (#[trigger] out@[j])@ == ids@[j]@,
        decreases ids.len() - k,
    {
        out.push(ids[k].duplicate());
        k += 1;
    }
    assert(identifier_views(out@)
        =~= identifier_views(ids@));
    out
}

/// `s` without the quotes around it, where it stands in single quotes.
pub open spec fn unquoted(s: Seq<char>) -> Seq<char> {
    if s.len() >= 2 && s[0] == '\'' && s[s.len() - 1] == '\'' {
        s.subrange(1, s.len() - 1)
    } else {
        s
    }
}

/// Executable form of `unquoted`.
pub fn unquote(s: String) -> (r: String)
    ensures
        r@ == unquoted(s@),
{
    let v = to_chars(s.as_str());
    if v.len() >= 2 && v[0] == '\'' && v[v.len() - 1] == '\'' {
        s.as_str().substring_char(1, v.len() - 1).to_owned()
    } else {
        s
    }
}

/// Where the value of a property starts: after the key, and after an equals
/// sign or a colon that follows the key.
pub open spec fn value_start(r: RecordView) -> int {
    if has_word(r, 1, "="@) || has_word(r, 1, ":"@) {
        2
    } else {
        1
    }
}

/// The property that a record states: its first word as the key, the rest
/// as the value, without quotes around it.
pub open spec fn property_of(r: RecordView) -> (Seq<char>, Seq<char>) {
    if r.items.len() == 0 {
        (Seq::empty(), Seq::empty())
    } else {
        (r.items[0].name.name, unquoted(words_from(r.items, value_start(r))))
    }
}

/// The index of the first property from index `from` on whose key is `key`.
pub open spec fn key_at(ps: Seq<(Seq<char>, Seq<char>)>, key: Seq<char>, from: int) -> Option<int>
    decreases ps.len() - from,
{
    if from < 0 || from >= ps.len() {
        None
    } else if ps[from].0 == key {
        Some(from)
    } else {
        key_at(ps, key, from + 1)
    }
}

/// The properties with `p` among them: in place of the property of the same
/// key where there is one, and at the end where there is none.
pub open spec fn with_property(ps: Seq<(Seq<char>, Seq<char>)>, p: (Seq<char>, Seq<char>)) -> Seq<
    (Seq<char>, Seq<char>),
> {
    match key_at(ps, p.0, 0) {
        Some(k) => ps.update(k, p),
        None => ps.push(p),
    }
}

/// The properties that the records state, in the order in which their keys
/// come first. Where a key is stated more than once, the last statement
/// counts.
pub open spec fn bag(rs: Seq<RecordView>) -> Seq<(Seq<char>, Seq<char>)>
    decreases rs.len(),
{
    if rs.len() == 0 {
        Seq::empty()
    } else {
        with_property(bag(rs.drop_last()), property_of(rs.last()))
    }
}

/// No two properties have the same key.
pub open spec fn keys_distinct(ps: Seq<(Seq<char>, Seq<char>)>) -> bool {
    forall|i: int, j: int| 0 <= i < j < ps.len() ==> (#[trigger] ps[i]).0 != (#[trigger] ps[j]).0
}

/// What `key_at` finds is a property of that key; where it finds none, no
/// property from `from` on has the key.
pub proof fn lemma_key_at(ps: Seq<(Seq<char>, Seq<char>)>, key: Seq<char>, from: int)
    requires
        0 <= from,
    ensures
        match key_at(ps, key, from) {
            Some(k) => from <= k < ps.len() && ps[k].0 == key,
            None => forall|j: int| from <= j < ps.len() ==> (#[trigger] ps[j]).0 != key,
        },
    decreases ps.len() - from,
{
    if from < ps.len() && ps[from].0 != key {
        lemma_key_at(ps, key, from + 1);
    }
}

/// A bag holds every key once.
pub proof fn lemma_bag_keys_distinct(rs: Seq<RecordView>)
    ensures
        keys_distinct(bag(rs)),
        bag(rs).len() <= rs.len(),
    decreases rs.len(),
{
    if rs.len() > 0 {
        lemma_bag_keys_distinct(rs.drop_last());
        let before = bag(rs.drop_last());
        let p = property_of(rs.last());
        lemma_key_at(before, p.0, 0);
        let after = bag(rs);
        assert forall|i: int, j: int| 0 <= i < j < after.len() implies (#[trigger] after[i]).0 != (
        #[trigger] after[j]).0 by {
            if j < before.len() {
                assert(after[i].0 == before[i].0 && after[j].0 == before[j].0);
            } else {
                assert(after[i] == before[i]);
            }
        }
    }
}

/// A list of pairs of strings, read as characters.
pub open spec fn pairs_view(v: Seq<(String, String)>) -> Seq<(Seq<char>, Seq<char>)> {
    Seq::new(v.len(), |k: int| (v[k].0@, v[k].1@))
}

/// Executable form of `property_of`.
pub fn read_property(r: &Record) -> (p: (String, String))
    ensures
        (p.0@, p.1@) == property_of(r@),
{
    if r.items.len() == 0 {
        let p = (String::new(), String::new());
        assert(p.0@ =~= Seq::<char>::empty() && p.1@ =~= Seq::<char>::empty());
        p
    } else {
        let start: usize = if word_is(r, 1, "=") || word_is(r, 1, ":") {
            2
        } else {
            1
        };
        (r.items[0].name.name.clone(), unquote(text_from(r, start)))
    }
}

/// Executable form of `bag`.
#[verifier::loop_isolation(false)]
pub fn read_bag(rs: &Vec<Record>) -> (v: Vec<(String, String)>)
    ensures
        pairs_view(v@) == bag(record_views(rs@)),
        keys_distinct(pairs_view(v@)),
{
    let ghost all = record_views(rs@);
    let mut out: Vec<(String, String)> = Vec::new();
    let mut k: usize = 0;
    proof {
        lemma_record_views_index(rs@);
        lemma_bag_keys_distinct(all);
        assert(all.take(0) =~= Seq::<RecordView>::empty());
        assert(pairs_view(out@) =~= bag(all.take(0)));
    }
    while k < rs.len()
        invariant
            k <= rs.len(),
            pairs_view(out@) == bag(all.take(k as int)),
        decreases rs.len() - k,
    {
        let p = read_property(&rs[k]);
        let ghost before = pairs_view(out@);
        proof {
            assert(all.take(k + 1).drop_last() =~= all.take(k as int));
            assert(all.take(k + 1).last() == rs@[k as int]@);
        }
        let mut i: usize = 0;
        let mut found = false;
        while i < out.len() && !found
            invariant
                i <= out.len(),
                pairs_view(out@) == before,
                !found ==> key_at(before, p.0@, 0) == key_at(before, p.0@, i as int),
                found ==> i < out.len() && key_at(before, p.0@, 0) == Some(i as int),
            decreases out.len() - i + if found { 0int } else { 1int },
        {
            assert(before[i as int].0 == out@[i as int].0@);
            if str_eq(out[i].0.as_str(), p.0.as_str()) {
                found = true;
            } else {
                i += 1;
            }
        }
        if found {
            out.set(i, p);
            assert(pairs_view(out@) =~= before.update(i as int, (p.0@, p.1@)));
        } else {
            out.push(p);
            assert(pairs_view(out@) =~= before.push((p.0@, p.1@)));
        }
        k += 1;
    }
    assert(all.take(all.len() as int) =~= all);
    out
}

/// The value of the first property of `ps` from index `from` on whose key
/// reads `key`, capital and small letters taken alike.
pub open spec fn looked_up(ps: Seq<(Seq<char>, Seq<char>)>, key: Seq<char>, from: int) -> Option<
    Seq<char>,
>
    decreases ps.len() - from,
{
    if from < 0 || from >= ps.len() {
        None
    } else if lower(ps[from].0) == lower(key) {
        Some(ps[from].1)
    } else {
        looked_up(ps, key, from + 1)
    }
}

/// Executable form of `looked_up`, from the first property on.
pub fn look_up(ps: &Vec<(String, String)>, key: &str) -> (o: Option<String>)
    ensures
        optional_text(o) == looked_up(pairs_view(ps@), key@, 0),
{
    let mut k: usize = 0;
    while k < ps.len()
        invariant
            k <= ps.len(),
            looked_up(pairs_view(ps@), key@, 0) == looked_up(pairs_view(ps@), key@, k as int),
        decreases ps.len() - k,
    {
        if str_eq_ignore_case(ps[k].0.as_str(), key) {
            return Some(ps[k].1.clone());
        }
        k += 1;
    }
    None
}

/// The index of the first record from index `from` on that begins with
/// `word`.
pub open spec fn first_with(rs: Seq<RecordView>, word: Seq<char>, from: int) -> Option<int>
    decreases rs.len() - from,
{
    if from < 0 || from >= rs.len() {
        None
    } else if begins(rs[from], word) {
        Some(from)
    } else {
        first_with(rs, word, from + 1)
    }
}

/// What `first_with` finds is a record of the sequence that begins with the
/// word.
pub proof fn lemma_first_with(rs: Seq<RecordView>, word: Seq<char>, from: int)
    requires
        0 <= from,
    ensures
        first_with(rs, word, from) matches Some(k) ==> from <= k < rs.len() && begins(rs[k], word),
    decreases rs.len() - from,
{
    if from < rs.len() && !begins(rs[from], word) {
        lemma_first_with(rs, word, from + 1);
    }
}

/// The index of the first record that begins with `word`.
#[verifier::loop_isolation(false)]
pub fn find_first(rs: &Vec<Record>, word: &str) -> (o: Option<usize>)
    ensures
        match first_with(record_views(rs@), word@, 0) {
            Some(k) => o matches Some(j) && j == k && 0 <= k < rs@.len() && begins(
                rs@[k]@,
                word@,
            ),
            None => o is None,
        },
{
    let mut k: usize = 0;
    proof {
        lemma_record_views_index(rs@);
    }
    while k < rs.len()
        invariant
            k <= rs.len(),
            first_with(record_views(rs@), word@, 0) == first_with(
                record_views(rs@),
                word@,
                k as int,
            ),
        decreases rs.len() - k,
    {
        if word_is(&rs[k], 0, word) {
            return Some(k);
        }
        k += 1;
    }
    None
}

/// The error for a declaration that lacks a word.
pub open spec fn lacking(what: Seq<char>) -> ParseErrorView {
    ParseErrorView::InvalidSyntax { message: what }
}

/// Executable form of `lacking`.
pub fn lacks(what: &str) -> (e: ParseError)
    ensures
        e@ == lacking(what@),
{
    ParseError::InvalidSyntax { message: what.to_owned() }
}

/// A kind of declaration that is read off a record.
pub trait Declared: Sized {
    /// The record states a declaration of this kind.
    spec fn takes(r: RecordView) -> bool;

    /// What the record lacks to state one, if anything.
    spec fn fault(r: RecordView) -> Option<ParseErrorView>;

    /// `d` is the declaration that the record states.
    spec fn reads(r: RecordView, d: Self) -> bool;

    /// Whether the record states a declaration of this kind.
    fn accepts(r: &Record) -> (b: bool)
        ensures
            b == Self::takes(r@),
    ;

    /// The declaration that the record states.
    fn read(r: &Record) -> (res: Result<Self, ParseError>)
        ensures
            match Self::fault(r@) {
                Some(e) => res matches Err(x) && x@ == e,
                None => res matches Ok(d) && Self::reads(r@, d),
            },
    ;
}

/// The records of `rs` that state a declaration of the kind `D`.
pub open spec fn taken<D: Declared>(rs: Seq<RecordView>) -> Seq<RecordView> {
    kept(rs, |r: RecordView| D::takes(r))
}

/// The fault of the first record from index `from` on that states a
/// declaration of the kind `D` and lacks something.
pub open spec fn first_fault<D: Declared>(rs: Seq<RecordView>, from: int) -> Option<ParseErrorView>
    decreases rs.len() - from,
{
    if from < 0 || from >= rs.len() {
        None
    } else if D::takes(rs[from]) && D::fault(rs[from]) is Some {
        D::fault(rs[from])
    } else {
        first_fault::<D>(rs, from + 1)
    }
}

/// `ds` are the declarations of the kind `D` that the records state, in the
/// order of the records.
pub open spec fn all_read<D: Declared>(rs: Seq<RecordView>, ds: Seq<D>) -> bool {
    ds.len() == taken::<D>(rs).len() && forall|k: int|
        0 <= k < ds.len() ==> D::reads(taken::<D>(rs)[k], #[trigger] ds[k])
}

/// The declarations of the kind `D` that the records state, or the fault of
/// the first of them that lacks something.
#[verifier::loop_isolation(false)]
pub fn read_all<D: Declared>(rs: &Vec<Record>) -> (res: Result<Vec<D>, ParseError>)
    ensures
        match first_fault::<D>(record_views(rs@), 0) {
            Some(e) => res matches Err(x) && x@ == e,
            None => res matches Ok(ds) && all_read::<D>(record_views(rs@), ds@),
        },
{
    let ghost all = record_views(rs@);
    let mut out: Vec<D> = Vec::new();
    let mut k: usize = 0;
    proof {
        lemma_record_views_index(rs@);
        assert(all.take(0) =~= Seq::<RecordView>::empty());
    }
    while k < rs.len()
        invariant
            k <= rs.len(),
            first_fault::<D>(all, 0) == first_fault::<D>(all, k as int),
            all_read::<D>(all.take(k as int), out@),
        decreases rs.len() - k,
    {
        let ghost before = out@;
        proof {
            assert(all.take(k + 1).drop_last() =~= all.take(k as int));
            assert(all.take(k + 1).last() == rs@[k as int]@);
        }
        if D::accepts(&rs[k]) {
            let d = D::read(&rs[k])?;
            out.push(d);
            proof {
                let now = taken::<D>(all.take(k + 1));
                assert forall|j: int| 0 <= j < out@.len() implies D::reads(
                    now[j],
                    #[trigger] out@[j],
                ) by {
                    if j < before.len() {
                        assert(out@[j] == before[j]);
                    }
                }
            }
        }
        k += 1;
    }
    assert(all.take(all.len() as int) =~= all);
    Ok(out)
}

/// The words that records of a dialect begin with.
pub trait Vocabulary {
    /// The record begins with a word of the dialect.
    spec fn knows(r: RecordView) -> bool;

    /// Whether the record begins with a word of the dialect.
    fn known(r: &Record) -> (b: bool)
        ensures
            b == Self::knows(r@),
    ;
}

/// The index of the first record from index `from` on that begins with no
/// word of the dialect.
pub open spec fn first_unknown<V: Vocabulary>(rs: Seq<RecordView>, from: int) -> Option<int>
    decreases rs.len() - from,
{
    if from < 0 || from >= rs.len() {
        None
    } else if !V::knows(rs[from]) {
        Some(from)
    } else {
        first_unknown::<V>(rs, from + 1)
    }
}

/// The first word of a record as it is written, empty for a record without
/// items.
pub open spec fn first_word(r: RecordView) -> Seq<char> {
    if r.items.len() == 0 {
        Seq::empty()
    } else {
        r.items[0].name.name
    }
}

/// The error for a record that begins with no word of the dialect.
pub open spec fn unknown_record(r: RecordView) -> ParseErrorView {
    ParseErrorView::UnexpectedToken { expected: "declaration"@, found: first_word(r) }
}

/// The error for the first record that begins with no word of the dialect,
/// if there is one.
pub open spec fn unknown<V: Vocabulary>(rs: Seq<RecordView>) -> Option<ParseErrorView> {
    match first_unknown::<V>(rs, 0) {
        Some(k) => Some(unknown_record(rs[k])),
        None => None,
    }
}

/// Checks that every record begins with a word of the dialect.
#[verifier::loop_isolation(false)]
pub fn check_known<V: Vocabulary>(rs: &Vec<Record>) -> (res: Result<(), ParseError>)
    ensures
        match unknown::<V>(record_views(rs@)) {
            Some(e) => res matches Err(x) && x@ == e,
            None => res is Ok,
        },
{
    let ghost all = record_views(rs@);
    let mut k: usize = 0;
    proof {
        lemma_record_views_index(rs@);
    }
    while k < rs.len()
        invariant
            k <= rs.len(),
            first_unknown::<V>(all, 0) == first_unknown::<V>(all, k as int),
        decreases rs.len() - k,
    {
        if !V::known(&rs[k]) {
            let found = if rs[k].items.len() == 0 {
                String::new()
            } else {
                rs[k].items[0].name.name.clone()
            };
            assert(found@ =~= first_word(all[k as int]));
            return Err(
                ParseError::UnexpectedToken { expected: "declaration".to_owned(), found },
            );
        }
        k += 1;
    }
    Ok(())
}

/// The name that the first record beginning with `word` declares, if there
/// is such a record and it has a name.
pub open spec fn header(rs: Seq<RecordView>, word: Seq<char>) -> Option<IdentifierView> {
    match first_with(rs, word, 0) {
        Some(k) => word_at(rs[k], 1),
        None => None,
    }
}

/// Executable form of `header`.
pub fn read_header(rs: &Vec<Record>, word: &str) -> (o: Option<Identifier>)
    ensures
        optional_identifier(o) == header(record_views(rs@), word@),
{
    proof {
        lemma_record_views_index(rs@);
    }
    match find_first(rs, word) {
        Some(k) => read_word(&rs[k], 1),
        None => None,
    }
}

/// What the first record beginning with `word` says after that word, empty
/// where there is no such record.
pub open spec fn said(rs: Seq<RecordView>, word: Seq<char>) -> Option<Seq<char>> {
    match first_with(rs, word, 0) {
        Some(k) => Some(unquoted(words_from(rs[k].items, 1))),
        None => None,
    }
}

/// Executable form of `said`.
pub fn read_said(rs: &Vec<Record>, word: &str) -> (o: Option<String>)
    ensures
        optional_text(o) == said(record_views(rs@), word@),
{
    proof {
        lemma_record_views_index(rs@);
    }
    match find_first(rs, word) {
        Some(k) => Some(unquote(text_from(&rs[k], 1))),
        None => None,
    }
}

/// The records in the block of the first record that begins with `word`;
/// none where there is no such record.
pub open spec fn section(rs: Seq<RecordView>, word: Seq<char>) -> Seq<RecordView> {
    match first_with(rs, word, 0) {
        Some(k) => rs[k].children,
        None => Seq::empty(),
    }
}

/// The declarations of the kind `D` in the block of the first record that
/// begins with `word`, or the fault of the first of them that lacks
/// something.
pub fn read_section<D: Declared>(rs: &Vec<Record>, word: &str) -> (res: Result<Vec<D>, ParseError>)
    ensures
        match first_fault::<D>(section(record_views(rs@), word@), 0) {
            Some(e) => res matches Err(x) && x@ == e,
            None => res matches Ok(ds) && all_read::<D>(section(record_views(rs@), word@), ds@),
        },
{
    proof {
        lemma_record_views_index(rs@);
    }
    match find_first(rs, word) {
        Some(k) => read_all::<D>(&rs[k].children),
        None => {
            let none: Vec<D> = Vec::new();
            Ok(none)
        },
    }
}

/// One of the words of the record from index `from` on reads `word`.
pub open spec fn mentions(r: RecordView, from: int, word: Seq<char>) -> bool
    decreases r.items.len() - from,
{
    if from < 0 || from >= r.items.len() {
        false
    } else {
        has_word(r, from, word) || mentions(r, from + 1, word)
    }
}

/// Executable form of `mentions`.
pub fn is_mentioned(r: &Record, from: usize, word: &str) -> (b: bool)
    ensures
        b == mentions(r@, from as int, word@),
{
    let mut k: usize = from;
    while k < r.items.len()
        invariant
            from <= k,
            mentions(r@, from as int, word@) == mentions(r@, k as int, word@),
        decreases r.items.len() - k,
    {
        if word_is(r, k, word) {
            return true;
        }
        k += 1;
    }
    false
}

/// What is written after the first word from index `from` on that reads
/// `word`: the next item, without quotes around it.
pub open spec fn following(r: RecordView, from: int, word: Seq<char>) -> Option<Seq<char>>
    decreases r.items.len() - from,
{
    if from < 0 || from + 1 >= r.items.len() {
        None
    } else if has_word(r, from, word) {
        Some(unquoted(item_text(r.items[from + 1])))
    } else {
        following(r, from + 1, word)
    }
}

/// Executable form of `following`.
pub fn read_following(r: &Record, from: usize, word: &str) -> (o: Option<String>)
    ensures
        optional_text(o) == following(r@, from as int, word@),
{
    let mut k: usize = from;
    while k < r.items.len() && k + 1 < r.items.len()
        invariant
            from <= k,
            following(r@, from as int, word@) == following(r@, k as int, word@),
        decreases r.items.len() - k,
    {
        if word_is(r, k, word) {
            return Some(unquote(text_of_item(&r.items[k + 1])));
        }
        k += 1;
    }
    None
}

} // verus!
