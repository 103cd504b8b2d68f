//! Incremental parsing: a cache of parsed fragments that is pruned when the
//! text is edited.
//!
//! A fragment is cached under the byte range it was parsed from, with a
//! checksum of that text and the ranges of other text it depends on. An edit
//! makes stale every fragment whose range overlaps the edit, and every
//! fragment that depends on a range overlapping a stale fragment, and so on:
//! staleness spreads along dependencies until nothing more is reached. Stale
//! fragments leave the cache.
//!
//! A source holds one top-level construct, so any edit touches it: parsing
//! after an edit parses the text anew, and parsing an unedited text hands out
//! a copy of the tree parsed last.

use crate::parser::ast::{AstNode, PlSqlNode};
use crate::parser::lexer::{byte_offset, Token};
use crate::parser::parser::{parse_source, parses_to_from_source, ParseError};
use crate::parser::Language;
use crate::static_analysis::diagnostics::chosen;
use crate::text::{str_eq, to_chars};
use std::ops::Range;
use vstd::prelude::*;

verus! {

/// A parsed fragment with the range of text it came from.
#[derive(Debug)]
pub struct CachedNode {
    pub node: AstNode,
    pub text_range: Range<usize>,
    /// The checksum of the text the fragment was parsed from.
    pub checksum: u64,
    /// Ranges of other text that the fragment depends on.
    pub dependencies: Vec<Range<usize>>,
}

/// An edit: the range of the old text that was replaced, and what replaced
/// it.
#[derive(Debug)]
pub struct TextChange {
    pub range: Range<usize>,
    pub new_text: String,
}

impl Clone for CachedNode {
    fn clone(&self) -> (r: CachedNode)
        ensures
            r.text_range == self.text_range,
            r.checksum == self.checksum,
            r.dependencies@ == self.dependencies@,
    {
        let mut dependencies: Vec<Range<usize>> = Vec::new();
        let mut i: usize = 0;
        while i < self.dependencies.len()
            invariant
                i <= self.dependencies.len(),
                dependencies@ == self.dependencies@.take(i as int),
            decreases self.dependencies.len() - i,
        {
            let d = &self.dependencies[i];
            dependencies.push(Range { start: d.start, end: d.end });
            assert(dependencies@ =~= self.dependencies@.take(i + 1));
            i += 1;
        }
        assert(self.dependencies@.take(self.dependencies@.len() as int) =~= self.dependencies@);
        CachedNode {
            node: self.node.clone(),
            text_range: Range { start: self.text_range.start, end: self.text_range.end },
            checksum: self.checksum,
            dependencies,
        }
    }
}

impl Clone for TextChange {
    fn clone(&self) -> (r: TextChange)
        ensures
            r.range == self.range,
            r.new_text@ == self.new_text@,
    {
        TextChange {
            range: Range { start: self.range.start, end: self.range.end },
            new_text: self.new_text.clone(),
        }
    }
}

/// Two ranges overlap: each starts before the other ends. An empty range,
/// the place of an insertion, overlaps the ranges it lies strictly inside.
pub open spec fn overlap(a: Range<usize>, b: Range<usize>) -> bool {
    a.start < b.end && b.start < a.end
}

/// The fragment at index `i` is reached by the edit within `rounds` steps
/// along dependencies: its range overlaps the edit, or it depends on a range
/// that overlaps a fragment reached in fewer steps.
pub open spec fn reached(cache: Seq<CachedNode>, edit: Range<usize>, rounds: nat, i: int) -> bool
    decreases rounds, 0nat,
{
    overlap(cache[i].text_range, edit) || (rounds > 0 && (reached(
        cache,
        edit,
        (rounds - 1) as nat,
        i,
    ) || leans_on_reached(cache, edit, (rounds - 1) as nat, i)))
}

/// The fragment at index `i` depends on a range that overlaps a fragment
/// reached within `rounds` steps.
pub open spec fn leans_on_reached(
    cache: Seq<CachedNode>,
    edit: Range<usize>,
    rounds: nat,
    i: int,
) -> bool
    decreases rounds, 1nat,
{
    exists|j: int, d: int|
        0 <= j < cache.len() && 0 <= d < cache[i].dependencies@.len() && #[trigger] leans(
            cache,
            i,
            d,
            j,
        ) && reached(cache, edit, rounds, j)
}

/// The `d`-th dependency of fragment `i` overlaps the range of fragment `j`.
pub open spec fn leans(cache: Seq<CachedNode>, i: int, d: int, j: int) -> bool {
    overlap(cache[i].dependencies@[d], cache[j].text_range)
}

/// The fragment at index `i` is stale after the edit: the edit reaches it
/// in some number of steps.
pub open spec fn stale(cache: Seq<CachedNode>, edit: Range<usize>, i: int) -> bool {
    exists|n: nat| reached(cache, edit, n, i)
}

/// For every fragment, whether it stays after the edit.
pub open spec fn staying(cache: Seq<CachedNode>, edit: Range<usize>) -> Seq<bool> {
    Seq::new(cache.len(), |i: int| !stale(cache, edit, i))
}

/// The cache after the edit: the fragments that are not stale, in their
/// order.
pub open spec fn pruned(cache: Seq<CachedNode>, edit: Range<usize>) -> Seq<CachedNode> {
    chosen(cache, staying(cache, edit))
}

/// The cache after a sequence of edits, made one after the other.
pub open spec fn pruned_by_all(cache: Seq<CachedNode>, changes: Seq<TextChange>) -> Seq<CachedNode>
    decreases changes.len(),
{
    if changes.len() == 0 {
        cache
    } else {
        pruned(pruned_by_all(cache, changes.drop_last()), changes.last().range)
    }
}

/// No two fragments of the cache were parsed from the same range.
pub open spec fn ranges_distinct(cache: Seq<CachedNode>) -> bool {
    forall|i: int, j: int|
        0 <= i < j < cache.len() ==> (#[trigger] cache[i]).text_range != (
        #[trigger] cache[j]).text_range
}

/// The index of the first fragment from index `from` on that was parsed
/// from `range`.
pub open spec fn fragment_at(cache: Seq<CachedNode>, range: Range<usize>, from: int) -> Option<int>
    decreases cache.len() - from,
{
    if from < 0 || from >= cache.len() {
        None
    } else if cache[from].text_range == range {
        Some(from)
    } else {
        fragment_at(cache, range, from + 1)
    }
}

/// The cache with the fragment `f` in it: in place of the fragment of the
/// same range where there is one, and at the end where there is none.
pub open spec fn with_fragment(cache: Seq<CachedNode>, f: CachedNode) -> Seq<CachedNode> {
    match fragment_at(cache, f.text_range, 0) {
        Some(k) => cache.update(k, f),
        None => cache.push(f),
    }
}

/// What `fragment_at` finds is a fragment of that range; where it finds
/// none, no fragment from `from` on has the range.
pub proof fn lemma_fragment_at(cache: Seq<CachedNode>, range: Range<usize>, from: int)
    requires
        0 <= from,
    ensures
        match fragment_at(cache, range, from) {
            Some(k) => from <= k < cache.len() && cache[k].text_range == range,
            None => forall|j: int|
                from <= j < cache.len() ==> (#[trigger] cache[j]).text_range != range,
        },
    decreases cache.len() - from,
{
    if from < cache.len() && cache[from].text_range != range {
        lemma_fragment_at(cache, range, from + 1);
    }
}

/// Caching a fragment keeps the ranges of the cache distinct.
pub proof fn lemma_with_fragment_distinct(cache: Seq<CachedNode>, f: CachedNode)
    requires
        ranges_distinct(cache),
    ensures
        ranges_distinct(with_fragment(cache, f)),
{
    lemma_fragment_at(cache, f.text_range, 0);
    let after = with_fragment(cache, f);
    assert forall|i: int, j: int| 0 <= i < j < after.len() implies (#[trigger] after[i]).text_range
        != (#[trigger] after[j]).text_range by {
        if j < cache.len() {
            assert(after[i].text_range == cache[i].text_range);
            assert(after[j].text_range == cache[j].text_range);
        } else {
            assert(after[i] == cache[i]);
        }
    }
}

/// The cache holds a fragment that was parsed from `range`.
pub open spec fn holds_range(cache: Seq<CachedNode>, range: Range<usize>) -> bool {
    exists|i: int| 0 <= i < cache.len() && (#[trigger] cache[i]).text_range == range
}

/// What is chosen of a cache with distinct ranges has distinct ranges, and
/// every fragment chosen is a fragment of the cache.
pub proof fn lemma_chosen_distinct(cache: Seq<CachedNode>, choices: Seq<bool>)
    requires
        ranges_distinct(cache),
    ensures
        ranges_distinct(chosen(cache, choices)),
        forall|a: int|
            0 <= a < chosen(cache, choices).len() ==> holds_range(
                cache,
                (#[trigger] chosen(cache, choices)[a]).text_range,
            ),
    decreases cache.len(),
{
    if cache.len() > 0 && choices.len() == cache.len() {
        let front = cache.drop_last();
        let rest = chosen(front, choices.drop_last());
        let all = chosen(cache, choices);
        assert forall|i: int, j: int| 0 <= i < j < front.len() implies (
        #[trigger] front[i]).text_range != (#[trigger] front[j]).text_range by {
            assert(front[i] == cache[i] && front[j] == cache[j]);
        }
        lemma_chosen_distinct(front, choices.drop_last());
        assert forall|a: int| 0 <= a < rest.len() implies holds_range(
            cache,
            (#[trigger] rest[a]).text_range,
        ) by {
            assert(holds_range(front, rest[a].text_range));
            let i = choose|i: int|
                0 <= i < front.len() && (#[trigger] front[i]).text_range == rest[a].text_range;
            assert(cache[i].text_range == rest[a].text_range);
        }
        if choices.last() {
            assert(all =~= rest.push(cache.last()));
            assert(cache[cache.len() - 1].text_range == cache.last().text_range);
            assert forall|a: int| 0 <= a < all.len() implies holds_range(
                cache,
                (#[trigger] all[a]).text_range,
            ) by {
                if a < rest.len() {
                    assert(all[a] == rest[a]);
                }
            }
            assert forall|a: int, b: int| 0 <= a < b < all.len() implies (
            #[trigger] all[a]).text_range != (#[trigger] all[b]).text_range by {
                assert(all[a] == rest[a]);
                if b < rest.len() {
                    assert(all[b] == rest[b]);
                } else {
                    assert(holds_range(front, rest[a].text_range));
                    let i = choose|i: int|
                        0 <= i < front.len() && (#[trigger] front[i]).text_range
                            == rest[a].text_range;
                    assert(cache[i].text_range != cache[cache.len() - 1].text_range);
                }
            }
        } else {
            assert(all =~= rest);
        }
    }
}

/// Pruning keeps the ranges of the cache distinct.
pub proof fn lemma_pruned_distinct(cache: Seq<CachedNode>, edit: Range<usize>)
    requires
        ranges_distinct(cache),
    ensures
        ranges_distinct(pruned(cache, edit)),
{
    lemma_chosen_distinct(cache, staying(cache, edit));
}

/// Pruning by a sequence of edits keeps the ranges of the cache distinct.
pub proof fn lemma_pruned_by_all_distinct(cache: Seq<CachedNode>, changes: Seq<TextChange>)
    requires
        ranges_distinct(cache),
    ensures
        ranges_distinct(pruned_by_all(cache, changes)),
    decreases changes.len(),
{
    if changes.len() > 0 {
        lemma_pruned_by_all_distinct(cache, changes.drop_last());
        lemma_pruned_distinct(pruned_by_all(cache, changes.drop_last()), changes.last().range);
    }
}

/// The fragment is what parsing the whole text `source` anew caches: it
/// spans the bytes of the text, carries the checksum of the text, depends on
/// nothing, and holds the tree `tree`.
pub open spec fn whole_fragment(f: CachedNode, source: Seq<char>, tree: AstNode) -> bool {
    &&& f.text_range.start == 0
    &&& f.text_range.end == byte_offset(source, source.len() as int)
    &&& f.checksum == checksum(source)
    &&& f.dependencies@.len() == 0
    &&& f.node matches AstNode::PlSql(a) && tree matches AstNode::PlSql(b) && a@ == b@
}

/// The number of bytes that `text` takes in UTF-8.
pub fn byte_length(text: &str) -> (n: usize)
    requires
        4 * text@.len() < usize::MAX,
    ensures
        n == byte_offset(text@, text@.len() as int),
{
    let v = to_chars(text);
    let mut n: usize = 0;
    let mut i: usize = 0;
    while i < v.len()
        invariant
            i <= v.len(),
            v@ == text@,
            4 * v@.len() < usize::MAX,
            n == byte_offset(v@, i as int),
            n <= 4 * i,
        decreases v.len() - i,
    {
        let c = v[i];
        let w: usize = if (c as u32) < 0x80 {
            1
        } else if (c as u32) < 0x800 {
            2
        } else if (c as u32) < 0x10000 {
            3
        } else {
            4
        };
        n = n + w;
        i += 1;
    }
    n
}

/// The ranges of a sequence of edits.
pub open spec fn ranges_of(changes: Seq<TextChange>) -> Seq<Range<usize>> {
    Seq::new(changes.len(), |k: int| changes[k].range)
}

/// The checksum of a text: from 0, each character in turn multiplies the
/// sum by 31 and adds its code point, in arithmetic modulo 2^64.
pub open spec fn checksum(s: Seq<char>) -> u64
    decreases s.len(),
{
    if s.len() == 0 {
        0
    } else {
        checksum(s.drop_last()).wrapping_mul(31).wrapping_add(s.last() as u64)
    }
}

/// The checksum of `text`.
pub fn checksum_of(text: &str) -> (r: u64)
    ensures
        r == checksum(text@),
{
    let v = to_chars(text);
    let mut h: u64 = 0;
    let mut i: usize = 0;
    assert(v@.take(0) =~= Seq::<char>::empty());
    while i < v.len()
        invariant
            i <= v.len(),
            h == checksum(v@.take(i as int)),
        decreases v.len() - i,
    {
        assert(v@.take(i + 1).drop_last() =~= v@.take(i as int));
        h = h.wrapping_mul(31).wrapping_add(v[i] as u64);
        i += 1;
    }
    assert(v@.take(v@.len() as int) =~= v@);
    h
}

/// Whether two ranges overlap.
pub fn ranges_overlap(range1: &Range<usize>, range2: &Range<usize>) -> (b: bool)
    ensures
        b == overlap(*range1, *range2),
{
    range1.start < range2.end && range2.start < range1.end
}

/// What is reached within some steps is reached within more.
pub proof fn lemma_reached_grows(
    cache: Seq<CachedNode>,
    edit: Range<usize>,
    few: nat,
    many: nat,
    i: int,
)
    requires
        few <= many,
        reached(cache, edit, few, i),
    ensures
        reached(cache, edit, many, i),
    decreases many,
{
    if few < many {
        lemma_reached_grows(cache, edit, few, (many - 1) as nat, i);
    }
}

/// Where one more step reaches nothing new, no number of steps does.
pub proof fn lemma_reached_settles(
    cache: Seq<CachedNode>,
    edit: Range<usize>,
    settled: nat,
    n: nat,
    i: int,
)
    requires
        0 <= i < cache.len(),
        forall|k: int|
            0 <= k < cache.len() ==> (#[trigger] reached(cache, edit, settled + 1, k) ==> reached(
                cache,
                edit,
                settled,
                k,
            )),
        reached(cache, edit, n, i),
    ensures
        reached(cache, edit, settled, i),
    decreases n,
{
    if n <= settled {
        lemma_reached_grows(cache, edit, n, settled, i);
    } else if overlap(cache[i].text_range, edit) {
    } else {
        let m = (n - 1) as nat;
        if reached(cache, edit, m, i) {
            lemma_reached_settles(cache, edit, settled, m, i);
        } else {
            assert(leans_on_reached(cache, edit, m, i));
            let (j, d) = choose|j: int, d: int|
                0 <= j < cache.len() && 0 <= d < cache[i].dependencies@.len() && #[trigger] leans(
                    cache,
                    i,
                    d,
                    j,
                ) && reached(cache, edit, m, j);
            lemma_reached_settles(cache, edit, settled, m, j);
            assert(leans(cache, i, d, j) && reached(cache, edit, settled, j));
            assert(leans_on_reached(cache, edit, settled, i));
            assert(reached(cache, edit, settled + 1, i));
        }
    }
}

/// How many places of `m` hold `false`.
pub open spec fn unset(m: Seq<bool>) -> nat
    decreases m.len(),
{
    if m.len() == 0 {
        0
    } else if m.last() {
        unset(m.drop_last())
    } else {
        unset(m.drop_last()) + 1
    }
}

/// Setting places leaves fewer unset.
pub proof fn lemma_unset_shrinks(before: Seq<bool>, after: Seq<bool>, k: int)
    requires
        before.len() == after.len(),
        forall|i: int| 0 <= i < before.len() ==> (#[trigger] before[i] ==> after[i]),
        0 <= k < before.len(),
        !before[k],
        after[k],
    ensures
        unset(after) < unset(before),
    decreases before.len(),
{
    let n = before.len() - 1;
    if k == n {
        lemma_unset_no_growth(before.drop_last(), after.drop_last());
    } else {
        lemma_unset_shrinks(before.drop_last(), after.drop_last(), k);
    }
}

/// Setting places leaves no more unset.
pub proof fn lemma_unset_no_growth(before: Seq<bool>, after: Seq<bool>)
    requires
        before.len() == after.len(),
        forall|i: int| 0 <= i < before.len() ==> (#[trigger] before[i] ==> after[i]),
    ensures
        unset(after) <= unset(before),
    decreases before.len(),
{
    if before.len() > 0 {
        lemma_unset_no_growth(before.drop_last(), after.drop_last());
    }
}

/// What is chosen of a sequence is what is chosen of its first element,
/// followed by what is chosen of the rest.
pub proof fn lemma_chosen_from_front<T>(s: Seq<T>, choices: Seq<bool>)
    requires
        s.len() == choices.len(),
        s.len() > 0,
    ensures
        chosen(s, choices) == (if choices[0] {
            seq![s[0]]
        } else {
            Seq::<T>::empty()
        }) + chosen(s.drop_first(), choices.drop_first()),
    decreases s.len(),
{
    let head = if choices[0] {
        seq![s[0]]
    } else {
        Seq::<T>::empty()
    };
    if s.len() == 1 {
        assert(s.drop_last() =~= Seq::<T>::empty());
        assert(s.drop_first() =~= Seq::<T>::empty());
        assert(chosen(s.drop_first(), choices.drop_first()) =~= Seq::<T>::empty());
        assert(chosen(s.drop_last(), choices.drop_last()) =~= Seq::<T>::empty());
        assert(chosen(s, choices) =~= head);
    } else {
        lemma_chosen_from_front(s.drop_last(), choices.drop_last());
        assert(s.drop_last().drop_first() =~= s.drop_first().drop_last());
        assert(choices.drop_last().drop_first() =~= choices.drop_first().drop_last());
        let inner = chosen(s.drop_first().drop_last(), choices.drop_first().drop_last());
        if choices.last() {
            assert((head + inner).push(s.last()) =~= head + inner.push(s.last()));
        }
    }
}

/// Parses a text again and again as it is edited, keeping what it parsed.
pub struct IncrementalParser {
    node_cache: Vec<CachedNode>,
    source_text: String,
    dirty_ranges: Vec<Range<usize>>,
    parsed: Option<PlSqlNode>,
}

impl IncrementalParser {
    /// The cached fragments, in the order in which they were cached.
    pub closed spec fn cache(&self) -> Seq<CachedNode> {
        self.node_cache@
    }

    /// The current text.
    pub closed spec fn source(&self) -> Seq<char> {
        self.source_text@
    }

    /// The ranges edited since the text was last parsed.
    pub closed spec fn dirty(&self) -> Seq<Range<usize>> {
        self.dirty_ranges@
    }

    /// The parser keeps the tree of the current text.
    pub closed spec fn holds_tree(&self) -> bool {
        self.parsed is Some
    }

    /// The tree that the parser keeps is the tree of the current text, and
    /// there is none while edits are pending.
    pub closed spec fn wf(&self) -> bool {
        self.parsed matches Some(n) ==> self.dirty_ranges@.len() == 0 && parses_to_from_source(
            self.source_text@,
            Language::PlSql,
            Ok(AstNode::PlSql(n)),
        )
    }

    /// A parser with an empty text and an empty cache, which keeps no tree.
    pub fn new() -> (r: IncrementalParser)
        ensures
            r.wf(),
            !r.holds_tree(),
            r.cache().len() == 0,
            ranges_distinct(r.cache()),
            r.source().len() == 0,
            r.dirty().len() == 0,
    {
        IncrementalParser {
            node_cache: Vec::new(),
            source_text: String::new(),
            dirty_ranges: Vec::new(),
            parsed: None,
        }
    }

    /// The cached fragments.
    pub fn cached_nodes(&self) -> (r: &Vec<CachedNode>)
        ensures
            r@ == self.cache(),
    {
        &self.node_cache
    }

    /// The current text.
    pub fn text(&self) -> (r: &str)
        ensures
            r@ == self.source(),
    {
        self.source_text.as_str()
    }

    /// The ranges edited since the text was last parsed.
    pub fn pending(&self) -> (r: &Vec<Range<usize>>)
        ensures
            r@ == self.dirty(),
    {
        &self.dirty_ranges
    }

    /// Caches a fragment: in place of the fragment of the same range where
    /// the cache holds one, and as one more fragment where it holds none.
    pub fn cache_fragment(&mut self, fragment: CachedNode)
        requires
            old(self).wf(),
        ensures
            final(self).wf(),
            final(self).holds_tree() == old(self).holds_tree(),
            final(self).cache() == with_fragment(old(self).cache(), fragment),
            ranges_distinct(old(self).cache()) ==> ranges_distinct(final(self).cache()),
            final(self).source() == old(self).source(),
            final(self).dirty() == old(self).dirty(),
    {
        self.store_fragment(fragment);
    }

    #[verifier::loop_isolation(false)]
    fn store_fragment(&mut self, fragment: CachedNode)
        ensures
            final(self).node_cache@ == with_fragment(old(self).node_cache@, fragment),
            ranges_distinct(old(self).node_cache@) ==> ranges_distinct(final(self).node_cache@),
            final(self).parsed == old(self).parsed,
            final(self).source_text == old(self).source_text,
            final(self).dirty_ranges == old(self).dirty_ranges,
    {
        let ghost before = self.node_cache@;
        proof {
            if ranges_distinct(before) {
                lemma_with_fragment_distinct(before, fragment);
            }
        }
        let mut k: usize = 0;
        while k < self.node_cache.len()
            invariant
                k <= self.node_cache.len(),
                self.node_cache@ == before,
                self.parsed == old(self).parsed,
                self.source_text == old(self).source_text,
                self.dirty_ranges == old(self).dirty_ranges,
                fragment_at(before, fragment.text_range, 0) == fragment_at(
                    before,
                    fragment.text_range,
                    k as int,
                ),
            decreases self.node_cache.len() - k,
        {
            if self.node_cache[k].text_range.start == fragment.text_range.start
                && self.node_cache[k].text_range.end == fragment.text_range.end {
                self.node_cache.set(k, fragment);
                return ;
            }
            k += 1;
        }
        self.node_cache.push(fragment);
    }

    /// Takes `new_text` as the current text after the edits `changes`: every
    /// edited range becomes dirty, and the cache is pruned by every edit in
    /// turn. The tree of the text is kept only where there is no edit and
    /// the text is the same.
    pub fn update_text(&mut self, new_text: String, changes: Vec<TextChange>)
        requires
            old(self).wf(),
        ensures
            final(self).wf(),
            final(self).holds_tree() == (old(self).holds_tree() && changes@.len() == 0
                && new_text@ == old(self).source()),
            final(self).source() == new_text@,
            final(self).dirty() == old(self).dirty() + ranges_of(changes@),
            final(self).cache() == pruned_by_all(old(self).cache(), changes@),
            ranges_distinct(old(self).cache()) ==> ranges_distinct(final(self).cache()),
    {
        proof {
            if ranges_distinct(old(self).cache()) {
                lemma_pruned_by_all_distinct(old(self).cache(), changes@);
            }
        }
        let unchanged = changes.len() == 0 && str_eq(self.source_text.as_str(), new_text.as_str());
        let mut i: usize = 0;
        assert(changes@.take(0) =~= Seq::<TextChange>::empty());
        assert(self.dirty_ranges@ =~= old(self).dirty_ranges@ + ranges_of(changes@.take(0)));
        while i < changes.len()
            invariant
                i <= changes.len(),
                self.parsed == old(self).parsed,
                self.source_text == old(self).source_text,
                self.dirty_ranges@ == old(self).dirty_ranges@ + ranges_of(changes@.take(i as int)),
                self.node_cache@ == pruned_by_all(old(self).node_cache@, changes@.take(i as int)),
            decreases changes.len() - i,
        {
            let ghost before = self.dirty_ranges@;
            let range = Range { start: changes[i].range.start, end: changes[i].range.end };
            assert(range == changes@[i as int].range);
            self.mark_dirty_range(range);
            proof {
                assert(changes@.take(i + 1).drop_last() =~= changes@.take(i as int));
                assert(self.dirty_ranges@ =~= old(self).dirty_ranges@ + ranges_of(
                    changes@.take(i + 1),
                ));
            }
            i += 1;
        }
        assert(changes@.take(changes@.len() as int) =~= changes@);
        if !unchanged {
            self.parsed = None;
        }
        self.source_text = new_text;
    }

    /// Parses the current text in the procedural dialect. Where the parser
    /// keeps the tree of the text, that tree is handed out again and the
    /// cache stays as it is. A tree that is parsed anew is kept, and cached
    /// as the fragment of the whole text; nothing is dirty afterwards.
    /// Where parsing fails, cache and dirty ranges stay as they are.
    pub fn parse(&mut self) -> (r: Result<AstNode, ParseError>)
        requires
            old(self).wf(),
            4 * old(self).source().len() < usize::MAX,
        ensures
            final(self).wf(),
            final(self).source() == old(self).source(),
            parses_to_from_source(old(self).source(), Language::PlSql, r),
            final(self).holds_tree() == (r is Ok),
            old(self).holds_tree() ==> r is Ok,
            r is Err || old(self).holds_tree() ==> final(self).cache() == old(self).cache()
                && final(self).dirty() == old(self).dirty(),
            r is Ok ==> final(self).dirty().len() == 0,
            r is Ok && !old(self).holds_tree() ==> exists|f: CachedNode|
                whole_fragment(f, old(self).source(), r->Ok_0) && final(self).cache()
                    == #[trigger] with_fragment(old(self).cache(), f),
            ranges_distinct(old(self).cache()) ==> ranges_distinct(final(self).cache()),
    {
        match &self.parsed {
            Some(n) => {
                let copy = n.duplicate();
                proof {
                    let ts = choose|ts: Seq<Token>| #[trigger]
                        crate::parser::lexer::views(ts) == crate::parser::lexer::token_stream(
                            self.source_text@,
                        ) && crate::parser::parser::parses_to(
                            ts,
                            crate::parser::parser::skip_trivia(ts, 0),
                            Language::PlSql,
                            Ok(AstNode::PlSql(*n)),
                        );
                    assert(crate::parser::parser::parses_to(
                        ts,
                        crate::parser::parser::skip_trivia(ts, 0),
                        Language::PlSql,
                        Ok(AstNode::PlSql(copy)),
                    ));
                }
                return Ok(AstNode::PlSql(copy));
            },
            None => {},
        }
        let result = parse_source(self.source_text.as_str(), Language::PlSql);
        match result {
            Ok(AstNode::PlSql(n)) => {
                let kept_copy = n.duplicate();
                let cached_copy = n.duplicate();
                let whole = Range { start: 0, end: byte_length(self.source_text.as_str()) };
                let sum = checksum_of(self.source_text.as_str());
                let fragment = CachedNode {
                    node: AstNode::PlSql(cached_copy),
                    text_range: whole,
                    checksum: sum,
                    dependencies: Vec::new(),
                };
                let ghost cached = fragment;
                self.store_fragment(fragment);
                self.dirty_ranges = Vec::new();
                assert(whole_fragment(cached, old(self).source(), AstNode::PlSql(n)));
                assert(self.cache() == with_fragment(old(self).cache(), cached));
                proof {
                    let ts = choose|ts: Seq<Token>| #[trigger]
                        crate::parser::lexer::views(ts) == crate::parser::lexer::token_stream(
                            self.source_text@,
                        ) && crate::parser::parser::parses_to(
                            ts,
                            crate::parser::parser::skip_trivia(ts, 0),
                            Language::PlSql,
                            Ok(AstNode::PlSql(n)),
                        );
                    assert(crate::parser::parser::parses_to(
                        ts,
                        crate::parser::parser::skip_trivia(ts, 0),
                        Language::PlSql,
                        Ok(AstNode::PlSql(kept_copy)),
                    ));
                }
                self.parsed = Some(kept_copy);
                Ok(AstNode::PlSql(n))
            },
            Ok(other) => Ok(other),
            Err(e) => Err(e),
        }
    }

    /// Makes `range` dirty and prunes the cache by it.
    fn mark_dirty_range(&mut self, range: Range<usize>)
        ensures
            final(self).parsed == old(self).parsed,
            final(self).source_text == old(self).source_text,
            final(self).dirty_ranges@ == old(self).dirty_ranges@.push(range),
            final(self).node_cache@ == pruned(old(self).node_cache@, range),
    {
        let edit = Range { start: range.start, end: range.end };
        self.dirty_ranges.push(range);
        let ghost cache = self.node_cache@;
        let n = self.node_cache.len();
        // what the edit itself overlaps
        let mut marks: Vec<bool> = Vec::new();
        let mut i: usize = 0;
        while i < n
            invariant
                i <= n,
                n == self.node_cache@.len(),
                self.node_cache@ == cache,
                marks@.len() == i,
                forall|k: int| 0 <= k < i ==> marks@[k] == reached(cache, edit, 0, k),
            decreases n - i,
        {
            marks.push(ranges_overlap(&self.node_cache[i].text_range, &edit));
            i += 1;
        }
        // follow dependencies until nothing new is reached
        let ghost mut round: nat = 0;
        loop
            invariant
                n == self.node_cache@.len(),
                self.node_cache@ == cache,
                marks@.len() == n,
                forall|k: int| 0 <= k < n ==> marks@[k] == reached(cache, edit, round, k),
            ensures
                marks@.len() == n,
                forall|k: int| 0 <= k < n ==> marks@[k] == stale(cache, edit, k),
            decreases unset(marks@),
        {
            let ghost before = marks@;
            let mut next: Vec<bool> = Vec::new();
            let mut changed = false;
            let ghost mut witness: int = 0;
            let mut a: usize = 0;
            while a < n
                invariant
                    a <= n,
                    n == self.node_cache@.len(),
                    self.node_cache@ == cache,
                    marks@ == before,
                    marks@.len() == n,
                    next@.len() == a,
                    forall|k: int| 0 <= k < n ==> before[k] == reached(cache, edit, round, k),
                    forall|k: int| 0 <= k < a ==> next@[k] == reached(cache, edit, round + 1, k),
                    changed ==> 0 <= witness < a && !before[witness] && next@[witness],
                    !changed ==> forall|k: int| 0 <= k < a ==> next@[k] == before[k],
                decreases n - a,
            {
                let mut hit = marks[a];
                if !hit {
                    hit = self.leans_on_marked(a, &marks, Ghost(edit), Ghost(round));
                    if hit {
                        changed = true;
                        proof {
                            witness = a as int;
                        }
                    }
                }
                next.push(hit);
                a += 1;
            }
            if !changed {
                proof {
                    assert forall|k: int| 0 <= k < n implies marks@[k] == stale(cache, edit, k) by {
                        if stale(cache, edit, k) {
                            let m = choose|m: nat| reached(cache, edit, m, k);
                            assert forall|q: int| 0 <= q < cache.len() implies (#[trigger] reached(
                                cache,
                                edit,
                                round + 1,
                                q,
                            ) ==> reached(cache, edit, round, q)) by {
                                assert(next@[q] == before[q]);
                            }
                            lemma_reached_settles(cache, edit, round, m, k);
                        }
                    }
                }
                break ;
            }
            proof {
                assert forall|k: int| 0 <= k < before.len() implies (#[trigger] before[k]
                    ==> next@[k]) by {
                    if before[k] {
                        lemma_reached_grows(cache, edit, round, round + 1, k);
                    }
                }
                lemma_unset_shrinks(before, next@, witness);
                round = round + 1;
            }
            marks = next;
        }
        // drop what is stale, from the back
        let mut k: usize = n;
        let ghost stays = staying(cache, edit);
        assert(cache.skip(n as int) =~= Seq::<CachedNode>::empty());
        assert(stays.skip(n as int) =~= Seq::<bool>::empty());
        assert(self.node_cache@ =~= cache.take(n as int) + chosen(
            cache.skip(n as int),
            stays.skip(n as int),
        ));
        while k > 0
            invariant
                k <= n,
                n == cache.len(),
                marks@.len() == n,
                stays == staying(cache, edit),
                forall|q: int| 0 <= q < n ==> marks@[q] == stale(cache, edit, q),
                self.node_cache@ == cache.take(k as int) + chosen(
                    cache.skip(k as int),
                    stays.skip(k as int),
                ),
                self.parsed == old(self).parsed,
                self.source_text == old(self).source_text,
                self.dirty_ranges@ == old(self).dirty_ranges@.push(range),
            decreases k,
        {
            k = k - 1;
            proof {
                lemma_chosen_from_front(cache.skip(k as int), stays.skip(k as int));
                assert(cache.skip(k as int).drop_first() =~= cache.skip(k + 1));
                assert(stays.skip(k as int).drop_first() =~= stays.skip(k + 1));
                assert(cache.take(k + 1) =~= cache.take(k as int).push(cache[k as int]));
            }
            if marks[k] {
                let ghost before = self.node_cache@;
                self.node_cache.remove(k);
                assert(self.node_cache@ =~= cache.take(k as int) + chosen(
                    cache.skip(k + 1),
                    stays.skip(k + 1),
                ));
            } else {
                assert(self.node_cache@ =~= cache.take(k as int) + (seq![cache[k as int]] + chosen(
                    cache.skip(k + 1),
                    stays.skip(k + 1),
                )));
            }
        }
        assert(cache.skip(0) =~= cache);
        assert(stays.skip(0) =~= stays);
        assert(cache.take(0) + chosen(cache, stays) =~= chosen(cache, stays));
    }

    /// Whether the fragment at index `a` depends on a range that overlaps a
    /// marked fragment.
    fn leans_on_marked(
        &self,
        a: usize,
        marks: &Vec<bool>,
        Ghost(edit): Ghost<Range<usize>>,
        Ghost(round): Ghost<nat>,
    ) -> (b: bool)
        requires
            a < self.node_cache@.len(),
            marks@.len() == self.node_cache@.len(),
            forall|k: int|
                0 <= k < marks@.len() ==> marks@[k] == reached(self.node_cache@, edit, round, k),
        ensures
            b == leans_on_reached(self.node_cache@, edit, round, a as int),
    {
        let ghost cache = self.node_cache@;
        let deps = &self.node_cache[a].dependencies;
        let mut d: usize = 0;
        while d < deps.len()
            invariant
                d <= deps.len(),
                a < cache.len(),
                cache == self.node_cache@,
                deps@ == cache[a as int].dependencies@,
                marks@.len() == cache.len(),
                forall|k: int| 0 <= k < marks@.len() ==> marks@[k] == reached(cache, edit, round, k),
                forall|j: int, e: int|
                    0 <= j < cache.len() && 0 <= e < d ==> !(#[trigger] leans(cache, a as int, e, j)
                        && reached(cache, edit, round, j)),
            decreases deps.len() - d,
        {
            let mut j: usize = 0;
            while j < self.node_cache.len()
                invariant
                    j <= cache.len(),
                    d < deps.len(),
                    a < cache.len(),
                    cache == self.node_cache@,
                    deps@ == cache[a as int].dependencies@,
                    marks@.len() == cache.len(),
                    forall|k: int|
                        0 <= k < marks@.len() ==> marks@[k] == reached(cache, edit, round, k),
                    forall|q: int|
                        0 <= q < j ==> !(#[trigger] leans(cache, a as int, d as int, q)
                            && reached(cache, edit, round, q)),
                decreases cache.len() - j,
            {
                if marks[j] && ranges_overlap(&deps[d], &self.node_cache[j].text_range) {
                    assert(leans(cache, a as int, d as int, j as int) && reached(
                        cache,
                        edit,
                        round,
                        j as int,
                    ));
                    return true;
                }
                j += 1;
            }
            d += 1;
        }
        false
    }
}

} // verus!
