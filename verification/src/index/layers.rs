//! Layered routines: which definition of a routine is in force.
//!
//! A routine may be defined in several layers of the platform. The layers
//! are ordered: Core is the base, Customization lies above it, Extension
//! above both. For every container and routine name each layer holds at most
//! one definition. The definition in force is that of the highest layer that
//! has one; the definition that a layer shadows is that of the highest layer
//! below it that has one.

use crate::text::str_eq;
use vstd::prelude::*;

verus! {

/// One of the layers of the platform, from the base upward.
#[derive(Debug, Clone, Copy, PartialEq, Eq, Structural)]
pub enum Layer {
    Core,
    Customization,
    Extension,
}

impl Layer {
    /// How high the layer lies: 0 for the base.
    pub open spec fn rank(self) -> int {
        match self {
            Layer::Core => 0,
            Layer::Customization => 1,
            Layer::Extension => 2,
        }
    }

    /// The layer directly below, if there is one.
    pub open spec fn lower(self) -> Option<Layer> {
        match self {
            Layer::Core => None,
            Layer::Customization => Some(Layer::Core),
            Layer::Extension => Some(Layer::Customization),
        }
    }

    /// Executable form of `lower`.
    pub fn below(self) -> (r: Option<Layer>)
        ensures
            r == self.lower(),
    {
        match self {
            Layer::Core => None,
            Layer::Customization => Some(Layer::Core),
            Layer::Extension => Some(Layer::Customization),
        }
    }
}

/// The definition of a routine in one layer: the id of its symbol.
#[derive(Debug, PartialEq)]
pub struct LayerEntry {
    pub container: String,
    pub routine: String,
    pub layer: Layer,
    pub definition: i64,
}

/// The entry defines the routine `routine` of `container` in `layer`.
pub open spec fn keyed(e: LayerEntry, container: Seq<char>, routine: Seq<char>, layer: Layer) -> bool {
    e.container@ == container && e.routine@ == routine && e.layer == layer
}

/// The index of the first entry from index `from` on that defines the
/// routine in `layer`.
pub open spec fn entry_of(
    entries: Seq<LayerEntry>,
    container: Seq<char>,
    routine: Seq<char>,
    layer: Layer,
    from: int,
) -> Option<int>
    decreases entries.len() - from,
{
    if from < 0 || from >= entries.len() {
        None
    } else if keyed(entries[from], container, routine, layer) {
        Some(from)
    } else {
        entry_of(entries, container, routine, layer, from + 1)
    }
}

/// The definition of the routine in `layer`, if the layer has one.
pub open spec fn defined_in(
    entries: Seq<LayerEntry>,
    container: Seq<char>,
    routine: Seq<char>,
    layer: Layer,
) -> Option<i64> {
    match entry_of(entries, container, routine, layer, 0) {
        Some(k) => Some(entries[k].definition),
        None => None,
    }
}

/// The definition of the routine in the highest layer at or below `layer`
/// that has one.
pub open spec fn at_or_below(
    entries: Seq<LayerEntry>,
    container: Seq<char>,
    routine: Seq<char>,
    layer: Layer,
) -> Option<i64>
    decreases layer.rank(),
{
    match defined_in(entries, container, routine, layer) {
        Some(d) => Some(d),
        None => match layer.lower() {
            Some(l) => at_or_below(entries, container, routine, l),
            None => None,
        },
    }
}

/// The definition in force: that of the highest layer that has one.
pub open spec fn in_force(entries: Seq<LayerEntry>, container: Seq<char>, routine: Seq<char>) -> Option<
    i64,
> {
    at_or_below(entries, container, routine, Layer::Extension)
}

/// The definition that `layer` shadows: that of the highest layer below
/// `layer` that has one.
pub open spec fn shadowed(
    entries: Seq<LayerEntry>,
    container: Seq<char>,
    routine: Seq<char>,
    layer: Layer,
) -> Option<i64> {
    match layer.lower() {
        Some(l) => at_or_below(entries, container, routine, l),
        None => None,
    }
}

/// No two entries define the same routine in the same layer.
pub open spec fn one_per_layer(entries: Seq<LayerEntry>) -> bool {
    forall|i: int, j: int|
        0 <= i < j < entries.len() ==> !keyed(
            #[trigger] entries[j],
            (#[trigger] entries[i]).container@,
            entries[i].routine@,
            entries[i].layer,
        )
}

/// What `entry_of` finds is an entry at or after `from` that defines the
/// routine in the layer, and no entry between does.
pub proof fn lemma_entry_of(
    entries: Seq<LayerEntry>,
    container: Seq<char>,
    routine: Seq<char>,
    layer: Layer,
    from: int,
)
    requires
        0 <= from,
    ensures
        match entry_of(entries, container, routine, layer, from) {
            Some(k) => from <= k < entries.len() && keyed(entries[k], container, routine, layer)
                && forall|j: int|
                from <= j < k ==> !keyed(#[trigger] entries[j], container, routine, layer),
            None => forall|j: int|
                from <= j < entries.len() ==> !keyed(
                    #[trigger] entries[j],
                    container,
                    routine,
                    layer,
                ),
        },
    decreases entries.len() - from,
{
    if from < entries.len() && !keyed(entries[from], container, routine, layer) {
        lemma_entry_of(entries, container, routine, layer, from + 1);
    }
}

/// The first entry that defines the routine in the layer is the entry that
/// `entry_of` finds.
pub proof fn lemma_entry_found(
    entries: Seq<LayerEntry>,
    container: Seq<char>,
    routine: Seq<char>,
    layer: Layer,
    from: int,
    k: int,
)
    requires
        0 <= from <= k < entries.len(),
        keyed(entries[k], container, routine, layer),
        forall|j: int| from <= j < k ==> !keyed(#[trigger] entries[j], container, routine, layer),
    ensures
        entry_of(entries, container, routine, layer, from) == Some(k),
    decreases k - from,
{
    if from < k {
        lemma_entry_found(entries, container, routine, layer, from + 1, k);
    }
}

/// The definition in force is the definition of a layer, and no layer above
/// that one has a definition.
pub proof fn lemma_in_force_is_highest(
    entries: Seq<LayerEntry>,
    container: Seq<char>,
    routine: Seq<char>,
)
    ensures
        match in_force(entries, container, routine) {
            Some(d) => exists|layer: Layer|
                #[trigger] defined_in(entries, container, routine, layer) == Some(d) && forall|
                    above: Layer,
                |
                    above.rank() > layer.rank() ==> #[trigger] defined_in(
                        entries,
                        container,
                        routine,
                        above,
                    ) is None,
            None => forall|layer: Layer|
                #[trigger] defined_in(entries, container, routine, layer) is None,
        },
{
    reveal_with_fuel(at_or_below, 4);
    let e = defined_in(entries, container, routine, Layer::Extension);
    let c = defined_in(entries, container, routine, Layer::Customization);
    let b = defined_in(entries, container, routine, Layer::Core);
    if e is Some {
        assert(defined_in(entries, container, routine, Layer::Extension) == Some(e->Some_0));
    } else if c is Some {
        assert(defined_in(entries, container, routine, Layer::Customization) == Some(c->Some_0));
    } else if b is Some {
        assert(defined_in(entries, container, routine, Layer::Core) == Some(b->Some_0));
    } else {
        assert forall|layer: Layer| #[trigger]
            defined_in(entries, container, routine, layer) is None by {
            match layer {
                Layer::Core => {},
                Layer::Customization => {},
                Layer::Extension => {},
            }
        }
    }
}

/// What a layer shadows is the definition of a layer below it, and no layer
/// between the two has a definition.
pub proof fn lemma_shadowed_is_next_lower(
    entries: Seq<LayerEntry>,
    container: Seq<char>,
    routine: Seq<char>,
    layer: Layer,
)
    ensures
        match shadowed(entries, container, routine, layer) {
            Some(d) => exists|lower: Layer|
                lower.rank() < layer.rank() && #[trigger] defined_in(
                    entries,
                    container,
                    routine,
                    lower,
                ) == Some(d) && forall|between: Layer|
                    lower.rank() < between.rank() < layer.rank() ==> #[trigger] defined_in(
                        entries,
                        container,
                        routine,
                        between,
                    ) is None,
            None => forall|lower: Layer|
                lower.rank() < layer.rank() ==> #[trigger] defined_in(
                    entries,
                    container,
                    routine,
                    lower,
                ) is None,
        },
{
    reveal_with_fuel(at_or_below, 4);
    let c = defined_in(entries, container, routine, Layer::Customization);
    let b = defined_in(entries, container, routine, Layer::Core);
    match layer {
        Layer::Core => {},
        Layer::Customization => {
            if b is Some {
                assert(defined_in(entries, container, routine, Layer::Core) == Some(b->Some_0));
            } else {
                assert forall|lower: Layer| lower.rank() < layer.rank() implies #[trigger]
                    defined_in(entries, container, routine, lower) is None by {
                    assert(lower == Layer::Core);
                }
            }
        },
        Layer::Extension => {
            if c is Some {
                assert(defined_in(entries, container, routine, Layer::Customization) == Some(
                    c->Some_0,
                ));
            } else if b is Some {
                assert(defined_in(entries, container, routine, Layer::Core) == Some(b->Some_0));
                assert forall|between: Layer|
                    Layer::Core.rank() < between.rank() < layer.rank() implies #[trigger]
                    defined_in(entries, container, routine, between) is None by {
                    assert(between == Layer::Customization);
                }
            } else {
                assert forall|lower: Layer| lower.rank() < layer.rank() implies #[trigger]
                    defined_in(entries, container, routine, lower) is None by {
                    assert(lower == Layer::Core || lower == Layer::Customization);
                }
            }
        },
    }
}

/// The definitions of routines, layer by layer.
pub struct LayerTable {
    entries: Vec<LayerEntry>,
}

impl View for LayerTable {
    type V = Seq<LayerEntry>;

    closed spec fn view(&self) -> Seq<LayerEntry> {
        self.entries@
    }
}

impl LayerTable {
    /// Every layer holds at most one definition of a routine.
    pub open spec fn wf(&self) -> bool {
        one_per_layer(self@)
    }

    /// A table without definitions.
    pub fn new() -> (r: LayerTable)
        ensures
            r.wf(),
            r@.len() == 0,
    {
        LayerTable { entries: Vec::new() }
    }

    fn find(&self, container: &str, routine: &str, layer: Layer) -> (r: Option<usize>)
        ensures
            match entry_of(self@, container@, routine@, layer, 0) {
                Some(k) => r matches Some(j) && j == k && k < self@.len(),
                None => r is None,
            },
    {
        let mut i: usize = 0;
        while i < self.entries.len()
            invariant
                i <= self.entries.len(),
                entry_of(self@, container@, routine@, layer, 0) == entry_of(
                    self@,
                    container@,
                    routine@,
                    layer,
                    i as int,
                ),
            decreases self.entries.len() - i,
        {
            let e = &self.entries[i];
            if e.layer == layer && str_eq(e.container.as_str(), container) && str_eq(
                e.routine.as_str(),
                routine,
            ) {
                return Some(i);
            }
            i += 1;
        }
        None
    }

    /// The definition of the routine in `layer`, if the layer has one.
    pub fn definition(&self, container: &str, routine: &str, layer: Layer) -> (r: Option<i64>)
        ensures
            r == defined_in(self@, container@, routine@, layer),
    {
        match self.find(container, routine, layer) {
            Some(k) => Some(self.entries[k].definition),
            None => None,
        }
    }

    /// Makes `definition` the definition of the routine in `layer`, in place
    /// of the one that the layer had, and gives the one it had. The
    /// definitions of other routines and in other layers stay as they are.
    pub fn define(&mut self, container: &str, routine: &str, layer: Layer, definition: i64) -> (r:
        Option<i64>)
        requires
            old(self).wf(),
        ensures
            final(self).wf(),
            r == defined_in(old(self)@, container@, routine@, layer),
            defined_in(final(self)@, container@, routine@, layer) == Some(definition),
            forall|c: Seq<char>, n: Seq<char>, l: Layer|
                !(c == container@ && n == routine@ && l == layer) ==> #[trigger] defined_in(
                    final(self)@,
                    c,
                    n,
                    l,
                ) == defined_in(old(self)@, c, n, l),
    {
        let ghost before = self.entries@;
        let entry = LayerEntry {
            container: container.to_owned(),
            routine: routine.to_owned(),
            layer,
            definition,
        };
        proof {
            lemma_entry_of(before, container@, routine@, layer, 0);
        }
        match self.find(container, routine, layer) {
            Some(k) => {
                let had = self.entries[k].definition;
                self.entries.set(k, entry);
                proof {
                    let after = self.entries@;
                    assert(after =~= before.update(k as int, entry));
                    lemma_entry_found(after, container@, routine@, layer, 0, k as int);
                    assert forall|c: Seq<char>, n: Seq<char>, l: Layer|
                        !(c == container@ && n == routine@ && l == layer) implies #[trigger]
                        defined_in(after, c, n, l) == defined_in(before, c, n, l) by {
                        assert forall|j: int| 0 <= j < before.len() implies (#[trigger] after[j]
                            == before[j] || (!keyed(before[j], c, n, l) && !keyed(
                            after[j],
                            c,
                            n,
                            l,
                        ))) by {
                            if j != k {
                                assert(after[j] == before[j]);
                            }
                        }
                        lemma_same_elsewhere(before, after, c, n, l, 0);
                    }
                    assert forall|i: int, j: int| 0 <= i < j < after.len() implies !keyed(
                        #[trigger] after[j],
                        (#[trigger] after[i]).container@,
                        after[i].routine@,
                        after[i].layer,
                    ) by {
                        assert(!keyed(
                            before[j],
                            before[i].container@,
                            before[i].routine@,
                            before[i].layer,
                        ));
                    }
                }
                Some(had)
            },
            None => {
                self.entries.push(entry);
                proof {
                    let after = self.entries@;
                    assert(after =~= before.push(entry));
                    lemma_entry_found(
                        after,
                        container@,
                        routine@,
                        layer,
                        0,
                        before.len() as int,
                    );
                    assert forall|c: Seq<char>, n: Seq<char>, l: Layer|
                        !(c == container@ && n == routine@ && l == layer) implies #[trigger]
                        defined_in(after, c, n, l) == defined_in(before, c, n, l) by {
                        assert forall|j: int| 0 <= j < before.len() implies (#[trigger] after[j]
                            == before[j] || (!keyed(before[j], c, n, l) && !keyed(
                            after[j],
                            c,
                            n,
                            l,
                        ))) by {
                            assert(after[j] == before[j]);
                        }
                        lemma_same_elsewhere(before, after, c, n, l, 0);
                    }
                    assert forall|i: int, j: int| 0 <= i < j < after.len() implies !keyed(
                        #[trigger] after[j],
                        (#[trigger] after[i]).container@,
                        after[i].routine@,
                        after[i].layer,
                    ) by {
                        if j < before.len() {
                            assert(!keyed(
                                before[j],
                                before[i].container@,
                                before[i].routine@,
                                before[i].layer,
                            ));
                        } else {
                            assert(!keyed(before[i], container@, routine@, layer));
                        }
                    }
                }
                None
            },
        }
    }

    /// The definition in force: that of the highest layer that has one.
    pub fn resolve(&self, container: &str, routine: &str) -> (r: Option<i64>)
        ensures
            r == in_force(self@, container@, routine@),
    {
        self.highest(container, routine, Layer::Extension)
    }

    /// The definition that `layer` shadows: that of the highest layer below
    /// `layer` that has one. A call to the previous layer made in `layer`
    /// goes there.
    pub fn previous(&self, container: &str, routine: &str, layer: Layer) -> (r: Option<i64>)
        ensures
            r == shadowed(self@, container@, routine@, layer),
    {
        match layer.below() {
            Some(l) => self.highest(container, routine, l),
            None => None,
        }
    }

    fn highest(&self, container: &str, routine: &str, layer: Layer) -> (r: Option<i64>)
        ensures
            r == at_or_below(self@, container@, routine@, layer),
        decreases layer.rank(),
    {
        match self.definition(container, routine, layer) {
            Some(d) => Some(d),
            None => match layer.below() {
                Some(l) => self.highest(container, routine, l),
                None => None,
            },
        }
    }
}

/// Where two tables agree on every entry that does not define a given
/// routine in a given layer, and have entries for that routine and layer at
/// the same places, they agree on every other routine and layer.
pub proof fn lemma_same_elsewhere(
    before: Seq<LayerEntry>,
    after: Seq<LayerEntry>,
    c: Seq<char>,
    n: Seq<char>,
    l: Layer,
    from: int,
)
    requires
        0 <= from,
        before.len() <= after.len(),
        forall|j: int|
            0 <= j < before.len() ==> (#[trigger] after[j] == before[j] || (!keyed(
                before[j],
                c,
                n,
                l,
            ) && !keyed(after[j], c, n, l))),
        forall|j: int| before.len() <= j < after.len() ==> !keyed(#[trigger] after[j], c, n, l),
    ensures
        match entry_of(before, c, n, l, from) {
            Some(k) => entry_of(after, c, n, l, from) == Some(k) && after[k].definition
                == before[k].definition,
            None => entry_of(after, c, n, l, from) is None,
        },
    decreases after.len() - from,
{
    if from < after.len() {
        if from < before.len() {
            assert(after[from] == before[from] || (!keyed(before[from], c, n, l) && !keyed(
                after[from],
                c,
                n,
                l,
            )));
            if !keyed(before[from], c, n, l) {
                lemma_same_elsewhere(before, after, c, n, l, from + 1);
            }
        } else {
            assert(!keyed(after[from], c, n, l));
            lemma_same_elsewhere(before, after, c, n, l, from + 1);
        }
    }
}

} // verus!
