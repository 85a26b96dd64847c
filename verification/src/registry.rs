//! The source registry: which sound source is registered under which id.
//!
//! The registry is generic in the source it holds. It never looks inside a
//! source: it keeps it, hands out access to it, and lets go of it.

use crate::listing::{bracket, bracketed, lists_each_once, views};
use vstd::prelude::*;

verus! {

/// A registry of sources, each under the id it was created with.
///
/// No id is registered twice: that is the registry's invariant, which
/// every operation keeps.
pub struct Registry<S> {
    ids: Vec<String>,
    sources: Vec<S>,
}

impl<S> View for Registry<S> {
    type V = Map<Seq<char>, S>;

    /// The registered sources by id: the single source of truth for what
    /// is live.
    closed spec fn view(&self) -> Map<Seq<char>, S> {
        paired(views(self.ids@), self.sources@)
    }
}

impl<S> Registry<S> {
    /// The registered ids in the order in which `ids` and `list` give them.
    pub closed spec fn order(&self) -> Seq<Seq<char>> {
        views(self.ids@)
    }

    /// The invariant: one source for each id, and no id twice.
    #[verifier::type_invariant]
    spec fn wf(&self) -> bool {
        &&& self.ids@.len() == self.sources@.len()
        &&& self.order().no_duplicates()
    }

    /// Under the invariant the order names exactly the registered ids,
    /// each once.
    proof fn lemma_order_lists_keys(&self)
        requires
            self.wf(),
        ensures
            lists_each_once(self.order(), self@.dom()),
            self.order().len() == self@.len(),
            self@.dom().finite(),
    {
        let order = self.order();
        order.unique_seq_to_set();
        assert(order.to_set() =~= self@.dom());
    }

    /// An empty registry.
    pub fn new() -> (registry: Self)
        ensures
            registry@ == Map::<Seq<char>, S>::empty(),
            registry.order() == Seq::<Seq<char>>::empty(),
    {
        let registry = Registry { ids: Vec::new(), sources: Vec::new() };
        assert(registry@ =~= Map::<Seq<char>, S>::empty());
        assert(registry.order() =~= Seq::<Seq<char>>::empty());
        registry
    }

    /// Where `id` stands in the order, if it is registered.
    fn position(&self, id: &String) -> (found: Option<usize>)
        ensures
            match found {
                Some(i) => i < self.order().len() && self.order()[i as int] == id@,
                None => !self.order().contains(id@),
            },
    {
        let mut i: usize = 0;
        while i < self.ids.len()
            invariant
                i <= self.ids@.len(),
                forall|j: int| 0 <= j < i ==> self.order()[j] != id@,
            decreases self.ids@.len() - i,
        {
            if self.ids[i] == *id {
                return Some(i);
            }
            i += 1;
        }
        None
    }

    /// Empties the registry and hands its two columns to the caller, who
    /// changes them and builds the registry anew.
    fn take_columns(&mut self) -> (columns: (Vec<String>, Vec<S>))
        ensures
            columns.0 == old(self).ids,
            columns.1 == old(self).sources,
    {
        let mut whole = Registry { ids: Vec::new(), sources: Vec::new() };
        std::mem::swap(self, &mut whole);
        let Registry { ids, sources } = whole;
        (ids, sources)
    }

    /// Registers `source` under `id` and gives the id back. A source that
    /// was registered under the same id is replaced and let go of.
    pub fn create(&mut self, source: S, id: String) -> (echo: String)
        ensures
            echo@ == id@,
            final(self)@ == old(self)@.insert(id@, source),
            final(self).order() == if old(self)@.contains_key(id@) {
                old(self).order()
            } else {
                old(self).order().push(id@)
            },
            lists_each_once(final(self).order(), final(self)@.dom()),
    {
        proof {
            use_type_invariant(&*self);
        }
        match self.position(&id) {
            Some(i) => {
                proof {
                    lemma_paired_update(self.order(), self.sources@, i as int, source);
                }
                self.sources[i] = source;
            },
            None => {
                proof {
                    lemma_paired_push(self.order(), self.sources@, id@, source);
                }
                let (mut ids, mut sources) = self.take_columns();
                ids.push(id.clone());
                sources.push(source);
                assert(views(ids@) =~= old(self).order().push(id@));
                *self = Registry { ids, sources };
            },
        }
        proof {
            self.lemma_order_lists_keys();
        }
        id
    }

    /// Removes the source registered under `id`, if there is one, and lets
    /// go of it. Says whether there was one; an id that is not registered
    /// leaves the registry as it was.
    pub fn destroy(&mut self, id: &String) -> (existed: bool)
        ensures
            existed == old(self)@.contains_key(id@),
            final(self)@ == old(self)@.remove(id@),
            !existed ==> final(self)@ == old(self)@,
            final(self).order() == if existed {
                old(self).order().remove(old(self).order().index_of(id@))
            } else {
                old(self).order()
            },
            lists_each_once(final(self).order(), final(self)@.dom()),
    {
        proof {
            use_type_invariant(&*self);
            self.lemma_order_lists_keys();
        }
        match self.position(id) {
            Some(i) => {
                proof {
                    lemma_index_of_unique(self.order(), i as int);
                    lemma_paired_remove(self.order(), self.sources@, i as int);
                }
                let (mut ids, mut sources) = self.take_columns();
                ids.remove(i);
                sources.remove(i);
                assert(views(ids@) =~= old(self).order().remove(i as int));
                *self = Registry { ids, sources };
                proof {
                    self.lemma_order_lists_keys();
                }
                true
            },
            None => {
                assert(self@ =~= self@.remove(id@));
                false
            },
        }
    }

    /// Access to the source registered under `id`, to update it in place.
    /// An id that is not registered gives `None` and changes nothing; no
    /// call adds or removes an id.
    pub fn source_mut(&mut self, id: &String) -> (found: Option<&mut S>)
        ensures
            final(self).order() == old(self).order(),
            match found {
                Some(source) => {
                    &&& old(self)@.contains_key(id@)
                    &&& *source == old(self)@[id@]
                    &&& final(self)@ == old(self)@.insert(id@, *final(source))
                },
                None => !old(self)@.contains_key(id@) && final(self)@ == old(self)@,
            },
            final(self)@.dom() == old(self)@.dom(),
            lists_each_once(final(self).order(), final(self)@.dom()),
    {
        proof {
            use_type_invariant(&*self);
            self.lemma_order_lists_keys();
        }
        match self.position(id) {
            Some(i) => {
                proof {
                    lemma_index_of_unique(self.order(), i as int);
                    assert forall|source: S|
                        self@.insert(id@, source).dom() =~= self@.dom() by {}
                    assert forall|source: S| #[trigger]
                        paired(self.order(), self.sources@.update(i as int, source))
                            == self@.insert(id@, source) by {
                        lemma_paired_update(self.order(), self.sources@, i as int, source);
                    }
                }
                Some(&mut self.sources[i])
            },
            None => None,
        }
    }

    /// Removes every source and lets go of it.
    pub fn clear_all(&mut self)
        ensures
            final(self)@ == Map::<Seq<char>, S>::empty(),
            final(self).order() == Seq::<Seq<char>>::empty(),
    {
        let registry = Registry::new();
        *self = registry;
    }

    /// The registered ids, each once, in the registry's order.
    pub fn ids(&self) -> (ids: Vec<String>)
        ensures
            views(ids@) == self.order(),
            lists_each_once(views(ids@), self@.dom()),
    {
        let mut ids: Vec<String> = Vec::new();
        let mut i: usize = 0;
        while i < self.ids.len()
            invariant
                i <= self.ids@.len(),
                ids@.len() == i,
                forall|j: int| 0 <= j < i ==> ids@[j]@ == self.ids@[j]@,
            decreases self.ids@.len() - i,
        {
            ids.push(self.ids[i].clone());
            i += 1;
        }
        proof {
            assert(views(ids@) =~= self.order());
            use_type_invariant(self);
            self.lemma_order_lists_keys();
        }
        ids
    }

    /// The registered ids as the host reads them: comma-joined between
    /// square brackets, in the registry's order.
    pub fn list(&self) -> (text: String)
        ensures
            text@ == bracketed(self.order()),
            lists_each_once(self.order(), self@.dom()),
    {
        proof {
            use_type_invariant(self);
            self.lemma_order_lists_keys();
        }
        bracket(&self.ids)
    }

    /// Whether a source is registered under `id`.
    pub fn contains(&self, id: &String) -> (registered: bool)
        ensures
            registered == self@.contains_key(id@),
    {
        self.position(id).is_some()
    }

    /// How many sources are registered.
    pub fn len(&self) -> (count: usize)
        ensures
            count == self@.len(),
            count == self.order().len(),
    {
        proof {
            use_type_invariant(self);
            self.lemma_order_lists_keys();
        }
        self.ids.len()
    }

    /// Whether no source is registered.
    pub fn is_empty(&self) -> (empty: bool)
        ensures
            empty == (self@ == Map::<Seq<char>, S>::empty()),
    {
        proof {
            use_type_invariant(self);
            self.lemma_order_lists_keys();
            if self.ids@.len() == 0 {
                assert(self@ =~= Map::<Seq<char>, S>::empty());
            }
        }
        self.ids.len() == 0
    }
}

/// The mapping that pairs the `i`-th id of `order` with the `i`-th source.
spec fn paired<S>(order: Seq<Seq<char>>, sources: Seq<S>) -> Map<Seq<char>, S> {
    Map::new(|id: Seq<char>| order.contains(id), |id: Seq<char>| sources[order.index_of(id)])
}

/// In a sequence without duplicates an id is found where it stands.
proof fn lemma_index_of_unique(order: Seq<Seq<char>>, i: int)
    requires
        order.no_duplicates(),
        0 <= i < order.len(),
    ensures
        order.index_of(order[i]) == i,
{
    let j = order.index_of(order[i]);
    assert(0 <= j < order.len() && order[j] == order[i]);
}

/// A new id with its source at the end of both columns: the mapping gains
/// that pair and keeps the rest.
proof fn lemma_paired_push<S>(order: Seq<Seq<char>>, sources: Seq<S>, id: Seq<char>, source: S)
    requires
        order.no_duplicates(),
        order.len() == sources.len(),
        !order.contains(id),
    ensures
        order.push(id).no_duplicates(),
        paired(order.push(id), sources.push(source)) == paired(order, sources).insert(id, source),
{
    let order2 = order.push(id);
    let sources2 = sources.push(source);
    assert(order2.no_duplicates()) by {
        assert forall|i: int, j: int|
            0 <= i < order2.len() && 0 <= j < order2.len() && i != j implies order2[i]
            != order2[j] by {
            if i < order.len() && j < order.len() {
            } else if i < order.len() {
                assert(order[i] == order2[i]);
            } else {
                assert(order[j] == order2[j]);
            }
        }
    }
    assert(order2[order.len() as int] == id);
    assert forall|k: Seq<char>| order2.contains(k) <==> (k == id || order.contains(k)) by {
        if order.contains(k) {
            let i = order.index_of(k);
            assert(order2[i] == k);
        }
        if order2.contains(k) && k != id {
            let i = order2.index_of(k);
            assert(order[i] == k);
        }
    }
    assert forall|k: Seq<char>| order2.contains(k) implies #[trigger] sources2[order2.index_of(k)]
        == paired(order, sources).insert(id, source)[k] by {
        let i = order2.index_of(k);
        lemma_index_of_unique(order2, i);
        if k != id {
            assert(order[i] == k);
            lemma_index_of_unique(order, i);
        }
    }
    assert(paired(order2, sources2) =~= paired(order, sources).insert(id, source));
}

/// Another source in the `i`-th place: the mapping has it under the `i`-th
/// id and keeps the rest.
proof fn lemma_paired_update<S>(order: Seq<Seq<char>>, sources: Seq<S>, i: int, source: S)
    requires
        order.no_duplicates(),
        order.len() == sources.len(),
        0 <= i < order.len(),
    ensures
        paired(order, sources.update(i, source)) == paired(order, sources).insert(
            order[i],
            source,
        ),
{
    let sources2 = sources.update(i, source);
    assert forall|k: Seq<char>| order.contains(k) implies #[trigger] sources2[order.index_of(k)]
        == paired(order, sources).insert(order[i], source)[k] by {
        lemma_index_of_unique(order, i);
    }
    assert(paired(order, sources2) =~= paired(order, sources).insert(order[i], source));
}

/// The `i`-th place taken out of both columns: the mapping loses the
/// `i`-th id and keeps the rest.
proof fn lemma_paired_remove<S>(order: Seq<Seq<char>>, sources: Seq<S>, i: int)
    requires
        order.no_duplicates(),
        order.len() == sources.len(),
        0 <= i < order.len(),
    ensures
        order.remove(i).no_duplicates(),
        paired(order.remove(i), sources.remove(i)) == paired(order, sources).remove(order[i]),
{
    let order2 = order.remove(i);
    let sources2 = sources.remove(i);
    assert forall|a: int, b: int|
        0 <= a < order2.len() && 0 <= b < order2.len() && a != b implies order2[a]
        != order2[b] by {
        let a0 = if a < i { a } else { a + 1 };
        let b0 = if b < i { b } else { b + 1 };
        assert(order2[a] == order[a0] && order2[b] == order[b0]);
    }
    assert forall|k: Seq<char>| order2.contains(k) <==> (k != order[i] && order.contains(k)) by {
        if order2.contains(k) {
            let a = order2.index_of(k);
            let a0 = if a < i { a } else { a + 1 };
            assert(order[a0] == k);
        }
        if order.contains(k) && k != order[i] {
            let a0 = order.index_of(k);
            let a = if a0 < i { a0 } else { a0 - 1 };
            assert(order2[a] == k);
        }
    }
    assert forall|k: Seq<char>| order2.contains(k) implies #[trigger] sources2[order2.index_of(k)]
        == paired(order, sources)[k] by {
        let a = order2.index_of(k);
        let a0 = if a < i { a } else { a + 1 };
        assert(order[a0] == k);
        lemma_index_of_unique(order, a0);
    }
    assert(paired(order2, sources2) =~= paired(order, sources).remove(order[i]));
}

} // verus!
