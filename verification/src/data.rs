//! The type-keyed store of application data.
//!
//! The store keeps one value for each type: a value registered for a type
//! that already has one takes its place.

use vstd::prelude::*;
use crate::router::TypeKey;

verus! {

/// Names a value that the application's owner holds.
pub type DataId = u64;

/// Names an asynchronous constructor of application data.
pub type FactoryId = u64;

/// A store after `entries` were registered in it, in their order: each
/// entry puts its value under its key, so that of two entries with one key
/// the later one stays.
pub open spec fn store_with(base: Map<TypeKey, DataId>, entries: Seq<(TypeKey, DataId)>) -> Map<
    TypeKey,
    DataId,
>
    decreases entries.len(),
{
    if entries.len() == 0 {
        base
    } else {
        store_with(base, entries.drop_last()).insert(entries.last().0, entries.last().1)
    }
}

/// An entry that no later entry shares its key with is the one found under
/// that key.
pub proof fn lemma_last_entry_wins(
    base: Map<TypeKey, DataId>,
    entries: Seq<(TypeKey, DataId)>,
    i: int,
)
    requires
        0 <= i < entries.len(),
        forall|k: int| i < k < entries.len() ==> (#[trigger] entries[k]).0 != entries[i].0,
    ensures
        store_with(base, entries).contains_key(entries[i].0),
        store_with(base, entries)[entries[i].0] == entries[i].1,
    decreases entries.len(),
{
    if i < entries.len() - 1 {
        let before = entries.drop_last();
        assert(before[i] == entries[i]);
        assert forall|k: int| i < k < before.len() implies (#[trigger] before[k]).0
            != before[i].0 by {
            assert(before[k] == entries[k]);
        }
        lemma_last_entry_wins(base, before, i);
        assert(entries.last().0 != entries[i].0);
    }
}

/// Under a key that no entry has, the store holds what it held before.
pub proof fn lemma_unregistered_key(
    base: Map<TypeKey, DataId>,
    entries: Seq<(TypeKey, DataId)>,
    key: TypeKey,
)
    requires
        forall|k: int| 0 <= k < entries.len() ==> (#[trigger] entries[k]).0 != key,
    ensures
        store_with(base, entries).contains_key(key) == base.contains_key(key),
        base.contains_key(key) ==> store_with(base, entries)[key] == base[key],
    decreases entries.len(),
{
    if entries.len() > 0 {
        let before = entries.drop_last();
        assert forall|k: int| 0 <= k < before.len() implies (#[trigger] before[k]).0 != key by {
            assert(before[k] == entries[k]);
        }
        lemma_unregistered_key(base, before, key);
        assert(entries.last().0 != key);
    }
}

/// What the factory at position `i` made: nothing, where the factory
/// failed or no outcome is recorded for it.
pub open spec fn outcome_at(outcomes: Seq<Option<DataId>>, i: int) -> Option<DataId> {
    if 0 <= i < outcomes.len() {
        outcomes[i]
    } else {
        None
    }
}

/// A store after the first `n` data factories have run: the value that a
/// factory made is registered under the factory's type; a factory that
/// failed leaves the store as it was.
pub open spec fn install(
    base: Map<TypeKey, DataId>,
    factories: Seq<(TypeKey, FactoryId)>,
    outcomes: Seq<Option<DataId>>,
    n: int,
) -> Map<TypeKey, DataId>
    decreases n,
{
    if n <= 0 {
        base
    } else {
        let before = install(base, factories, outcomes, n - 1);
        match outcome_at(outcomes, n - 1) {
            Some(value) => before.insert(factories[n - 1].0, value),
            None => before,
        }
    }
}

/// Which types have a value after the data factories have run: those that
/// had one before, and those for which a factory made one.
pub proof fn lemma_install_keys(
    base: Map<TypeKey, DataId>,
    factories: Seq<(TypeKey, FactoryId)>,
    outcomes: Seq<Option<DataId>>,
    n: int,
    key: TypeKey,
)
    requires
        0 <= n <= factories.len(),
    ensures
        install(base, factories, outcomes, n).contains_key(key) <==> base.contains_key(key)
            || exists|i: int|
            0 <= i < n && (#[trigger] factories[i]).0 == key && outcome_at(outcomes, i) is Some,
    decreases n,
{
    if n > 0 {
        lemma_install_keys(base, factories, outcomes, n - 1, key);
        if exists|i: int|
            0 <= i < n - 1 && (#[trigger] factories[i]).0 == key && outcome_at(outcomes, i) is Some {
            let i = choose|i: int|
                0 <= i < n - 1 && (#[trigger] factories[i]).0 == key && outcome_at(outcomes, i)
                    is Some;
            assert(0 <= i < n && factories[i].0 == key && outcome_at(outcomes, i) is Some);
        }
        if factories[n - 1].0 == key && outcome_at(outcomes, n - 1) is Some {
            assert(0 <= n - 1 < n && factories[n - 1].0 == key && outcome_at(outcomes, n - 1)
                is Some);
        }
    }
}

/// The value that a factory made is the one found under its type, unless a
/// later factory made one for the same type.
pub proof fn lemma_install_later_wins(
    base: Map<TypeKey, DataId>,
    factories: Seq<(TypeKey, FactoryId)>,
    outcomes: Seq<Option<DataId>>,
    n: int,
    i: int,
)
    requires
        0 <= i < n <= factories.len(),
        outcome_at(outcomes, i) is Some,
        forall|k: int|
            i < k < n ==> (#[trigger] factories[k]).0 != factories[i].0 || outcome_at(outcomes, k)
                is None,
    ensures
        install(base, factories, outcomes, n).contains_key(factories[i].0),
        install(base, factories, outcomes, n)[factories[i].0] == outcome_at(outcomes, i)->0,
    decreases n,
{
    if i < n - 1 {
        lemma_install_later_wins(base, factories, outcomes, n - 1, i);
        assert(factories[n - 1].0 != factories[i].0 || outcome_at(outcomes, n - 1) is None);
    }
}

/// A store of application data, keyed by type.
pub struct Extensions {
    entries: Vec<(TypeKey, DataId)>,
}

impl View for Extensions {
    type V = Map<TypeKey, DataId>;

    closed spec fn view(&self) -> Map<TypeKey, DataId> {
        store_with(Map::empty(), self.entries@)
    }
}

impl Extensions {
    /// An empty store.
    pub fn new() -> (store: Extensions)
        ensures
            store@ == Map::<TypeKey, DataId>::empty(),
    {
        Extensions { entries: Vec::new() }
    }

    /// Puts `value` under `key`, in place of what was there.
    pub fn insert(&mut self, key: TypeKey, value: DataId)
        ensures
            final(self)@ == old(self)@.insert(key, value),
    {
        assert(self.entries@.push((key, value)).drop_last() =~= self.entries@);
        self.entries.push((key, value));
    }

    /// The value under `key`.
    pub fn get(&self, key: TypeKey) -> (found: Option<DataId>)
        ensures
            found == if self@.contains_key(key) {
                Some(self@[key])
            } else {
                None::<DataId>
            },
    {
        let mut i: usize = self.entries.len();
        while i > 0
            invariant
                i <= self.entries.len(),
                forall|k: int| i <= k < self.entries.len() ==> (#[trigger] self.entries@[k]).0 != key,
            decreases i,
        {
            i -= 1;
            if self.entries[i].0 == key {
                proof {
                    lemma_last_entry_wins(Map::empty(), self.entries@, i as int);
                }
                return Some(self.entries[i].1);
            }
        }
        proof {
            lemma_unregistered_key(Map::empty(), self.entries@, key);
        }
        None
    }

    /// Registers `entries`, in their order.
    pub fn extend(&mut self, entries: &Vec<(TypeKey, DataId)>)
        ensures
            final(self)@ == store_with(old(self)@, entries@),
    {
        let mut i: usize = 0;
        while i < entries.len()
            invariant
                i <= entries.len(),
                self@ == store_with(old(self)@, entries@.take(i as int)),
            decreases entries.len() - i,
        {
            assert(entries@.take(i + 1).drop_last() =~= entries@.take(i as int));
            self.insert(entries[i].0, entries[i].1);
            i += 1;
        }
        assert(entries@.take(entries.len() as int) =~= entries@);
    }

    /// Registers what the data factories made. Of `outcomes`, the one at a
    /// factory's position holds the value that it made, or nothing where it
    /// failed; a factory without an outcome counts as failed.
    pub fn install(&mut self, factories: &Vec<(TypeKey, FactoryId)>, outcomes: &Vec<Option<DataId>>)
        ensures
            final(self)@ == install(old(self)@, factories@, outcomes@, factories.len() as int),
    {
        let mut i: usize = 0;
        while i < factories.len()
            invariant
                i <= factories.len(),
                self@ == install(old(self)@, factories@, outcomes@, i as int),
            decreases factories.len() - i,
        {
            if i < outcomes.len() {
                match outcomes[i] {
                    Some(value) => {
                        self.insert(factories[i].0, value);
                    },
                    None => {},
                }
            }
            i += 1;
        }
    }

    /// Whether there is a value under `key`.
    pub fn contains(&self, key: TypeKey) -> (r: bool)
        ensures
            r == self@.contains_key(key),
    {
        self.get(key).is_some()
    }

    /// A fresh copy of the store.
    pub fn duplicate(&self) -> (store: Extensions)
        ensures
            store@ == self@,
    {
        let mut entries: Vec<(TypeKey, DataId)> = Vec::new();
        let mut i: usize = 0;
        while i < self.entries.len()
            invariant
                i <= self.entries.len(),
                entries@ == self.entries@.take(i as int),
            decreases self.entries.len() - i,
        {
            entries.push(self.entries[i]);
            i += 1;
            assert(entries@ =~= self.entries@.take(i as int));
        }
        assert(self.entries@.take(self.entries.len() as int) =~= self.entries@);
        Extensions { entries }
    }
}

/// The values that a handler asked for, in the order of its extractors, or
/// the first type among them that the store has no value for.
pub open spec fn resolve(store: Map<TypeKey, DataId>, keys: Seq<TypeKey>) -> Result<
    Seq<DataId>,
    TypeKey,
>
    decreases keys.len(),
{
    if keys.len() == 0 {
        Ok(Seq::empty())
    } else {
        match resolve(store, keys.drop_last()) {
            Err(missing) => Err(missing),
            Ok(values) => if store.contains_key(keys.last()) {
                Ok(values.push(store[keys.last()]))
            } else {
                Err(keys.last())
            },
        }
    }
}

/// What `resolve` returns: a value for every key where the store has them
/// all, else the first key that it lacks.
pub proof fn lemma_resolve(store: Map<TypeKey, DataId>, keys: Seq<TypeKey>)
    ensures
        match resolve(store, keys) {
            Ok(values) => values.len() == keys.len() && forall|i: int|
                0 <= i < keys.len() ==> store.contains_key(#[trigger] keys[i]) && values[i]
                    == store[keys[i]],
            Err(missing) => exists|i: int|
                0 <= i < keys.len() && #[trigger] keys[i] == missing && !store.contains_key(
                    missing,
                ) && forall|k: int| 0 <= k < i ==> store.contains_key(#[trigger] keys[k]),
        },
    decreases keys.len(),
{
    if keys.len() > 0 {
        let before = keys.drop_last();
        lemma_resolve(store, before);
        match resolve(store, before) {
            Err(missing) => {
                let i = choose|i: int|
                    0 <= i < before.len() && #[trigger] before[i] == missing
                        && !store.contains_key(missing) && forall|k: int|
                        0 <= k < i ==> store.contains_key(#[trigger] before[k]);
                assert(keys[i] == missing);
                assert forall|k: int| 0 <= k < i implies store.contains_key(
                    #[trigger] keys[k],
                ) by {
                    assert(before[k] == keys[k]);
                }
            },
            Ok(values) => {
                if store.contains_key(keys.last()) {
                    let all = values.push(store[keys.last()]);
                    assert forall|i: int| 0 <= i < keys.len() implies store.contains_key(
                        #[trigger] keys[i],
                    ) && all[i] == store[keys[i]] by {
                        if i < before.len() {
                            assert(before[i] == keys[i]);
                        }
                    }
                } else {
                    let i = keys.len() - 1;
                    assert(keys[i] == keys.last());
                    assert forall|k: int| 0 <= k < i implies store.contains_key(
                        #[trigger] keys[k],
                    ) by {
                        assert(before[k] == keys[k]);
                    }
                }
            },
        }
    }
}

impl Extensions {
    /// Looks up every key of `keys`.
    pub fn resolve(&self, keys: &Vec<TypeKey>) -> (found: Result<Vec<DataId>, TypeKey>)
        ensures
            match found {
                Ok(values) => resolve(self@, keys@) == Ok::<Seq<DataId>, TypeKey>(values@),
                Err(missing) => resolve(self@, keys@) == Err::<Seq<DataId>, TypeKey>(missing),
            },
    {
        let mut values: Vec<DataId> = Vec::new();
        let mut i: usize = 0;
        while i < keys.len()
            invariant
                i <= keys.len(),
                resolve(self@, keys@.take(i as int)) == Ok::<Seq<DataId>, TypeKey>(values@),
            decreases keys.len() - i,
        {
            assert(keys@.take(i + 1).drop_last() =~= keys@.take(i as int));
            match self.get(keys[i]) {
                Some(value) => {
                    values.push(value);
                },
                None => {
                    proof {
                        lemma_resolve_prefix_fails(self@, keys@, i + 1);
                    }
                    return Err(keys[i]);
                },
            }
            i += 1;
        }
        assert(keys@.take(keys.len() as int) =~= keys@);
        Ok(values)
    }
}

/// A lookup that fails on the first `n` keys fails in the same way on all
/// of them.
proof fn lemma_resolve_prefix_fails(store: Map<TypeKey, DataId>, keys: Seq<TypeKey>, n: int)
    requires
        0 <= n <= keys.len(),
        resolve(store, keys.take(n)) is Err,
    ensures
        resolve(store, keys) == resolve(store, keys.take(n)),
    decreases keys.len() - n,
{
    if n < keys.len() {
        assert(keys.take(n + 1).drop_last() =~= keys.take(n));
        lemma_resolve_prefix_fails(store, keys, n + 1);
    } else {
        assert(keys.take(n) =~= keys);
    }
}

} // verus!
