//! The service registry: a flat, key-addressed container of shared service
//! instances, plus the one-shot global slot that can publish one registry
//! process-wide.
use std::sync::Arc;
use vstd::prelude::*;

verus! {

/// Why a registry operation failed. Every variant marks a static
/// configuration defect, never a transient fault.
#[derive(Clone, Copy, Debug, PartialEq, Eq, Structural)]
pub enum ServiceError {
    /// Resolution was requested for a key with no entry.
    ServiceNotFound,
    /// `build` was called on a registry with zero entries.
    EmptyRegistry,
    /// The global slot was already initialized.
    GlobalAlreadySet,
    /// The global slot was read before any registry was published.
    GlobalNotSet,
}

/// One registered service: a key paired with a shared handle to the instance.
pub struct ServiceEntry<V> {
    pub key: u64,
    pub value: Arc<V>,
}

/// The mapping that a sequence of entries denotes: later entries shadow
/// earlier ones with the same key (last write wins).
pub open spec fn entries_map<V>(s: Seq<ServiceEntry<V>>) -> Map<u64, V>
    decreases s.len(),
{
    if s.len() == 0 {
        Map::empty()
    } else {
        entries_map(s.drop_last()).insert(s.last().key, *s.last().value)
    }
}

/// A registry of services keyed by a caller-assigned type key. Its abstract
/// value is the map from key to stored instance.
pub struct ServiceProvider<V> {
    entries: Vec<ServiceEntry<V>>,
}

impl<V> View for ServiceProvider<V> {
    type V = Map<u64, V>;

    closed spec fn view(&self) -> Map<u64, V> {
        entries_map(self.entries@)
    }
}

/// Relies on std's `Arc::clone`: the clone is a new handle to the same
/// allocation, so it carries the same value as the original.
#[verifier::external_body]
fn clone_handle<T>(a: &Arc<T>) -> (r: Arc<T>)
    ensures
        *r == **a,
{
    Arc::clone(a)
}

/// If no entry of `s` carries key `k`, the denoted map has no entry at `k`.
proof fn lemma_entries_map_absent<V>(s: Seq<ServiceEntry<V>>, k: u64)
    requires
        forall|j: int| 0 <= j < s.len() ==> (#[trigger] s[j]).key != k,
    ensures
        !entries_map(s).contains_key(k),
    decreases s.len(),
{
    if s.len() > 0 {
        lemma_entries_map_absent(s.drop_last(), k);
    }
}

/// The last entry of `s` carrying key `k` determines the denoted map at `k`.
proof fn lemma_entries_map_last<V>(s: Seq<ServiceEntry<V>>, k: u64, i: int)
    requires
        0 <= i < s.len(),
        s[i].key == k,
        forall|j: int| i < j < s.len() ==> (#[trigger] s[j]).key != k,
    ensures
        entries_map(s).contains_key(k),
        entries_map(s)[k] == *s[i].value,
    decreases s.len(),
{
    if i < s.len() - 1 {
        lemma_entries_map_last(s.drop_last(), k, i);
    }
}

impl<V> ServiceProvider<V> {
    /// An empty registry: no key resolves.
    pub fn new() -> (r: Self)
        ensures
            r@ == Map::<u64, V>::empty(),
    {
        ServiceProvider { entries: Vec::new() }
    }

    /// Looks up the entry for `key` and returns a shared handle to the stored
    /// instance, or `ServiceNotFound` exactly when no entry exists for `key`.
    pub fn resolve(&self, key: u64) -> (r: Result<Arc<V>, ServiceError>)
        ensures
            self@.contains_key(key) ==> (r matches Ok(v) && *v == self@[key]),
            !self@.contains_key(key) ==> r == Err::<Arc<V>, ServiceError>(
                ServiceError::ServiceNotFound,
            ),
    {
        let mut i: usize = self.entries.len();
        while i > 0
            invariant
                i <= self.entries@.len(),
                forall|j: int|
                    i <= j < self.entries@.len() ==> (#[trigger] self.entries@[j]).key != key,
            decreases i,
        {
            i = i - 1;
            if self.entries[i].key == key {
                proof {
                    lemma_entries_map_last(self.entries@, key, i as int);
                }
                return Ok(clone_handle(&self.entries[i].value));
            }
        }
        proof {
            lemma_entries_map_absent(self.entries@, key);
        }
        Err(ServiceError::ServiceNotFound)
    }

    /// Constructs a value by invoking `factory` on the registry as it exists
    /// at the moment of this call (so the factory may resolve
    /// previously-registered dependencies), then stores it under `key`,
    /// wrapped for shared access. Overwriting an existing key is no error:
    /// the last registration for a given key wins.
    pub fn register<F: Fn(&ServiceProvider<V>) -> V>(&mut self, key: u64, factory: F)
        requires
            call_requires(factory, (&*old(self),)),
        ensures
            exists|v: V|
                #[trigger] call_ensures(factory, (&*old(self),), v) && final(self)@ == old(
                    self,
                )@.insert(key, v),
    {
        let service = factory(&*self);
        self.entries.push(ServiceEntry { key, value: Arc::new(service) });
        proof {
            assert(self.entries@.drop_last() =~= old(self).entries@);
        }
    }

    /// Removes all entries: afterwards no key resolves.
    pub fn clear(&mut self)
        ensures
            final(self)@ == Map::<u64, V>::empty(),
    {
        self.entries.clear();
    }

    /// Removes the entry for `key` if present; every other key is untouched.
    pub fn remove_service(&mut self, key: u64)
        ensures
            final(self)@ == old(self)@.remove(key),
    {
        let ghost s = self.entries@;
        let mut kept: Vec<ServiceEntry<V>> = Vec::new();
        let mut i: usize = 0;
        while i < self.entries.len()
            invariant
                i <= s.len(),
                self.entries@ == s,
                entries_map(kept@) == entries_map(s.take(i as int)).remove(key),
            decreases s.len() - i,
        {
            let ghost kept_before = kept@;
            if self.entries[i].key != key {
                let e = ServiceEntry {
                    key: self.entries[i].key,
                    value: clone_handle(&self.entries[i].value),
                };
                kept.push(e);
                proof {
                    assert(kept@.drop_last() =~= kept_before);
                }
            }
            proof {
                assert(s.take(i + 1).drop_last() =~= s.take(i as int));
                assert(entries_map(kept@) =~= entries_map(s.take(i + 1)).remove(key));
            }
            i = i + 1;
        }
        proof {
            assert(s.take(s.len() as int) =~= s);
        }
        self.entries = kept;
    }

    /// Validates that the registry is non-empty and returns an independently
    /// owned copy whose resolutions match this registry's. Fails with
    /// `EmptyRegistry` exactly when zero services are registered.
    pub fn build(&self) -> (r: Result<ServiceProvider<V>, ServiceError>)
        ensures
            match r {
                Ok(p) => self@ != Map::<u64, V>::empty() && p@ == self@,
                Err(e) => e == ServiceError::EmptyRegistry && self@ == Map::<u64, V>::empty(),
            },
    {
        if self.entries.len() == 0 {
            proof {
                assert(self.entries@ =~= Seq::<ServiceEntry<V>>::empty());
            }
            return Err(ServiceError::EmptyRegistry);
        }
        let ghost s = self.entries@;
        proof {
            assert(self@.contains_key(s.last().key));
        }
        let mut copies: Vec<ServiceEntry<V>> = Vec::new();
        let mut i: usize = 0;
        while i < self.entries.len()
            invariant
                i <= s.len(),
                self.entries@ == s,
                entries_map(copies@) == entries_map(s.take(i as int)),
            decreases s.len() - i,
        {
            let ghost copies_before = copies@;
            let e = ServiceEntry {
                key: self.entries[i].key,
                value: clone_handle(&self.entries[i].value),
            };
            copies.push(e);
            proof {
                assert(copies@.drop_last() =~= copies_before);
                assert(s.take(i + 1).drop_last() =~= s.take(i as int));
            }
            i = i + 1;
        }
        proof {
            assert(s.take(s.len() as int) =~= s);
        }
        Ok(ServiceProvider { entries: copies })
    }
}

/// The process-wide holder of at most one published registry: unset at the
/// start, set at most once, then read many times.
pub struct GlobalSlot<V> {
    registry: Option<ServiceProvider<V>>,
}

impl<V> View for GlobalSlot<V> {
    type V = Option<Map<u64, V>>;

    closed spec fn view(&self) -> Option<Map<u64, V>> {
        match self.registry {
            Some(p) => Some(p@),
            None => None,
        }
    }
}

impl<V> GlobalSlot<V> {
    /// An empty slot: no registry has been published yet.
    pub fn new() -> (r: Self)
        ensures
            r@ is None,
    {
        GlobalSlot { registry: None }
    }
}

impl<V> ServiceProvider<V> {
    /// Publishes this registry into the slot. One-shot: fails with
    /// `GlobalAlreadySet`, leaving the slot untouched, exactly when a registry
    /// was already published.
    pub fn set_as_global(self, slot: &mut GlobalSlot<V>) -> (r: Result<(), ServiceError>)
        ensures
            match r {
                Ok(()) => old(slot)@ is None && final(slot)@ == Some(self@),
                Err(e) => e == ServiceError::GlobalAlreadySet && old(slot)@ is Some
                    && final(slot)@ == old(slot)@,
            },
    {
        if slot.registry.is_some() {
            return Err(ServiceError::GlobalAlreadySet);
        }
        slot.registry = Some(self);
        Ok(())
    }

    /// Returns a shared view of the published registry, or `GlobalNotSet`
    /// exactly when no registry was ever published into the slot.
    pub fn get_global(slot: &GlobalSlot<V>) -> (r: Result<&ServiceProvider<V>, ServiceError>)
        ensures
            match r {
                Ok(p) => slot@ == Some(p@),
                Err(e) => e == ServiceError::GlobalNotSet && slot@ is None,
            },
    {
        match &slot.registry {
            Some(p) => Ok(p),
            None => Err(ServiceError::GlobalNotSet),
        }
    }
}

/// The registry contents after a run of registrations that all use `key`,
/// storing the values of `vs` in order, starting from contents `m`.
pub open spec fn insert_all<V>(m: Map<u64, V>, key: u64, vs: Seq<V>) -> Map<u64, V>
    decreases vs.len(),
{
    if vs.len() == 0 {
        m
    } else {
        insert_all(m, key, vs.drop_last()).insert(key, vs.last())
    }
}

/// Law: round trip. A registration stores its factory's output `v` under
/// `key` (per `register`'s contract, the contents become `m.insert(key, v)`),
/// and resolving `key` on such contents yields exactly `v` (per `resolve`'s
/// contract, which returns the contents at `key`).
pub proof fn lemma_register_resolve_round_trip<V>(m: Map<u64, V>, key: u64, v: V)
    ensures
        m.insert(key, v).contains_key(key),
        m.insert(key, v)[key] == v,
{
}

/// Law: last write wins. Any run of one or more registrations of the same
/// `key` leaves the registry exactly as a single registration of the last
/// value would: resolving `key` yields the last factory's output, and no
/// other key is affected.
pub proof fn lemma_last_registration_wins<V>(m: Map<u64, V>, key: u64, vs: Seq<V>)
    requires
        vs.len() >= 1,
    ensures
        insert_all(m, key, vs) == m.insert(key, vs.last()),
    decreases vs.len(),
{
    if vs.len() == 1 {
        assert(vs.drop_last().len() == 0);
        assert(insert_all(m, key, vs.drop_last()) == m);
    } else {
        lemma_last_registration_wins(m, key, vs.drop_last());
        assert(insert_all(m, key, vs) =~= m.insert(key, vs.last()));
    }
}

/// Law: all readers of one published slot observe the same registry. Any two
/// contents read from the same slot state (as `get_global`'s contract
/// reports them) are equal, so every key resolves identically for every
/// reader.
pub proof fn lemma_global_reads_agree<V>(
    slot_contents: Option<Map<u64, V>>,
    m1: Map<u64, V>,
    m2: Map<u64, V>,
)
    requires
        slot_contents == Some(m1),
        slot_contents == Some(m2),
    ensures
        m1 == m2,
{
}

} // verus!
