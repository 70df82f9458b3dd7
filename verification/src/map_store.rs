use vstd::prelude::*;
use ic_stable_structures::memory_manager::VirtualMemory;
use ic_stable_structures::{DefaultMemoryImpl, StableBTreeMap};
use crate::region::MemoryRegion;

verus! {

/// A persistent map from identifiers to encoded records, ordered by
/// identifier, stored inside its own region.
#[verifier::external_body]
pub struct ByteMap {
    map: StableBTreeMap<u64, Vec<u8>, VirtualMemory<DefaultMemoryImpl>>,
}

/// The key-to-bytes association the map currently holds.
pub uninterp spec fn map_contents(m: ByteMap) -> Map<u64, Seq<u8>>;

impl ByteMap {
    /// Relies on `StableBTreeMap::init`: takes over the region, keeping
    /// whatever association the region already holds.
    #[verifier::external_body]
    pub fn init(region: MemoryRegion) -> (r: ByteMap) {
        ByteMap { map: StableBTreeMap::init(region.mem) }
    }

    /// Relies on `StableBTreeMap::get`: point lookup with no side effect.
    #[verifier::external_body]
    pub fn get(&self, key: u64) -> (r: Option<Vec<u8>>)
        ensures
            r is Some <==> map_contents(*self).contains_key(key),
            r matches Some(v) ==> v@ == map_contents(*self)[key],
    {
        self.map.get(&key)
    }

    /// Relies on `StableBTreeMap::insert`: inserts or overwrites the value
    /// under the key and returns the previous value, if any.
    #[verifier::external_body]
    pub fn insert(&mut self, key: u64, value: Vec<u8>) -> (r: Option<Vec<u8>>)
        ensures
            map_contents(*final(self)) == map_contents(*old(self)).insert(key, value@),
            r is Some <==> map_contents(*old(self)).contains_key(key),
            r matches Some(prev) ==> prev@ == map_contents(*old(self))[key],
    {
        self.map.insert(key, value)
    }

    /// Relies on `StableBTreeMap::remove`: removes the value under the key
    /// and returns it, or returns nothing when the key is absent.
    #[verifier::external_body]
    pub fn remove(&mut self, key: u64) -> (r: Option<Vec<u8>>)
        ensures
            map_contents(*final(self)) == map_contents(*old(self)).remove(key),
            r is Some <==> map_contents(*old(self)).contains_key(key),
            r matches Some(prev) ==> prev@ == map_contents(*old(self))[key],
    {
        self.map.remove(&key)
    }

    /// Relies on `StableBTreeMap::len`: the number of entries the map
    /// holds.
    #[verifier::external_body]
    pub fn len(&self) -> (r: u64)
        ensures
            r as nat == map_contents(*self).dom().len(),
    {
        self.map.len()
    }

    /// Relies on `StableBTreeMap::iter`: a full traversal of the committed
    /// state in ascending key order. The result lists exactly the held
    /// entries, each key once, keys strictly increasing.
    #[verifier::external_body]
    pub fn entries(&self) -> (r: Vec<(u64, Vec<u8>)>)
        ensures
            forall|i: int|
                0 <= i < r@.len() ==> map_contents(*self).contains_key(#[trigger] r@[i].0)
                    && map_contents(*self)[r@[i].0] == r@[i].1@,
            forall|i: int, j: int| 0 <= i < j < r@.len() ==> r@[i].0 < r@[j].0,
            forall|k: u64|
                map_contents(*self).contains_key(k) ==> exists|i: int|
                    0 <= i < r@.len() && #[trigger] r@[i].0 == k,
    {
        self.map.iter().collect()
    }
}

} // verus!
