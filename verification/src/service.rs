use vstd::prelude::*;
use vstd::string::*;
use vstd::utf8::encode_utf8;
use crate::cell_store::{cell_value, ScalarCell};
use crate::codec::{
    decode_record, encode_record, fits_bound, spec_decode, spec_encode, FIXED_FIELDS_LEN,
    MAX_ENCODED_LEN,
};
use crate::map_store::{map_contents, ByteMap};
use crate::record::{Error, Record, RecordInput, RecordView};
use crate::region::RegionAllocator;
use crate::text::{dec_chars, u64_to_string};

verus! {

/// Region holding the 8-byte identifier counter.
pub const COUNTER_REGION_ID: u8 = 0;

/// Region holding the ordered map of identifier to encoded record.
pub const MAP_REGION_ID: u8 = 1;

/// The storage context: the identifier counter and the record map, each
/// owning its own region of the persistent linear memory. It is constructed
/// once at process start and passed into every service operation.
pub struct StorageContext {
    counter: ScalarCell,
    map: ByteMap,
}

/// Message reported when a fetch finds no record under the identifier.
pub open spec fn fetch_not_found_msg(id: u64) -> Seq<char> {
    "a record with id="@ + dec_chars(id as int) + " not found"@
}

/// Message reported when an update finds no record under the identifier.
pub open spec fn update_not_found_msg(id: u64) -> Seq<char> {
    "couldn't update a record with id="@ + dec_chars(id as int) + ". record not found"@
}

/// Message reported when a delete finds no record under the identifier.
pub open spec fn delete_not_found_msg(id: u64) -> Seq<char> {
    "couldn't delete a record with id="@ + dec_chars(id as int) + ". record not found."@
}

fn build_msg(prefix: &str, id: u64, suffix: &str) -> (s: String)
    ensures
        s@ == prefix@ + dec_chars(id as int) + suffix@,
{
    let mut s = String::from_str(prefix);
    let digits = u64_to_string(id);
    s.append(digits.as_str());
    s.append(suffix);
    proof {
        assert(s@ =~= prefix@ + dec_chars(id as int) + suffix@);
    }
    s
}

impl StorageContext {
    /// The association from identifier to encoded record that the map
    /// region currently holds.
    pub closed spec fn records(&self) -> Map<u64, Seq<u8>> {
        map_contents(self.map)
    }

    /// The next identifier the service will assign.
    pub closed spec fn next_id(&self) -> u64 {
        cell_value(self.counter)
    }

    /// Sets the storage layer up over the process's linear memory: the
    /// counter claims one region, the map another, fixed across restarts.
    pub fn init() -> (res: Result<StorageContext, Error>)
        ensures
            res matches Err(e) ==> e is Fatal,
    {
        let alloc = RegionAllocator::new();
        let counter_region = alloc.region(COUNTER_REGION_ID);
        let map_region = alloc.region(MAP_REGION_ID);
        let counter = match ScalarCell::init(counter_region, 0) {
            Ok(c) => c,
            Err(e) => {
                return Err(e);
            },
        };
        let map = ByteMap::init(map_region);
        Ok(StorageContext { counter, map })
    }

    /// Encodes the record and stores it under its identifier, inserting or
    /// overwriting; a record whose encoded form exceeds the codec's bound
    /// is rejected before it reaches the region.
    pub fn do_insert(&mut self, record: &Record) -> (res: Result<(), Error>)
        ensures
            final(self).next_id() == old(self).next_id(),
            res is Ok <==> fits_bound(record@),
            res is Ok ==> final(self).records() == old(self).records().insert(
                record.id,
                spec_encode(record@),
            ),
            res matches Err(e) ==> e is SizeExceeded && final(self).records() == old(self).records(),
    {
        match encode_record(record) {
            Ok(bytes) => {
                let _prev = self.map.insert(record.id, bytes);
                Ok(())
            },
            Err(e) => Err(e),
        }
    }

    /// Point lookup that folds both failure modes into absence: a missing
    /// identifier and bytes that do not decode both yield nothing.
    pub fn _get_message(&self, id: &u64) -> (res: Option<Record>)
        ensures
            res matches Some(r) ==> self.records().contains_key(*id) && Some(r@) == spec_decode(
                self.records()[*id],
            ),
            res is None <==> (!self.records().contains_key(*id) || spec_decode(
                self.records()[*id],
            ) is None),
    {
        match self.map.get(*id) {
            Some(bytes) => match decode_record(bytes.as_slice()) {
                Ok(r) => Some(r),
                Err(_) => None,
            },
            None => None,
        }
    }

    /// Point lookup. Absence is reported with a message naming the
    /// identifier; bytes that do not decode are reported distinctly.
    pub fn fetch(&self, id: u64) -> (res: Result<Record, Error>)
        ensures
            !self.records().contains_key(id) ==> (res matches Err(e) && e matches
                Error::NotFound { msg } && msg@ == fetch_not_found_msg(id)),
            self.records().contains_key(id) && spec_decode(self.records()[id]) is None ==> (
            res matches Err(e) && e is Decode),
            self.records().contains_key(id) && spec_decode(self.records()[id]) is Some ==> (
            res matches Ok(r) && Some(r@) == spec_decode(self.records()[id])),
    {
        match self.map.get(id) {
            Some(bytes) => match decode_record(bytes.as_slice()) {
                Ok(r) => Ok(r),
                Err(e) => Err(e),
            },
            None => Err(
                Error::NotFound { msg: build_msg("a record with id=", id, " not found") },
            ),
        }
    }

    /// Mints the next identifier, builds the record with the input fields
    /// and the given creation time, persists it, and returns it. An input
    /// whose record would exceed the codec's bound is rejected before any
    /// region is touched; an exhausted counter or a failed region write is
    /// a structural failure and also leaves the storage unchanged.
    pub fn create(&mut self, input: RecordInput, now: u64) -> (res: Result<Record, Error>)
        ensures
            res matches Ok(r) ==> r@ == (RecordView {
                id: old(self).next_id(),
                category: input.category@,
                price: input.price,
                created_at: now,
                updated_at: None,
            }),
            res matches Ok(r) ==> final(self).next_id() == old(self).next_id() + 1 && final(self).records() == old(self).records().insert(r@.id, spec_encode(r@)),
            res is Err ==> final(self).records() == old(self).records() && final(self).next_id()
                == old(self).next_id(),
            res matches Err(e) ==> (e is SizeExceeded || e is Fatal),
            (res matches Err(e) && e is SizeExceeded) <==> FIXED_FIELDS_LEN + encode_utf8(
                input.category@,
            ).len() > MAX_ENCODED_LEN,
            old(self).next_id() == u64::MAX && FIXED_FIELDS_LEN + encode_utf8(
                input.category@,
            ).len() <= MAX_ENCODED_LEN ==> (res matches Err(e) && e is Fatal),
    {
        let cat_len = input.category.as_str().as_bytes_vec().len();
        if cat_len > (MAX_ENCODED_LEN - FIXED_FIELDS_LEN) as usize {
            return Err(Error::SizeExceeded);
        }
        let id = self.counter.get();
        if id == u64::MAX {
            return Err(Error::Fatal);
        }
        match self.counter.set(id + 1) {
            Ok(_prev) => {},
            Err(e) => {
                return Err(e);
            },
        }
        let record = Record {
            id,
            category: input.category,
            price: input.price,
            created_at: now,
            updated_at: None,
        };
        match self.do_insert(&record) {
            Ok(()) => Ok(record),
            Err(_) => {
                // the size check above rules a rejection out
                proof {
                    assert(false);
                }
                Err(Error::Fatal)
            },
        }
    }

    /// Overwrites the category and price of the record under the
    /// identifier, stamps the update time, and leaves the identifier and
    /// creation time unchanged. Absence, undecodable bytes and an
    /// oversized replacement are each reported, with the storage
    /// unchanged.
    pub fn update(&mut self, id: u64, input: RecordInput, now: u64) -> (res: Result<Record, Error>)
        ensures
            final(self).next_id() == old(self).next_id(),
            res is Err ==> final(self).records() == old(self).records(),
            !old(self).records().contains_key(id) ==> (res matches Err(e) && e matches
                Error::NotFound { msg } && msg@ == update_not_found_msg(id)),
            old(self).records().contains_key(id) && spec_decode(old(self).records()[id]) is None
                ==> (res matches Err(e) && e is Decode),
            old(self).records().contains_key(id) && spec_decode(old(self).records()[id]) is Some
                && FIXED_FIELDS_LEN + encode_utf8(input.category@).len() > MAX_ENCODED_LEN ==> (
            res matches Err(e) && e is SizeExceeded),
            old(self).records().contains_key(id) && spec_decode(old(self).records()[id]) is Some
                && FIXED_FIELDS_LEN + encode_utf8(input.category@).len() <= MAX_ENCODED_LEN
                ==> (res matches Ok(r) && r@ == (RecordView {
                id: id,
                category: input.category@,
                price: input.price,
                created_at: spec_decode(old(self).records()[id])->Some_0.created_at,
                updated_at: Some(now),
            }) && final(self).records() == old(self).records().insert(id, spec_encode(r@))),
    {
        let old_record = match self.map.get(id) {
            Some(bytes) => match decode_record(bytes.as_slice()) {
                Ok(r) => r,
                Err(e) => {
                    return Err(e);
                },
            },
            None => {
                return Err(
                    Error::NotFound {
                        msg: build_msg("couldn't update a record with id=", id, ". record not found"),
                    },
                );
            },
        };
        let record = Record {
            id,
            category: input.category,
            price: input.price,
            created_at: old_record.created_at,
            updated_at: Some(now),
        };
        match self.do_insert(&record) {
            Ok(()) => Ok(record),
            Err(e) => Err(e),
        }
    }

    /// Removes the record under the identifier and returns it. The
    /// identifier counter is left untouched, so identifiers are never
    /// reassigned after a delete. Absence and undecodable bytes are each
    /// reported, with the storage unchanged.
    pub fn delete(&mut self, id: u64) -> (res: Result<Record, Error>)
        ensures
            final(self).next_id() == old(self).next_id(),
            res is Err ==> final(self).records() == old(self).records(),
            !old(self).records().contains_key(id) ==> (res matches Err(e) && e matches
                Error::NotFound { msg } && msg@ == delete_not_found_msg(id)),
            old(self).records().contains_key(id) && spec_decode(old(self).records()[id]) is None
                ==> (res matches Err(e) && e is Decode),
            old(self).records().contains_key(id) && spec_decode(old(self).records()[id]) is Some
                ==> (res matches Ok(r) && Some(r@) == spec_decode(old(self).records()[id])
                && final(self).records() == old(self).records().remove(id)),
    {
        let record = match self.map.get(id) {
            Some(bytes) => match decode_record(bytes.as_slice()) {
                Ok(r) => r,
                Err(e) => {
                    return Err(e);
                },
            },
            None => {
                return Err(
                    Error::NotFound {
                        msg: build_msg(
                            "couldn't delete a record with id=",
                            id,
                            ". record not found.",
                        ),
                    },
                );
            },
        };
        let _prev = self.map.remove(id);
        Ok(record)
    }

    /// Traverses the full map once and sums the prices of all records,
    /// saturating at the largest unsigned 64-bit value; an entry whose
    /// bytes do not decode is reported instead of being silently skipped.
    /// An empty store sums to zero.
    #[verifier::rlimit(100)]
    pub fn total_value(&self) -> (res: Result<u64, Error>)
        ensures
            res is Ok <==> all_decode(self.records()),
            res matches Ok(t) ==> t as int == saturated_total(self.records()),
            res matches Err(e) ==> e is Decode,
    {
        let entries = self.map.entries();
        let ghost m0 = map_contents(self.map);
        proof {
            let keys = entries@.map_values(|e: (u64, Vec<u8>)| e.0);
            assert forall|k: u64| #[trigger] m0.contains_key(k) implies exists|j: int|
                0 <= j < keys.len() && keys[j] == k by {
                let jj = choose|jj: int| 0 <= jj < entries@.len() && entries@[jj].0 == k;
                assert(keys[jj] == k);
            };
            lemma_covered_dom_finite(m0, keys);
        }
        let mut total: u64 = 0;
        let mut i: usize = 0;
        let ghost mut rem = m0;
        let ghost mut psum: int = 0;
        while i < entries.len()
            invariant
                0 <= i <= entries@.len(),
                m0 == self.records(),
                forall|j: int|
                    0 <= j < entries@.len() ==> m0.contains_key(#[trigger] entries@[j].0)
                        && m0[entries@[j].0] == entries@[j].1@,
                forall|j1: int, j2: int|
                    0 <= j1 < j2 < entries@.len() ==> entries@[j1].0 < entries@[j2].0,
                forall|k: u64| #[trigger] m0.contains_key(k) ==> exists|j: int|
                    0 <= j < entries@.len() && entries@[j].0 == k,
                rem.dom().finite(),
                forall|k: u64| #[trigger] rem.contains_key(k) ==> m0.contains_key(k) && rem[k]
                    == m0[k],
                forall|k: u64| #[trigger] rem.contains_key(k) ==> exists|j: int|
                    i <= j < entries@.len() && entries@[j].0 == k,
                forall|j: int| i <= j < entries@.len() ==> rem.contains_key(
                    #[trigger] entries@[j].0,
                ),
                forall|j: int| 0 <= j < i ==> spec_decode(m0[#[trigger] entries@[j].0]) is Some,
                sum_prices(m0) == psum + sum_prices(rem),
                total as int == (if psum > u64::MAX as int {
                    u64::MAX as int
                } else {
                    psum
                }),
                0 <= psum,
            decreases entries@.len() - i,
        {
            let e = &entries[i];
            let price = match decode_record(e.1.as_slice()) {
                Ok(r) => r.price,
                Err(_) => {
                    proof {
                        assert(m0.contains_key(entries@[i as int].0));
                        assert(spec_decode(m0[entries@[i as int].0]) is None);
                        assert(!all_decode(m0));
                    }
                    return Err(Error::Decode);
                },
            };
            proof {
                let k = entries@[i as int].0;
                assert forall|j: u64| #[trigger] rem.contains_key(j) implies k <= j by {
                    let jj = choose|jj: int| i <= jj < entries@.len() && entries@[jj].0 == j;
                    if i < jj {
                        assert(entries@[i as int].0 < entries@[jj].0);
                    }
                };
                lemma_sum_least_key(rem, k);
                assert(rem[k] == m0[k]);
                assert(price_of(rem[k]) == price as int);
            }
            total = if total > u64::MAX - price {
                u64::MAX
            } else {
                total + price
            };
            proof {
                let k = entries@[i as int].0;
                let rem2 = rem.remove(k);
                assert forall|kk: u64| #[trigger] rem2.contains_key(kk) implies exists|j: int|
                    i + 1 <= j < entries@.len() && entries@[j].0 == kk by {
                    let jj = choose|jj: int| i <= jj < entries@.len() && entries@[jj].0 == kk;
                    assert(jj != i);
                };
                assert forall|j: int| i + 1 <= j < entries@.len() implies rem2.contains_key(
                    #[trigger] entries@[j].0,
                ) by {
                    assert(entries@[i as int].0 < entries@[j].0);
                };
                psum = psum + price as int;
                rem = rem2;
            }
            i = i + 1;
        }
        proof {
            assert forall|k: u64| #[trigger] rem.contains_key(k) implies false by {
                let jj = choose|jj: int| i <= jj < entries@.len() && entries@[jj].0 == k;
            };
            assert(rem.dom() =~= Set::empty());
            assert(sum_prices(rem) == 0) by {
                reveal_with_fuel(sum_prices, 1);
            }
            assert forall|k: u64| #[trigger] m0.contains_key(k) implies spec_decode(
                m0[k],
            ) is Some by {
                let jj = choose|jj: int| 0 <= jj < entries@.len() && entries@[jj].0 == k;
            };
            assert(all_decode(m0));
        }
        Ok(total)
    }

    /// Returns the total price and the number of records, from which the
    /// mean price is the quotient; an empty store has no mean. An entry
    /// whose bytes do not decode is reported.
    pub fn average_parts(&self) -> (res: Result<Option<(u64, u64)>, Error>)
        ensures
            res is Ok <==> all_decode(self.records()),
            res matches Ok(o) ==> ((o is None) <==> self.records().dom().len() == 0),
            res matches Ok(o) ==> (o matches Some(p) ==> p.0 as int == saturated_total(
                self.records(),
            ) && p.1 as nat == self.records().dom().len() && p.1 > 0),
            res matches Err(e) ==> e is Decode,
    {
        let count = self.map.len();
        match self.total_value() {
            Ok(total) => {
                if count == 0 {
                    Ok(None)
                } else {
                    Ok(Some((total, count)))
                }
            },
            Err(e) => Err(e),
        }
    }
}

/// True when every stored byte value decodes to a record.
pub open spec fn all_decode(m: Map<u64, Seq<u8>>) -> bool {
    forall|k: u64| #[trigger] m.contains_key(k) ==> spec_decode(m[k]) is Some
}

/// The price a stored byte value contributes to the total.
pub open spec fn price_of(b: Seq<u8>) -> int {
    match spec_decode(b) {
        Some(rv) => rv.price as int,
        None => 0,
    }
}

/// The least key the map holds.
pub open spec fn min_key(m: Map<u64, Seq<u8>>) -> u64 {
    choose|k: u64| m.contains_key(k) && (forall|j: u64| #[trigger] m.contains_key(j) ==> k <= j)
}

/// Sum of the prices of all stored records, taken in ascending key order.
#[verifier::opaque]
pub open spec fn sum_prices(m: Map<u64, Seq<u8>>) -> int
    decreases m.dom().len() when m.dom().finite()
{
    if m.dom().finite() && m.dom().len() > 0 {
        let k = min_key(m);
        if m.contains_key(k) {
            price_of(m[k]) + sum_prices(m.remove(k))
        } else {
            0
        }
    } else {
        0
    }
}

/// The sum of all prices, saturating at the largest unsigned 64-bit value.
pub open spec fn saturated_total(m: Map<u64, Seq<u8>>) -> int {
    if sum_prices(m) > u64::MAX as int {
        u64::MAX as int
    } else {
        sum_prices(m)
    }
}

/// Identifier uniqueness across any sequence of operations: `create`
/// returns the context's next identifier and leaves the context with a
/// strictly larger one, and no other operation changes it; so when a later
/// `create` starts from a next identifier at least as large as the one an
/// earlier `create` left behind, the two returned identifiers differ.
pub proof fn lemma_create_ids_distinct(
    earlier_id: u64,
    next_after_earlier: u64,
    next_before_later: u64,
    later_id: u64,
)
    requires
        earlier_id < next_after_earlier,
        next_after_earlier <= next_before_later,
        later_id == next_before_later,
    ensures
        earlier_id != later_id,
{
}

/// Create-then-fetch: once a record that fits the codec's bound is stored
/// under its identifier, a lookup of that identifier finds bytes that
/// decode to exactly that record.
pub proof fn lemma_create_then_fetch(m: Map<u64, Seq<u8>>, rv: RecordView)
    requires
        fits_bound(rv),
    ensures
        m.insert(rv.id, spec_encode(rv)).contains_key(rv.id),
        spec_decode(m.insert(rv.id, spec_encode(rv))[rv.id]) == Some(rv),
{
    crate::codec::lemma_codec_round_trip(rv);
}

/// Delete-then-fetch: after a record is removed under its identifier, a
/// lookup of that identifier finds nothing.
pub proof fn lemma_delete_then_fetch(m: Map<u64, Seq<u8>>, id: u64)
    ensures
        !m.remove(id).contains_key(id),
{
}

/// A map whose keys all occur in some sequence has a finite domain.
pub proof fn lemma_covered_dom_finite(m: Map<u64, Seq<u8>>, keys: Seq<u64>)
    requires
        forall|k: u64| #[trigger] m.contains_key(k) ==> exists|j: int|
            0 <= j < keys.len() && keys[j] == k,
    ensures
        m.dom().finite(),
{
    broadcast use vstd::seq_lib::seq_to_set_is_finite, vstd::set_lib::lemma_set_subset_finite;

    assert forall|k: u64| m.dom().contains(k) implies keys.to_set().contains(k) by {
        let jj = choose|jj: int| 0 <= jj < keys.len() && keys[jj] == k;
        assert(keys[jj] == k);
    };
    assert(m.dom().subset_of(keys.to_set()));
}

/// Unfolds the ordered sum at a least key of the map.
pub proof fn lemma_sum_least_key(m: Map<u64, Seq<u8>>, k: u64)
    requires
        m.dom().finite(),
        m.contains_key(k),
        forall|j: u64| #[trigger] m.contains_key(j) ==> k <= j,
    ensures
        sum_prices(m) == price_of(m[k]) + sum_prices(m.remove(k)),
{
    reveal_with_fuel(sum_prices, 1);
    assert(exists|kk: u64|
        m.contains_key(kk) && (forall|j: u64| #[trigger] m.contains_key(j) ==> kk <= j));
    let km = min_key(m);
    assert(m.contains_key(km) && (forall|j: u64| #[trigger] m.contains_key(j) ==> km <= j));
    assert(km == k);
    assert(m.dom().contains(k));
    if m.dom().len() == 0 {
        m.dom().lemma_len0_is_empty();
    }
    assert(sum_prices(m) == price_of(m[k]) + sum_prices(m.remove(k)));
}

} // verus!
