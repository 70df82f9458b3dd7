use vstd::prelude::*;
use vstd::bytes::*;
use vstd::string::*;
use vstd::utf8::{decode_utf8, encode_utf8, valid_utf8};
use crate::record::{Error, Record, RecordView};

verus! {

/// Largest encoded form a record may take, in bytes. A record whose
/// encoding would be longer is rejected before it reaches a region.
pub const MAX_ENCODED_LEN: u64 = 1024;

/// Bytes taken by the fixed-width fields: identifier, price and creation
/// time (8 bytes each), the update-time flag (1 byte), the update time
/// (8 bytes) and the category length (4 bytes).
pub const FIXED_FIELDS_LEN: u64 = 37;

/// The byte layout of a record: identifier, price and creation time as
/// little-endian 64-bit words; one flag byte and a little-endian word for
/// the optional update time (zero when absent); then the category's UTF-8
/// length as a little-endian 32-bit word, followed by its UTF-8 bytes.
pub open spec fn spec_encode(rv: RecordView) -> Seq<u8> {
    spec_u64_to_le_bytes(rv.id) + spec_u64_to_le_bytes(rv.price) + spec_u64_to_le_bytes(
        rv.created_at,
    ) + (match rv.updated_at {
        Some(u) => seq![1u8] + spec_u64_to_le_bytes(u),
        None => seq![0u8] + spec_u64_to_le_bytes(0),
    }) + spec_u32_to_le_bytes(encode_utf8(rv.category).len() as u32) + encode_utf8(rv.category)
}

/// Length of a record's encoded form.
pub open spec fn spec_encoded_len(rv: RecordView) -> int {
    FIXED_FIELDS_LEN + encode_utf8(rv.category).len()
}

/// A record is storable exactly when its encoded form fits the bound.
pub open spec fn fits_bound(rv: RecordView) -> bool {
    spec_encoded_len(rv) <= MAX_ENCODED_LEN
}

/// Total parse of an encoded record. Returns `None` on any malformed
/// input: a short buffer, a flag byte other than 0 or 1, a non-zero update
/// time under an absent flag, a length field that disagrees with the
/// buffer, or category bytes that are not valid UTF-8.
pub open spec fn spec_decode(b: Seq<u8>) -> Option<RecordView> {
    if b.len() < FIXED_FIELDS_LEN {
        None
    } else {
        let id = spec_u64_from_le_bytes(b.subrange(0, 8));
        let price = spec_u64_from_le_bytes(b.subrange(8, 16));
        let created_at = spec_u64_from_le_bytes(b.subrange(16, 24));
        let flag = b[24];
        let upd = spec_u64_from_le_bytes(b.subrange(25, 33));
        let cat_len = spec_u32_from_le_bytes(b.subrange(33, 37));
        let cat_bytes = b.subrange(FIXED_FIELDS_LEN as int, b.len() as int);
        if flag != 0 && flag != 1 {
            None
        } else if flag == 0 && upd != 0 {
            None
        } else if b.len() != FIXED_FIELDS_LEN + cat_len {
            None
        } else if !valid_utf8(cat_bytes) {
            None
        } else {
            Some(
                RecordView {
                    id,
                    category: decode_utf8(cat_bytes),
                    price,
                    created_at,
                    updated_at: if flag == 1 {
                        Some(upd)
                    } else {
                        None
                    },
                },
            )
        }
    }
}

/// Round-trip law: decoding an encoded record yields the record back, for
/// every record that fits the codec's bound.
pub proof fn lemma_codec_round_trip(rv: RecordView)
    requires
        fits_bound(rv),
    ensures
        spec_decode(spec_encode(rv)) == Some(rv),
{
    lemma_auto_spec_u64_to_from_le_bytes();
    lemma_auto_spec_u32_to_from_le_bytes();
    broadcast use vstd::utf8::encode_utf8_valid_utf8, vstd::utf8::encode_utf8_decode_utf8;

    let b = spec_encode(rv);
    let cat = encode_utf8(rv.category);
    assert(b.subrange(0, 8) =~= spec_u64_to_le_bytes(rv.id));
    assert(b.subrange(8, 16) =~= spec_u64_to_le_bytes(rv.price));
    assert(b.subrange(16, 24) =~= spec_u64_to_le_bytes(rv.created_at));
    assert(b.subrange(25, 33) =~= match rv.updated_at {
        Some(u) => spec_u64_to_le_bytes(u),
        None => spec_u64_to_le_bytes(0),
    });
    assert(b.subrange(33, 37) =~= spec_u32_to_le_bytes(cat.len() as u32));
    assert(b.subrange(FIXED_FIELDS_LEN as int, b.len() as int) =~= cat);
    assert(b[24] == match rv.updated_at {
        Some(_) => 1u8,
        None => 0u8,
    });
    assert(spec_decode(b) == Some(rv));
}

/// Encodes a record, rejecting one whose encoded form would exceed
/// [`MAX_ENCODED_LEN`].
pub fn encode_record(r: &Record) -> (res: Result<Vec<u8>, Error>)
    ensures
        res is Ok <==> fits_bound(r@),
        res matches Ok(b) ==> b@ == spec_encode(r@),
        res matches Err(e) ==> e is SizeExceeded,
{
    let cat_bytes = r.category.as_str().as_bytes_vec();
    if cat_bytes.len() > (MAX_ENCODED_LEN - FIXED_FIELDS_LEN) as usize {
        return Err(Error::SizeExceeded);
    }
    let mut out = u64_to_le_bytes(r.id);
    let mut price_bytes = u64_to_le_bytes(r.price);
    out.append(&mut price_bytes);
    let mut created_bytes = u64_to_le_bytes(r.created_at);
    out.append(&mut created_bytes);
    match r.updated_at {
        Some(u) => {
            out.push(1u8);
            let mut upd_bytes = u64_to_le_bytes(u);
            out.append(&mut upd_bytes);
        },
        None => {
            out.push(0u8);
            let mut upd_bytes = u64_to_le_bytes(0);
            out.append(&mut upd_bytes);
        },
    }
    let mut len_bytes = u32_to_le_bytes(cat_bytes.len() as u32);
    out.append(&mut len_bytes);
    let mut cat_bytes = cat_bytes;
    out.append(&mut cat_bytes);
    proof {
        assert(out@ =~= spec_encode(r@));
    }
    Ok(out)
}

/// Relies on `core::str::from_utf8`: it returns `Ok` exactly on valid
/// UTF-8 input, and the returned string consists of the characters that
/// the bytes encode.
#[verifier::external_body]
fn utf8_to_string(b: &[u8]) -> (r: Option<String>)
    ensures
        r is Some <==> valid_utf8(b@),
        r matches Some(s) ==> s@ == decode_utf8(b@),
{
    match core::str::from_utf8(b) {
        Ok(s) => Some(s.to_owned()),
        Err(_) => None,
    }
}

/// Decodes a record from its encoded form; any malformed input is reported
/// as a decode failure.
pub fn decode_record(b: &[u8]) -> (res: Result<Record, Error>)
    ensures
        res matches Ok(r) ==> spec_decode(b@) == Some(r@),
        res is Err <==> spec_decode(b@) is None,
        res matches Err(e) ==> e is Decode,
{
    if b.len() < FIXED_FIELDS_LEN as usize {
        return Err(Error::Decode);
    }
    let id = u64_from_le_bytes(vstd::slice::slice_subrange(b, 0, 8));
    let price = u64_from_le_bytes(vstd::slice::slice_subrange(b, 8, 16));
    let created_at = u64_from_le_bytes(vstd::slice::slice_subrange(b, 16, 24));
    let flag = *vstd::slice::slice_index_get(b, 24);
    let upd = u64_from_le_bytes(vstd::slice::slice_subrange(b, 25, 33));
    let cat_len = u32_from_le_bytes(vstd::slice::slice_subrange(b, 33, 37));
    if flag != 0 && flag != 1 {
        return Err(Error::Decode);
    }
    if flag == 0 && upd != 0 {
        return Err(Error::Decode);
    }
    if b.len() - FIXED_FIELDS_LEN as usize != cat_len as usize {
        return Err(Error::Decode);
    }
    let cat_bytes = vstd::slice::slice_subrange(b, FIXED_FIELDS_LEN as usize, b.len());
    match utf8_to_string(cat_bytes) {
        Some(category) => Ok(
            Record {
                id,
                category,
                price,
                created_at,
                updated_at: if flag == 1 {
                    Some(upd)
                } else {
                    None
                },
            },
        ),
        None => Err(Error::Decode),
    }
}

} // verus!
