use vstd::prelude::*;

verus! {

/// The persisted entity. The identifier and the timestamps are assigned by
/// the record service; callers never supply them.
#[derive(Debug, Clone, PartialEq)]
pub struct Record {
    pub id: u64,
    pub category: String,
    pub price: u64,
    pub created_at: u64,
    pub updated_at: Option<u64>,
}

/// The caller-supplied payload for create and update operations. It carries
/// no identifier and no timestamps; the service derives those.
#[derive(Debug, Clone, PartialEq)]
pub struct RecordInput {
    pub category: String,
    pub price: u64,
}

/// Mathematical model of a record: the category is modelled as the sequence
/// of its characters.
pub ghost struct RecordView {
    pub id: u64,
    pub category: Seq<char>,
    pub price: u64,
    pub created_at: u64,
    pub updated_at: Option<u64>,
}

impl View for Record {
    type V = RecordView;

    open spec fn view(&self) -> RecordView {
        RecordView {
            id: self.id,
            category: self.category@,
            price: self.price,
            created_at: self.created_at,
            updated_at: self.updated_at,
        }
    }
}

/// Failure taxonomy of the storage layer.
///
/// `NotFound` and `SizeExceeded` are expected, recoverable outcomes returned
/// to the caller. `Decode` reports bytes in a region that do not match the
/// codec's shape, distinct from `NotFound`. `Fatal` reports a structural
/// failure of the underlying storage (a region that cannot be written, or an
/// exhausted identifier counter).
#[derive(Debug, PartialEq)]
pub enum Error {
    NotFound { msg: String },
    SizeExceeded,
    Decode,
    Fatal,
}

} // verus!
