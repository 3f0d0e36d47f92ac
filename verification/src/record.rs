//! Records of the hash table, and the reasons for which a store refuses one.
use libp2p::kad;
use libp2p::PeerId;
use std::time::Instant;
use vstd::prelude::*;

verus! {

/// A key with its value.
#[derive(Debug)]
pub struct Record {
    pub key: Vec<u8>,
    pub value: Vec<u8>,
    /// The peer that published the record.
    pub publisher: Option<PeerId>,
    /// When the record expires; `None` if it does not.
    pub expires: Option<Instant>,
}

/// Why a store refuses a record.
#[derive(Debug, Clone, Copy, PartialEq, Eq, Structural)]
pub enum StoreError {
    /// The store holds as many records as it may.
    MaxRecords,
    /// The store holds as many provider records as it may.
    MaxProvidedKeys,
    /// The value is too large for the store.
    ValueTooLarge,
}

/// How a refusal reads.
pub open spec fn error_text(error: StoreError) -> Seq<char> {
    match error {
        StoreError::MaxRecords => "the store cannot contain any more records"@,
        StoreError::MaxProvidedKeys => "the store cannot contain any more provider records"@,
        StoreError::ValueTooLarge => "the value is too large to be stored"@,
    }
}

/// `Display` of `kad::store::Error`: each variant has one fixed text.
#[verifier::external_body]
pub(crate) fn describe_error(error: StoreError) -> (text: String)
    ensures
        text@ == error_text(error),
{
    match error {
        StoreError::MaxRecords => kad::store::Error::MaxRecords.to_string(),
        StoreError::MaxProvidedKeys => kad::store::Error::MaxProvidedKeys.to_string(),
        StoreError::ValueTooLarge => kad::store::Error::ValueTooLarge.to_string(),
    }
}

} // verus!
