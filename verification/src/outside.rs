//! Declarations of the types of other crates that this library carries.
use vstd::prelude::*;

verus! {

/// The identity of a peer on the network.
#[verifier::external_type_specification]
#[verifier::external_body]
pub struct ExPeerId(libp2p::PeerId);

/// A network address, a sequence of protocol components.
#[verifier::external_type_specification]
#[verifier::external_body]
pub struct ExMultiaddr(libp2p::Multiaddr);

/// A point on a monotonic clock.
#[verifier::external_type_specification]
#[verifier::external_body]
pub struct ExInstant(std::time::Instant);

/// A node's part in the Kademlia protocol, with its record store.
#[verifier::external_type_specification]
#[verifier::external_body]
#[verifier::reject_recursive_types(TStore)]
pub struct ExBehaviour<TStore>(libp2p::kad::Behaviour<TStore>);

/// A record store in memory.
#[verifier::external_type_specification]
#[verifier::external_body]
pub struct ExMemoryStore(libp2p::kad::store::MemoryStore);

/// The handle of a running query.
#[verifier::external_type_specification]
#[verifier::external_body]
pub struct ExQueryId(libp2p::kad::QueryId);

/// A node's claim that a peer has the value of a key.
#[verifier::external_type_specification]
#[verifier::external_body]
pub struct ExProviderRecord(libp2p::kad::ProviderRecord);

/// A handle of an open database.
#[verifier::external_type_specification]
#[verifier::external_body]
pub struct ExDb(sled::Db);

/// What went wrong in a database.
#[verifier::external_type_specification]
#[verifier::external_body]
pub struct ExSledError(sled::Error);

/// A key pair that identifies a node.
#[verifier::external_type_specification]
#[verifier::external_body]
pub struct ExKeypair(libp2p::identity::Keypair);

/// Why bytes are no key.
#[verifier::external_type_specification]
#[verifier::external_body]
pub struct ExDecodingError(libp2p::identity::DecodingError);

} // verus!
