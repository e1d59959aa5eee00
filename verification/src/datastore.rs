//! The entry point for embedders: opening a datastore from a connection
//! string, and starting transactions on it.

use crate::errors::Error;
use crate::memory::{EdgeData, MemoryDatastore};
use crate::metadata::MetadataKeyView;
use crate::models::EdgeKeyView;
use crate::transaction::MemoryTransaction;
use serde_json::Value as JsonValue;
use vstd::prelude::*;
use vstd::string::StringSliceAdditionalSpecFns;

verus! {

/// The octets of `memory://`, the start of the connection strings that name
/// the in-memory datastore.
pub open spec fn memory_scheme() -> Seq<u8> {
    seq![0x6d, 0x65, 0x6d, 0x6f, 0x72, 0x79, 0x3a, 0x2f, 0x2f]
}

/// Whether a connection string, given by its octets, names the in-memory
/// datastore: it starts with `memory://`. What follows is not looked at.
pub open spec fn names_memory(connection: Seq<u8>) -> bool {
    connection.len() >= 9 && connection.take(9) == memory_scheme()
}

/// Tells whether a connection string names the in-memory datastore.
pub fn is_memory_scheme(connection: &[u8]) -> (named: bool)
    ensures
        named == names_memory(connection@),
{
    let scheme: [u8; 9] = [0x6d, 0x65, 0x6d, 0x6f, 0x72, 0x79, 0x3a, 0x2f, 0x2f];
    assert(scheme@ =~= memory_scheme());
    if connection.len() < 9 {
        return false;
    }
    let mut i: usize = 0;
    while i < 9
        invariant
            i <= 9,
            connection@.len() >= 9,
            scheme@ == memory_scheme(),
            forall|j: int| 0 <= j < i ==> connection@[j] == scheme@[j],
        decreases 9 - i,
    {
        if connection[i] != scheme[i] {
            assert(connection@.take(9)[i as int] != memory_scheme()[i as int]);
            return false;
        }
        i += 1;
    }
    assert(connection@.take(9) =~= memory_scheme());
    true
}

/// Opens the datastore that a connection string names. Only the in-memory
/// datastore is available: a string that starts with `memory://` yields an
/// empty one, and any other fails with `UnsupportedScheme`.
pub fn open(connection_string: &str) -> (opened: Result<MemoryDatastore, Error>)
    ensures
        opened is Ok <==> names_memory(connection_string.spec_bytes()),
        opened is Ok ==> opened->Ok_0.wf() && opened->Ok_0@.vertices == Map::<
            u128,
            Seq<u8>,
        >::empty() && opened->Ok_0@.edges == Map::<EdgeKeyView, EdgeData>::empty()
            && opened->Ok_0@.metadata == Map::<MetadataKeyView, JsonValue>::empty(),
        opened is Err ==> opened->Err_0 == Error::UnsupportedScheme,
{
    if is_memory_scheme(connection_string.as_bytes()) {
        Ok(MemoryDatastore::new())
    } else {
        Err(Error::UnsupportedScheme)
    }
}

impl MemoryDatastore {
    /// Starts a transaction bound to the given account.
    pub fn transaction(&self, account_id: u128) -> (txn: MemoryTransaction)
        ensures
            txn.account() == account_id,
    {
        MemoryTransaction::new(account_id)
    }
}

} // verus!
