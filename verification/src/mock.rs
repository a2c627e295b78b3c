//! A mock state reader for tests: serves one fixed account state.

use vstd::prelude::*;

use crate::account_state::lookup;
use crate::account_state::spec_insert;
use crate::account_state::AccountState;
use crate::codec::u64_le_bytes;
use crate::error::StoreError;
use crate::resources::resource_path;
use crate::resources::spec_resource_path;
use crate::resources::AccountAddress;
use crate::resources::AccountResource;
use crate::resources::ACCOUNT_RESOURCE_TAG;
use crate::resources::ADDRESS_LENGTH;
use crate::util::clone_bytes;

verus! {

/// A state lookup key: an account access path, or a raw key the mock does
/// not serve.
pub enum StateKey {
    AccessPath(Vec<u8>),
    Raw(Vec<u8>),
}

/// The address of the one mock account.
pub open spec fn spec_mock_address() -> Seq<u8> {
    Seq::new(ADDRESS_LENGTH as nat, |i: int| 0u8)
}

/// The entries of the one mock account state: its account record only.
pub open spec fn spec_mock_account_entries() -> Seq<(Seq<u8>, Seq<u8>)> {
    seq![
        (
            spec_resource_path(ACCOUNT_RESOURCE_TAG),
            spec_mock_address() + u64_le_bytes(0),
        ),
    ]
}

/// The account state the mock serves: one account record, zero sequence
/// number, the zero address.
fn get_mock_account_state() -> (s: AccountState)
    ensures
        s@ == spec_mock_account_entries(),
        s.wf(),
{
    let mut addr_bytes: Vec<u8> = Vec::new();
    let mut i: usize = 0;
    while i < ADDRESS_LENGTH
        invariant
            i <= ADDRESS_LENGTH,
            addr_bytes@.len() == i,
            forall|k: int| 0 <= k < i ==> addr_bytes@[k] == 0u8,
        decreases ADDRESS_LENGTH - i,
    {
        addr_bytes.push(0);
        i = i + 1;
    }
    proof {
        assert(addr_bytes@ =~= spec_mock_address());
    }
    let account_resource = AccountResource {
        address: AccountAddress { bytes: addr_bytes },
        sequence_number: 0,
    };
    let encoded = account_resource.encode();
    let mut account_state = AccountState::default();
    let _ = account_state.insert(resource_path(ACCOUNT_RESOURCE_TAG), encoded);
    proof {
        assert(account_state@ == spec_insert(
            Seq::<(Seq<u8>, Seq<u8>)>::empty(),
            spec_resource_path(ACCOUNT_RESOURCE_TAG),
            account_resource.encoding(),
        ));
        assert(account_state@ =~= spec_mock_account_entries());
    }
    account_state
}

/// A mock of the database's reader side for tests.
pub struct MockDbReaderWriter;

impl MockDbReaderWriter {
    /// The latest value stored under `state_key` in the mock state.  Only
    /// access-path keys are served.
    pub fn get_latest_state_value(&self, state_key: StateKey) -> (r: Result<
        Option<Vec<u8>>,
        StoreError,
    >)
        ensures
            state_key matches StateKey::AccessPath(p) ==> {
                &&& r is Ok
                &&& (r->Ok_0 is Some <==> lookup(spec_mock_account_entries(), p@) is Some)
                &&& (r->Ok_0 is Some ==> r->Ok_0->0@ == lookup(
                    spec_mock_account_entries(),
                    p@,
                )->0)
            },
            state_key matches StateKey::Raw(k) ==> r == Err::<Option<Vec<u8>>, StoreError>(
                StoreError::UnsupportedStateKey,
            ),
    {
        match state_key {
            StateKey::AccessPath(path) => {
                let account_state = get_mock_account_state();
                match account_state.get(&path) {
                    Some(value) => Ok(Some(clone_bytes(value))),
                    None => Ok(None),
                }
            },
            StateKey::Raw(_) => Err(StoreError::UnsupportedStateKey),
        }
    }
}

} // verus!
