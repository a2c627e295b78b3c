//! Tests of the account-state map, the resource codec and the mock
//! reader.

use prunedb::account_state::AccountState;
use prunedb::error::StoreError;
use prunedb::mock::{MockDbReaderWriter, StateKey};
use prunedb::resources::{
    resource_path, AccountAddress, AccountResource, BalanceResource, BlockResource,
    CRSNResource, ChainIdResource, ConfigurationResource, TimestampResource,
    VMPublishingOption, ValidatorConfig, ValidatorOperatorConfigResource, ValidatorSet,
    Version, ACCOUNT_RESOURCE_TAG, BALANCE_RESOURCE_TAG, BLOCK_RESOURCE_TAG,
    CHAIN_ID_RESOURCE_TAG, CONFIGURATION_RESOURCE_TAG, CRSN_RESOURCE_TAG,
    TIMESTAMP_RESOURCE_TAG, VALIDATOR_CONFIG_TAG, VALIDATOR_OPERATOR_CONFIG_TAG,
    VALIDATOR_SET_LEGACY_TAG, VERSION_CONFIG_TAG, VERSION_LEGACY_TAG,
    VM_PUBLISHING_OPTION_TAG,
};

fn sample_address() -> AccountAddress {
    AccountAddress {
        bytes: (1u8..17).collect(),
    }
}

#[test]
fn map_insert_get_remove() {
    let mut state = AccountState::default();
    assert!(state.get(&b"missing".to_vec()).is_none());

    assert_eq!(state.insert(b"a".to_vec(), b"1".to_vec()), None);
    assert_eq!(state.insert(b"b".to_vec(), b"2".to_vec()), None);
    assert_eq!(state.get(&b"a".to_vec()), Some(&b"1".to_vec()));

    // Replacing returns the old value and keeps one entry per key.
    assert_eq!(state.insert(b"a".to_vec(), b"9".to_vec()), Some(b"1".to_vec()));
    assert_eq!(state.get(&b"a".to_vec()), Some(&b"9".to_vec()));
    assert_eq!(state.iter().len(), 2);

    assert_eq!(state.remove(&b"a".to_vec()), Some(b"9".to_vec()));
    assert_eq!(state.remove(&b"a".to_vec()), None);
    assert_eq!(state.iter(), vec![(b"b".to_vec(), b"2".to_vec())]);
}

#[test]
fn modules_are_the_code_entries_in_order() {
    let mut state = AccountState::default();
    state.insert(vec![0, 1], b"module-a".to_vec());
    state.insert(resource_path(BALANCE_RESOURCE_TAG), vec![7, 0, 0, 0, 0, 0, 0, 0]);
    state.insert(vec![0, 2], b"module-b".to_vec());
    assert_eq!(
        state.get_modules(),
        vec![b"module-a".to_vec(), b"module-b".to_vec()]
    );
    assert_eq!(
        state.into_modules(),
        vec![b"module-a".to_vec(), b"module-b".to_vec()]
    );
}

#[test]
fn account_resource_round_trip_through_state() {
    let resource = AccountResource {
        address: sample_address(),
        sequence_number: 42,
    };
    let mut state = AccountState::default();
    state.insert(resource_path(ACCOUNT_RESOURCE_TAG), resource.encode());

    let read = state.get_account_resource().unwrap().unwrap();
    assert_eq!(read.address.bytes, sample_address().bytes);
    assert_eq!(read.sequence_number, 42);

    let addr = state.get_account_address().unwrap().unwrap();
    assert_eq!(addr.bytes, sample_address().bytes);
}

#[test]
fn absent_resources_read_as_none() {
    let state = AccountState::default();
    assert!(state.get_account_resource().unwrap().is_none());
    assert!(state.get_balance_resources().unwrap().is_none());
    assert!(state.get_crsn_resource().unwrap().is_none());
    assert!(state.get_chain_id_resource().unwrap().is_none());
    assert!(state.get_configuration_resource().unwrap().is_none());
    assert!(state.get_timestamp_resource().unwrap().is_none());
    assert!(state.get_validator_config_resource().unwrap().is_none());
    assert!(state
        .get_validator_operator_config_resource()
        .unwrap()
        .is_none());
    assert!(state.get_validator_set().unwrap().is_none());
    assert!(state.get_version().unwrap().is_none());
    assert!(state.get_vm_publishing_option().unwrap().is_none());
    assert!(state.get_block_resource().unwrap().is_none());
    assert!(state.get_account_address().unwrap().is_none());
}

#[test]
fn corrupt_resource_bytes_surface_as_an_error() {
    let mut state = AccountState::default();
    state.insert(resource_path(BALANCE_RESOURCE_TAG), b"short".to_vec());
    assert_eq!(
        state.get_balance_resources().unwrap_err(),
        StoreError::ValueCorrupt
    );
    state.insert(resource_path(ACCOUNT_RESOURCE_TAG), vec![0; 5]);
    assert_eq!(
        state.get_account_address().unwrap_err(),
        StoreError::ValueCorrupt
    );
}

#[test]
fn scalar_resources_decode_their_fields() {
    let mut state = AccountState::default();
    state.insert(
        resource_path(BALANCE_RESOURCE_TAG),
        BalanceResource { coin: 777 }.encode(),
    );
    state.insert(
        resource_path(CRSN_RESOURCE_TAG),
        CRSNResource {
            min_nonce: 5,
            size: 128,
        }
        .encode(),
    );
    state.insert(
        resource_path(CHAIN_ID_RESOURCE_TAG),
        ChainIdResource { chain_id: 4 }.encode(),
    );
    state.insert(
        resource_path(CONFIGURATION_RESOURCE_TAG),
        ConfigurationResource {
            epoch: 11,
            last_reconfiguration_time: 1_000_000,
        }
        .encode(),
    );
    state.insert(
        resource_path(TIMESTAMP_RESOURCE_TAG),
        TimestampResource {
            microseconds: 123_456,
        }
        .encode(),
    );
    state.insert(
        resource_path(BLOCK_RESOURCE_TAG),
        BlockResource { height: 99 }.encode(),
    );

    assert_eq!(state.get_balance_resources().unwrap().unwrap().coin, 777);
    let crsn = state.get_crsn_resource().unwrap().unwrap();
    assert_eq!((crsn.min_nonce, crsn.size), (5, 128));
    assert_eq!(state.get_chain_id_resource().unwrap().unwrap().chain_id, 4);
    let config = state.get_configuration_resource().unwrap().unwrap();
    assert_eq!(config.epoch, 11);
    assert_eq!(config.last_reconfiguration_time, 1_000_000);
    assert_eq!(
        state.get_timestamp_resource().unwrap().unwrap().microseconds,
        123_456
    );
    assert_eq!(state.get_block_resource().unwrap().unwrap().height, 99);
}

#[test]
fn variable_width_resources_decode_their_fields() {
    let mut state = AccountState::default();
    state.insert(
        resource_path(VALIDATOR_CONFIG_TAG),
        ValidatorConfig {
            consensus_public_key: vec![0xAB; 32],
        }
        .encode(),
    );
    state.insert(
        resource_path(VALIDATOR_OPERATOR_CONFIG_TAG),
        ValidatorOperatorConfigResource {
            human_name: b"operator-one".to_vec(),
        }
        .encode(),
    );
    assert_eq!(
        state
            .get_validator_config_resource()
            .unwrap()
            .unwrap()
            .consensus_public_key,
        vec![0xAB; 32]
    );
    assert_eq!(
        state
            .get_validator_operator_config_resource()
            .unwrap()
            .unwrap()
            .human_name,
        b"operator-one".to_vec()
    );
}

#[test]
fn validator_set_decodes_count_prefixed_addresses() {
    // 2 addresses of 16 bytes each behind a little-endian count.
    let mut bytes = vec![2, 0, 0, 0, 0, 0, 0, 0];
    bytes.extend(std::iter::repeat(0x11u8).take(16));
    bytes.extend(std::iter::repeat(0x22u8).take(16));
    let parsed = ValidatorSet::decode(&bytes).unwrap();
    assert_eq!(parsed.validators.len(), 2);
    assert_eq!(parsed.validators[0], vec![0x11u8; 16]);
    assert_eq!(parsed.validators[1], vec![0x22u8; 16]);

    // A wrong count is refused.
    bytes[0] = 3;
    assert!(ValidatorSet::decode(&bytes).is_none());
}

#[test]
fn configs_fall_back_to_the_legacy_path() {
    let mut state = AccountState::default();
    // Version stored only under the legacy path is still found.
    state.insert(
        resource_path(VERSION_LEGACY_TAG),
        Version { major: 3 }.encode(),
    );
    assert_eq!(state.get_version().unwrap().unwrap().major, 3);
    // The primary path, once present, wins.
    state.insert(
        resource_path(VERSION_CONFIG_TAG),
        Version { major: 8 }.encode(),
    );
    assert_eq!(state.get_version().unwrap().unwrap().major, 8);

    // The validator set behaves the same way.
    state.insert(
        resource_path(VALIDATOR_SET_LEGACY_TAG),
        vec![0, 0, 0, 0, 0, 0, 0, 0],
    );
    assert_eq!(
        state.get_validator_set().unwrap().unwrap().validators.len(),
        0
    );
}

#[test]
fn get_config_probes_both_paths() {
    let mut state = AccountState::default();
    assert_eq!(state.get_config(VERSION_CONFIG_TAG, VERSION_LEGACY_TAG), None);
    state.insert(resource_path(VERSION_LEGACY_TAG), vec![3, 0, 0, 0, 0, 0, 0, 0]);
    assert_eq!(
        state.get_config(VERSION_CONFIG_TAG, VERSION_LEGACY_TAG),
        Some(vec![3, 0, 0, 0, 0, 0, 0, 0])
    );
    state.insert(resource_path(VERSION_CONFIG_TAG), vec![8, 0, 0, 0, 0, 0, 0, 0]);
    assert_eq!(
        state.get_config(VERSION_CONFIG_TAG, VERSION_LEGACY_TAG),
        Some(vec![8, 0, 0, 0, 0, 0, 0, 0])
    );
}

#[test]
fn vm_publishing_option_reads_its_flags() {
    let mut state = AccountState::default();
    state.insert(
        resource_path(VM_PUBLISHING_OPTION_TAG),
        VMPublishingOption {
            script_allowed: true,
            module_publishing_allowed: false,
        }
        .encode(),
    );
    let opt = state.get_vm_publishing_option().unwrap().unwrap();
    assert!(opt.script_allowed);
    assert!(!opt.module_publishing_allowed);
}

#[test]
fn mock_reader_serves_the_account_path_only() {
    let mock = MockDbReaderWriter;
    let value = mock
        .get_latest_state_value(StateKey::AccessPath(resource_path(ACCOUNT_RESOURCE_TAG)))
        .unwrap();
    // The mock account record: the zero address and sequence number 0.
    let mut expected = vec![0u8; 16];
    expected.extend(std::iter::repeat(0u8).take(8));
    assert_eq!(value, Some(expected));

    let missing = mock
        .get_latest_state_value(StateKey::AccessPath(resource_path(BALANCE_RESOURCE_TAG)))
        .unwrap();
    assert_eq!(missing, None);

    let err = mock
        .get_latest_state_value(StateKey::Raw(b"test_key1".to_vec()))
        .unwrap_err();
    assert_eq!(err, StoreError::UnsupportedStateKey);
}
