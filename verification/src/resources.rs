//! The account resource records and their stored byte layout.
//!
//! Each resource is a struct of plain values with a fixed little-endian
//! layout; variable-length fields carry a 64-bit length prefix.  Every
//! resource lives in an account's state under its own access path: a
//! leading domain byte — code or resource — followed by the resource tag.

use vstd::prelude::*;

use crate::codec::append_bytes;
use crate::codec::decode_u64_le;
use crate::codec::encode_u64_le;
use crate::codec::le_u64_at;
use crate::codec::take_bytes;
use crate::codec::u64_le_bytes;

verus! {

/// Leading byte of a module (code) access path.
pub const CODE_DOMAIN: u8 = 0;

/// Leading byte of a resource access path.
pub const RESOURCE_DOMAIN: u8 = 1;

/// Resource tags, one per stored record type.
pub const ACCOUNT_RESOURCE_TAG: u8 = 0x01;

pub const BALANCE_RESOURCE_TAG: u8 = 0x02;

pub const CRSN_RESOURCE_TAG: u8 = 0x03;

pub const CHAIN_ID_RESOURCE_TAG: u8 = 0x04;

pub const CONFIGURATION_RESOURCE_TAG: u8 = 0x05;

pub const TIMESTAMP_RESOURCE_TAG: u8 = 0x06;

pub const VALIDATOR_CONFIG_TAG: u8 = 0x07;

pub const VALIDATOR_OPERATOR_CONFIG_TAG: u8 = 0x08;

pub const BLOCK_RESOURCE_TAG: u8 = 0x09;

/// On-chain configuration tags: each configuration may live under its own
/// path or under the legacy path, probed in that order.
pub const VALIDATOR_SET_CONFIG_TAG: u8 = 0x10;

pub const VALIDATOR_SET_LEGACY_TAG: u8 = 0x11;

pub const VERSION_CONFIG_TAG: u8 = 0x12;

pub const VERSION_LEGACY_TAG: u8 = 0x13;

pub const VM_PUBLISHING_OPTION_TAG: u8 = 0x14;

/// Number of bytes of an account address.
pub const ADDRESS_LENGTH: usize = 16;

/// The access path of the resource or configuration tagged `tag`.
pub open spec fn spec_resource_path(tag: u8) -> Seq<u8> {
    seq![RESOURCE_DOMAIN, tag]
}

pub fn resource_path(tag: u8) -> (r: Vec<u8>)
    ensures
        r@ == spec_resource_path(tag),
{
    let mut out: Vec<u8> = Vec::new();
    out.push(RESOURCE_DOMAIN);
    out.push(tag);
    proof {
        assert(out@ =~= spec_resource_path(tag));
    }
    out
}

/// A well-formed access path names the code or the resource domain.
pub open spec fn valid_access_path(s: Seq<u8>) -> bool {
    s.len() >= 1 && (s[0] == CODE_DOMAIN || s[0] == RESOURCE_DOMAIN)
}

/// Whether the access path names stored code (a module).
pub open spec fn is_code_path(s: Seq<u8>) -> bool {
    s.len() >= 1 && s[0] == CODE_DOMAIN
}

/// An account address: a fixed-width byte string.
#[derive(Debug)]
pub struct AccountAddress {
    pub bytes: Vec<u8>,
}

impl AccountAddress {
    pub open spec fn wf(self) -> bool {
        self.bytes@.len() == ADDRESS_LENGTH
    }
}

/// The core account record: who the account is and how many transactions
/// it has committed.
#[derive(Debug)]
pub struct AccountResource {
    pub address: AccountAddress,
    pub sequence_number: u64,
}

impl AccountResource {
    pub open spec fn wf(self) -> bool {
        self.address.wf()
    }

    pub open spec fn spec_decodable(s: Seq<u8>) -> bool {
        s.len() == ADDRESS_LENGTH + 8
    }

    pub open spec fn encoding(self) -> Seq<u8> {
        self.address.bytes@ + u64_le_bytes(self.sequence_number)
    }

    /// The address this account record belongs to.
    pub fn address(&self) -> (r: &AccountAddress)
        ensures
            r == &self.address,
    {
        &self.address
    }

    pub fn encode(&self) -> (r: Vec<u8>)
        requires
            self.wf(),
        ensures
            r@ == self.encoding(),
    {
        let mut out: Vec<u8> = Vec::new();
        append_bytes(&mut out, &self.address.bytes);
        encode_u64_le(self.sequence_number, &mut out);
        proof {
            assert(out@ =~= self.encoding());
        }
        out
    }

    pub fn decode(bytes: &Vec<u8>) -> (r: Option<AccountResource>)
        ensures
            r is Some <==> Self::spec_decodable(bytes@),
            r is Some ==> {
                &&& r->0.wf()
                &&& r->0.address.bytes@ == bytes@.subrange(0, ADDRESS_LENGTH as int)
                &&& r->0.sequence_number == le_u64_at(bytes@, ADDRESS_LENGTH as int)
            },
    {
        if bytes.len() != ADDRESS_LENGTH + 8 {
            return None;
        }
        let addr = take_bytes(bytes, 0, ADDRESS_LENGTH);
        let seq_no = decode_u64_le(bytes, ADDRESS_LENGTH);
        Some(AccountResource { address: AccountAddress { bytes: addr }, sequence_number: seq_no })
    }
}

/// An account's coin balance.
#[derive(Debug)]
pub struct BalanceResource {
    pub coin: u64,
}

impl BalanceResource {
    pub open spec fn spec_decodable(s: Seq<u8>) -> bool {
        s.len() == 8
    }

    pub open spec fn encoding(self) -> Seq<u8> {
        u64_le_bytes(self.coin)
    }

    pub fn encode(&self) -> (r: Vec<u8>)
        ensures
            r@ == self.encoding(),
    {
        let mut out: Vec<u8> = Vec::new();
        encode_u64_le(self.coin, &mut out);
        proof {
            assert(out@ =~= self.encoding());
        }
        out
    }

    pub fn decode(bytes: &Vec<u8>) -> (r: Option<BalanceResource>)
        ensures
            r is Some <==> Self::spec_decodable(bytes@),
            r is Some ==> r->0.coin == le_u64_at(bytes@, 0),
    {
        if bytes.len() != 8 {
            return None;
        }
        Some(BalanceResource { coin: decode_u64_le(bytes, 0) })
    }
}

/// A conflict-resistant sequence-number window.
#[derive(Debug)]
pub struct CRSNResource {
    pub min_nonce: u64,
    pub size: u64,
}

impl CRSNResource {
    pub open spec fn spec_decodable(s: Seq<u8>) -> bool {
        s.len() == 16
    }

    pub open spec fn encoding(self) -> Seq<u8> {
        u64_le_bytes(self.min_nonce) + u64_le_bytes(self.size)
    }

    pub fn encode(&self) -> (r: Vec<u8>)
        ensures
            r@ == self.encoding(),
    {
        let mut out: Vec<u8> = Vec::new();
        encode_u64_le(self.min_nonce, &mut out);
        encode_u64_le(self.size, &mut out);
        proof {
            assert(out@ =~= self.encoding());
        }
        out
    }

    pub fn decode(bytes: &Vec<u8>) -> (r: Option<CRSNResource>)
        ensures
            r is Some <==> Self::spec_decodable(bytes@),
            r is Some ==> r->0.min_nonce == le_u64_at(bytes@, 0) && r->0.size == le_u64_at(
                bytes@,
                8,
            ),
    {
        if bytes.len() != 16 {
            return None;
        }
        Some(CRSNResource { min_nonce: decode_u64_le(bytes, 0), size: decode_u64_le(bytes, 8) })
    }
}

/// The chain this ledger belongs to.
#[derive(Debug)]
pub struct ChainIdResource {
    pub chain_id: u8,
}

impl ChainIdResource {
    pub open spec fn spec_decodable(s: Seq<u8>) -> bool {
        s.len() == 1
    }

    pub open spec fn encoding(self) -> Seq<u8> {
        seq![self.chain_id]
    }

    pub fn encode(&self) -> (r: Vec<u8>)
        ensures
            r@ == self.encoding(),
    {
        let mut out: Vec<u8> = Vec::new();
        out.push(self.chain_id);
        proof {
            assert(out@ =~= self.encoding());
        }
        out
    }

    pub fn decode(bytes: &Vec<u8>) -> (r: Option<ChainIdResource>)
        ensures
            r is Some <==> Self::spec_decodable(bytes@),
            r is Some ==> r->0.chain_id == bytes@[0],
    {
        if bytes.len() != 1 {
            return None;
        }
        Some(ChainIdResource { chain_id: bytes[0] })
    }
}

/// The on-chain configuration epoch.
#[derive(Debug)]
pub struct ConfigurationResource {
    pub epoch: u64,
    pub last_reconfiguration_time: u64,
}

impl ConfigurationResource {
    pub open spec fn spec_decodable(s: Seq<u8>) -> bool {
        s.len() == 16
    }

    pub open spec fn encoding(self) -> Seq<u8> {
        u64_le_bytes(self.epoch) + u64_le_bytes(self.last_reconfiguration_time)
    }

    pub fn encode(&self) -> (r: Vec<u8>)
        ensures
            r@ == self.encoding(),
    {
        let mut out: Vec<u8> = Vec::new();
        encode_u64_le(self.epoch, &mut out);
        encode_u64_le(self.last_reconfiguration_time, &mut out);
        proof {
            assert(out@ =~= self.encoding());
        }
        out
    }

    pub fn decode(bytes: &Vec<u8>) -> (r: Option<ConfigurationResource>)
        ensures
            r is Some <==> Self::spec_decodable(bytes@),
            r is Some ==> r->0.epoch == le_u64_at(bytes@, 0) && r->0.last_reconfiguration_time
                == le_u64_at(bytes@, 8),
    {
        if bytes.len() != 16 {
            return None;
        }
        Some(
            ConfigurationResource {
                epoch: decode_u64_le(bytes, 0),
                last_reconfiguration_time: decode_u64_le(bytes, 8),
            },
        )
    }
}

/// The ledger clock, in microseconds.
#[derive(Debug)]
pub struct TimestampResource {
    pub microseconds: u64,
}

impl TimestampResource {
    pub open spec fn spec_decodable(s: Seq<u8>) -> bool {
        s.len() == 8
    }

    pub open spec fn encoding(self) -> Seq<u8> {
        u64_le_bytes(self.microseconds)
    }

    pub fn encode(&self) -> (r: Vec<u8>)
        ensures
            r@ == self.encoding(),
    {
        let mut out: Vec<u8> = Vec::new();
        encode_u64_le(self.microseconds, &mut out);
        proof {
            assert(out@ =~= self.encoding());
        }
        out
    }

    pub fn decode(bytes: &Vec<u8>) -> (r: Option<TimestampResource>)
        ensures
            r is Some <==> Self::spec_decodable(bytes@),
            r is Some ==> r->0.microseconds == le_u64_at(bytes@, 0),
    {
        if bytes.len() != 8 {
            return None;
        }
        Some(TimestampResource { microseconds: decode_u64_le(bytes, 0) })
    }
}

/// A validator's consensus key.
#[derive(Debug)]
pub struct ValidatorConfig {
    pub consensus_public_key: Vec<u8>,
}

impl ValidatorConfig {
    pub open spec fn spec_decodable(s: Seq<u8>) -> bool {
        s.len() >= 8 && s.len() == 8 + le_u64_at(s, 0)
    }

    pub open spec fn encoding(self) -> Seq<u8> {
        u64_le_bytes(self.consensus_public_key@.len() as u64) + self.consensus_public_key@
    }

    pub fn encode(&self) -> (r: Vec<u8>)
        ensures
            r@ == self.encoding(),
    {
        let mut out: Vec<u8> = Vec::new();
        encode_u64_le(self.consensus_public_key.len() as u64, &mut out);
        append_bytes(&mut out, &self.consensus_public_key);
        proof {
            assert(out@ =~= self.encoding());
        }
        out
    }

    pub fn decode(bytes: &Vec<u8>) -> (r: Option<ValidatorConfig>)
        ensures
            r is Some <==> Self::spec_decodable(bytes@),
            r is Some ==> r->0.consensus_public_key@ == bytes@.subrange(8, bytes@.len() as int),
    {
        let total = bytes.len();
        if total < 8 {
            return None;
        }
        let n = decode_u64_le(bytes, 0);
        if n != (total - 8) as u64 {
            return None;
        }
        let key = take_bytes(bytes, 8, total - 8);
        Some(ValidatorConfig { consensus_public_key: key })
    }
}

/// A validator operator's registered name.
#[derive(Debug)]
pub struct ValidatorOperatorConfigResource {
    pub human_name: Vec<u8>,
}

impl ValidatorOperatorConfigResource {
    pub open spec fn spec_decodable(s: Seq<u8>) -> bool {
        s.len() >= 8 && s.len() == 8 + le_u64_at(s, 0)
    }

    pub open spec fn encoding(self) -> Seq<u8> {
        u64_le_bytes(self.human_name@.len() as u64) + self.human_name@
    }

    pub fn encode(&self) -> (r: Vec<u8>)
        ensures
            r@ == self.encoding(),
    {
        let mut out: Vec<u8> = Vec::new();
        encode_u64_le(self.human_name.len() as u64, &mut out);
        append_bytes(&mut out, &self.human_name);
        proof {
            assert(out@ =~= self.encoding());
        }
        out
    }

    pub fn decode(bytes: &Vec<u8>) -> (r: Option<ValidatorOperatorConfigResource>)
        ensures
            r is Some <==> Self::spec_decodable(bytes@),
            r is Some ==> r->0.human_name@ == bytes@.subrange(8, bytes@.len() as int),
    {
        let total = bytes.len();
        if total < 8 {
            return None;
        }
        let n = decode_u64_le(bytes, 0);
        if n != (total - 8) as u64 {
            return None;
        }
        let name = take_bytes(bytes, 8, total - 8);
        Some(ValidatorOperatorConfigResource { human_name: name })
    }
}

/// The current validator set: a count followed by fixed-width addresses.
#[derive(Debug)]
pub struct ValidatorSet {
    pub validators: Vec<Vec<u8>>,
}

impl ValidatorSet {
    pub open spec fn spec_decodable(s: Seq<u8>) -> bool {
        &&& s.len() >= 8
        &&& (s.len() - 8) % (ADDRESS_LENGTH as int) == 0
        &&& le_u64_at(s, 0) == (s.len() - 8) / (ADDRESS_LENGTH as int)
    }

    pub fn decode(bytes: &Vec<u8>) -> (r: Option<ValidatorSet>)
        ensures
            r is Some <==> Self::spec_decodable(bytes@),
            r is Some ==> {
                &&& r->0.validators@.len() == (bytes@.len() - 8) / (ADDRESS_LENGTH as int)
                &&& forall|i: int|
                    0 <= i < r->0.validators@.len() ==> (#[trigger] r->0.validators@[i])@
                        == bytes@.subrange(
                        8 + i * (ADDRESS_LENGTH as int),
                        8 + (i + 1) * (ADDRESS_LENGTH as int),
                    )
            },
    {
        let total = bytes.len();
        if total < 8 {
            return None;
        }
        if (total - 8) % ADDRESS_LENGTH != 0 {
            return None;
        }
        let count = (total - 8) / ADDRESS_LENGTH;
        let n = decode_u64_le(bytes, 0);
        if n != count as u64 {
            return None;
        }
        let mut validators: Vec<Vec<u8>> = Vec::new();
        let mut i: usize = 0;
        while i < count
            invariant
                i <= count,
                total == bytes@.len(),
                total >= 8,
                count == (total - 8) / (ADDRESS_LENGTH as int),
                (total - 8) % (ADDRESS_LENGTH as int) == 0,
                validators@.len() == i,
                forall|k: int|
                    0 <= k < i ==> (#[trigger] validators@[k])@ == bytes@.subrange(
                        8 + k * (ADDRESS_LENGTH as int),
                        8 + (k + 1) * (ADDRESS_LENGTH as int),
                    ),
            decreases count - i,
        {
            proof {
                assert(8 + (i + 1) * (ADDRESS_LENGTH as int) <= total) by (nonlinear_arith)
                    requires
                        i < count,
                        count == (total - 8) / (ADDRESS_LENGTH as int),
                        (total - 8) % (ADDRESS_LENGTH as int) == 0,
                        total >= 8,
                {
                }
            }
            let addr = take_bytes(bytes, 8 + i * ADDRESS_LENGTH, ADDRESS_LENGTH);
            validators.push(addr);
            i = i + 1;
        }
        Some(ValidatorSet { validators })
    }
}

/// The on-chain protocol version.
#[derive(Debug)]
pub struct Version {
    pub major: u64,
}

impl Version {
    pub open spec fn spec_decodable(s: Seq<u8>) -> bool {
        s.len() == 8
    }

    pub open spec fn encoding(self) -> Seq<u8> {
        u64_le_bytes(self.major)
    }

    pub fn encode(&self) -> (r: Vec<u8>)
        ensures
            r@ == self.encoding(),
    {
        let mut out: Vec<u8> = Vec::new();
        encode_u64_le(self.major, &mut out);
        proof {
            assert(out@ =~= self.encoding());
        }
        out
    }

    pub fn decode(bytes: &Vec<u8>) -> (r: Option<Version>)
        ensures
            r is Some <==> Self::spec_decodable(bytes@),
            r is Some ==> r->0.major == le_u64_at(bytes@, 0),
    {
        if bytes.len() != 8 {
            return None;
        }
        Some(Version { major: decode_u64_le(bytes, 0) })
    }
}

/// Whether open scripts and module publishing are allowed.
#[derive(Debug)]
pub struct VMPublishingOption {
    pub script_allowed: bool,
    pub module_publishing_allowed: bool,
}

impl VMPublishingOption {
    pub open spec fn spec_decodable(s: Seq<u8>) -> bool {
        s.len() == 2 && (s[0] == 0 || s[0] == 1) && (s[1] == 0 || s[1] == 1)
    }

    pub open spec fn encoding(self) -> Seq<u8> {
        seq![
            if self.script_allowed {
                1u8
            } else {
                0u8
            },
            if self.module_publishing_allowed {
                1u8
            } else {
                0u8
            },
        ]
    }

    pub fn encode(&self) -> (r: Vec<u8>)
        ensures
            r@ == self.encoding(),
    {
        let mut out: Vec<u8> = Vec::new();
        out.push(if self.script_allowed {
            1
        } else {
            0
        });
        out.push(if self.module_publishing_allowed {
            1
        } else {
            0
        });
        proof {
            assert(out@ =~= self.encoding());
        }
        out
    }

    pub fn decode(bytes: &Vec<u8>) -> (r: Option<VMPublishingOption>)
        ensures
            r is Some <==> Self::spec_decodable(bytes@),
            r is Some ==> r->0.script_allowed == (bytes@[0] == 1)
                && r->0.module_publishing_allowed == (bytes@[1] == 1),
    {
        if bytes.len() != 2 {
            return None;
        }
        let b0 = bytes[0];
        let b1 = bytes[1];
        if (b0 != 0 && b0 != 1) || (b1 != 0 && b1 != 1) {
            return None;
        }
        Some(VMPublishingOption { script_allowed: b0 == 1, module_publishing_allowed: b1 == 1 })
    }
}

/// The block metadata record.
#[derive(Debug)]
pub struct BlockResource {
    pub height: u64,
}

impl BlockResource {
    pub open spec fn spec_decodable(s: Seq<u8>) -> bool {
        s.len() == 8
    }

    pub open spec fn encoding(self) -> Seq<u8> {
        u64_le_bytes(self.height)
    }

    pub fn encode(&self) -> (r: Vec<u8>)
        ensures
            r@ == self.encoding(),
    {
        let mut out: Vec<u8> = Vec::new();
        encode_u64_le(self.height, &mut out);
        proof {
            assert(out@ =~= self.encoding());
        }
        out
    }

    pub fn decode(bytes: &Vec<u8>) -> (r: Option<BlockResource>)
        ensures
            r is Some <==> Self::spec_decodable(bytes@),
            r is Some ==> r->0.height == le_u64_at(bytes@, 0),
    {
        if bytes.len() != 8 {
            return None;
        }
        Some(BlockResource { height: decode_u64_le(bytes, 0) })
    }
}

} // verus!
