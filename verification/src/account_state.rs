//! An account's state: the association of access paths to stored byte
//! values, with typed readers for the known resource records.
//!
//! Keys are unique; entries keep their insertion order.  Typed readers
//! look the resource's access path up and decode the stored bytes,
//! surfacing a corrupt value as an error and an absent path as `None`.

use vstd::prelude::*;

use crate::codec::le_u64_at;
use crate::error::StoreError;
use crate::resources::is_code_path;
use crate::resources::resource_path;
use crate::resources::spec_resource_path;
use crate::resources::valid_access_path;
use crate::resources::AccountAddress;
use crate::resources::AccountResource;
use crate::resources::BalanceResource;
use crate::resources::BlockResource;
use crate::resources::CRSNResource;
use crate::resources::ChainIdResource;
use crate::resources::ConfigurationResource;
use crate::resources::TimestampResource;
use crate::resources::VMPublishingOption;
use crate::resources::ValidatorConfig;
use crate::resources::ValidatorOperatorConfigResource;
use crate::resources::ValidatorSet;
use crate::resources::Version;
use crate::resources::ACCOUNT_RESOURCE_TAG;
use crate::resources::ADDRESS_LENGTH;
use crate::resources::BALANCE_RESOURCE_TAG;
use crate::resources::BLOCK_RESOURCE_TAG;
use crate::resources::CHAIN_ID_RESOURCE_TAG;
use crate::resources::CONFIGURATION_RESOURCE_TAG;
use crate::resources::CRSN_RESOURCE_TAG;
use crate::resources::TIMESTAMP_RESOURCE_TAG;
use crate::resources::VALIDATOR_CONFIG_TAG;
use crate::resources::VALIDATOR_OPERATOR_CONFIG_TAG;
use crate::resources::VALIDATOR_SET_CONFIG_TAG;
use crate::resources::VALIDATOR_SET_LEGACY_TAG;
use crate::resources::VERSION_CONFIG_TAG;
use crate::resources::VERSION_LEGACY_TAG;
use crate::resources::VM_PUBLISHING_OPTION_TAG;
use crate::util::bytes_eq;
use crate::util::clone_bytes;
use crate::util::byte_views;
use crate::util::lemma_filter_empty;
use crate::util::lemma_filter_push;

verus! {

/// Model entries of an entry vector.
pub open spec fn entry_views(s: Seq<(Vec<u8>, Vec<u8>)>) -> Seq<(Seq<u8>, Seq<u8>)> {
    s.map_values(|p: (Vec<u8>, Vec<u8>)| (p.0@, p.1@))
}

/// No two entries share a key.
pub open spec fn unique_keys(s: Seq<(Seq<u8>, Seq<u8>)>) -> bool {
    forall|i: int, j: int|
        0 <= i < s.len() && 0 <= j < s.len() && i != j ==> (#[trigger] s[i]).0 != (
        #[trigger] s[j]).0
}

/// The value stored under `key`, if any.
pub open spec fn lookup(s: Seq<(Seq<u8>, Seq<u8>)>, key: Seq<u8>) -> Option<Seq<u8>>
    decreases s.len(),
{
    if s.len() == 0 {
        Option::None
    } else if s[0].0 == key {
        Option::Some(s[0].1)
    } else {
        lookup(s.drop_first(), key)
    }
}

/// The entries after storing `value` under `key`: an existing entry is
/// replaced in place, a new key goes to the end.
pub open spec fn spec_insert(s: Seq<(Seq<u8>, Seq<u8>)>, key: Seq<u8>, value: Seq<u8>) -> Seq<
    (Seq<u8>, Seq<u8>),
>
    decreases s.len(),
{
    if s.len() == 0 {
        seq![(key, value)]
    } else if s[0].0 == key {
        s.update(0, (key, value))
    } else {
        seq![s[0]] + spec_insert(s.drop_first(), key, value)
    }
}

/// The entries after removing `key`, if present.
pub open spec fn spec_remove(s: Seq<(Seq<u8>, Seq<u8>)>, key: Seq<u8>) -> Seq<(Seq<u8>, Seq<u8>)>
    decreases s.len(),
{
    if s.len() == 0 {
        s
    } else if s[0].0 == key {
        s.drop_first()
    } else {
        seq![s[0]] + spec_remove(s.drop_first(), key)
    }
}

/// Holds of the entries whose access path names stored code.
pub open spec fn code_entry() -> spec_fn((Seq<u8>, Seq<u8>)) -> bool {
    |p: (Seq<u8>, Seq<u8>)| is_code_path(p.0)
}

/// The module values stored in an account, in entry order.
pub open spec fn module_values(s: Seq<(Seq<u8>, Seq<u8>)>) -> Seq<Seq<u8>> {
    s.filter(code_entry()).map_values(|p: (Seq<u8>, Seq<u8>)| p.1)
}

/// The bytes a configuration read sees: its own path first, the legacy
/// path as the fallback.
pub open spec fn config_lookup(s: Seq<(Seq<u8>, Seq<u8>)>, primary: u8, legacy: u8) -> Option<
    Seq<u8>,
> {
    if lookup(s, spec_resource_path(primary)) is Some {
        lookup(s, spec_resource_path(primary))
    } else {
        lookup(s, spec_resource_path(legacy))
    }
}

/// If no entry before `i` holds `key` and entry `i` does, the lookup
/// yields entry `i`'s value.
proof fn lemma_lookup_at(s: Seq<(Seq<u8>, Seq<u8>)>, key: Seq<u8>, i: int)
    requires
        0 <= i < s.len(),
        forall|j: int| 0 <= j < i ==> (#[trigger] s[j]).0 != key,
        s[i].0 == key,
    ensures
        lookup(s, key) == Option::Some(s[i].1),
    decreases i,
{
    if i > 0 {
        lemma_lookup_at(s.drop_first(), key, i - 1);
        assert(forall|j: int|
            0 <= j < i - 1 ==> (#[trigger] s.drop_first()[j]).0 == s[j + 1].0);
    }
}

/// If no entry holds `key`, the lookup yields nothing.
proof fn lemma_lookup_none(s: Seq<(Seq<u8>, Seq<u8>)>, key: Seq<u8>)
    requires
        forall|j: int| 0 <= j < s.len() ==> (#[trigger] s[j]).0 != key,
    ensures
        lookup(s, key) is None,
    decreases s.len(),
{
    if s.len() > 0 {
        assert(forall|j: int|
            0 <= j < s.drop_first().len() ==> (#[trigger] s.drop_first()[j]).0 == s[j + 1].0);
        lemma_lookup_none(s.drop_first(), key);
    }
}

/// Replacing the first match is an in-place update.
proof fn lemma_insert_at(s: Seq<(Seq<u8>, Seq<u8>)>, key: Seq<u8>, value: Seq<u8>, i: int)
    requires
        0 <= i < s.len(),
        forall|j: int| 0 <= j < i ==> (#[trigger] s[j]).0 != key,
        s[i].0 == key,
    ensures
        spec_insert(s, key, value) == s.update(i, (key, value)),
    decreases i,
{
    if i == 0 {
    } else {
        assert(forall|j: int|
            0 <= j < i - 1 ==> (#[trigger] s.drop_first()[j]).0 == s[j + 1].0);
        lemma_insert_at(s.drop_first(), key, value, i - 1);
        assert(spec_insert(s, key, value) == seq![s[0]] + s.drop_first().update(
            i - 1,
            (key, value),
        ));
        assert(seq![s[0]] + s.drop_first().update(i - 1, (key, value)) =~= s.update(
            i,
            (key, value),
        ));
    }
}

/// Storing an absent key appends it.
proof fn lemma_insert_absent(s: Seq<(Seq<u8>, Seq<u8>)>, key: Seq<u8>, value: Seq<u8>)
    requires
        forall|j: int| 0 <= j < s.len() ==> (#[trigger] s[j]).0 != key,
    ensures
        spec_insert(s, key, value) == s.push((key, value)),
    decreases s.len(),
{
    if s.len() == 0 {
        assert(spec_insert(s, key, value) =~= s.push((key, value)));
    } else {
        assert(forall|j: int|
            0 <= j < s.drop_first().len() ==> (#[trigger] s.drop_first()[j]).0 == s[j + 1].0);
        lemma_insert_absent(s.drop_first(), key, value);
        assert(seq![s[0]] + s.drop_first().push((key, value)) =~= s.push((key, value)));
    }
}

/// Removing the first match removes exactly that entry.
proof fn lemma_remove_at(s: Seq<(Seq<u8>, Seq<u8>)>, key: Seq<u8>, i: int)
    requires
        0 <= i < s.len(),
        forall|j: int| 0 <= j < i ==> (#[trigger] s[j]).0 != key,
        s[i].0 == key,
    ensures
        spec_remove(s, key) == s.remove(i),
    decreases i,
{
    if i == 0 {
        assert(s.drop_first() =~= s.remove(0));
    } else {
        assert(forall|j: int|
            0 <= j < i - 1 ==> (#[trigger] s.drop_first()[j]).0 == s[j + 1].0);
        lemma_remove_at(s.drop_first(), key, i - 1);
        assert(spec_remove(s, key) == seq![s[0]] + s.drop_first().remove(i - 1));
        assert(seq![s[0]] + s.drop_first().remove(i - 1) =~= s.remove(i));
    }
}

/// Removing an absent key changes nothing.
proof fn lemma_remove_absent(s: Seq<(Seq<u8>, Seq<u8>)>, key: Seq<u8>)
    requires
        forall|j: int| 0 <= j < s.len() ==> (#[trigger] s[j]).0 != key,
    ensures
        spec_remove(s, key) == s,
    decreases s.len(),
{
    if s.len() > 0 {
        assert(forall|j: int|
            0 <= j < s.drop_first().len() ==> (#[trigger] s.drop_first()[j]).0 == s[j + 1].0);
        lemma_remove_absent(s.drop_first(), key);
        assert(seq![s[0]] + s.drop_first() =~= s);
    }
}

/// An account's state.
pub struct AccountState {
    entries: Vec<(Vec<u8>, Vec<u8>)>,
}

impl View for AccountState {
    type V = Seq<(Seq<u8>, Seq<u8>)>;

    closed spec fn view(&self) -> Seq<(Seq<u8>, Seq<u8>)> {
        entry_views(self.entries@)
    }
}

impl Default for AccountState {
    /// An empty account state.
    fn default() -> (s: Self)
        ensures
            s@ == Seq::<(Seq<u8>, Seq<u8>)>::empty(),
            s.wf(),
    {
        let s = AccountState { entries: Vec::new() };
        proof {
            assert(s@ =~= Seq::<(Seq<u8>, Seq<u8>)>::empty());
        }
        s
    }
}

impl AccountState {
    /// Keys are unique.
    pub open spec fn wf(self) -> bool {
        unique_keys(self@)
    }

    /// Index of the entry holding `key`, scanning in entry order.
    fn find(&self, key: &Vec<u8>) -> (r: Option<usize>)
        ensures
            r is Some ==> r->0 < self@.len() && self@[r->0 as int].0 == key@ && forall|j: int|
                0 <= j < r->0 ==> (#[trigger] self@[j]).0 != key@,
            r is None ==> forall|j: int| 0 <= j < self@.len() ==> (#[trigger] self@[j]).0 != key@,
    {
        let mut i: usize = 0;
        while i < self.entries.len()
            invariant
                i <= self.entries@.len(),
                self@.len() == self.entries@.len(),
                forall|k: int| 0 <= k < self@.len() ==> (#[trigger] self@[k]).0
                    == self.entries@[k].0@ && self@[k].1 == self.entries@[k].1@,
                forall|j: int| 0 <= j < i ==> (#[trigger] self@[j]).0 != key@,
            decreases self.entries@.len() - i,
        {
            if bytes_eq(&self.entries[i].0, key) {
                return Some(i);
            }
            i = i + 1;
        }
        None
    }

    /// The raw value stored under `key`.
    pub fn get(&self, key: &Vec<u8>) -> (r: Option<&Vec<u8>>)
        ensures
            r is Some <==> lookup(self@, key@) is Some,
            r is Some ==> r->0@ == lookup(self@, key@)->0,
    {
        match self.find(key) {
            Some(i) => {
                proof {
                    lemma_lookup_at(self@, key@, i as int);
                }
                Some(&self.entries[i].1)
            },
            None => {
                proof {
                    lemma_lookup_none(self@, key@);
                }
                None
            },
        }
    }

    /// Store `value` under `key`; an existing entry is replaced in place
    /// and its old value returned.
    pub fn insert(&mut self, key: Vec<u8>, value: Vec<u8>) -> (r: Option<Vec<u8>>)
        requires
            old(self).wf(),
        ensures
            final(self).wf(),
            final(self)@ == spec_insert(old(self)@, key@, value@),
            r is Some <==> lookup(old(self)@, key@) is Some,
            r is Some ==> r->0@ == lookup(old(self)@, key@)->0,
    {
        let found = self.find(&key);
        match found {
            Some(i) => {
                proof {
                    lemma_lookup_at(self@, key@, i as int);
                    lemma_insert_at(self@, key@, value@, i as int);
                }
                let ghost pre = self@;
                let (_old_key, old_value) = self.entries.remove(i);
                self.entries.insert(i, (key, value));
                proof {
                    assert(self@ =~= pre.update(i as int, (key@, value@)));
                    assert forall|a: int, b: int|
                        0 <= a < self@.len() && 0 <= b < self@.len() && a != b implies (
                    #[trigger] self@[a]).0 != (#[trigger] self@[b]).0 by {
                        assert(pre[a].0 != pre[b].0);
                        assert(self@[a].0 == (if a == i {
                            key@
                        } else {
                            pre[a].0
                        }));
                        assert(self@[b].0 == (if b == i {
                            key@
                        } else {
                            pre[b].0
                        }));
                        assert(pre[i as int].0 == key@);
                    }
                }
                Some(old_value)
            },
            None => {
                proof {
                    lemma_lookup_none(self@, key@);
                    lemma_insert_absent(self@, key@, value@);
                }
                let ghost pre = self@;
                self.entries.push((key, value));
                proof {
                    assert(self@ =~= pre.push((key@, value@)));
                    assert forall|a: int, b: int|
                        0 <= a < self@.len() && 0 <= b < self@.len() && a != b implies (
                    #[trigger] self@[a]).0 != (#[trigger] self@[b]).0 by {
                        if a < pre.len() && b < pre.len() {
                            assert(pre[a].0 != pre[b].0);
                        } else if a < pre.len() {
                            assert(pre[a].0 != key@);
                        } else if b < pre.len() {
                            assert(pre[b].0 != key@);
                        }
                    }
                }
                None
            },
        }
    }

    /// Remove the entry of `key`, returning its value if it was present.
    pub fn remove(&mut self, key: &Vec<u8>) -> (r: Option<Vec<u8>>)
        requires
            old(self).wf(),
        ensures
            final(self).wf(),
            final(self)@ == spec_remove(old(self)@, key@),
            r is Some <==> lookup(old(self)@, key@) is Some,
            r is Some ==> r->0@ == lookup(old(self)@, key@)->0,
    {
        let found = self.find(key);
        match found {
            Some(i) => {
                proof {
                    lemma_lookup_at(self@, key@, i as int);
                    lemma_remove_at(self@, key@, i as int);
                }
                let ghost pre = self@;
                let (_old_key, old_value) = self.entries.remove(i);
                proof {
                    assert(self@ =~= pre.remove(i as int));
                    assert forall|a: int, b: int|
                        0 <= a < self@.len() && 0 <= b < self@.len() && a != b implies (
                    #[trigger] self@[a]).0 != (#[trigger] self@[b]).0 by {
                        let a0: int = if a < i {
                            a
                        } else {
                            a + 1
                        };
                        let b0: int = if b < i {
                            b
                        } else {
                            b + 1
                        };
                        assert(self@[a] == pre[a0]);
                        assert(self@[b] == pre[b0]);
                        assert(pre[a0].0 != pre[b0].0);
                    }
                }
                Some(old_value)
            },
            None => {
                proof {
                    lemma_lookup_none(self@, key@);
                    lemma_remove_absent(self@, key@);
                }
                None
            },
        }
    }

    /// A copy of every entry, in entry order.
    pub fn iter(&self) -> (r: Vec<(Vec<u8>, Vec<u8>)>)
        ensures
            entry_views(r@) == self@,
    {
        let mut out: Vec<(Vec<u8>, Vec<u8>)> = Vec::new();
        let mut i: usize = 0;
        while i < self.entries.len()
            invariant
                i <= self.entries@.len(),
                self@.len() == self.entries@.len(),
                forall|k: int| 0 <= k < self@.len() ==> (#[trigger] self@[k]).0
                    == self.entries@[k].0@ && self@[k].1 == self.entries@[k].1@,
                entry_views(out@) == self@.take(i as int),
            decreases self.entries@.len() - i,
        {
            proof {
                assert(self@[i as int].0 == self.entries@[i as int].0@);
                assert(self@[i as int].1 == self.entries@[i as int].1@);
            }
            let ghost out_pre = out@;
            let k = clone_bytes(&self.entries[i].0);
            let v = clone_bytes(&self.entries[i].1);
            out.push((k, v));
            proof {
                assert(entry_views(out_pre).len() == out_pre.len());
                assert(out_pre.len() == i as int);
                assert forall|m: int| 0 <= m < out@.len() implies entry_views(out@)[m]
                    == self@.take(i + 1)[m] by {
                    if m < out_pre.len() {
                        assert(entry_views(out_pre)[m] == self@.take(i as int)[m]);
                    } else {
                        assert(out@[m] == (k, v));
                    }
                }
                assert(entry_views(out@) =~= self@.take(i + 1));
            }
            i = i + 1;
        }
        proof {
            assert(self@.take(self@.len() as int) =~= self@);
        }
        out
    }

    /// The module values stored under this account, in entry order.
    /// Every key must be a well-formed access path.
    pub fn get_modules(&self) -> (r: Vec<Vec<u8>>)
        requires
            forall|i: int| 0 <= i < self@.len() ==> valid_access_path((#[trigger] self@[i]).0),
        ensures
            byte_views(r@) == module_values(self@),
    {
        let ghost pred = code_entry();
        let mut out: Vec<Vec<u8>> = Vec::new();
        let mut i: usize = 0;
        proof {
            lemma_filter_empty::<(Seq<u8>, Seq<u8>)>(pred);
            assert(self@.take(0) =~= Seq::<(Seq<u8>, Seq<u8>)>::empty());
            assert(byte_views(out@) =~= module_values(self@.take(0)));
        }
        while i < self.entries.len()
            invariant
                i <= self.entries@.len(),
                pred == code_entry(),
                self@.len() == self.entries@.len(),
                forall|k: int| 0 <= k < self@.len() ==> (#[trigger] self@[k]).0
                    == self.entries@[k].0@ && self@[k].1 == self.entries@[k].1@,
                forall|k: int| 0 <= k < self@.len() ==> valid_access_path((#[trigger] self@[k]).0),
                byte_views(out@) == module_values(self@.take(i as int)),
            decreases self.entries@.len() - i,
        {
            proof {
                assert(self@.take(i + 1) =~= self@.take(i as int).push(self@[i as int]));
                lemma_filter_push(self@.take(i as int), self@[i as int], pred);
                assert(valid_access_path(self@[i as int].0));
            }
            let ghost out_pre = out@;
            let ghost part = self@.take(i as int).filter(pred);
            proof {
                assert(byte_views(out_pre) == module_values(self@.take(i as int)));
                assert(byte_views(out_pre).len() == out_pre.len());
                assert(module_values(self@.take(i as int)).len() == part.len());
                assert(out_pre.len() == part.len());
            }
            let entry_key = &self.entries[i].0;
            if entry_key[0] == 0 {
                let v = clone_bytes(&self.entries[i].1);
                out.push(v);
                proof {
                    assert(pred(self@[i as int]));
                    assert forall|k: int| 0 <= k < out@.len() implies byte_views(out@)[k]
                        == module_values(self@.take(i + 1))[k] by {
                        if k < out_pre.len() {
                            assert(byte_views(out_pre)[k] == module_values(
                                self@.take(i as int),
                            )[k]);
                        } else {
                            assert(k == part.len());
                            assert(out@[k] == v);
                        }
                    }
                    assert(byte_views(out@) =~= module_values(self@.take(i + 1)));
                }
            } else {
                proof {
                    assert(!pred(self@[i as int]));
                    assert(byte_views(out@) =~= module_values(self@.take(i + 1)));
                }
            }
            i = i + 1;
        }
        proof {
            assert(self@.take(self@.len() as int) =~= self@);
        }
        out
    }

    /// The module values stored under this account, consuming the state.
    pub fn into_modules(self) -> (r: Vec<Vec<u8>>)
        requires
            forall|i: int| 0 <= i < self@.len() ==> valid_access_path((#[trigger] self@[i]).0),
        ensures
            byte_views(r@) == module_values(self@),
    {
        self.get_modules()
    }

    /// The raw bytes of an on-chain configuration: its own path first,
    /// the legacy path as the fallback.
    pub fn get_config(&self, primary_tag: u8, legacy_tag: u8) -> (r: Option<Vec<u8>>)
        ensures
            r is Some <==> config_lookup(self@, primary_tag, legacy_tag) is Some,
            r is Some ==> r->0@ == config_lookup(self@, primary_tag, legacy_tag)->0,
    {
        let path = resource_path(primary_tag);
        match self.get(&path) {
            Some(bytes) => Some(clone_bytes(bytes)),
            None => {
                let fallback = resource_path(legacy_tag);
                match self.get(&fallback) {
                    Some(bytes) => Some(clone_bytes(bytes)),
                    None => None,
                }
            },
        }
    }

    /// The account record, if stored and well encoded.
    pub fn get_account_resource(&self) -> (r: Result<Option<AccountResource>, StoreError>)
        ensures
            ({
                let found = lookup(self@, spec_resource_path(ACCOUNT_RESOURCE_TAG));
                &&& (r is Err <==> found is Some && !AccountResource::spec_decodable(found->0))
                &&& (r is Err ==> r->Err_0 == StoreError::ValueCorrupt)
                &&& (r is Ok ==> (r->Ok_0 is Some <==> found is Some))
                &&& (r is Ok && r->Ok_0 is Some ==> r->Ok_0->0.address.bytes@ == found
                    ->0.subrange(0, ADDRESS_LENGTH as int) && r->Ok_0->0.sequence_number
                    == le_u64_at(found->0, ADDRESS_LENGTH as int))
            }),
    {
        let path = resource_path(ACCOUNT_RESOURCE_TAG);
        match self.get(&path) {
            None => Ok(None),
            Some(bytes) => match AccountResource::decode(bytes) {
                Some(v) => Ok(Some(v)),
                None => Err(StoreError::ValueCorrupt),
            },
        }
    }

    /// The account's address, read off its account record.
    pub fn get_account_address(&self) -> (r: Result<Option<AccountAddress>, StoreError>)
        ensures
            ({
                let found = lookup(self@, spec_resource_path(ACCOUNT_RESOURCE_TAG));
                &&& (r is Err <==> found is Some && !AccountResource::spec_decodable(found->0))
                &&& (r is Err ==> r->Err_0 == StoreError::ValueCorrupt)
                &&& (r is Ok ==> (r->Ok_0 is Some <==> found is Some))
                &&& (r is Ok && r->Ok_0 is Some ==> r->Ok_0->0.bytes@ == found->0.subrange(
                    0,
                    ADDRESS_LENGTH as int,
                ))
            }),
    {
        match self.get_account_resource() {
            Ok(None) => Ok(None),
            Ok(Some(ar)) => Ok(Some(ar.address)),
            Err(e) => Err(e),
        }
    }

    /// The balance record, if stored and well encoded.
    pub fn get_balance_resources(&self) -> (r: Result<Option<BalanceResource>, StoreError>)
        ensures
            ({
                let found = lookup(self@, spec_resource_path(BALANCE_RESOURCE_TAG));
                &&& (r is Err <==> found is Some && !BalanceResource::spec_decodable(found->0))
                &&& (r is Err ==> r->Err_0 == StoreError::ValueCorrupt)
                &&& (r is Ok ==> (r->Ok_0 is Some <==> found is Some))
                &&& (r is Ok && r->Ok_0 is Some ==> r->Ok_0->0.coin == le_u64_at(found->0, 0))
            }),
    {
        let path = resource_path(BALANCE_RESOURCE_TAG);
        match self.get(&path) {
            None => Ok(None),
            Some(bytes) => match BalanceResource::decode(bytes) {
                Some(v) => Ok(Some(v)),
                None => Err(StoreError::ValueCorrupt),
            },
        }
    }

    /// The conflict-resistant sequence-number record.
    pub fn get_crsn_resource(&self) -> (r: Result<Option<CRSNResource>, StoreError>)
        ensures
            ({
                let found = lookup(self@, spec_resource_path(CRSN_RESOURCE_TAG));
                &&& (r is Err <==> found is Some && !CRSNResource::spec_decodable(found->0))
                &&& (r is Err ==> r->Err_0 == StoreError::ValueCorrupt)
                &&& (r is Ok ==> (r->Ok_0 is Some <==> found is Some))
                &&& (r is Ok && r->Ok_0 is Some ==> r->Ok_0->0.min_nonce == le_u64_at(found->0, 0)
                    && r->Ok_0->0.size == le_u64_at(found->0, 8))
            }),
    {
        let path = resource_path(CRSN_RESOURCE_TAG);
        match self.get(&path) {
            None => Ok(None),
            Some(bytes) => match CRSNResource::decode(bytes) {
                Some(v) => Ok(Some(v)),
                None => Err(StoreError::ValueCorrupt),
            },
        }
    }

    /// The chain-id record.
    pub fn get_chain_id_resource(&self) -> (r: Result<Option<ChainIdResource>, StoreError>)
        ensures
            ({
                let found = lookup(self@, spec_resource_path(CHAIN_ID_RESOURCE_TAG));
                &&& (r is Err <==> found is Some && !ChainIdResource::spec_decodable(found->0))
                &&& (r is Err ==> r->Err_0 == StoreError::ValueCorrupt)
                &&& (r is Ok ==> (r->Ok_0 is Some <==> found is Some))
                &&& (r is Ok && r->Ok_0 is Some ==> r->Ok_0->0.chain_id == found->0[0])
            }),
    {
        let path = resource_path(CHAIN_ID_RESOURCE_TAG);
        match self.get(&path) {
            None => Ok(None),
            Some(bytes) => match ChainIdResource::decode(bytes) {
                Some(v) => Ok(Some(v)),
                None => Err(StoreError::ValueCorrupt),
            },
        }
    }

    /// The configuration record.
    pub fn get_configuration_resource(&self) -> (r: Result<
        Option<ConfigurationResource>,
        StoreError,
    >)
        ensures
            ({
                let found = lookup(self@, spec_resource_path(CONFIGURATION_RESOURCE_TAG));
                &&& (r is Err <==> found is Some && !ConfigurationResource::spec_decodable(
                    found->0,
                ))
                &&& (r is Err ==> r->Err_0 == StoreError::ValueCorrupt)
                &&& (r is Ok ==> (r->Ok_0 is Some <==> found is Some))
                &&& (r is Ok && r->Ok_0 is Some ==> r->Ok_0->0.epoch == le_u64_at(found->0, 0)
                    && r->Ok_0->0.last_reconfiguration_time == le_u64_at(found->0, 8))
            }),
    {
        let path = resource_path(CONFIGURATION_RESOURCE_TAG);
        match self.get(&path) {
            None => Ok(None),
            Some(bytes) => match ConfigurationResource::decode(bytes) {
                Some(v) => Ok(Some(v)),
                None => Err(StoreError::ValueCorrupt),
            },
        }
    }

    /// The ledger-clock record.
    pub fn get_timestamp_resource(&self) -> (r: Result<Option<TimestampResource>, StoreError>)
        ensures
            ({
                let found = lookup(self@, spec_resource_path(TIMESTAMP_RESOURCE_TAG));
                &&& (r is Err <==> found is Some && !TimestampResource::spec_decodable(found->0))
                &&& (r is Err ==> r->Err_0 == StoreError::ValueCorrupt)
                &&& (r is Ok ==> (r->Ok_0 is Some <==> found is Some))
                &&& (r is Ok && r->Ok_0 is Some ==> r->Ok_0->0.microseconds == le_u64_at(
                    found->0,
                    0,
                ))
            }),
    {
        let path = resource_path(TIMESTAMP_RESOURCE_TAG);
        match self.get(&path) {
            None => Ok(None),
            Some(bytes) => match TimestampResource::decode(bytes) {
                Some(v) => Ok(Some(v)),
                None => Err(StoreError::ValueCorrupt),
            },
        }
    }

    /// The validator-config record.
    pub fn get_validator_config_resource(&self) -> (r: Result<Option<ValidatorConfig>, StoreError>)
        ensures
            ({
                let found = lookup(self@, spec_resource_path(VALIDATOR_CONFIG_TAG));
                &&& (r is Err <==> found is Some && !ValidatorConfig::spec_decodable(found->0))
                &&& (r is Err ==> r->Err_0 == StoreError::ValueCorrupt)
                &&& (r is Ok ==> (r->Ok_0 is Some <==> found is Some))
                &&& (r is Ok && r->Ok_0 is Some ==> r->Ok_0->0.consensus_public_key@ == found
                    ->0.subrange(8, found->0.len() as int))
            }),
    {
        let path = resource_path(VALIDATOR_CONFIG_TAG);
        match self.get(&path) {
            None => Ok(None),
            Some(bytes) => match ValidatorConfig::decode(bytes) {
                Some(v) => Ok(Some(v)),
                None => Err(StoreError::ValueCorrupt),
            },
        }
    }

    /// The validator-operator-config record.
    pub fn get_validator_operator_config_resource(&self) -> (r: Result<
        Option<ValidatorOperatorConfigResource>,
        StoreError,
    >)
        ensures
            ({
                let found = lookup(self@, spec_resource_path(VALIDATOR_OPERATOR_CONFIG_TAG));
                &&& (r is Err <==> found is Some
                    && !ValidatorOperatorConfigResource::spec_decodable(found->0))
                &&& (r is Err ==> r->Err_0 == StoreError::ValueCorrupt)
                &&& (r is Ok ==> (r->Ok_0 is Some <==> found is Some))
                &&& (r is Ok && r->Ok_0 is Some ==> r->Ok_0->0.human_name@ == found->0.subrange(
                    8,
                    found->0.len() as int,
                ))
            }),
    {
        let path = resource_path(VALIDATOR_OPERATOR_CONFIG_TAG);
        match self.get(&path) {
            None => Ok(None),
            Some(bytes) => match ValidatorOperatorConfigResource::decode(bytes) {
                Some(v) => Ok(Some(v)),
                None => Err(StoreError::ValueCorrupt),
            },
        }
    }

    /// The block-metadata record.
    pub fn get_block_resource(&self) -> (r: Result<Option<BlockResource>, StoreError>)
        ensures
            ({
                let found = lookup(self@, spec_resource_path(BLOCK_RESOURCE_TAG));
                &&& (r is Err <==> found is Some && !BlockResource::spec_decodable(found->0))
                &&& (r is Err ==> r->Err_0 == StoreError::ValueCorrupt)
                &&& (r is Ok ==> (r->Ok_0 is Some <==> found is Some))
                &&& (r is Ok && r->Ok_0 is Some ==> r->Ok_0->0.height == le_u64_at(found->0, 0))
            }),
    {
        let path = resource_path(BLOCK_RESOURCE_TAG);
        match self.get(&path) {
            None => Ok(None),
            Some(bytes) => match BlockResource::decode(bytes) {
                Some(v) => Ok(Some(v)),
                None => Err(StoreError::ValueCorrupt),
            },
        }
    }

    /// The validator set, from its own path or the legacy path.
    pub fn get_validator_set(&self) -> (r: Result<Option<ValidatorSet>, StoreError>)
        ensures
            ({
                let found = config_lookup(
                    self@,
                    VALIDATOR_SET_CONFIG_TAG,
                    VALIDATOR_SET_LEGACY_TAG,
                );
                &&& (r is Err <==> found is Some && !ValidatorSet::spec_decodable(found->0))
                &&& (r is Err ==> r->Err_0 == StoreError::ValueCorrupt)
                &&& (r is Ok ==> (r->Ok_0 is Some <==> found is Some))
                &&& (r is Ok && r->Ok_0 is Some ==> r->Ok_0->0.validators@.len() == (found
                    ->0.len() - 8) / (ADDRESS_LENGTH as int))
            }),
    {
        let path = resource_path(VALIDATOR_SET_CONFIG_TAG);
        let fallback = resource_path(VALIDATOR_SET_LEGACY_TAG);
        let bytes = match self.get(&path) {
            Some(b) => Some(b),
            None => self.get(&fallback),
        };
        match bytes {
            None => Ok(None),
            Some(b) => match ValidatorSet::decode(b) {
                Some(v) => Ok(Some(v)),
                None => Err(StoreError::ValueCorrupt),
            },
        }
    }

    /// The protocol version, from its own path or the legacy path.
    pub fn get_version(&self) -> (r: Result<Option<Version>, StoreError>)
        ensures
            ({
                let found = config_lookup(self@, VERSION_CONFIG_TAG, VERSION_LEGACY_TAG);
                &&& (r is Err <==> found is Some && !Version::spec_decodable(found->0))
                &&& (r is Err ==> r->Err_0 == StoreError::ValueCorrupt)
                &&& (r is Ok ==> (r->Ok_0 is Some <==> found is Some))
                &&& (r is Ok && r->Ok_0 is Some ==> r->Ok_0->0.major == le_u64_at(found->0, 0))
            }),
    {
        let path = resource_path(VERSION_CONFIG_TAG);
        let fallback = resource_path(VERSION_LEGACY_TAG);
        let bytes = match self.get(&path) {
            Some(b) => Some(b),
            None => self.get(&fallback),
        };
        match bytes {
            None => Ok(None),
            Some(b) => match Version::decode(b) {
                Some(v) => Ok(Some(v)),
                None => Err(StoreError::ValueCorrupt),
            },
        }
    }

    /// The publishing option, stored under the legacy path only.
    pub fn get_vm_publishing_option(&self) -> (r: Result<Option<VMPublishingOption>, StoreError>)
        ensures
            ({
                let found = lookup(self@, spec_resource_path(VM_PUBLISHING_OPTION_TAG));
                &&& (r is Err <==> found is Some && !VMPublishingOption::spec_decodable(found->0))
                &&& (r is Err ==> r->Err_0 == StoreError::ValueCorrupt)
                &&& (r is Ok ==> (r->Ok_0 is Some <==> found is Some))
                &&& (r is Ok && r->Ok_0 is Some ==> r->Ok_0->0.script_allowed == (found->0[0]
                    == 1) && r->Ok_0->0.module_publishing_allowed == (found->0[1] == 1))
            }),
    {
        let path = resource_path(VM_PUBLISHING_OPTION_TAG);
        match self.get(&path) {
            None => Ok(None),
            Some(bytes) => match VMPublishingOption::decode(bytes) {
                Some(v) => Ok(Some(v)),
                None => Err(StoreError::ValueCorrupt),
            },
        }
    }
}

} // verus!
