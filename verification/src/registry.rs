//! The name registry: names mapped to stealth meta-addresses, the reverse
//! lookup from meta-addresses to names, and owner-gated metadata.
//!
//! The registry is the state that the contract keeps in its storage. Each
//! operation takes the address of its caller as the bytes that identify it;
//! the host has already checked that this caller authorized the call.

use vstd::prelude::*;
use crate::bytes::{bytes_equal, copy_bytes};
use crate::hashing::{sha256, sha256_digest};
use crate::metadata::{
    metadata_entry_check, validate_metadata_entry, MetadataEntry, MetadataError, MetadataView,
};
use crate::laws::{
    consistent, lemma_empty_consistent, lemma_register_keeps_consistent,
    lemma_release_keeps_consistent, lemma_set_metadata_keeps_consistent,
    lemma_update_keeps_consistent,
};
use crate::table::KeyedTable;

verus! {

/// Shortest name, in bytes.
pub const MIN_NAME_BYTES: usize = 3;

/// Longest name, in bytes.
pub const MAX_NAME_BYTES: usize = 32;

/// Length of a stealth meta-address: a spending key followed by a viewing key.
pub const META_ADDRESS_BYTES: usize = 64;

/// Why a registry operation was refused.
#[derive(Clone, Copy, Debug, PartialEq, Eq, PartialOrd, Ord, Hash)]
pub enum NamesError {
    NameTaken,
    NameTooShort,
    NameTooLong,
    InvalidNameCharacter,
    InvalidMetaAddress,
    NameNotFound,
    NotOwner,
    MetadataKeyTooLong,
    MetadataValueTooLong,
    MetadataRecordTooLong,
    MetadataTotalTooLong,
    MetadataNotFound,
}

impl NamesError {
    /// The numeric error code under which the contract reports this error.
    pub fn code(&self) -> (c: u32)
        ensures
            c == match *self {
                NamesError::NameTaken => 1u32,
                NamesError::NameTooShort => 2u32,
                NamesError::NameTooLong => 3u32,
                NamesError::InvalidNameCharacter => 4u32,
                NamesError::InvalidMetaAddress => 5u32,
                NamesError::NameNotFound => 6u32,
                NamesError::NotOwner => 7u32,
                NamesError::MetadataKeyTooLong => 50u32,
                NamesError::MetadataValueTooLong => 51u32,
                NamesError::MetadataRecordTooLong => 52u32,
                NamesError::MetadataTotalTooLong => 53u32,
                NamesError::MetadataNotFound => 54u32,
            },
    {
        match self {
            NamesError::NameTaken => 1,
            NamesError::NameTooShort => 2,
            NamesError::NameTooLong => 3,
            NamesError::InvalidNameCharacter => 4,
            NamesError::InvalidMetaAddress => 5,
            NamesError::NameNotFound => 6,
            NamesError::NotOwner => 7,
            NamesError::MetadataKeyTooLong => 50,
            NamesError::MetadataValueTooLong => 51,
            NamesError::MetadataRecordTooLong => 52,
            NamesError::MetadataTotalTooLong => 53,
            NamesError::MetadataNotFound => 54,
        }
    }
}

/// The registry error that reports a metadata error.
pub open spec fn names_error_of(e: MetadataError) -> NamesError {
    match e {
        MetadataError::MetadataKeyTooLong => NamesError::MetadataKeyTooLong,
        MetadataError::MetadataValueTooLong => NamesError::MetadataValueTooLong,
        MetadataError::MetadataRecordTooLong => NamesError::MetadataRecordTooLong,
        MetadataError::MetadataTotalTooLong => NamesError::MetadataTotalTooLong,
        MetadataError::MetadataNotFound => NamesError::MetadataNotFound,
    }
}

/// Reports a metadata error as a registry error.
pub fn names_error_from_metadata(e: MetadataError) -> (r: NamesError)
    ensures
        r == names_error_of(e),
{
    match e {
        MetadataError::MetadataKeyTooLong => NamesError::MetadataKeyTooLong,
        MetadataError::MetadataValueTooLong => NamesError::MetadataValueTooLong,
        MetadataError::MetadataRecordTooLong => NamesError::MetadataRecordTooLong,
        MetadataError::MetadataTotalTooLong => NamesError::MetadataTotalTooLong,
        MetadataError::MetadataNotFound => NamesError::MetadataNotFound,
    }
}

/// A registered name.
#[derive(Clone, Debug, PartialEq, Eq)]
pub struct NameEntry {
    /// The human-readable name.
    pub name: Vec<u8>,
    /// The 64-byte stealth meta-address (spending key, then viewing key).
    pub stealth_meta_address: Vec<u8>,
    /// The address of the registrant, which alone may change the entry.
    pub owner: Vec<u8>,
}

/// A registered name seen as plain values.
pub struct NameEntryView {
    pub name: Seq<u8>,
    pub stealth_meta_address: Seq<u8>,
    pub owner: Seq<u8>,
}

impl View for NameEntry {
    type V = NameEntryView;

    open spec fn view(&self) -> NameEntryView {
        NameEntryView {
            name: self.name@,
            stealth_meta_address: self.stealth_meta_address@,
            owner: self.owner@,
        }
    }
}

/// The registry as maps: name hash to entry, meta-address hash to name hash,
/// name hash to metadata.
pub struct RegistryModel {
    pub names: Map<Seq<u8>, NameEntryView>,
    pub reverse: Map<Seq<u8>, Seq<u8>>,
    pub metadata: Map<Seq<u8>, MetadataView>,
}

/// The key under which a name is kept: the SHA-256 digest of its bytes.
pub open spec fn name_key(name: Seq<u8>) -> Seq<u8> {
    sha256_digest(name)
}

/// A byte that may appear in a name: a lowercase ASCII letter or a digit.
pub open spec fn is_name_byte(c: u8) -> bool {
    (97 <= c <= 122) || (48 <= c <= 57)
}

/// What checking a name gives: 3 to 32 bytes, each a lowercase letter or a
/// digit; the length is checked first.
pub open spec fn name_check(name: Seq<u8>) -> Result<(), NamesError> {
    if name.len() < MIN_NAME_BYTES {
        Err(NamesError::NameTooShort)
    } else if name.len() > MAX_NAME_BYTES {
        Err(NamesError::NameTooLong)
    } else if exists|i: int| 0 <= i < name.len() && !is_name_byte(#[trigger] name[i]) {
        Err(NamesError::InvalidNameCharacter)
    } else {
        Ok(())
    }
}

/// What `register` answers.
pub open spec fn register_result(s: RegistryModel, owner: Seq<u8>, name: Seq<u8>, meta: Seq<u8>) -> Result<(), NamesError> {
    match name_check(name) {
        Err(e) => Err(e),
        Ok(()) => if meta.len() != META_ADDRESS_BYTES {
            Err(NamesError::InvalidMetaAddress)
        } else if s.names.contains_key(name_key(name)) {
            Err(NamesError::NameTaken)
        } else {
            Ok(())
        },
    }
}

/// The registry after `register`: on success the name maps to its entry and
/// the meta-address to the name; on refusal nothing changes.
pub open spec fn register_state(s: RegistryModel, owner: Seq<u8>, name: Seq<u8>, meta: Seq<u8>) -> RegistryModel {
    if register_result(s, owner, name, meta) is Ok {
        RegistryModel {
            names: s.names.insert(
                name_key(name),
                NameEntryView { name, stealth_meta_address: meta, owner },
            ),
            reverse: s.reverse.insert(sha256_digest(meta), name_key(name)),
            metadata: s.metadata,
        }
    } else {
        s
    }
}

/// What `update` answers.
pub open spec fn update_result(s: RegistryModel, owner: Seq<u8>, name: Seq<u8>, meta: Seq<u8>) -> Result<(), NamesError> {
    if meta.len() != META_ADDRESS_BYTES {
        Err(NamesError::InvalidMetaAddress)
    } else if !s.names.contains_key(name_key(name)) {
        Err(NamesError::NameNotFound)
    } else if s.names[name_key(name)].owner != owner {
        Err(NamesError::NotOwner)
    } else {
        Ok(())
    }
}

/// The registry after `update`: on success the old meta-address no longer
/// leads back, the name maps to the new meta-address and that leads back to
/// the name; on refusal nothing changes.
pub open spec fn update_state(s: RegistryModel, owner: Seq<u8>, name: Seq<u8>, meta: Seq<u8>) -> RegistryModel {
    if update_result(s, owner, name, meta) is Ok {
        let old_meta = s.names[name_key(name)].stealth_meta_address;
        RegistryModel {
            names: s.names.insert(
                name_key(name),
                NameEntryView { name, stealth_meta_address: meta, owner },
            ),
            reverse: s.reverse.remove(sha256_digest(old_meta)).insert(sha256_digest(meta), name_key(name)),
            metadata: s.metadata,
        }
    } else {
        s
    }
}

/// What `release` answers.
pub open spec fn release_result(s: RegistryModel, owner: Seq<u8>, name: Seq<u8>) -> Result<(), NamesError> {
    if !s.names.contains_key(name_key(name)) {
        Err(NamesError::NameNotFound)
    } else if s.names[name_key(name)].owner != owner {
        Err(NamesError::NotOwner)
    } else {
        Ok(())
    }
}

/// The registry after `release`: on success the name, its reverse entry and
/// its metadata are gone; on refusal nothing changes.
pub open spec fn release_state(s: RegistryModel, owner: Seq<u8>, name: Seq<u8>) -> RegistryModel {
    if release_result(s, owner, name) is Ok {
        let meta = s.names[name_key(name)].stealth_meta_address;
        RegistryModel {
            names: s.names.remove(name_key(name)),
            reverse: s.reverse.remove(sha256_digest(meta)),
            metadata: s.metadata.remove(name_key(name)),
        }
    } else {
        s
    }
}

/// What `resolve` answers: the meta-address of the name.
pub open spec fn resolve_result(s: RegistryModel, name: Seq<u8>) -> Result<Seq<u8>, NamesError> {
    if s.names.contains_key(name_key(name)) {
        Ok(s.names[name_key(name)].stealth_meta_address)
    } else {
        Err(NamesError::NameNotFound)
    }
}

/// What `name_of` answers: the name that the meta-address leads back to.
pub open spec fn name_of_result(s: RegistryModel, meta: Seq<u8>) -> Result<Seq<u8>, NamesError> {
    if !s.reverse.contains_key(sha256_digest(meta)) {
        Err(NamesError::NameNotFound)
    } else if !s.names.contains_key(s.reverse[sha256_digest(meta)]) {
        Err(NamesError::NameNotFound)
    } else {
        Ok(s.names[s.reverse[sha256_digest(meta)]].name)
    }
}

/// What `set_metadata` answers.
pub open spec fn set_metadata_result(s: RegistryModel, owner: Seq<u8>, name: Seq<u8>, md: MetadataView) -> Result<(), NamesError> {
    if !s.names.contains_key(name_key(name)) {
        Err(NamesError::NameNotFound)
    } else if s.names[name_key(name)].owner != owner {
        Err(NamesError::NotOwner)
    } else {
        match metadata_entry_check(md) {
            Err(e) => Err(names_error_of(e)),
            Ok(()) => Ok(()),
        }
    }
}

/// The registry after `set_metadata`: on success the name's metadata is the
/// given entry; on refusal nothing changes.
pub open spec fn set_metadata_state(s: RegistryModel, owner: Seq<u8>, name: Seq<u8>, md: MetadataView) -> RegistryModel {
    if set_metadata_result(s, owner, name, md) is Ok {
        RegistryModel { metadata: s.metadata.insert(name_key(name), md), ..s }
    } else {
        s
    }
}

/// What `get_metadata` answers. A name longer than 32 bytes is never
/// registered, so it is answered `NameNotFound` without being hashed.
pub open spec fn get_metadata_result(s: RegistryModel, name: Seq<u8>) -> Result<MetadataView, NamesError> {
    if name.len() > MAX_NAME_BYTES || !s.names.contains_key(name_key(name)) {
        Err(NamesError::NameNotFound)
    } else if !s.metadata.contains_key(name_key(name)) {
        Err(NamesError::MetadataNotFound)
    } else {
        Ok(s.metadata[name_key(name)])
    }
}

/// The registry state of the `.wraith` names contract.
pub struct WraithNamesContract {
    names: KeyedTable<NameEntry>,
    reverse: KeyedTable<Vec<u8>>,
    metadata: KeyedTable<MetadataEntry>,
}

impl View for WraithNamesContract {
    type V = RegistryModel;

    closed spec fn view(&self) -> RegistryModel {
        RegistryModel { names: self.names@, reverse: self.reverse@, metadata: self.metadata@ }
    }
}

impl WraithNamesContract {
    /// The tables keep each key once.
    pub closed spec fn wf(&self) -> bool {
        self.names.wf() && self.reverse.wf() && self.metadata.wf()
    }

    /// A registry with no names.
    pub fn new() -> (r: Self)
        ensures
            r.wf(),
            r@.names == Map::<Seq<u8>, NameEntryView>::empty(),
            r@.reverse == Map::<Seq<u8>, Seq<u8>>::empty(),
            r@.metadata == Map::<Seq<u8>, MetadataView>::empty(),
            consistent(r@),
    {
        proof {
            lemma_empty_consistent();
        }
        WraithNamesContract { names: KeyedTable::new(), reverse: KeyedTable::new(), metadata: KeyedTable::new() }
    }

    /// A registry made of the given tables, as kept in storage.
    pub fn from_tables(
        names: KeyedTable<NameEntry>,
        reverse: KeyedTable<Vec<u8>>,
        metadata: KeyedTable<MetadataEntry>,
    ) -> (r: Self)
        requires
            names.wf(),
            reverse.wf(),
            metadata.wf(),
        ensures
            r.wf(),
            r@.names == names@,
            r@.reverse == reverse@,
            r@.metadata == metadata@,
    {
        WraithNamesContract { names, reverse, metadata }
    }

    /// The tables of the registry, to be kept in storage.
    pub fn tables(&self) -> (r: (&KeyedTable<NameEntry>, &KeyedTable<Vec<u8>>, &KeyedTable<MetadataEntry>))
        requires
            self.wf(),
        ensures
            r.0.wf() && r.1.wf() && r.2.wf(),
            r.0@ == self@.names,
            r.1@ == self@.reverse,
            r.2@ == self@.metadata,
    {
        (&self.names, &self.reverse, &self.metadata)
    }

    /// Hashes a name to the key under which it is kept. Only names of at
    /// most 32 bytes are hashed; the contract stops on longer ones, so every
    /// operation that hashes a name requires that bound.
    pub fn hash_name(env: &soroban_sdk::Env, name: &Vec<u8>) -> (h: Vec<u8>)
        requires
            name@.len() <= MAX_NAME_BYTES,
        ensures
            h@ == name_key(name@),
            h@ == sha256_digest(name@),
            h@.len() == 32,
    {
        sha256(env, name)
    }

    /// Checks a name: 3 to 32 bytes, lowercase ASCII letters and digits only.
    pub fn validate_name(_env: &soroban_sdk::Env, name: &Vec<u8>) -> (r: Result<(), NamesError>)
        ensures
            r == name_check(name@),
    {
        let len = name.len();
        if len < MIN_NAME_BYTES {
            return Err(NamesError::NameTooShort);
        }
        if len > MAX_NAME_BYTES {
            return Err(NamesError::NameTooLong);
        }
        let mut i: usize = 0;
        while i < len
            invariant
                len == name@.len(),
                MIN_NAME_BYTES <= len <= MAX_NAME_BYTES,
                i <= len,
                forall|j: int| 0 <= j < i ==> is_name_byte(#[trigger] name@[j]),
            decreases len - i,
        {
            let c = name[i];
            let is_lower = c >= 97u8 && c <= 122u8;
            let is_digit = c >= 48u8 && c <= 57u8;
            if !is_lower && !is_digit {
                assert(!is_name_byte(name@[i as int]));
                return Err(NamesError::InvalidNameCharacter);
            }
            i = i + 1;
        }
        Ok(())
    }

    /// Registers `name` for `owner`, mapped to `stealth_meta_address`.
    pub fn register(
        &mut self,
        env: &soroban_sdk::Env,
        owner: &Vec<u8>,
        name: &Vec<u8>,
        stealth_meta_address: &Vec<u8>,
    ) -> (r: Result<(), NamesError>)
        requires
            old(self).wf(),
        ensures
            final(self).wf(),
            r == register_result(old(self)@, owner@, name@, stealth_meta_address@),
            final(self)@ == register_state(old(self)@, owner@, name@, stealth_meta_address@),
            consistent(old(self)@) ==> consistent(final(self)@),
    {
        proof {
            if consistent(self@) {
                lemma_register_keeps_consistent(self@, owner@, name@, stealth_meta_address@);
            }
        }
        match Self::validate_name(env, name) {
            Err(e) => {
                return Err(e);
            },
            Ok(()) => {},
        }
        if stealth_meta_address.len() != META_ADDRESS_BYTES {
            return Err(NamesError::InvalidMetaAddress);
        }
        let name_hash = Self::hash_name(env, name);
        if self.names.contains(name_hash.as_slice()) {
            return Err(NamesError::NameTaken);
        }
        let entry = NameEntry {
            name: copy_bytes(name.as_slice()),
            stealth_meta_address: copy_bytes(stealth_meta_address.as_slice()),
            owner: copy_bytes(owner.as_slice()),
        };
        self.names.insert(copy_bytes(name_hash.as_slice()), entry);
        let meta_hash = sha256(env, stealth_meta_address);
        self.reverse.insert(meta_hash, name_hash);
        Ok(())
    }

    /// Maps `name`, owned by `owner`, to a new meta-address.
    pub fn update(
        &mut self,
        env: &soroban_sdk::Env,
        owner: &Vec<u8>,
        name: &Vec<u8>,
        new_meta_address: &Vec<u8>,
    ) -> (r: Result<(), NamesError>)
        requires
            old(self).wf(),
            new_meta_address@.len() == META_ADDRESS_BYTES ==> name@.len() <= MAX_NAME_BYTES,
        ensures
            final(self).wf(),
            r == update_result(old(self)@, owner@, name@, new_meta_address@),
            final(self)@ == update_state(old(self)@, owner@, name@, new_meta_address@),
            consistent(old(self)@) ==> consistent(final(self)@),
    {
        proof {
            if consistent(self@) {
                lemma_update_keeps_consistent(self@, owner@, name@, new_meta_address@);
            }
        }
        if new_meta_address.len() != META_ADDRESS_BYTES {
            return Err(NamesError::InvalidMetaAddress);
        }
        let name_hash = Self::hash_name(env, name);
        let old_meta_hash = match self.names.get(name_hash.as_slice()) {
            None => {
                return Err(NamesError::NameNotFound);
            },
            Some(entry) => {
                if !bytes_equal(entry.owner.as_slice(), owner.as_slice()) {
                    return Err(NamesError::NotOwner);
                }
                sha256(env, &entry.stealth_meta_address)
            },
        };
        self.reverse.remove(old_meta_hash.as_slice());
        let new_entry = NameEntry {
            name: copy_bytes(name.as_slice()),
            stealth_meta_address: copy_bytes(new_meta_address.as_slice()),
            owner: copy_bytes(owner.as_slice()),
        };
        self.names.insert(copy_bytes(name_hash.as_slice()), new_entry);
        let new_meta_hash = sha256(env, new_meta_address);
        self.reverse.insert(new_meta_hash, name_hash);
        Ok(())
    }

    /// Releases `name`, owned by `owner`, with its reverse entry and metadata,
    /// so that it can be registered again.
    pub fn release(&mut self, env: &soroban_sdk::Env, owner: &Vec<u8>, name: &Vec<u8>) -> (r: Result<(), NamesError>)
        requires
            old(self).wf(),
            name@.len() <= MAX_NAME_BYTES,
        ensures
            final(self).wf(),
            r == release_result(old(self)@, owner@, name@),
            final(self)@ == release_state(old(self)@, owner@, name@),
            consistent(old(self)@) ==> consistent(final(self)@),
    {
        proof {
            if consistent(self@) {
                lemma_release_keeps_consistent(self@, owner@, name@);
            }
        }
        let name_hash = Self::hash_name(env, name);
        let meta_hash = match self.names.get(name_hash.as_slice()) {
            None => {
                return Err(NamesError::NameNotFound);
            },
            Some(entry) => {
                if !bytes_equal(entry.owner.as_slice(), owner.as_slice()) {
                    return Err(NamesError::NotOwner);
                }
                sha256(env, &entry.stealth_meta_address)
            },
        };
        self.reverse.remove(meta_hash.as_slice());
        self.metadata.remove(name_hash.as_slice());
        self.names.remove(name_hash.as_slice());
        Ok(())
    }

    /// The stealth meta-address that `name` maps to.
    pub fn resolve(&self, env: &soroban_sdk::Env, name: &Vec<u8>) -> (r: Result<Vec<u8>, NamesError>)
        requires
            self.wf(),
            name@.len() <= MAX_NAME_BYTES,
        ensures
            match (r, resolve_result(self@, name@)) {
                (Ok(m), Ok(ms)) => m@ == ms,
                (Err(e), Err(es)) => e == es,
                _ => false,
            },
    {
        let name_hash = Self::hash_name(env, name);
        match self.names.get(name_hash.as_slice()) {
            None => Err(NamesError::NameNotFound),
            Some(entry) => Ok(copy_bytes(entry.stealth_meta_address.as_slice())),
        }
    }

    /// The name that `stealth_meta_address` leads back to.
    pub fn name_of(&self, env: &soroban_sdk::Env, stealth_meta_address: &Vec<u8>) -> (r: Result<Vec<u8>, NamesError>)
        requires
            self.wf(),
        ensures
            match (r, name_of_result(self@, stealth_meta_address@)) {
                (Ok(n), Ok(ns)) => n@ == ns,
                (Err(e), Err(es)) => e == es,
                _ => false,
            },
    {
        let meta_hash = sha256(env, stealth_meta_address);
        let name_hash = match self.reverse.get(meta_hash.as_slice()) {
            None => {
                return Err(NamesError::NameNotFound);
            },
            Some(h) => h,
        };
        match self.names.get(name_hash.as_slice()) {
            None => Err(NamesError::NameNotFound),
            Some(entry) => Ok(copy_bytes(entry.name.as_slice())),
        }
    }

    /// Sets the metadata of `name`, owned by `owner`.
    pub fn set_metadata(
        &mut self,
        env: &soroban_sdk::Env,
        owner: &Vec<u8>,
        name: &Vec<u8>,
        metadata: MetadataEntry,
    ) -> (r: Result<(), NamesError>)
        requires
            old(self).wf(),
            name@.len() <= MAX_NAME_BYTES,
        ensures
            final(self).wf(),
            r == set_metadata_result(old(self)@, owner@, name@, metadata@),
            final(self)@ == set_metadata_state(old(self)@, owner@, name@, metadata@),
            consistent(old(self)@) ==> consistent(final(self)@),
    {
        proof {
            if consistent(self@) {
                lemma_set_metadata_keeps_consistent(self@, owner@, name@, metadata@);
            }
        }
        let name_hash = Self::hash_name(env, name);
        match self.names.get(name_hash.as_slice()) {
            None => {
                return Err(NamesError::NameNotFound);
            },
            Some(entry) => {
                if !bytes_equal(entry.owner.as_slice(), owner.as_slice()) {
                    return Err(NamesError::NotOwner);
                }
            },
        }
        match validate_metadata_entry(&metadata) {
            Err(e) => {
                return Err(names_error_from_metadata(e));
            },
            Ok(()) => {},
        }
        self.metadata.insert(name_hash, metadata);
        Ok(())
    }

    /// The metadata of `name`.
    pub fn get_metadata(&self, env: &soroban_sdk::Env, name: &Vec<u8>) -> (r: Result<MetadataEntry, NamesError>)
        requires
            self.wf(),
        ensures
            match (r, get_metadata_result(self@, name@)) {
                (Ok(m), Ok(ms)) => m@ == ms,
                (Err(e), Err(es)) => e == es,
                _ => false,
            },
    {
        if name.len() > MAX_NAME_BYTES {
            return Err(NamesError::NameNotFound);
        }
        let name_hash = Self::hash_name(env, name);
        if !self.names.contains(name_hash.as_slice()) {
            return Err(NamesError::NameNotFound);
        }
        match self.metadata.get(name_hash.as_slice()) {
            None => Err(NamesError::MetadataNotFound),
            Some(m) => Ok(m.duplicate()),
        }
    }
}

} // verus!
