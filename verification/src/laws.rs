//! Properties of the registry that span operations, proved over the
//! registry model that each operation's contract is stated in.

use vstd::prelude::*;
use crate::hashing::sha256_digest;
use crate::metadata::{
    metadata_entry_check, record_size, text_record_check, text_records_check, MetadataView, RecordView,
    MAX_METADATA_TOTAL_BYTES,
};
use crate::registry::{
    get_metadata_result, name_check, name_key, name_of_result, register_result, register_state,
    release_result, release_state, resolve_result, set_metadata_result, set_metadata_state,
    update_result, update_state, NamesError, RegistryModel, MAX_NAME_BYTES, META_ADDRESS_BYTES,
};

verus! {

/// What every reachable registry satisfies: each entry is kept under the
/// hash of its name and holds a 64-byte meta-address; metadata exists only
/// for registered names; each reverse entry leads to a registered name whose
/// meta-address hashes to the reverse entry's key.
pub open spec fn consistent(s: RegistryModel) -> bool {
    &&& forall|h: Seq<u8>| #[trigger] s.names.contains_key(h) ==> name_key(s.names[h].name) == h
        && s.names[h].stealth_meta_address.len() == META_ADDRESS_BYTES
    &&& forall|h: Seq<u8>| #[trigger] s.metadata.contains_key(h) ==> s.names.contains_key(h)
    &&& forall|mh: Seq<u8>| #[trigger] s.reverse.contains_key(mh) ==> s.names.contains_key(s.reverse[mh])
        && sha256_digest(s.names[s.reverse[mh]].stealth_meta_address) == mh
}

/// The registry with no names is consistent.
pub proof fn lemma_empty_consistent()
    ensures
        consistent(
            RegistryModel {
                names: Map::empty(),
                reverse: Map::empty(),
                metadata: Map::empty(),
            },
        ),
{
}

/// Registering keeps the registry consistent.
pub proof fn lemma_register_keeps_consistent(s: RegistryModel, owner: Seq<u8>, name: Seq<u8>, meta: Seq<u8>)
    requires
        consistent(s),
    ensures
        consistent(register_state(s, owner, name, meta)),
{
    let t = register_state(s, owner, name, meta);
    if register_result(s, owner, name, meta) is Ok {
        let h = name_key(name);
        assert forall|mh: Seq<u8>| #[trigger] t.reverse.contains_key(mh) implies t.names.contains_key(t.reverse[mh])
            && sha256_digest(t.names[t.reverse[mh]].stealth_meta_address) == mh by {
            if mh != sha256_digest(meta) {
                assert(s.reverse.contains_key(mh));
                assert(s.names.contains_key(s.reverse[mh]));
            }
        }
    }
}

/// Updating keeps the registry consistent.
pub proof fn lemma_update_keeps_consistent(s: RegistryModel, owner: Seq<u8>, name: Seq<u8>, meta: Seq<u8>)
    requires
        consistent(s),
    ensures
        consistent(update_state(s, owner, name, meta)),
{
    let t = update_state(s, owner, name, meta);
    if update_result(s, owner, name, meta) is Ok {
        let h = name_key(name);
        let old_meta = s.names[h].stealth_meta_address;
        assert forall|mh: Seq<u8>| #[trigger] t.reverse.contains_key(mh) implies t.names.contains_key(t.reverse[mh])
            && sha256_digest(t.names[t.reverse[mh]].stealth_meta_address) == mh by {
            if mh != sha256_digest(meta) {
                assert(s.reverse.contains_key(mh));
                assert(mh != sha256_digest(old_meta));
                assert(s.names.contains_key(s.reverse[mh]));
                assert(s.reverse[mh] != h);
            }
        }
    }
}

/// Releasing keeps the registry consistent.
pub proof fn lemma_release_keeps_consistent(s: RegistryModel, owner: Seq<u8>, name: Seq<u8>)
    requires
        consistent(s),
    ensures
        consistent(release_state(s, owner, name)),
        release_result(s, owner, name) is Ok ==> {
            &&& forall|mh: Seq<u8>| #[trigger] release_state(s, owner, name).reverse.contains_key(mh)
                ==> release_state(s, owner, name).reverse[mh] != name_key(name)
            &&& !release_state(s, owner, name).metadata.contains_key(name_key(name))
            &&& !release_state(s, owner, name).names.contains_key(name_key(name))
        },
{
    let t = release_state(s, owner, name);
    if release_result(s, owner, name) is Ok {
        let h = name_key(name);
        let old_meta = s.names[h].stealth_meta_address;
        assert forall|mh: Seq<u8>| #[trigger] t.reverse.contains_key(mh) implies t.names.contains_key(t.reverse[mh])
            && sha256_digest(t.names[t.reverse[mh]].stealth_meta_address) == mh by {
            assert(s.reverse.contains_key(mh));
            assert(mh != sha256_digest(old_meta));
            assert(s.names.contains_key(s.reverse[mh]));
            assert(s.reverse[mh] != h);
        }
    }
}

/// Repeating a successful update succeeds again and changes nothing.
pub proof fn lemma_update_twice(s: RegistryModel, owner: Seq<u8>, name: Seq<u8>, meta: Seq<u8>)
    requires
        update_result(s, owner, name, meta) is Ok,
    ensures
        update_result(update_state(s, owner, name, meta), owner, name, meta) is Ok,
        update_state(update_state(s, owner, name, meta), owner, name, meta) == update_state(s, owner, name, meta),
{
    let s1 = update_state(s, owner, name, meta);
    let s2 = update_state(s1, owner, name, meta);
    assert(s2.names =~= s1.names);
    assert(s2.reverse =~= s1.reverse);
}

/// Setting metadata keeps the registry consistent.
pub proof fn lemma_set_metadata_keeps_consistent(s: RegistryModel, owner: Seq<u8>, name: Seq<u8>, md: MetadataView)
    requires
        consistent(s),
    ensures
        consistent(set_metadata_state(s, owner, name, md)),
{
}

/// A refused request leaves the registry exactly as it was.
pub proof fn lemma_refusal_changes_nothing(
    s: RegistryModel,
    owner: Seq<u8>,
    name: Seq<u8>,
    meta: Seq<u8>,
    md: MetadataView,
)
    ensures
        register_result(s, owner, name, meta) is Err ==> register_state(s, owner, name, meta) == s,
        update_result(s, owner, name, meta) is Err ==> update_state(s, owner, name, meta) == s,
        release_result(s, owner, name) is Err ==> release_state(s, owner, name) == s,
        set_metadata_result(s, owner, name, md) is Err ==> set_metadata_state(s, owner, name, md) == s,
{
}

/// After a name is registered, resolving it gives the meta-address it was
/// registered with.
pub proof fn lemma_resolve_after_register(s: RegistryModel, owner: Seq<u8>, name: Seq<u8>, meta: Seq<u8>)
    requires
        register_result(s, owner, name, meta) is Ok,
    ensures
        resolve_result(register_state(s, owner, name, meta), name) == Ok::<Seq<u8>, NamesError>(meta),
{
}

/// After a name is registered, its meta-address leads back to it.
pub proof fn lemma_name_of_after_register(s: RegistryModel, owner: Seq<u8>, name: Seq<u8>, meta: Seq<u8>)
    requires
        register_result(s, owner, name, meta) is Ok,
    ensures
        name_of_result(register_state(s, owner, name, meta), meta) == Ok::<Seq<u8>, NamesError>(name),
{
}

/// A registered name cannot be registered again, by anyone, while it is
/// held: a second registration with a well-formed meta-address is refused
/// with `NameTaken`.
pub proof fn lemma_register_twice_taken(
    s: RegistryModel,
    owner: Seq<u8>,
    name: Seq<u8>,
    meta: Seq<u8>,
    owner2: Seq<u8>,
    meta2: Seq<u8>,
)
    requires
        register_result(s, owner, name, meta) is Ok,
        meta2.len() == META_ADDRESS_BYTES,
    ensures
        register_result(register_state(s, owner, name, meta), owner2, name, meta2) == Err::<(), NamesError>(
            NamesError::NameTaken,
        ),
{
}

/// After a name is updated, resolving it gives the new meta-address, and
/// the new meta-address leads back to it.
pub proof fn lemma_resolve_after_update(s: RegistryModel, owner: Seq<u8>, name: Seq<u8>, meta: Seq<u8>)
    requires
        update_result(s, owner, name, meta) is Ok,
    ensures
        resolve_result(update_state(s, owner, name, meta), name) == Ok::<Seq<u8>, NamesError>(meta),
        name_of_result(update_state(s, owner, name, meta), meta) == Ok::<Seq<u8>, NamesError>(name),
{
}

/// After a name is released it no longer resolves, its metadata is gone, and
/// anyone may register it again with a well-formed meta-address.
pub proof fn lemma_release_frees_name(
    s: RegistryModel,
    owner: Seq<u8>,
    name: Seq<u8>,
    owner2: Seq<u8>,
    meta2: Seq<u8>,
)
    requires
        release_result(s, owner, name) is Ok,
        name_check(name) is Ok,
        meta2.len() == META_ADDRESS_BYTES,
    ensures
        resolve_result(release_state(s, owner, name), name) == Err::<Seq<u8>, NamesError>(
            NamesError::NameNotFound,
        ),
        get_metadata_result(release_state(s, owner, name), name) == Err::<MetadataView, NamesError>(
            NamesError::NameNotFound,
        ),
        !release_state(s, owner, name).metadata.contains_key(name_key(name)),
        register_result(release_state(s, owner, name), owner2, name, meta2) is Ok,
        get_metadata_result(
            register_state(release_state(s, owner, name), owner2, name, meta2),
            name,
        ) == Err::<MetadataView, NamesError>(NamesError::MetadataNotFound),
{
}

/// After metadata is set for a name (which `set_metadata` accepts only of at
/// most 32 bytes), reading it gives the entry that was set.
pub proof fn lemma_get_after_set_metadata(s: RegistryModel, owner: Seq<u8>, name: Seq<u8>, md: MetadataView)
    requires
        set_metadata_result(s, owner, name, md) is Ok,
        name.len() <= MAX_NAME_BYTES,
    ensures
        get_metadata_result(set_metadata_state(s, owner, name, md), name) == Ok::<MetadataView, NamesError>(md),
{
}

/// Setting metadata, whether it succeeds or not, leaves every name's
/// resolution and every meta-address's reverse lookup as it was.
pub proof fn lemma_set_metadata_keeps_lookups(
    s: RegistryModel,
    owner: Seq<u8>,
    name: Seq<u8>,
    md: MetadataView,
    other_name: Seq<u8>,
    other_meta: Seq<u8>,
)
    ensures
        resolve_result(set_metadata_state(s, owner, name, md), other_name) == resolve_result(s, other_name),
        name_of_result(set_metadata_state(s, owner, name, md), other_meta) == name_of_result(s, other_meta),
{
}

/// Only the owner of a name changes it: `update`, `release` and
/// `set_metadata` called by anyone else on a registered name answer
/// `NotOwner` (for `update`, once the meta-address is well formed) and leave
/// the registry as it was.
pub proof fn lemma_only_owner_changes(
    s: RegistryModel,
    caller: Seq<u8>,
    name: Seq<u8>,
    meta: Seq<u8>,
    md: MetadataView,
)
    requires
        s.names.contains_key(name_key(name)),
        s.names[name_key(name)].owner != caller,
    ensures
        meta.len() == META_ADDRESS_BYTES ==> update_result(s, caller, name, meta) == Err::<(), NamesError>(
            NamesError::NotOwner,
        ),
        update_state(s, caller, name, meta) == s,
        release_result(s, caller, name) == Err::<(), NamesError>(NamesError::NotOwner),
        release_state(s, caller, name) == s,
        set_metadata_result(s, caller, name, md) == Err::<(), NamesError>(NamesError::NotOwner),
        set_metadata_state(s, caller, name, md) == s,
{
}

/// In a consistent registry, a meta-address that leads back to a name leads
/// to one that resolves to a meta-address with the same hash.
pub proof fn lemma_name_of_then_resolve(s: RegistryModel, meta: Seq<u8>)
    requires
        consistent(s),
        name_of_result(s, meta) is Ok,
    ensures
        resolve_result(s, name_of_result(s, meta)->Ok_0) is Ok,
        sha256_digest(resolve_result(s, name_of_result(s, meta)->Ok_0)->Ok_0) == sha256_digest(meta),
{
    let mh = sha256_digest(meta);
    let h = s.reverse[mh];
    assert(name_key(s.names[h].name) == h);
}

/// In a consistent registry, a meta-address with a reverse entry always
/// leads back to a name.
pub proof fn lemma_reverse_entry_resolves(s: RegistryModel, meta: Seq<u8>)
    requires
        consistent(s),
        s.reverse.contains_key(sha256_digest(meta)),
    ensures
        name_of_result(s, meta) is Ok,
{
}

/// The total byte size of a sequence of records.
pub open spec fn records_total(records: Seq<RecordView>) -> int
    decreases records.len(),
{
    if records.len() == 0 {
        0
    } else {
        record_size(records[0]) + records_total(records.drop_first())
    }
}

/// Text records pass exactly when every record meets the per-record limits
/// and all records together hold at most `MAX_METADATA_TOTAL_BYTES` bytes.
pub proof fn lemma_text_records_check_ok(records: Seq<RecordView>)
    ensures
        text_records_check(records, 0) is Ok <==> (forall|i: int|
            0 <= i < records.len() ==> #[trigger] text_record_check(records[i].0, records[i].1) is Ok)
            && records_total(records) <= MAX_METADATA_TOTAL_BYTES,
{
    lemma_text_records_check_ok_from(records, 0);
}

proof fn lemma_records_total_nonneg(records: Seq<RecordView>)
    ensures
        records_total(records) >= 0,
    decreases records.len(),
{
    if records.len() > 0 {
        lemma_records_total_nonneg(records.drop_first());
    }
}

proof fn lemma_text_records_check_ok_from(records: Seq<RecordView>, total: int)
    requires
        0 <= total,
    ensures
        text_records_check(records, total) is Ok <==> (forall|i: int|
            0 <= i < records.len() ==> #[trigger] text_record_check(records[i].0, records[i].1) is Ok)
            && total + records_total(records) <= MAX_METADATA_TOTAL_BYTES,
    decreases records.len(),
{
    if records.len() > 0 {
        let rest = records.drop_first();
        let t2 = total + record_size(records[0]);
        lemma_text_records_check_ok_from(rest, t2);
        lemma_records_total_nonneg(rest);
        assert forall|i: int| 0 <= i < rest.len() implies #[trigger] rest[i] == records[i + 1] by {}
        if (forall|i: int| 0 <= i < records.len() ==> #[trigger] text_record_check(records[i].0, records[i].1) is Ok) {
            assert(text_record_check(records[0].0, records[0].1) is Ok);
            assert forall|i: int| 0 <= i < rest.len() implies #[trigger] text_record_check(rest[i].0, rest[i].1) is Ok by {
                assert(text_record_check(records[i + 1].0, records[i + 1].1) is Ok);
            }
        }
        if text_records_check(records, total) is Ok {
            assert forall|i: int| 0 <= i < records.len() implies #[trigger] text_record_check(records[i].0, records[i].1) is Ok by {
                if i > 0 {
                    assert(text_record_check(rest[i - 1].0, rest[i - 1].1) is Ok);
                }
            }
        }
    }
}

/// Adding a record adds its size to the total.
proof fn lemma_records_total_insert(records: Seq<RecordView>, i: int, r: RecordView)
    requires
        0 <= i <= records.len(),
    ensures
        records_total(records.insert(i, r)) == records_total(records) + record_size(r),
    decreases records.len(),
{
    let t = records.insert(i, r);
    if i == 0 {
        assert(t.drop_first() =~= records);
    } else {
        assert(t[0] == records[0]);
        assert(t.drop_first() =~= records.drop_first().insert(i - 1, r));
        lemma_records_total_insert(records.drop_first(), i - 1, r);
    }
}

/// Adding a record never turns rejected text records into accepted ones.
/// (`TextRecords::set` with a key that is not yet present inserts the new
/// record at one position, keeping all the others.)
pub proof fn lemma_adding_record_keeps_rejection(records: Seq<RecordView>, i: int, r: RecordView)
    requires
        text_records_check(records, 0) is Err,
        0 <= i <= records.len(),
    ensures
        text_records_check(records.insert(i, r), 0) is Err,
{
    let t = records.insert(i, r);
    lemma_text_records_check_ok(records);
    lemma_text_records_check_ok(t);
    lemma_records_total_insert(records, i, r);
    if !(forall|j: int| 0 <= j < records.len() ==> #[trigger] text_record_check(records[j].0, records[j].1) is Ok) {
        let j = choose|j: int| 0 <= j < records.len() && !(#[trigger] text_record_check(records[j].0, records[j].1) is Ok);
        let j2 = if j < i { j } else { j + 1 };
        assert(t[j2] == records[j]);
        assert(!(text_record_check(t[j2].0, t[j2].1) is Ok));
    }
}

/// A name is kept under the SHA-256 digest of all of its bytes.
pub proof fn lemma_name_key_is_digest_of_whole_name(name: Seq<u8>)
    ensures
        name_key(name) == sha256_digest(name),
{
}

/// A name passes exactly when it has 3 to 32 bytes, each in `b'a'..=b'z'` or
/// `b'0'..=b'9'`; a shorter one is `NameTooShort`, a longer one `NameTooLong`,
/// and any other refusal is `InvalidNameCharacter`.
pub proof fn lemma_name_check_exact(name: Seq<u8>)
    ensures
        name_check(name) is Ok <==> 3 <= name.len() <= 32 && forall|i: int|
            0 <= i < name.len() ==> (97u8 <= #[trigger] name[i] <= 122u8 || 48u8 <= name[i] <= 57u8),
        name.len() < 3 ==> name_check(name) == Err::<(), NamesError>(NamesError::NameTooShort),
        name.len() > 32 ==> name_check(name) == Err::<(), NamesError>(NamesError::NameTooLong),
        3 <= name.len() <= 32 && name_check(name) is Err ==> name_check(name) == Err::<(), NamesError>(
            NamesError::InvalidNameCharacter,
        ),
{
}

/// Registration succeeds exactly when the name has 3 to 32 lowercase letters
/// and digits, the meta-address has 64 bytes and no name with the same
/// digest is held; afterwards the name resolves to the meta-address, the
/// meta-address leads back to the name, and every name with another digest
/// resolves as before.
pub proof fn lemma_register_exact(s: RegistryModel, owner: Seq<u8>, name: Seq<u8>, meta: Seq<u8>, other: Seq<u8>)
    ensures
        register_result(s, owner, name, meta) is Ok <==> {
            &&& 3 <= name.len() <= 32
            &&& forall|i: int| 0 <= i < name.len() ==> (97u8 <= #[trigger] name[i] <= 122u8 || 48u8 <= name[i] <= 57u8)
            &&& meta.len() == 64
            &&& !s.names.contains_key(sha256_digest(name))
        },
        register_result(s, owner, name, meta) is Ok ==> {
            &&& resolve_result(register_state(s, owner, name, meta), name) == Ok::<Seq<u8>, NamesError>(meta)
            &&& name_of_result(register_state(s, owner, name, meta), meta) == Ok::<Seq<u8>, NamesError>(name)
        },
        sha256_digest(other) != sha256_digest(name) ==> resolve_result(register_state(s, owner, name, meta), other)
            == resolve_result(s, other),
{
    lemma_name_check_exact(name);
}

/// An update by the owner of a registered name to a 64-byte meta-address
/// always succeeds, whatever metadata the name has: afterwards the name
/// resolves to the new meta-address, which leads back to the name, the
/// metadata is unchanged, and every name with another digest resolves as
/// before.
pub proof fn lemma_update_succeeds(s: RegistryModel, owner: Seq<u8>, name: Seq<u8>, meta: Seq<u8>, other: Seq<u8>)
    requires
        meta.len() == 64,
        s.names.contains_key(sha256_digest(name)),
        s.names[sha256_digest(name)].owner == owner,
    ensures
        update_result(s, owner, name, meta) is Ok,
        resolve_result(update_state(s, owner, name, meta), name) == Ok::<Seq<u8>, NamesError>(meta),
        name_of_result(update_state(s, owner, name, meta), meta) == Ok::<Seq<u8>, NamesError>(name),
        update_state(s, owner, name, meta).metadata == s.metadata,
        sha256_digest(other) != sha256_digest(name) ==> resolve_result(update_state(s, owner, name, meta), other)
            == resolve_result(s, other),
{
}

/// Setting metadata by the owner of a registered name, with metadata that
/// meets the limits, always succeeds, whatever metadata the name had: the
/// name's metadata becomes the given entry, every other name's metadata and
/// every resolution stay as they were.
pub proof fn lemma_set_metadata_succeeds(
    s: RegistryModel,
    owner: Seq<u8>,
    name: Seq<u8>,
    md: MetadataView,
    other: Seq<u8>,
)
    requires
        s.names.contains_key(sha256_digest(name)),
        s.names[sha256_digest(name)].owner == owner,
        metadata_entry_check(md) is Ok,
    ensures
        set_metadata_result(s, owner, name, md) is Ok,
        set_metadata_state(s, owner, name, md).metadata.contains_key(sha256_digest(name)),
        set_metadata_state(s, owner, name, md).metadata[sha256_digest(name)] == md,
        sha256_digest(other) != sha256_digest(name) ==> get_metadata_result(set_metadata_state(s, owner, name, md), other)
            == get_metadata_result(s, other),
        resolve_result(set_metadata_state(s, owner, name, md), other) == resolve_result(s, other),
{
}

/// Releasing a name changes nothing about other names: every name with
/// another digest resolves as before and keeps its metadata, and every
/// meta-address whose digest differs from that of the released name's
/// meta-address, and that does not lead back to the released name, leads
/// where it did before.
pub proof fn lemma_release_is_local(
    s: RegistryModel,
    owner: Seq<u8>,
    name: Seq<u8>,
    other: Seq<u8>,
    other_meta: Seq<u8>,
)
    requires
        release_result(s, owner, name) is Ok,
    ensures
        sha256_digest(other) != sha256_digest(name) ==> resolve_result(release_state(s, owner, name), other)
            == resolve_result(s, other),
        sha256_digest(other) != sha256_digest(name) ==> get_metadata_result(release_state(s, owner, name), other)
            == get_metadata_result(s, other),
        sha256_digest(other_meta) != sha256_digest(s.names[sha256_digest(name)].stealth_meta_address)
            && !(s.reverse.contains_key(sha256_digest(other_meta))
            && s.reverse[sha256_digest(other_meta)] == sha256_digest(name)) ==> name_of_result(
            release_state(s, owner, name),
            other_meta,
        ) == name_of_result(s, other_meta),
{
}

} // verus!
