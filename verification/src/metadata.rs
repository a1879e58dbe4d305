//! Optional metadata of a name: text records and a content hash, with the
//! size limits that every stored entry must meet.

use vstd::prelude::*;
use crate::bytes::{bytes_lt, compare_bytes, copy_bytes, lemma_bytes_lt_irreflexive, lemma_bytes_lt_transitive, ByteOrder};

verus! {

/// Longest text-record key, in bytes.
pub const MAX_TEXT_RECORD_KEY_BYTES: u32 = 64;

/// Longest text-record value, in bytes.
pub const MAX_TEXT_RECORD_VALUE_BYTES: u32 = 256;

/// Largest key-plus-value size of a single text record.
pub const MAX_TEXT_RECORD_BYTES: u32 = 1024;

/// Largest total of key and value bytes over all text records of a name.
pub const MAX_METADATA_TOTAL_BYTES: u32 = 128;

/// Why metadata was refused.
#[derive(Clone, Copy, Debug, PartialEq, Eq, PartialOrd, Ord, Hash)]
pub enum MetadataError {
    MetadataKeyTooLong,
    MetadataValueTooLong,
    MetadataRecordTooLong,
    MetadataTotalTooLong,
    MetadataNotFound,
}

impl MetadataError {
    /// The numeric error code under which the contract reports this error.
    pub fn code(&self) -> (c: u32)
        ensures
            c == match *self {
                MetadataError::MetadataKeyTooLong => 101u32,
                MetadataError::MetadataValueTooLong => 102u32,
                MetadataError::MetadataRecordTooLong => 103u32,
                MetadataError::MetadataTotalTooLong => 104u32,
                MetadataError::MetadataNotFound => 105u32,
            },
    {
        match self {
            MetadataError::MetadataKeyTooLong => 101,
            MetadataError::MetadataValueTooLong => 102,
            MetadataError::MetadataRecordTooLong => 103,
            MetadataError::MetadataTotalTooLong => 104,
            MetadataError::MetadataNotFound => 105,
        }
    }
}

/// A text record seen as a pair of byte strings.
pub type RecordView = (Seq<u8>, Seq<u8>);

/// Each key sorts strictly before every key that follows it.
pub open spec fn keys_sorted(s: Seq<RecordView>) -> bool {
    forall|i: int, j: int| 0 <= i < j < s.len() ==> bytes_lt(#[trigger] s[i].0, #[trigger] s[j].0)
}

/// Some record has key `k`.
pub open spec fn has_record_key(s: Seq<RecordView>, k: Seq<u8>) -> bool {
    exists|i: int| 0 <= i < s.len() && #[trigger] s[i].0 == k
}

/// The key-to-value map that a sequence of records stands for.
pub open spec fn records_map(s: Seq<RecordView>) -> Map<Seq<u8>, Seq<u8>> {
    Map::new(
        |k: Seq<u8>| has_record_key(s, k),
        |k: Seq<u8>| s[choose|i: int| 0 <= i < s.len() && #[trigger] s[i].0 == k].1,
    )
}

/// In sorted records, the map gives the value of the record that holds the key.
pub proof fn lemma_records_map_at(s: Seq<RecordView>, i: int)
    requires
        keys_sorted(s),
        0 <= i < s.len(),
    ensures
        records_map(s).contains_key(s[i].0),
        records_map(s)[s[i].0] == s[i].1,
{
    let k = s[i].0;
    assert(has_record_key(s, k));
    let j = choose|j: int| 0 <= j < s.len() && #[trigger] s[j].0 == k;
    if j < i {
        assert(bytes_lt(s[j].0, s[i].0));
        lemma_bytes_lt_irreflexive(k);
    } else if i < j {
        assert(bytes_lt(s[i].0, s[j].0));
        lemma_bytes_lt_irreflexive(k);
    }
}

/// Text records kept in ascending key order, each key once: the order in
/// which they are listed and checked.
#[derive(Clone, Debug, PartialEq, Eq)]
pub struct TextRecords {
    entries: Vec<(Vec<u8>, Vec<u8>)>,
}

impl View for TextRecords {
    type V = Seq<RecordView>;

    closed spec fn view(&self) -> Seq<RecordView> {
        self.entries@.map_values(|p: (Vec<u8>, Vec<u8>)| (p.0@, p.1@))
    }
}

impl TextRecords {
    /// The records are in strictly ascending key order.
    pub open spec fn wf(&self) -> bool {
        keys_sorted(self@)
    }

    /// No records.
    pub fn new() -> (r: Self)
        ensures
            r@ == Seq::<RecordView>::empty(),
            r.wf(),
    {
        let r = TextRecords { entries: Vec::new() };
        assert(r@ =~= Seq::<RecordView>::empty());
        r
    }

    /// The number of records.
    pub fn len(&self) -> (n: usize)
        ensures
            n == self@.len(),
    {
        self.entries.len()
    }

    /// The key and value of the record at position `i`.
    pub fn entry(&self, i: usize) -> (r: (&Vec<u8>, &Vec<u8>))
        requires
            i < self@.len(),
        ensures
            r.0@ == self@[i as int].0,
            r.1@ == self@[i as int].1,
    {
        (&self.entries[i].0, &self.entries[i].1)
    }

    /// Sets the value of `key` to `value`, adding the key in its place in
    /// the order when it is new.
    pub fn set(&mut self, key: Vec<u8>, value: Vec<u8>)
        requires
            old(self).wf(),
        ensures
            final(self).wf(),
            records_map(final(self)@) == records_map(old(self)@).insert(key@, value@),
            final(self)@.len() == old(self)@.len() + if records_map(old(self)@).contains_key(key@) {
                0int
            } else {
                1int
            },
            records_map(old(self)@).contains_key(key@) ==> exists|i: int|
                0 <= i < old(self)@.len() && final(self)@ == #[trigger] old(self)@.update(i, (key@, value@)),
            !records_map(old(self)@).contains_key(key@) ==> exists|i: int|
                0 <= i <= old(self)@.len() && final(self)@ == #[trigger] old(self)@.insert(i, (key@, value@)),
    {
        let ghost kv = key@;
        let ghost vv = value@;
        let ghost old_view = self@;
        let mut i: usize = 0;
        while i < self.entries.len()
            invariant
                self@ == old_view,
                old(self)@ == old_view,
                keys_sorted(old_view),
                key@ == kv,
                value@ == vv,
                i <= old_view.len(),
                forall|j: int| 0 <= j < i ==> bytes_lt(#[trigger] old_view[j].0, kv),
            decreases old_view.len() - i,
        {
            assert(self@[i as int].0 == self.entries@[i as int].0@);
            match compare_bytes(self.entries[i].0.as_slice(), key.as_slice()) {
                ByteOrder::Less => {
                    i = i + 1;
                },
                ByteOrder::Equal => {
                    assert(old_view[i as int].0 == kv);
                    self.entries.set(i, (key, value));
                    proof {
                        let s = self@;
                        assert(s =~= old_view.update(i as int, (kv, vv)));
                        lemma_update_same_key(old_view, i as int, vv);
                        lemma_records_map_at(old_view, i as int);
                        assert(s == old_view.update(i as int, (kv, vv)));
                    }
                    return;
                },
                ByteOrder::Greater => {
                    self.entries.insert(i, (key, value));
                    proof {
                        let s = self@;
                        assert(s =~= old_view.insert(i as int, (kv, vv)));
                        lemma_insert_new_key(old_view, i as int, kv, vv);
                        assert(s == old_view.insert(i as int, (kv, vv)));
                    }
                    return;
                },
            }
        }
        self.entries.push((key, value));
        proof {
            let s = self@;
            assert(s =~= old_view.insert(old_view.len() as int, (kv, vv)));
            lemma_insert_new_key(old_view, old_view.len() as int, kv, vv);
            assert(s == old_view.insert(old_view.len() as int, (kv, vv)));
        }
    }

    /// A separate copy of these records.
    pub fn duplicate(&self) -> (r: Self)
        ensures
            r@ == self@,
    {
        let mut entries: Vec<(Vec<u8>, Vec<u8>)> = Vec::new();
        let mut i: usize = 0;
        while i < self.entries.len()
            invariant
                i <= self.entries@.len(),
                entries@.len() == i,
                forall|j: int|
                    0 <= j < i ==> (#[trigger] entries@[j]).0@ == self.entries@[j].0@
                        && entries@[j].1@ == self.entries@[j].1@,
            decreases self.entries@.len() - i,
        {
            let k = copy_bytes(self.entries[i].0.as_slice());
            let v = copy_bytes(self.entries[i].1.as_slice());
            entries.push((k, v));
            i = i + 1;
        }
        let r = TextRecords { entries };
        assert(r@ =~= self@);
        r
    }
}

/// Replacing the value of an existing key keeps the order and maps the key
/// to the new value.
proof fn lemma_update_same_key(s: Seq<RecordView>, i: int, v: Seq<u8>)
    requires
        keys_sorted(s),
        0 <= i < s.len(),
    ensures
        keys_sorted(s.update(i, (s[i].0, v))),
        records_map(s.update(i, (s[i].0, v))) == records_map(s).insert(s[i].0, v),
{
    let t = s.update(i, (s[i].0, v));
    let k = s[i].0;
    assert forall|a: int, b: int| 0 <= a < b < t.len() implies bytes_lt(#[trigger] t[a].0, #[trigger] t[b].0) by {
        assert(t[a].0 == s[a].0);
        assert(t[b].0 == s[b].0);
    }
    let m = records_map(s).insert(k, v);
    assert forall|key: Seq<u8>| #[trigger] records_map(t).contains_key(key) <==> m.contains_key(key) by {
        if has_record_key(t, key) {
            let j = choose|j: int| 0 <= j < t.len() && #[trigger] t[j].0 == key;
            assert(s[j].0 == key);
        }
        if has_record_key(s, key) {
            let j = choose|j: int| 0 <= j < s.len() && #[trigger] s[j].0 == key;
            assert(t[j].0 == key);
        }
        if key == k {
            assert(t[i].0 == key);
        }
    }
    assert forall|key: Seq<u8>| #[trigger] records_map(t).contains_key(key) implies records_map(t)[key] == m[key] by {
        let j = choose|j: int| 0 <= j < t.len() && #[trigger] t[j].0 == key;
        lemma_records_map_at(t, j);
        lemma_records_map_at(s, j);
    }
    assert(records_map(t) =~= m);
}

/// Inserting a record at the place where its key belongs, the key being new,
/// keeps the order and adds the key to the map.
proof fn lemma_insert_new_key(s: Seq<RecordView>, i: int, k: Seq<u8>, v: Seq<u8>)
    requires
        keys_sorted(s),
        0 <= i <= s.len(),
        forall|j: int| 0 <= j < i ==> bytes_lt(#[trigger] s[j].0, k),
        i < s.len() ==> bytes_lt(k, s[i].0),
    ensures
        keys_sorted(s.insert(i, (k, v))),
        records_map(s.insert(i, (k, v))) == records_map(s).insert(k, v),
        !records_map(s).contains_key(k),
{
    let t = s.insert(i, (k, v));
    assert forall|j: int| i <= j < s.len() implies bytes_lt(k, #[trigger] s[j].0) by {
        if j > i {
            lemma_bytes_lt_transitive(k, s[i].0, s[j].0);
        }
    }
    assert forall|a: int, b: int| 0 <= a < b < t.len() implies bytes_lt(#[trigger] t[a].0, #[trigger] t[b].0) by {
        if b < i {
            assert(t[a] == s[a] && t[b] == s[b]);
        } else if b == i {
            assert(t[a] == s[a]);
        } else if a < i {
            assert(t[a] == s[a] && t[b] == s[b - 1]);
            assert(bytes_lt(k, s[b - 1].0));
            lemma_bytes_lt_transitive(s[a].0, k, s[b - 1].0);
        } else if a == i {
            assert(t[b] == s[b - 1]);
        } else {
            assert(t[a] == s[a - 1] && t[b] == s[b - 1]);
        }
    }
    assert(!has_record_key(s, k)) by {
        if has_record_key(s, k) {
            let j = choose|j: int| 0 <= j < s.len() && #[trigger] s[j].0 == k;
            lemma_bytes_lt_irreflexive(k);
            if j < i {
                assert(bytes_lt(s[j].0, k));
            } else {
                assert(bytes_lt(k, s[j].0));
            }
        }
    }
    let m = records_map(s).insert(k, v);
    assert forall|key: Seq<u8>| #[trigger] records_map(t).contains_key(key) <==> m.contains_key(key) by {
        if has_record_key(t, key) {
            let j = choose|j: int| 0 <= j < t.len() && #[trigger] t[j].0 == key;
            if j < i {
                assert(s[j].0 == key);
            } else if j > i {
                assert(s[j - 1].0 == key);
            }
        }
        if has_record_key(s, key) {
            let j = choose|j: int| 0 <= j < s.len() && #[trigger] s[j].0 == key;
            if j < i {
                assert(t[j].0 == key);
            } else {
                assert(t[j + 1].0 == key);
            }
        }
        if key == k {
            assert(t[i].0 == key);
        }
    }
    assert forall|key: Seq<u8>| #[trigger] records_map(t).contains_key(key) implies records_map(t)[key] == m[key] by {
        let j = choose|j: int| 0 <= j < t.len() && #[trigger] t[j].0 == key;
        lemma_records_map_at(t, j);
        if j < i {
            assert(t[j] == s[j]);
            lemma_records_map_at(s, j);
        } else if j > i {
            assert(t[j] == s[j - 1]);
            lemma_records_map_at(s, j - 1);
        }
    }
    assert(records_map(t) =~= m);
}

/// A name's metadata: text records and a 32-byte content hash.
#[derive(Clone, Debug, PartialEq, Eq)]
pub struct MetadataEntry {
    /// Text records keyed by names such as "avatar", "twitter" or "description".
    pub text_records: TextRecords,
    /// Content hash for IPFS or similar content-addressed payloads.
    pub content_hash: [u8; 32],
}

/// A metadata entry seen as plain values.
pub struct MetadataView {
    pub text_records: Seq<RecordView>,
    pub content_hash: Seq<u8>,
}

impl View for MetadataEntry {
    type V = MetadataView;

    open spec fn view(&self) -> MetadataView {
        MetadataView { text_records: self.text_records@, content_hash: self.content_hash@ }
    }
}

impl MetadataEntry {
    /// A separate copy of this entry.
    pub fn duplicate(&self) -> (r: Self)
        ensures
            r@ == self@,
    {
        MetadataEntry { text_records: self.text_records.duplicate(), content_hash: self.content_hash }
    }
}

/// What checking a single text record gives: its key, then its value, then
/// the two together are held to their limits, in that order.
pub open spec fn text_record_check(key: Seq<u8>, value: Seq<u8>) -> Result<(), MetadataError> {
    if key.len() > MAX_TEXT_RECORD_KEY_BYTES {
        Err(MetadataError::MetadataKeyTooLong)
    } else if value.len() > MAX_TEXT_RECORD_VALUE_BYTES {
        Err(MetadataError::MetadataValueTooLong)
    } else if key.len() + value.len() > MAX_TEXT_RECORD_BYTES {
        Err(MetadataError::MetadataRecordTooLong)
    } else {
        Ok(())
    }
}

/// The byte size of one record, key and value together.
pub open spec fn record_size(r: RecordView) -> int {
    (r.0.len() + r.1.len()) as int
}

/// What checking `records` in order gives when `total` bytes were counted
/// before them: the first record that breaks a per-record limit gives its
/// error; a running total past `u32::MAX` gives `MetadataTotalTooLong` at the
/// record that passes it; after the last record, a total over
/// `MAX_METADATA_TOTAL_BYTES` gives `MetadataTotalTooLong`.
pub open spec fn text_records_check(records: Seq<RecordView>, total: int) -> Result<(), MetadataError>
    decreases records.len(),
{
    if records.len() == 0 {
        if total > MAX_METADATA_TOTAL_BYTES {
            Err(MetadataError::MetadataTotalTooLong)
        } else {
            Ok(())
        }
    } else {
        match text_record_check(records[0].0, records[0].1) {
            Err(e) => Err(e),
            Ok(()) => if total + record_size(records[0]) > u32::MAX {
                Err(MetadataError::MetadataTotalTooLong)
            } else {
                text_records_check(records.drop_first(), total + record_size(records[0]))
            },
        }
    }
}

/// What checking a whole metadata entry gives.
pub open spec fn metadata_entry_check(m: MetadataView) -> Result<(), MetadataError> {
    match text_records_check(m.text_records, 0) {
        Err(e) => Err(e),
        Ok(()) => if m.content_hash.len() != 32 {
            Err(MetadataError::MetadataRecordTooLong)
        } else {
            Ok(())
        },
    }
}

/// Checks one text record against the per-record limits.
pub fn validate_text_record(key: &Vec<u8>, value: &Vec<u8>) -> (r: Result<(), MetadataError>)
    ensures
        r == text_record_check(key@, value@),
{
    if key.len() > MAX_TEXT_RECORD_KEY_BYTES as usize {
        return Err(MetadataError::MetadataKeyTooLong);
    }
    if value.len() > MAX_TEXT_RECORD_VALUE_BYTES as usize {
        return Err(MetadataError::MetadataValueTooLong);
    }
    let record_len = key.len() + value.len();
    if record_len > MAX_TEXT_RECORD_BYTES as usize {
        return Err(MetadataError::MetadataRecordTooLong);
    }
    Ok(())
}

/// Checks every text record in key order, then the total size.
pub fn validate_text_records(text_records: &TextRecords) -> (r: Result<(), MetadataError>)
    ensures
        r == text_records_check(text_records@, 0),
{
    let ghost all = text_records@;
    let n = text_records.len();
    let mut total: u32 = 0;
    let mut i: usize = 0;
    assert(all.skip(0) =~= all);
    while i < n
        invariant
            n == all.len(),
            all == text_records@,
            i <= n,
            text_records_check(all, 0) == text_records_check(all.skip(i as int), total as int),
        decreases n - i,
    {
        let (key, value) = text_records.entry(i);
        let ghost rest = all.skip(i as int);
        assert(rest[0] == all[i as int]);
        assert(rest.drop_first() =~= all.skip(i + 1));
        match validate_text_record(key, value) {
            Err(e) => {
                return Err(e);
            },
            Ok(()) => {},
        }
        match total.checked_add(key.len() as u32) {
            None => {
                return Err(MetadataError::MetadataTotalTooLong);
            },
            Some(t) => {
                total = t;
            },
        }
        match total.checked_add(value.len() as u32) {
            None => {
                return Err(MetadataError::MetadataTotalTooLong);
            },
            Some(t) => {
                total = t;
            },
        }
        i = i + 1;
    }
    assert(all.skip(n as int).len() == 0);
    if total > MAX_METADATA_TOTAL_BYTES {
        return Err(MetadataError::MetadataTotalTooLong);
    }
    Ok(())
}

/// Checks a metadata entry: its text records, then its content hash.
pub fn validate_metadata_entry(entry: &MetadataEntry) -> (r: Result<(), MetadataError>)
    ensures
        r == metadata_entry_check(entry@),
{
    match validate_text_records(&entry.text_records) {
        Err(e) => {
            return Err(e);
        },
        Ok(()) => {},
    }
    if entry.content_hash.len() != 32 {
        return Err(MetadataError::MetadataRecordTooLong);
    }
    Ok(())
}

} // verus!
