//! The ledger snapshot: the entries that the execution host starts from, each
//! under its key.
//!
//! Keys and entries are binary records in canonical form, so that one key is
//! one sequence of bytes however the request spelled it. A snapshot holds
//! every key once; putting an entry under a key that is already there
//! replaces the earlier entry.

use crate::codec::{decode_b64_binary, decode_spec, DecodeError, DecodeErrorView, Schema};
use vstd::prelude::*;

verus! {

/// A ledger key with its entry, both as decoded binary records.
#[derive(Clone, Debug, PartialEq, Eq)]
pub struct LedgerRecord {
    pub key: Vec<u8>,
    pub entry: Vec<u8>,
}

/// The mathematical value of a [`LedgerRecord`].
pub struct LedgerRecordView {
    pub key: Seq<u8>,
    pub entry: Seq<u8>,
}

impl View for LedgerRecord {
    type V = LedgerRecordView;

    open spec fn view(&self) -> LedgerRecordView {
        LedgerRecordView { key: self.key@, entry: self.entry@ }
    }
}

/// The values of a sequence of records, one for one.
pub open spec fn record_views(v: Seq<LedgerRecord>) -> Seq<LedgerRecordView> {
    v.map_values(|r: LedgerRecord| r@)
}

/// The map that the records make when they are put in one after the other:
/// a later record replaces an earlier one with the same key.
pub open spec fn entries_map(records: Seq<LedgerRecordView>) -> Map<Seq<u8>, Seq<u8>>
    decreases records.len(),
{
    if records.len() == 0 {
        Map::empty()
    } else {
        entries_map(records.drop_last()).insert(records.last().key, records.last().entry)
    }
}

/// No key stands twice.
pub open spec fn keys_unique(records: Seq<LedgerRecordView>) -> bool {
    forall|i: int, j: int| 0 <= i < j < records.len() ==> records[i].key != records[j].key
}

/// The texts of a sequence of pairs of strings, one for one.
pub open spec fn pair_views(v: Seq<(String, String)>) -> Seq<(Seq<char>, Seq<char>)> {
    v.map_values(|p: (String, String)| (p.0@, p.1@))
}

/// The records that the pairs of texts decode to, key first: all of them, or
/// the error of the first text that does not decode.
pub open spec fn decode_records(pairs: Seq<(Seq<char>, Seq<char>)>) -> Result<
    Seq<LedgerRecordView>,
    DecodeErrorView,
>
    decreases pairs.len(),
{
    if pairs.len() == 0 {
        Ok(Seq::empty())
    } else {
        match decode_records(pairs.drop_last()) {
            Err(e) => Err(e),
            Ok(records) => match decode_spec(pairs.last().0, Schema::LedgerKey) {
                Err(e) => Err(e),
                Ok(key) => match decode_spec(pairs.last().1, Schema::LedgerEntry) {
                    Err(e) => Err(e),
                    Ok(entry) => Ok(
                        records.push(LedgerRecordView { key: key.bytes, entry: entry.bytes }),
                    ),
                },
            },
        }
    }
}

/// The snapshot that the pairs of texts give: the map of the decoded
/// records, later pairs winning, or the error of the first text that does
/// not decode.
pub open spec fn snapshot_spec(pairs: Seq<(Seq<char>, Seq<char>)>) -> Result<
    Map<Seq<u8>, Seq<u8>>,
    DecodeErrorView,
> {
    match decode_records(pairs) {
        Ok(records) => Ok(entries_map(records)),
        Err(e) => Err(e),
    }
}

/// Whether the two byte strings are the same.
pub fn same_bytes(a: &Vec<u8>, b: &Vec<u8>) -> (same: bool)
    ensures
        same == (a@ == b@),
{
    if a.len() != b.len() {
        return false;
    }
    let mut k: usize = 0;
    while k < a.len()
        invariant
            k <= a.len(),
            a.len() == b.len(),
            forall|i: int| 0 <= i < k ==> a@[i] == b@[i],
        decreases a.len() - k,
    {
        if a[k] != b[k] {
            return false;
        }
        k += 1;
    }
    assert(a@ =~= b@);
    true
}

/// Some record stands under `key`.
pub open spec fn has_key(records: Seq<LedgerRecordView>, key: Seq<u8>) -> bool {
    exists|i: int| 0 <= i < records.len() && (#[trigger] records[i]).key == key
}

/// The keys of the map are the keys of the records.
pub proof fn lemma_entries_map_domain(records: Seq<LedgerRecordView>, key: Seq<u8>)
    ensures
        entries_map(records).dom().contains(key) <==> has_key(records, key),
    decreases records.len(),
{
    if records.len() > 0 {
        let front = records.drop_last();
        lemma_entries_map_domain(front, key);
        if has_key(front, key) {
            let i = choose|i: int| 0 <= i < front.len() && (#[trigger] front[i]).key == key;
            assert(records[i] == front[i]);
        }
        if records.last().key == key {
            assert(records[records.len() - 1].key == key);
        }
        if has_key(records, key) {
            let i = choose|i: int| 0 <= i < records.len() && (#[trigger] records[i]).key == key;
            if i < front.len() {
                assert(front[i] == records[i]);
            }
        }
    }
}

/// With every key once, the map has as many entries as there are records.
pub proof fn lemma_entries_map_len(records: Seq<LedgerRecordView>)
    requires
        keys_unique(records),
    ensures
        entries_map(records).dom().finite(),
        entries_map(records).dom().len() == records.len(),
    decreases records.len(),
{
    if records.len() > 0 {
        let front = records.drop_last();
        let key = records.last().key;
        assert forall|a: int, b: int| 0 <= a < b < front.len() implies front[a].key
            != front[b].key by {
            assert(front[a] == records[a] && front[b] == records[b]);
        }
        lemma_entries_map_len(front);
        lemma_entries_map_domain(front, key);
        if has_key(front, key) {
            let i = choose|i: int| 0 <= i < front.len() && (#[trigger] front[i]).key == key;
            assert(front[i] == records[i]);
            assert(records[i].key != records[records.len() - 1].key);
        }
        assert(entries_map(records).dom() =~= entries_map(front).dom().insert(key));
    }
}

/// Last wins: the entry under a key is that of the last record with the key.
pub proof fn lemma_last_record_wins(records: Seq<LedgerRecordView>, i: int)
    requires
        0 <= i < records.len(),
        forall|j: int| i < j < records.len() ==> records[j].key != records[i].key,
    ensures
        entries_map(records).dom().contains(records[i].key),
        entries_map(records)[records[i].key] == records[i].entry,
    decreases records.len(),
{
    if i < records.len() - 1 {
        let front = records.drop_last();
        assert(front[i] == records[i]);
        assert forall|j: int| i < j < front.len() implies front[j].key != front[i].key by {
            assert(front[j] == records[j]);
        }
        lemma_last_record_wins(front, i);
        assert(records.last().key != records[i].key);
    }
}

/// Replacing the entry of a record changes the map as putting the new entry
/// under its key does.
proof fn lemma_replace_entry(records: Seq<LedgerRecordView>, i: int, entry: Seq<u8>)
    requires
        keys_unique(records),
        0 <= i < records.len(),
    ensures
        entries_map(records.update(i, LedgerRecordView { key: records[i].key, entry }))
            == entries_map(records).insert(records[i].key, entry),
    decreases records.len(),
{
    let key = records[i].key;
    let changed = records.update(i, LedgerRecordView { key, entry });
    let front = records.drop_last();
    if i == records.len() - 1 {
        assert(changed.drop_last() =~= front);
        assert(entries_map(changed) =~= entries_map(records).insert(key, entry));
    } else {
        assert forall|a: int, b: int| 0 <= a < b < front.len() implies front[a].key
            != front[b].key by {
            assert(front[a] == records[a] && front[b] == records[b]);
        }
        assert(front[i] == records[i]);
        lemma_replace_entry(front, i, entry);
        assert(changed.drop_last() =~= front.update(i, LedgerRecordView { key, entry }));
        assert(changed.last() == records.last());
        assert(records.last().key != key);
        assert(entries_map(changed) =~= entries_map(records).insert(key, entry));
    }
}

/// The ledger state that the execution host sees during one simulation.
#[derive(Debug)]
pub struct Snapshot {
    records: Vec<LedgerRecord>,
}

impl View for Snapshot {
    type V = Map<Seq<u8>, Seq<u8>>;

    closed spec fn view(&self) -> Map<Seq<u8>, Seq<u8>> {
        entries_map(record_views(self.records@))
    }
}

impl Snapshot {
    #[verifier::type_invariant]
    spec fn each_key_once(self) -> bool {
        keys_unique(record_views(self.records@))
    }

    /// The snapshot without any entry.
    pub fn new() -> (snapshot: Snapshot)
        ensures
            snapshot@ == Map::<Seq<u8>, Seq<u8>>::empty(),
    {
        let records: Vec<LedgerRecord> = Vec::new();
        Snapshot { records }
    }

    fn position_of(&self, key: &Vec<u8>) -> (found: Option<usize>)
        ensures
            (match found {
                Some(i) => i < self.records@.len() && self.records@[i as int].key@ == key@,
                None => forall|i: int| 0 <= i < self.records@.len() ==> self.records@[i].key@ != key@,
            }),
    {
        let mut k: usize = 0;
        while k < self.records.len()
            invariant
                k <= self.records.len(),
                forall|i: int| 0 <= i < k ==> self.records@[i].key@ != key@,
            decreases self.records.len() - k,
        {
            if same_bytes(&self.records[k].key, key) {
                return Some(k);
            }
            k += 1;
        }
        None
    }

    /// The snapshot with `entry` under `key`. An entry that was under the
    /// key before is replaced.
    pub fn insert(self, key: Vec<u8>, entry: Vec<u8>) -> (snapshot: Snapshot)
        ensures
            snapshot@ == self@.insert(key@, entry@),
    {
        proof {
            use_type_invariant(&self);
        }
        let found = self.position_of(&key);
        let ghost before = record_views(self.records@);
        let mut records = self.records;
        match found {
            Some(i) => {
                proof {
                    lemma_replace_entry(before, i as int, entry@);
                }
                let replaced = LedgerRecord { key, entry };
                assert(record_views(records@.update(i as int, replaced)) =~= before.update(
                    i as int,
                    replaced@,
                ));
                records.set(i, replaced);
            },
            None => {
                let added = LedgerRecord { key, entry };
                assert(record_views(records@.push(added)) =~= before.push(added@));
                assert(before.push(added@).drop_last() =~= before);
                records.push(added);
            },
        }
        Snapshot { records }
    }

    /// The entries with their keys, every key once.
    pub fn records(&self) -> (records: &Vec<LedgerRecord>)
        ensures
            keys_unique(record_views(records@)),
            entries_map(record_views(records@)) == self@,
    {
        proof {
            use_type_invariant(self);
        }
        &self.records
    }

    /// The number of entries, which is the number of keys.
    pub fn len(&self) -> (n: usize)
        ensures
            self@.dom().finite(),
            n == self@.dom().len(),
    {
        proof {
            use_type_invariant(self);
            lemma_entries_map_len(record_views(self.records@));
        }
        self.records.len()
    }

    /// The entry under `key`, if there is one.
    pub fn get(&self, key: &Vec<u8>) -> (entry: Option<&Vec<u8>>)
        ensures
            (match entry {
                Some(e) => self@.dom().contains(key@) && self@[key@] == e@,
                None => !self@.dom().contains(key@),
            }),
    {
        proof {
            use_type_invariant(self);
            lemma_entries_map_domain(record_views(self.records@), key@);
        }
        let ghost records = record_views(self.records@);
        match self.position_of(key) {
            Some(i) => {
                proof {
                    assert(records[i as int].key == key@);
                    assert forall|j: int| i < j < records.len() implies records[j].key
                        != records[i as int].key by {}
                    lemma_last_record_wins(records, i as int);
                }
                Some(&self.records[i].entry)
            },
            None => {
                proof {
                    if has_key(records, key@) {
                        let i = choose|i: int|
                            0 <= i < records.len() && (#[trigger] records[i]).key == key@;
                        assert(self.records@[i].key@ == key@);
                    }
                }
                None
            },
        }
    }
}

/// The value of the result of building a snapshot.
pub open spec fn built_view(res: Result<(Snapshot, usize), DecodeError>) -> Result<
    Map<Seq<u8>, Seq<u8>>,
    DecodeErrorView,
> {
    match res {
        Ok(built) => Ok(built.0@),
        Err(e) => Err(e@),
    }
}

/// Builds the snapshot of the given pairs of base64 texts, key first. Every
/// key and entry is decoded by itself; the first text that does not decode
/// ends the build with its error, and nothing is kept. With the snapshot
/// comes the number of pairs that were loaded.
pub fn build_snapshot(pairs: &Vec<(String, String)>) -> (res: Result<(Snapshot, usize), DecodeError>)
    ensures
        built_view(res) == snapshot_spec(pair_views(pairs@)),
        res matches Ok(built) ==> built.1 == pairs@.len(),
{
    let ghost all = pair_views(pairs@);
    let mut snapshot = Snapshot::new();
    let ghost mut decoded: Seq<LedgerRecordView> = Seq::empty();
    let mut k: usize = 0;
    assert(all.take(0) =~= Seq::<(Seq<char>, Seq<char>)>::empty());
    while k < pairs.len()
        invariant
            k <= pairs.len(),
            all == pair_views(pairs@),
            decode_records(all.take(k as int)) == Ok::<Seq<LedgerRecordView>, DecodeErrorView>(
                decoded,
            ),
            snapshot@ == entries_map(decoded),
        decreases pairs.len() - k,
    {
        proof {
            assert(all.take(k + 1).drop_last() =~= all.take(k as int));
            assert(all.take(k + 1).last() == (pairs@[k as int].0@, pairs@[k as int].1@));
        }
        let key = match decode_b64_binary(pairs[k].0.as_str(), Schema::LedgerKey) {
            Ok(record) => record,
            Err(e) => {
                proof {
                    lemma_decode_failure_stays(all, k + 1);
                }
                return Err(e);
            },
        };
        let entry = match decode_b64_binary(pairs[k].1.as_str(), Schema::LedgerEntry) {
            Ok(record) => record,
            Err(e) => {
                proof {
                    lemma_decode_failure_stays(all, k + 1);
                }
                return Err(e);
            },
        };
        let key_bytes = copy_bytes(key.bytes());
        let entry_bytes = copy_bytes(entry.bytes());
        proof {
            let added = LedgerRecordView { key: key_bytes@, entry: entry_bytes@ };
            assert(decoded.push(added).drop_last() =~= decoded);
            decoded = decoded.push(added);
        }
        snapshot = snapshot.insert(key_bytes, entry_bytes);
        k += 1;
    }
    assert(all.take(k as int) =~= all);
    Ok((snapshot, pairs.len()))
}

/// A copy of the bytes.
pub fn copy_bytes(bytes: &Vec<u8>) -> (copy: Vec<u8>)
    ensures
        copy@ == bytes@,
{
    let mut copy: Vec<u8> = Vec::new();
    let mut k: usize = 0;
    while k < bytes.len()
        invariant
            k <= bytes.len(),
            copy@ == bytes@.take(k as int),
        decreases bytes.len() - k,
    {
        copy.push(bytes[k]);
        assert(bytes@.take(k + 1) =~= bytes@.take(k as int).push(bytes@[k as int]));
        k += 1;
    }
    assert(bytes@.take(k as int) =~= bytes@);
    copy
}

/// Once a pair fails to decode, the build fails with that error however many
/// pairs follow: nothing of a batch is loaded past a failure.
pub proof fn lemma_decode_failure_stays(pairs: Seq<(Seq<char>, Seq<char>)>, n: int)
    requires
        0 <= n <= pairs.len(),
        decode_records(pairs.take(n)) is Err,
    ensures
        decode_records(pairs) == decode_records(pairs.take(n)),
    decreases pairs.len() - n,
{
    if n < pairs.len() {
        assert(pairs.take(n + 1).drop_last() =~= pairs.take(n));
        lemma_decode_failure_stays(pairs, n + 1);
    } else {
        assert(pairs.take(n) =~= pairs);
    }
}

} // verus!
