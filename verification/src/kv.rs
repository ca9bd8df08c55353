//! Key-value persistence for the identity subsystem.
//!
//! Two namespaces keyed by principal text: one for exported secret key
//! material, one for per-principal metadata documents.  Writes are
//! last-write-wins; a single read or write is atomic and no caller ever
//! holds a lock across a read-modify-write.
use crate::strutil::str_eq;
use vstd::prelude::*;

verus! {

/// The value the latest write bound to `key`, if any.
pub open spec fn lookup(entries: Seq<(String, String)>, key: Seq<char>) -> Option<Seq<char>>
    decreases entries.len(),
{
    if entries.len() == 0 {
        None
    } else if entries.last().0@ == key {
        Some(entries.last().1@)
    } else {
        lookup(entries.drop_last(), key)
    }
}

/// An in-memory store: an append-only journal of writes per namespace,
/// read back latest-write-first.
#[derive(Debug)]
pub struct KVStore {
    secrets: Vec<(String, String)>,
    metadata: Vec<(String, String)>,
}

impl KVStore {
    /// The journal of writes to the secret-key namespace.
    pub closed spec fn secrets_log(&self) -> Seq<(String, String)> {
        self.secrets@
    }

    /// The journal of writes to the metadata namespace.
    pub closed spec fn metadata_log(&self) -> Seq<(String, String)> {
        self.metadata@
    }

    /// The stored secret for `key`.
    pub closed spec fn secret_at(&self, key: Seq<char>) -> Option<Seq<char>> {
        lookup(self.secrets@, key)
    }

    /// The stored metadata text for `key`.
    pub closed spec fn metadata_at(&self, key: Seq<char>) -> Option<Seq<char>> {
        lookup(self.metadata@, key)
    }

    pub fn new() -> (r: KVStore)
        ensures
            r.secrets_log() == Seq::<(String, String)>::empty(),
            r.metadata_log() == Seq::<(String, String)>::empty(),
            forall|k: Seq<char>| r.secret_at(k) is None,
            forall|k: Seq<char>| r.metadata_at(k) is None,
    {
        let r = KVStore { secrets: Vec::new(), metadata: Vec::new() };
        proof {
            assert(r.secrets@ =~= Seq::<(String, String)>::empty());
            assert(r.metadata@ =~= Seq::<(String, String)>::empty());
            assert(forall|k: Seq<char>| lookup(r.secrets@, k) is None);
            assert(forall|k: Seq<char>| lookup(r.metadata@, k) is None);
        }
        r
    }

    /// The number of writes the secret-key namespace has seen.
    pub fn secrets_len(&self) -> (r: usize)
        ensures
            r == self.secrets_log().len(),
    {
        self.secrets.len()
    }

    /// The number of writes the metadata namespace has seen.
    pub fn metadata_len(&self) -> (r: usize)
        ensures
            r == self.metadata_log().len(),
    {
        self.metadata.len()
    }

    /// Reads the value bound to `key` in the secret-key namespace.
    pub fn read(&self, key: &str) -> (r: Option<String>)
        ensures
            match r {
                Some(v) => self.secret_at(key@) == Some(v@),
                None => self.secret_at(key@) is None,
            },
    {
        read_in(&self.secrets, key)
    }

    /// Binds `key` to `value` in the secret-key namespace.
    pub fn write(&mut self, key: String, value: String)
        ensures
            final(self).secrets_log() == old(self).secrets_log().push((key, value)),
            final(self).metadata_log() == old(self).metadata_log(),
            final(self).secret_at(key@) == Some(value@),
            forall|k2: Seq<char>| k2 != key@ ==> final(self).secret_at(k2)
                == old(self).secret_at(k2),
    {
        let ghost old_entries = self.secrets@;
        let ghost kview = key@;
        let ghost vview = value@;
        self.secrets.push((key, value));
        proof {
            assert(self.secrets@.last().0@ == kview);
            assert(self.secrets@.drop_last() =~= old_entries);
            assert(lookup(self.secrets@, kview) == Some(vview));
        }
    }

    /// Reads the raw text bound to `key` in the metadata namespace.
    pub fn read_metadata_raw(&self, key: &str) -> (r: Option<String>)
        ensures
            match r {
                Some(v) => self.metadata_at(key@) == Some(v@),
                None => self.metadata_at(key@) is None,
            },
    {
        read_in(&self.metadata, key)
    }

    /// Binds `key` to the raw text `value` in the metadata namespace.
    pub fn write_metadata_raw(&mut self, key: String, value: String)
        ensures
            final(self).metadata_log() == old(self).metadata_log().push((key, value)),
            final(self).secrets_log() == old(self).secrets_log(),
            final(self).metadata_at(key@) == Some(value@),
            forall|k2: Seq<char>| k2 != key@ ==> final(self).metadata_at(k2)
                == old(self).metadata_at(k2),
    {
        let ghost old_entries = self.metadata@;
        let ghost kview = key@;
        let ghost vview = value@;
        self.metadata.push((key, value));
        proof {
            assert(self.metadata@.last().0@ == kview);
            assert(self.metadata@.drop_last() =~= old_entries);
            assert(lookup(self.metadata@, kview) == Some(vview));
        }
    }
}

/// A present binding in the secret-key namespace is witnessed by a
/// journal entry holding exactly that key and the bound value.
pub proof fn lemma_secret_at_entry(kv: &KVStore, key: Seq<char>)
    requires
        kv.secret_at(key) is Some,
    ensures
        exists|t: int|
            0 <= t < kv.secrets_log().len() && (#[trigger] kv.secrets_log()[t]).0@ == key
                && kv.secrets_log()[t].1@ == kv.secret_at(key)->Some_0,
{
    lemma_lookup_entry(kv.secrets@, key);
    let t = choose|t: int|
        0 <= t < kv.secrets@.len() && (#[trigger] kv.secrets@[t]).0@ == key && kv.secrets@[t].1@
            == lookup(kv.secrets@, key)->Some_0;
    assert(0 <= t < kv.secrets_log().len() && (kv.secrets_log()[t]).0@ == key
        && kv.secrets_log()[t].1@ == kv.secret_at(key)->Some_0);
}

proof fn lemma_lookup_entry(entries: Seq<(String, String)>, key: Seq<char>)
    requires
        lookup(entries, key) is Some,
    ensures
        exists|t: int|
            0 <= t < entries.len() && (#[trigger] entries[t]).0@ == key && entries[t].1@
                == lookup(entries, key)->Some_0,
    decreases entries.len(),
{
    if entries.last().0@ == key {
        assert(0 <= entries.len() - 1 < entries.len() && (entries[entries.len() - 1]).0@ == key
            && entries[entries.len() - 1].1@ == lookup(entries, key)->Some_0);
    } else {
        lemma_lookup_entry(entries.drop_last(), key);
        let t = choose|t: int|
            0 <= t < entries.drop_last().len() && (#[trigger] entries.drop_last()[t]).0@ == key
                && entries.drop_last()[t].1@ == lookup(entries.drop_last(), key)->Some_0;
        assert(entries[t] == entries.drop_last()[t]);
        assert(0 <= t < entries.len() && (entries[t]).0@ == key && entries[t].1@ == lookup(
            entries,
            key,
        )->Some_0);
    }
}

/// Scans a journal from its latest entry backwards.
fn read_in(entries: &Vec<(String, String)>, key: &str) -> (r: Option<String>)
    ensures
        match r {
            Some(v) => lookup(entries@, key@) == Some(v@),
            None => lookup(entries@, key@) is None,
        },
{
    let mut i: usize = entries.len();
    proof {
        assert(entries@.subrange(0, i as int) =~= entries@);
    }
    while i > 0
        invariant
            i <= entries@.len(),
            lookup(entries@, key@) == lookup(entries@.subrange(0, i as int), key@),
        decreases i,
    {
        let hit = str_eq(entries[i - 1].0.as_str(), key);
        proof {
            assert(entries@.subrange(0, i as int).last() == entries@[i as int - 1]);
            assert(entries@.subrange(0, i as int).drop_last()
                =~= entries@.subrange(0, i as int - 1));
        }
        if hit {
            return Some(entries[i - 1].1.clone());
        }
        i = i - 1;
    }
    proof {
        assert(entries@.subrange(0, 0).len() == 0);
    }
    None
}

} // verus!
