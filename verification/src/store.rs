use vstd::prelude::*;

use crate::codec::dec_entry;
use crate::codec::enc_entry;
use crate::codec_exec::decode_entry;
use crate::codec_exec::encode_entry;
use crate::entry::entry_sorted;
use crate::entry::insertion_index;
use crate::entry::DictionaryEntry;
use crate::entry::DictionaryTerm;
use crate::entry::EntryView;
use crate::entry::TermView;

verus! {

// ---------------------------------------------------------------------------
// The persistent key-value layer. The store is a sled database; its logical
// contents are modelled as a map from string keys to byte strings, and every
// operation of sled that the library relies on is declared with a contract
// over that map.
// ---------------------------------------------------------------------------
#[verifier::external_type_specification]
#[verifier::external_body]
pub struct ExDb(sled::Db);

#[verifier::external_type_specification]
#[verifier::external_body]
pub struct ExSledError(sled::Error);

/// What the database maps each UTF-8 string key to. Keys that are not valid
/// UTF-8 never arise here: every access goes through a string key.
pub uninterp spec fn db_contents(db: sled::Db) -> Map<Seq<char>, Seq<u8>>;

/// Relies on sled::open: opens (or creates) the database at `path`. What it
/// holds depends on the disk, so nothing is promised of the contents.
#[verifier::external_body]
fn db_open(path: &str) -> (r: Result<sled::Db, sled::Error>) {
    sled::open(path)
}

/// Relies on sled::Config::temporary and Config::open: a temporary database
/// starts from a fresh, empty tree and is removed when dropped.
#[verifier::external_body]
fn db_open_temporary() -> (r: Result<sled::Db, sled::Error>)
    ensures
        match r {
            Ok(db) => db_contents(db) == Map::<Seq<char>, Seq<u8>>::empty(),
            Err(_) => true,
        },
{
    sled::Config::new().temporary(true).open()
}

/// Relies on sled::Db::was_recovered: whether the database was read back
/// from an earlier instance on disk. Nothing is promised of the answer.
#[verifier::external_body]
fn db_was_recovered(db: &sled::Db) -> bool {
    db.was_recovered()
}

/// Relies on sled::Tree::get: returns the value stored under the key, or
/// `None` where the key is absent; errors surface storage faults.
#[verifier::external_body]
fn db_get(db: &sled::Db, key: &str) -> (r: Result<Option<Vec<u8>>, sled::Error>)
    ensures
        match r {
            Ok(Some(v)) => db_contents(*db).contains_key(key@) && v@ == db_contents(*db)[key@],
            Ok(None) => !db_contents(*db).contains_key(key@),
            Err(_) => true,
        },
{
    match db.get(key.as_bytes()) {
        Ok(Some(v)) => Ok(Some(v.to_vec())),
        Ok(None) => Ok(None),
        Err(e) => Err(e),
    }
}

/// Relies on sled::Tree::contains_key: whether the key has a value.
#[verifier::external_body]
fn db_contains(db: &sled::Db, key: &str) -> (r: Result<bool, sled::Error>)
    ensures
        match r {
            Ok(b) => b == db_contents(*db).contains_key(key@),
            Err(_) => true,
        },
{
    db.contains_key(key.as_bytes())
}

/// Relies on sled::Tree::insert: on success the key maps to the new value
/// and every other key is untouched.
#[verifier::external_body]
fn db_insert(db: &mut sled::Db, key: &str, value: &[u8]) -> (r: Result<(), sled::Error>)
    ensures
        r is Ok ==> db_contents(*final(db)) == db_contents(*old(db)).insert(key@, value@),
{
    match db.insert(key.as_bytes(), value) {
        Ok(_) => Ok(()),
        Err(e) => Err(e),
    }
}

/// Relies on sled::Tree::clear: on success every key is removed.
#[verifier::external_body]
fn db_clear(db: &mut sled::Db) -> (r: Result<(), sled::Error>)
    ensures
        match r {
            Ok(u) => db_contents(*final(db)) == Map::<Seq<char>, Seq<u8>>::empty(),
            Err(_) => true,
        },
{
    db.clear()
}

/// Relies on sled::Tree::flush: makes earlier writes durable; the logical
/// contents are what they were.
#[verifier::external_body]
fn db_flush(db: &mut sled::Db) -> (r: Result<usize, sled::Error>)
    ensures
        db_contents(*final(db)) == db_contents(*old(db)),
{
    db.flush()
}

// ---------------------------------------------------------------------------
// Errors of the storage layer.
// ---------------------------------------------------------------------------
/// How a store operation fails. "Key absent" is never an error: lookups
/// report it as a valid empty result.
#[derive(Clone, Copy, Debug, PartialEq, Eq, Structural)]
pub enum DictError {
    /// The storage layer itself failed (an I/O fault, not bad data).
    Storage,
    /// A stored record exists but does not decode back into an entry:
    /// an integrity failure, distinct from "key absent".
    Corrupt,
}

// ---------------------------------------------------------------------------
// Keys. A surface string is consulted under two key families: its written
// form and its pronunciation.
// ---------------------------------------------------------------------------
pub open spec fn term_key(w: Seq<char>) -> Seq<char> {
    "term:"@ + w
}

pub open spec fn reading_key(w: Seq<char>) -> Seq<char> {
    "reading:"@ + w
}

/// The presence-only marker written after a fully successful build.
pub open spec fn sentinel_key() -> Seq<char> {
    "successfully_populated_flag"@
}

fn make_key(prefix: &str, w: &str) -> (r: String)
    ensures
        r@ == prefix@ + w@,
{
    let mut k = prefix.to_owned();
    k.append(w);
    k
}

// ---------------------------------------------------------------------------
// Lookup semantics over the contents map.
// ---------------------------------------------------------------------------
/// Does either key family hold the word?
pub open spec fn spec_lookup_hit(m: Map<Seq<char>, Seq<u8>>, w: Seq<char>) -> bool {
    m.contains_key(term_key(w)) || m.contains_key(reading_key(w))
}

/// The key a lookup answers from: the written form first, the reading only
/// where no written form is stored.
pub open spec fn spec_lookup_key(m: Map<Seq<char>, Seq<u8>>, w: Seq<char>) -> Seq<char> {
    if m.contains_key(term_key(w)) {
        term_key(w)
    } else {
        reading_key(w)
    }
}

/// The entry a stored record decodes to, or `None` where it is corrupt.
pub open spec fn spec_entry_at(m: Map<Seq<char>, Seq<u8>>, key: Seq<char>) -> Option<EntryView> {
    match dec_entry(m[key], 0) {
        Some((e, n)) => Some(e),
        None => None,
    }
}

/// What a term insertion under `key` leaves stored there: the existing
/// entry with the term placed at its bucket position, or a fresh
/// single-term entry where the key was absent.
pub open spec fn spec_inserted_entry(
    m: Map<Seq<char>, Seq<u8>>,
    key: Seq<char>,
    t: TermView,
) -> EntryView {
    if m.contains_key(key) {
        match dec_entry(m[key], 0) {
            Some((e, n)) => EntryView { terms: e.terms.insert(insertion_index(e.terms, t), t) },
            None => EntryView { terms: seq![t] },
        }
    } else {
        EntryView { terms: seq![t] }
    }
}

/// Bucket invariant at the store: whatever one insertion writes decodes
/// to a bucket-sorted term list, as long as the record it found (if any)
/// was sorted — so a store populated through insertions alone only ever
/// holds sorted entries.
pub proof fn lemma_insert_entry_sorted(m: Map<Seq<char>, Seq<u8>>, key: Seq<char>, t: TermView)
    requires
        m.contains_key(key) ==> (dec_entry(m[key], 0) matches Some((e, n)) ==> entry_sorted(
            e.terms,
        )),
    ensures
        entry_sorted(spec_inserted_entry(m, key, t).terms),
{
    if m.contains_key(key) {
        match dec_entry(m[key], 0) {
            Some((e, n)) => {
                crate::entry::lemma_insert_preserves_sorted(e.terms, t);
            },
            None => {},
        }
    }
}

/// The contents map after one rank-preserving insertion.
pub open spec fn spec_insert(
    m: Map<Seq<char>, Seq<u8>>,
    key: Seq<char>,
    t: TermView,
) -> Map<Seq<char>, Seq<u8>> {
    m.insert(key, enc_entry(spec_inserted_entry(m, key, t)))
}

// ---------------------------------------------------------------------------
// The store.
// ---------------------------------------------------------------------------
/// A ranked, persistent, keyed dictionary. Built once, then read-only.
pub struct Dictionary {
    db: sled::Db,
}

impl Dictionary {
    /// The logical contents: string key to stored record bytes.
    pub closed spec fn contents(&self) -> Map<Seq<char>, Seq<u8>> {
        db_contents(self.db)
    }

    /// Open the store at a filesystem path. What it then holds depends on
    /// the disk.
    pub fn open(path: &str) -> (r: Result<(Dictionary, bool), DictError>)
    {
        match db_open(path) {
            Ok(db) => {
                let recovered = db_was_recovered(&db);
                Ok((Dictionary { db }, recovered))
            },
            Err(_) => Err(DictError::Storage),
        }
    }

    /// Open a fresh, empty, temporary store.
    pub fn open_temporary() -> (r: Result<Dictionary, DictError>)
        ensures
            match r {
                Ok(d) => d.contents() == Map::<Seq<char>, Seq<u8>>::empty(),
                Err(_) => true,
            },
    {
        match db_open_temporary() {
            Ok(db) => Ok(Dictionary { db }),
            Err(_) => Err(DictError::Storage),
        }
    }

    /// Whether the completion marker is present.
    pub fn has_sentinel(&self) -> (r: Result<bool, DictError>)
        ensures
            match r {
                Ok(b) => b == self.contents().contains_key(sentinel_key()),
                Err(e) => e == DictError::Storage,
            },
    {
        match db_contains(&self.db, "successfully_populated_flag") {
            Ok(b) => Ok(b),
            Err(_) => Err(DictError::Storage),
        }
    }

    /// Write the completion marker (an empty, presence-only value).
    pub fn write_sentinel(&mut self) -> (r: Result<(), DictError>)
        ensures
            r is Ok ==> final(self).contents() == old(self).contents().insert(
                sentinel_key(),
                Seq::<u8>::empty(),
            ),
            r is Err ==> r == Err::<(), DictError>(DictError::Storage),
    {
        let empty: Vec<u8> = Vec::new();
        match db_insert(&mut self.db, "successfully_populated_flag", empty.as_slice()) {
            Ok(()) => Ok(()),
            Err(_) => Err(DictError::Storage),
        }
    }

    /// Remove everything.
    pub fn clear(&mut self) -> (r: Result<(), DictError>)
        ensures
            r is Ok ==> final(self).contents() == Map::<Seq<char>, Seq<u8>>::empty(),
            r is Err ==> r == Err::<(), DictError>(DictError::Storage),
    {
        match db_clear(&mut self.db) {
            Ok(()) => Ok(()),
            Err(_) => Err(DictError::Storage),
        }
    }

    /// Make earlier writes durable; the contents are unchanged.
    pub fn flush(&mut self) -> (r: Result<(), DictError>)
        ensures
            final(self).contents() == old(self).contents(),
            r is Err ==> r == Err::<(), DictError>(DictError::Storage),
    {
        match db_flush(&mut self.db) {
            Ok(_) => Ok(()),
            Err(_) => Err(DictError::Storage),
        }
    }

    /// Read the raw record under one exact key.
    fn get_raw(&self, key: &String) -> (r: Result<Option<Vec<u8>>, DictError>)
        ensures
            match r {
                Ok(Some(v)) => self.contents().contains_key(key@) && v@ == self.contents()[key@],
                Ok(None) => !self.contents().contains_key(key@),
                Err(e) => e == DictError::Storage,
            },
    {
        match db_get(&self.db, key.as_str()) {
            Ok(v) => Ok(v),
            Err(_) => Err(DictError::Storage),
        }
    }

    /// Exact-match lookup of one surface string, trying the written-form
    /// key first and the reading key second. `Ok(None)` means neither key
    /// family knows the word; a record that exists but does not decode is
    /// a corruption error, never a silent miss.
    pub fn lookup(&self, word: &str) -> (r: Result<Option<DictionaryEntry>, DictError>)
        ensures
            match r {
                Ok(Some(e)) => spec_lookup_hit(self.contents(), word@) && spec_entry_at(
                    self.contents(),
                    spec_lookup_key(self.contents(), word@),
                ) == Some(e@),
                Ok(None) => !spec_lookup_hit(self.contents(), word@),
                Err(err) => err == DictError::Corrupt ==> spec_lookup_hit(self.contents(), word@)
                    && spec_entry_at(
                    self.contents(),
                    spec_lookup_key(self.contents(), word@),
                ) is None,
            },
    {
        let tkey = make_key("term:", word);
        match self.get_raw(&tkey) {
            Ok(Some(bytes)) => match decode_entry(&bytes) {
                Some(e) => {
                    proof {
                        let m = self.contents();
                        let (v, n) = dec_entry(m[term_key(word@)], 0).unwrap();
                        assert(e@ =~= v);
                    }
                    Ok(Some(e))
                },
                None => Err(DictError::Corrupt),
            },
            Ok(None) => {
                let rkey = make_key("reading:", word);
                match self.get_raw(&rkey) {
                    Ok(Some(bytes)) => match decode_entry(&bytes) {
                        Some(e) => {
                            proof {
                                let m = self.contents();
                                let (v, n) = dec_entry(m[reading_key(word@)], 0).unwrap();
                                assert(e@ =~= v);
                            }
                            Ok(Some(e))
                        },
                        None => Err(DictError::Corrupt),
                    },
                    Ok(None) => Ok(None),
                    Err(e) => Err(e),
                }
            },
            Err(e) => Err(e),
        }
    }

    /// Rank-preserving insertion under one exact key (§ the bucket order):
    /// an existing entry gains the term at its bucket position; an absent
    /// key gains a fresh single-term entry. What ends up stored is exactly
    /// the encoding of `spec_inserted_entry`.
    pub fn insert_term(&mut self, key: &String, term: DictionaryTerm) -> (r: Result<
        (),
        DictError,
    >)
        ensures
            r is Ok ==> final(self).contents() == old(self).contents().insert(
                key@,
                enc_entry(spec_inserted_entry(old(self).contents(), key@, term@)),
            ),
            r == Err::<(), DictError>(DictError::Corrupt) ==> old(self).contents().contains_key(
                key@,
            ) && dec_entry(old(self).contents()[key@], 0) is None && final(self).contents() == old(
                self,
            ).contents(),
    {
        let ghost m0 = self.contents();
        match self.get_raw(key) {
            Ok(Some(bytes)) => match decode_entry(&bytes) {
                Some(mut e) => {
                    let ghost decoded = dec_entry(m0[key@], 0).unwrap().0;
                    proof {
                        assert(e@ =~= decoded);
                    }
                    e.insert_term(term);
                    let encoded = encode_entry(&e);
                    proof {
                        assert(e@ =~= spec_inserted_entry(m0, key@, term@));
                    }
                    match db_insert(&mut self.db, key.as_str(), encoded.as_slice()) {
                        Ok(()) => Ok(()),
                        Err(_) => Err(DictError::Storage),
                    }
                },
                None => Err(DictError::Corrupt),
            },
            Ok(None) => {
                let e = DictionaryEntry { terms: vec![term] };
                let encoded = encode_entry(&e);
                proof {
                    assert(e@ =~= spec_inserted_entry(m0, key@, term@));
                }
                match db_insert(&mut self.db, key.as_str(), encoded.as_slice()) {
                    Ok(()) => Ok(()),
                    Err(_) => Err(DictError::Storage),
                }
            },
            Err(e) => Err(e),
        }
    }

    /// Insert under the written-form key family.
    pub fn insert_term_keyed(&mut self, word: &str, term: DictionaryTerm) -> (r: Result<
        (),
        DictError,
    >)
        ensures
            r is Ok ==> final(self).contents() == old(self).contents().insert(
                term_key(word@),
                enc_entry(spec_inserted_entry(old(self).contents(), term_key(word@), term@)),
            ),
    {
        let key = make_key("term:", word);
        self.insert_term(&key, term)
    }

    /// Insert under the reading key family.
    pub fn insert_reading_keyed(&mut self, word: &str, term: DictionaryTerm) -> (r: Result<
        (),
        DictError,
    >)
        ensures
            r is Ok ==> final(self).contents() == old(self).contents().insert(
                reading_key(word@),
                enc_entry(spec_inserted_entry(old(self).contents(), reading_key(word@), term@)),
            ),
    {
        let key = make_key("reading:", word);
        self.insert_term(&key, term)
    }
}

} // verus!
