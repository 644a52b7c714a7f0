//! Which files the server has been sent, at which version, and a
//! fingerprint of the text it has. A sync sends the whole text, as an open
//! on first sight and as a change (version one higher) when the text
//! differs from the last one sent; the same text again sends nothing.

use std::collections::hash_map::DefaultHasher;
use std::hash::Hasher;
use vstd::prelude::*;
use vstd::std_specs::hash::DefaultHasherAdditionalSpecFns;
use vstd::string::StringSliceAdditionalSpecFns;

verus! {

/// The fingerprint of a text: the standard library's default hasher over
/// its bytes (fast and not cryptographic).
pub open spec fn fingerprint_of(bytes: Seq<u8>) -> u64 {
    DefaultHasher::spec_finish(seq![bytes])
}

/// The fingerprint of a file's text.
pub fn fingerprint(content: &str) -> (r: u64)
    ensures
        r == fingerprint_of(content.spec_bytes()),
{
    let mut hasher = DefaultHasher::new();
    hasher.write(content.as_bytes());
    assert(hasher@ =~= seq![content.spec_bytes()]);
    hasher.finish()
}

/// What the tracker knows of one file.
#[derive(Debug, Clone, Copy, PartialEq, Eq)]
pub struct DocumentRecord {
    /// The version last sent: 0 for the open, one more for each change.
    pub version: i32,
    pub fingerprint: u64,
}

/// What a sync asks the caller to send.
#[derive(Debug, Clone, Copy, PartialEq, Eq)]
pub enum SyncAction {
    /// Send an open notification with the full text at this version (0).
    Open { version: i32 },
    /// Send a change notification with the full text at this version.
    Change { version: i32 },
    /// Nothing: the server already has this text.
    Unchanged,
}

/// Why a sync cannot go ahead.
#[derive(Debug, Clone, Copy, PartialEq, Eq)]
pub enum SyncError {
    /// The file's version is already the largest there is.
    VersionOverflow,
}

/// The outcome of a sync of `path` with text fingerprint `fp`.
pub open spec fn sync_outcome(
    docs: Map<Seq<char>, DocumentRecord>,
    path: Seq<char>,
    fp: u64,
) -> Result<SyncAction, SyncError> {
    if !docs.contains_key(path) {
        Ok(SyncAction::Open { version: 0 })
    } else if docs[path].fingerprint == fp {
        Ok(SyncAction::Unchanged)
    } else if docs[path].version == i32::MAX {
        Err(SyncError::VersionOverflow)
    } else {
        Ok(SyncAction::Change { version: (docs[path].version + 1) as i32 })
    }
}

/// The records after a sync of `path` with text fingerprint `fp`.
pub open spec fn synced(docs: Map<Seq<char>, DocumentRecord>, path: Seq<char>, fp: u64) -> Map<
    Seq<char>,
    DocumentRecord,
> {
    match sync_outcome(docs, path, fp) {
        Ok(SyncAction::Open { version }) => docs.insert(
            path,
            DocumentRecord { version, fingerprint: fp },
        ),
        Ok(SyncAction::Change { version }) => docs.insert(
            path,
            DocumentRecord { version, fingerprint: fp },
        ),
        _ => docs,
    }
}

struct OpenDocument {
    path: String,
    record: DocumentRecord,
}

/// The record of the first entry listed for `path`.
spec fn lookup(docs: Seq<OpenDocument>, path: Seq<char>) -> Option<DocumentRecord>
    decreases docs.len(),
{
    if docs.len() == 0 {
        None
    } else {
        match lookup(docs.drop_last(), path) {
            Some(r) => Some(r),
            None => if docs.last().path@ == path {
                Some(docs.last().record)
            } else {
                None
            },
        }
    }
}

proof fn lemma_lookup_absent(docs: Seq<OpenDocument>, path: Seq<char>)
    requires
        forall|j: int| 0 <= j < docs.len() ==> docs[j].path@ != path,
    ensures
        lookup(docs, path) is None,
    decreases docs.len(),
{
    if docs.len() > 0 {
        lemma_lookup_absent(docs.drop_last(), path);
    }
}

proof fn lemma_lookup_first(docs: Seq<OpenDocument>, path: Seq<char>, i: int)
    requires
        0 <= i < docs.len(),
        docs[i].path@ == path,
        forall|j: int| 0 <= j < i ==> docs[j].path@ != path,
    ensures
        lookup(docs, path) == Some(docs[i].record),
    decreases docs.len(),
{
    if i < docs.len() - 1 {
        lemma_lookup_first(docs.drop_last(), path, i);
    } else {
        lemma_lookup_absent(docs.drop_last(), path);
    }
}

proof fn lemma_lookup_update(docs: Seq<OpenDocument>, i: int, doc: OpenDocument, path: Seq<char>)
    requires
        0 <= i < docs.len(),
        docs[i].path@ == doc.path@,
        forall|j: int| 0 <= j < i ==> docs[j].path@ != doc.path@,
    ensures
        lookup(docs.update(i, doc), path) == if path == doc.path@ {
            Some(doc.record)
        } else {
            lookup(docs, path)
        },
    decreases docs.len(),
{
    let updated = docs.update(i, doc);
    if path == doc.path@ {
        lemma_lookup_first(updated, path, i);
    } else if i < docs.len() - 1 {
        assert(updated.drop_last() =~= docs.drop_last().update(i, doc));
        lemma_lookup_update(docs.drop_last(), i, doc, path);
    } else {
        assert(updated.drop_last() =~= docs.drop_last());
    }
}

/// Open files by path, one entry per path in a list. (vstd specifies
/// `HashMap` only for keys that obey its key model, which it grants to
/// integer keys and not to `String`; with path keys its operations would
/// prove nothing.)
pub struct DocumentTracker {
    docs: Vec<OpenDocument>,
}

impl View for DocumentTracker {
    type V = Map<Seq<char>, DocumentRecord>;

    closed spec fn view(&self) -> Map<Seq<char>, DocumentRecord> {
        Map::new(
            |p: Seq<char>| lookup(self.docs@, p) is Some,
            |p: Seq<char>| lookup(self.docs@, p)->0,
        )
    }
}

impl DocumentTracker {
    /// A tracker that has seen no file yet.
    pub fn new() -> (r: DocumentTracker)
        ensures
            r@ == Map::<Seq<char>, DocumentRecord>::empty(),
    {
        let r = DocumentTracker { docs: Vec::new() };
        assert(r@ =~= Map::<Seq<char>, DocumentRecord>::empty());
        r
    }

    /// The record of `path`, if it has been synced.
    pub fn get(&self, path: &str) -> (r: Option<DocumentRecord>)
        ensures
            r == if self@.contains_key(path@) {
                Some(self@[path@])
            } else {
                None
            },
    {
        match self.find(path) {
            Some(i) => Some(self.docs[i].record),
            None => None,
        }
    }

    /// The first entry listed for `path`.
    fn find(&self, path: &str) -> (r: Option<usize>)
        ensures
            match r {
                Some(i) => {
                    &&& i < self.docs@.len()
                    &&& self.docs@[i as int].path@ == path@
                    &&& forall|j: int| 0 <= j < i ==> self.docs@[j].path@ != path@
                    &&& lookup(self.docs@, path@) == Some(self.docs@[i as int].record)
                },
                None => lookup(self.docs@, path@) is None,
            },
    {
        let mut i: usize = 0;
        while i < self.docs.len()
            invariant
                i <= self.docs@.len(),
                forall|j: int| 0 <= j < i ==> self.docs@[j].path@ != path@,
            decreases self.docs@.len() - i,
        {
            if crate::text::str_eq(self.docs[i].path.as_str(), path) {
                proof {
                    lemma_lookup_first(self.docs@, path@, i as int);
                }
                return Some(i);
            }
            i += 1;
        }
        proof {
            lemma_lookup_absent(self.docs@, path@);
        }
        None
    }

    /// Records a sync of `path` whose text has fingerprint `fp`, and says
    /// what to send: an open at version 0 on first sight, nothing when the
    /// fingerprint is the last one sent, otherwise a change at the next
    /// version.
    pub fn sync(&mut self, path: &str, fp: u64) -> (r: Result<SyncAction, SyncError>)
        ensures
            r == sync_outcome(old(self)@, path@, fp),
            final(self)@ == synced(old(self)@, path@, fp),
    {
        match self.find(path) {
            None => {
                let record = DocumentRecord { version: 0, fingerprint: fp };
                let ghost before = self.docs@;
                self.docs.push(OpenDocument { path: path.to_owned(), record });
                assert(self.docs@.drop_last() =~= before);
                assert(self@ =~= old(self)@.insert(path@, record));
                Ok(SyncAction::Open { version: 0 })
            },
            Some(i) => {
                let record = self.docs[i].record;
                if record.fingerprint == fp {
                    return Ok(SyncAction::Unchanged);
                }
                if record.version == i32::MAX {
                    return Err(SyncError::VersionOverflow);
                }
                let version = record.version + 1;
                let updated = DocumentRecord { version, fingerprint: fp };
                let doc = OpenDocument { path: path.to_owned(), record: updated };
                proof {
                    assert forall|p: Seq<char>| true implies lookup(
                        self.docs@.update(i as int, doc),
                        p,
                    ) == if p == path@ {
                        Some(updated)
                    } else {
                        lookup(self.docs@, p)
                    } by {
                        lemma_lookup_update(self.docs@, i as int, doc, p);
                    }
                }
                self.docs.set(i, doc);
                assert(self@ =~= old(self)@.insert(path@, updated));
                Ok(SyncAction::Change { version })
            },
        }
    }

    /// Syncs `path` with its current text.
    pub fn ensure_synced(&mut self, path: &str, content: &str) -> (r: Result<SyncAction, SyncError>)
        ensures
            r == sync_outcome(old(self)@, path@, fingerprint_of(content.spec_bytes())),
            final(self)@ == synced(old(self)@, path@, fingerprint_of(content.spec_bytes())),
    {
        let fp = fingerprint(content);
        self.sync(path, fp)
    }
}

/// Syncing twice in a row with the same text sends nothing the second
/// time; syncing once more with a different text sends exactly one change,
/// at the version after the one the server has. A file seen for the first
/// time is opened at version 0, and a known file whose text changed gets a
/// change at the next version. (Texts are told apart by fingerprint, so the
/// two texts must not share one.)
pub proof fn lemma_sync_dedup(
    docs: Map<Seq<char>, DocumentRecord>,
    path: Seq<char>,
    first: Seq<u8>,
    second: Seq<u8>,
)
    requires
        fingerprint_of(first) != fingerprint_of(second),
        sync_outcome(docs, path, fingerprint_of(first)) is Ok,
    ensures
        ({
            let fp1 = fingerprint_of(first);
            let fp2 = fingerprint_of(second);
            let d1 = synced(docs, path, fp1);
            let d2 = synced(d1, path, fp1);
            &&& !docs.contains_key(path) ==> sync_outcome(docs, path, fp1) == Ok::<
                SyncAction,
                SyncError,
            >(SyncAction::Open { version: 0 })
            &&& docs.contains_key(path) && docs[path].fingerprint != fp1 ==> sync_outcome(
                docs,
                path,
                fp1,
            ) == Ok::<SyncAction, SyncError>(
                SyncAction::Change { version: (docs[path].version + 1) as i32 },
            )
            &&& sync_outcome(d1, path, fp1) == Ok::<SyncAction, SyncError>(SyncAction::Unchanged)
            &&& d2 == d1
            &&& d1[path].version < i32::MAX ==> sync_outcome(d2, path, fp2) == Ok::<
                SyncAction,
                SyncError,
            >(SyncAction::Change { version: (d1[path].version + 1) as i32 })
        }),
{
}

} // verus!
