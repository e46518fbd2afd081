//! The ledger of commits: signed, encoded entries with their operations, appended in order.
use vstd::prelude::*;
use p2panda_rs::entry::traits::AsEncodedEntry;
use p2panda_rs::entry::EncodedEntry;

verus! {

/// Known versions of the lock file format.
#[derive(Debug, Clone, Copy, PartialEq, Eq, Structural)]
pub enum LockFileVersion {
    V1,
}

impl LockFileVersion {
    /// Returns the version as an integer.
    pub fn as_u64(&self) -> (r: u64)
        ensures
            r == 1,
    {
        match self {
            LockFileVersion::V1 => 1,
        }
    }

    /// Returns the version that the integer stands for, if it is a known one.
    pub fn from_u64(version: u64) -> (r: Option<LockFileVersion>)
        ensures
            r is Some <==> version == 1,
            r matches Some(v) ==> v == LockFileVersion::V1,
    {
        if version == 1 {
            Some(LockFileVersion::V1)
        } else {
            None
        }
    }
}

/// The hash of an encoded entry, as its canonical hexadecimal string.
pub uninterp spec fn entry_hash_of(entry: Seq<u8>) -> Seq<char>;

/// Relies on p2panda_rs's EncodedEntry::hash, a digest of the entry's bytes alone, and on
/// Hash::as_str, its hexadecimal form.
#[verifier::external_body]
fn hash_entry(entry: &Vec<u8>) -> (r: String)
    ensures
        r@ == entry_hash_of(entry@),
{
    EncodedEntry::from_bytes(entry).hash().as_str().to_owned()
}

/// Returns a copy of a byte string.
fn copy_bytes(b: &Vec<u8>) -> (r: Vec<u8>)
    ensures
        r@ == b@,
{
    let mut r: Vec<u8> = Vec::new();
    let mut i: usize = 0;
    while i < b.len()
        invariant
            0 <= i <= b@.len(),
            r@ == b@.subrange(0, i as int),
        decreases b@.len() - i,
    {
        r.push(b[i]);
        assert(r@ =~= b@.subrange(0, i + 1));
        i = i + 1;
    }
    assert(r@ =~= b@);
    r
}

/// A single commit: an encoded, signed entry with its encoded operation.
#[derive(Debug, Clone, PartialEq, Eq)]
pub struct Commit {
    /// Hash of the entry.
    pub entry_hash: String,
    /// Encoded and signed entry.
    pub entry: Vec<u8>,
    /// Encoded operation.
    pub operation: Vec<u8>,
}

impl Commit {
    /// Returns a new commit, with the hash of its entry.
    pub fn new(entry: &Vec<u8>, operation: &Vec<u8>) -> (r: Commit)
        ensures
            r.entry_hash@ == entry_hash_of(entry@),
            r.entry@ == entry@,
            r.operation@ == operation@,
    {
        Commit { entry_hash: hash_entry(entry), entry: copy_bytes(entry), operation: copy_bytes(operation) }
    }

    /// Whether the stated hash is the hash of the entry.
    pub open spec fn intact(&self) -> bool {
        self.entry_hash@ == entry_hash_of(self.entry@)
    }

    /// Checks that the stated hash is the hash of the entry.
    pub fn is_intact(&self) -> (r: bool)
        ensures
            r == self.intact(),
    {
        let h = hash_entry(&self.entry);
        h == self.entry_hash
    }

    /// Returns a commit with the same values.
    pub fn duplicate(&self) -> (r: Commit)
        ensures
            r.same(*self),
    {
        Commit {
            entry_hash: self.entry_hash.clone(),
            entry: copy_bytes(&self.entry),
            operation: copy_bytes(&self.operation),
        }
    }

    /// Whether two commits hold the same values.
    pub open spec fn same(self, other: Commit) -> bool {
        self.entry_hash == other.entry_hash && self.entry@ == other.entry@ && self.operation@ == other.operation@
    }
}

/// A ledger that cannot be replayed.
#[derive(Debug, Clone, PartialEq, Eq)]
pub enum LedgerError {
    /// The stated hash of a commit's entry is not the hash of its content.
    EntryHashMismatch { entry_hash: String },
}

/// Checks every commit's entry hash, in order; the first that does not match is reported.
pub fn check_commits(commits: &Vec<Commit>) -> (r: Result<(), LedgerError>)
    ensures
        r is Ok <==> forall|i: int| 0 <= i < commits@.len() ==> (#[trigger] commits@[i]).intact(),
        r matches Err(LedgerError::EntryHashMismatch { entry_hash }) ==> exists|i: int|
            0 <= i < commits@.len() && !(#[trigger] commits@[i]).intact() && commits@[i].entry_hash@ == entry_hash@
                && forall|j: int| 0 <= j < i ==> (#[trigger] commits@[j]).intact(),
{
    let mut i: usize = 0;
    while i < commits.len()
        invariant
            0 <= i <= commits@.len(),
            forall|j: int| 0 <= j < i ==> (#[trigger] commits@[j]).intact(),
        decreases commits@.len() - i,
    {
        if !commits[i].is_intact() {
            return Err(LedgerError::EntryHashMismatch { entry_hash: commits[i].entry_hash.clone() });
        }
        i = i + 1;
    }
    Ok(())
}

/// Whether two commit lists hold the same commits.
pub open spec fn same_commits(a: Seq<Commit>, b: Seq<Commit>) -> bool {
    a.len() == b.len() && forall|i: int| 0 <= i < a.len() ==> (#[trigger] a[i]).same(b[i])
}

/// The ledger: a format version and the commits in the order they were made.
#[derive(Debug, Clone, PartialEq, Eq)]
pub struct LockFile {
    version: LockFileVersion,
    commits: Option<Vec<Commit>>,
}

impl LockFile {
    /// The commits of the ledger; a ledger that lists none holds none.
    pub closed spec fn commit_list(&self) -> Seq<Commit> {
        match self.commits {
            Some(c) => c@,
            None => Seq::empty(),
        }
    }

    /// Returns a new ledger of the current version holding the given commits.
    pub fn new(commits: &Vec<Commit>) -> (r: LockFile)
        ensures
            r.version_spec() == LockFileVersion::V1,
            same_commits(r.commit_list(), commits@),
    {
        let mut copied: Vec<Commit> = Vec::new();
        let mut i: usize = 0;
        while i < commits.len()
            invariant
                0 <= i <= commits@.len(),
                copied@.len() == i,
                forall|j: int| 0 <= j < i ==> (#[trigger] copied@[j]).same(commits@[j]),
            decreases commits@.len() - i,
        {
            copied.push(commits[i].duplicate());
            i = i + 1;
        }
        LockFile { version: LockFileVersion::V1, commits: Some(copied) }
    }

    /// Returns a ledger read from a file: its version, and its commits if it lists any.
    pub fn from_parts(version: LockFileVersion, commits: Option<Vec<Commit>>) -> (r: LockFile)
        ensures
            r.version_spec() == version,
            r.commit_list() == match commits {
                Some(c) => c@,
                None => Seq::<Commit>::empty(),
            },
    {
        LockFile { version, commits }
    }

    /// Version of the ledger format.
    pub closed spec fn version_spec(&self) -> LockFileVersion {
        self.version
    }

    /// Version of the ledger format.
    pub fn version(&self) -> (r: LockFileVersion)
        ensures
            r == self.version_spec(),
    {
        self.version
    }

    /// The commits of the ledger; empty where it lists none.
    pub fn commits(&self) -> (r: Vec<Commit>)
        ensures
            same_commits(r@, self.commit_list()),
    {
        let mut copied: Vec<Commit> = Vec::new();
        match &self.commits {
            Some(commits) => {
                let mut i: usize = 0;
                while i < commits.len()
                    invariant
                        0 <= i <= commits@.len(),
                        copied@.len() == i,
                        self.commit_list() == commits@,
                        forall|j: int| 0 <= j < i ==> (#[trigger] copied@[j]).same(commits@[j]),
                    decreases commits@.len() - i,
                {
                    copied.push(commits[i].duplicate());
                    i = i + 1;
                }
            },
            None => {},
        }
        copied
    }
}

/// The ledger after new commits: the existing commits first, then the new ones in the order
/// they were made.
pub fn append_commits(lock_file: &LockFile, new_commits: &Vec<Commit>) -> (r: LockFile)
    ensures
        r.version_spec() == LockFileVersion::V1,
        same_commits(r.commit_list(), lock_file.commit_list() + new_commits@),
{
    let mut commits = lock_file.commits();
    let ghost existing = commits@;
    let mut i: usize = 0;
    while i < new_commits.len()
        invariant
            0 <= i <= new_commits@.len(),
            commits@.len() == existing.len() + i,
            same_commits(existing, lock_file.commit_list()),
            forall|j: int| 0 <= j < existing.len() ==> (#[trigger] commits@[j]) == existing[j],
            forall|j: int| 0 <= j < i ==> (#[trigger] commits@[existing.len() + j]).same(new_commits@[j]),
        decreases new_commits@.len() - i,
    {
        commits.push(new_commits[i].duplicate());
        i = i + 1;
    }
    let r = LockFile::new(&commits);
    proof {
        let want = lock_file.commit_list() + new_commits@;
        assert forall|j: int| 0 <= j < want.len() implies (#[trigger] r.commit_list()[j]).same(want[j]) by {
            assert(r.commit_list()[j].same(commits@[j]));
            if j < existing.len() {
                assert(commits@[j] == existing[j]);
                assert(existing[j].same(lock_file.commit_list()[j]));
            } else {
                assert(commits@[existing.len() + (j - existing.len())].same(new_commits@[j - existing.len()]));
            }
        }
    }
    r
}

} // verus!
