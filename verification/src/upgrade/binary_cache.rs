//! Cache of downloaded upgrade binaries.
//!
//! When several nodes on one machine detect the same upgrade, only the first
//! one downloads and verifies the archive. The cache keeps the extracted binary
//! beside a metadata file with its SHA-256 digest, so that the others can use
//! it directly.
//!
//! The digest only detects corruption and partial writes. Whether a binary may
//! be trusted is decided by its signature when it is downloaded.

use crate::error::{Error, ErrorModel};
use crate::paths::Location;
use crate::text::{
    encode_hex, hex_chars, join, lemma_affixes_cancel, lemma_hex_injective,
};
use std::path::PathBuf;
use vstd::prelude::*;

verus! {

/// The platform whose naming of executables the cache follows.
#[derive(Clone, Copy, Debug, PartialEq, Eq, Structural)]
pub enum Platform {
    /// Executables have no extension.
    Unix,
    /// Executables end in `.exe`.
    Windows,
}

/// Cache of downloaded upgrade binaries.
pub struct BinaryCache {
    cache_dir: PathBuf,
    platform: Platform,
}

/// What the metadata file beside a cached binary holds.
#[derive(Debug)]
pub struct CachedBinaryMeta {
    /// Version of the binary.
    pub version: String,
    /// Digest of the binary in hexadecimal.
    pub sha256: String,
    /// When the binary was cached, in seconds since the Unix epoch.
    pub cached_at_epoch_secs: u64,
}

/// Mathematical content of a [`CachedBinaryMeta`].
pub struct MetaModel {
    pub version: Seq<char>,
    pub sha256: Seq<char>,
    pub cached_at_epoch_secs: u64,
}

impl View for CachedBinaryMeta {
    type V = MetaModel;

    open spec fn view(&self) -> MetaModel {
        MetaModel {
            version: self.version@,
            sha256: self.sha256@,
            cached_at_epoch_secs: self.cached_at_epoch_secs,
        }
    }
}

/// How an attempt to read a file for hashing went.
#[derive(Debug)]
pub enum FileRead {
    /// The file holds these bytes.
    Content(Vec<u8>),
    /// The file could not be opened.
    OpenFailed(String),
    /// Reading broke off.
    ReadFailed(String),
}

impl FileRead {
    /// Whether the content is short enough to be hashed. SHA-256 counts the
    /// bits of its input in 64 bits.
    pub open spec fn hashable(self) -> bool {
        self matches FileRead::Content(bytes) ==> bytes@.len() < 0x2000_0000_0000_0000
    }
}

/// SHA-256 digest of `data`, as `sha2::Sha256::digest` returns it.
pub uninterp spec fn sha256_digest(data: Seq<u8>) -> Seq<u8>;

/// Calls `sha2::Sha256::digest`, whose result is a function of the data alone.
/// The bound keeps the input's length in bits within the 64 bits that SHA-256
/// has for it.
#[verifier::external_body]
fn sha256(data: &[u8]) -> (digest: [u8; 32])
    requires
        data@.len() < 0x2000_0000_0000_0000,
    ensures
        digest@ == sha256_digest(data@),
{
    <sha2::Sha256 as sha2::Digest>::digest(data).into()
}

/// Digest of `data` in hexadecimal.
pub open spec fn sha256_text(data: Seq<u8>) -> Seq<char> {
    hex_chars(sha256_digest(data))
}

/// What comes out of hashing a file.
pub open spec fn file_digest(file: FileRead) -> Result<Seq<char>, ErrorModel> {
    match file {
        FileRead::Content(bytes) => Ok(sha256_text(bytes@)),
        FileRead::OpenFailed(e) => Err(ErrorModel::Io(e@)),
        FileRead::ReadFailed(e) => Err(
            ErrorModel::Upgrade("Failed to read file for hashing: "@ + e@),
        ),
    }
}

/// Compute the hexadecimal SHA-256 digest of a file.
pub fn sha256_file(file: &FileRead) -> (r: Result<String, Error>)
    requires
        file.hashable(),
    ensures
        match r {
            Ok(s) => file_digest(*file) == Ok::<Seq<char>, ErrorModel>(s@),
            Err(e) => file_digest(*file) == Err::<Seq<char>, ErrorModel>(e@),
        },
{
    match file {
        FileRead::Content(bytes) => {
            let digest = sha256(bytes.as_slice());
            Ok(encode_hex(digest.as_slice()))
        },
        FileRead::OpenFailed(e) => Err(Error::Io(e.clone())),
        FileRead::ReadFailed(e) => Err(
            Error::Upgrade(join("Failed to read file for hashing: ", e.as_str())),
        ),
    }
}

/// Extension of executables.
pub open spec fn exe_suffix(platform: Platform) -> Seq<char> {
    match platform {
        Platform::Unix => ""@,
        Platform::Windows => ".exe"@,
    }
}

/// File name of the cached binary of `version`.
pub open spec fn binary_name(platform: Platform, version: Seq<char>) -> Seq<char> {
    "saorsa-node-"@ + version + exe_suffix(platform)
}

/// File name of the metadata beside the cached binary of `version`.
pub open spec fn meta_name(platform: Platform, version: Seq<char>) -> Seq<char> {
    binary_name(platform, version) + ".meta.json"@
}

/// Whether metadata and content found in the cache make a usable binary of
/// `version`: the metadata is readable and speaks of that version, and the
/// content is readable and has the recorded digest.
pub open spec fn entry_is_valid(
    version: Seq<char>,
    meta: Option<CachedBinaryMeta>,
    binary: FileRead,
) -> bool {
    &&& meta is Some
    &&& meta->0@.version == version
    &&& file_digest(binary) == Ok::<Seq<char>, ErrorModel>(meta->0@.sha256)
}

/// The metadata that storing leaves, or why it does not get that far: the
/// source must be readable and copied, and the clock must work.
pub open spec fn stored_meta(
    version: Seq<char>,
    source: FileRead,
    copied: Result<(), String>,
    now: Result<u64, String>,
) -> Result<MetaModel, ErrorModel> {
    match file_digest(source) {
        Err(e) => Err(e),
        Ok(sha256) => match copied {
            Err(e) => Err(ErrorModel::Io(e@)),
            Ok(_) => match now {
                Err(e) => Err(ErrorModel::Upgrade("System clock error: "@ + e@)),
                Ok(secs) => Ok(MetaModel { version, sha256, cached_at_epoch_secs: secs }),
            },
        },
    }
}

/// What to do next to store a binary.
#[derive(Debug)]
pub enum StoreAction {
    /// Read and hash the binary.
    Hash,
    /// Copy the binary into the cache.
    Copy,
    /// Ask for the time.
    ReadClock,
    /// Serialize this metadata.
    Serialize(CachedBinaryMeta),
    /// Write this text to the metadata file.
    Write(String),
    /// The binary is stored.
    Done,
}

/// Mathematical content of a [`StoreAction`].
pub enum StoreActionModel {
    Hash,
    Copy,
    ReadClock,
    Serialize(MetaModel),
    Write(Seq<char>),
    Done,
}

impl View for StoreAction {
    type V = StoreActionModel;

    open spec fn view(&self) -> StoreActionModel {
        match self {
            StoreAction::Hash => StoreActionModel::Hash,
            StoreAction::Copy => StoreActionModel::Copy,
            StoreAction::ReadClock => StoreActionModel::ReadClock,
            StoreAction::Serialize(meta) => StoreActionModel::Serialize(meta@),
            StoreAction::Write(text) => StoreActionModel::Write(text@),
            StoreAction::Done => StoreActionModel::Done,
        }
    }
}

impl StoreActionModel {
    /// Whether the action creates or changes a file of the cache.
    pub open spec fn touches_cache(self) -> bool {
        self is Copy || self is Write
    }
}

/// How storing a binary has gone so far; `None` where a step was not taken yet.
#[derive(Debug)]
pub struct StoreProgress {
    /// Digest of the binary.
    pub hashed: Option<Result<String, Error>>,
    /// How copying the binary went.
    pub copied: Option<Result<(), String>>,
    /// The time in seconds since the Unix epoch.
    pub now: Option<Result<u64, String>>,
    /// The metadata as text.
    pub serialized: Option<Result<String, String>>,
    /// How writing the metadata file went.
    pub written: Option<Result<(), String>>,
}

impl StoreProgress {
    /// Whether the digest is that of the binary `source`.
    pub open spec fn hashed_from(self, source: FileRead) -> bool {
        match self.hashed {
            None => false,
            Some(Ok(s)) => file_digest(source) == Ok::<Seq<char>, ErrorModel>(s@),
            Some(Err(e)) => file_digest(source) == Err::<Seq<char>, ErrorModel>(e@),
        }
    }
}

/// The next step of storing a binary: hash, copy, clock, metadata, in this
/// order, each only after the one before succeeded.
pub open spec fn store_next(version: Seq<char>, p: StoreProgress) -> Result<
    StoreActionModel,
    ErrorModel,
> {
    match p.hashed {
        None => Ok(StoreActionModel::Hash),
        Some(Err(e)) => Err(e@),
        Some(Ok(sha256)) => match p.copied {
            None => Ok(StoreActionModel::Copy),
            Some(Err(e)) => Err(ErrorModel::Io(e@)),
            Some(Ok(_)) => match p.now {
                None => Ok(StoreActionModel::ReadClock),
                Some(Err(e)) => Err(ErrorModel::Upgrade("System clock error: "@ + e@)),
                Some(Ok(secs)) => match p.serialized {
                    None => Ok(
                        StoreActionModel::Serialize(
                            MetaModel { version, sha256: sha256@, cached_at_epoch_secs: secs },
                        ),
                    ),
                    Some(Err(e)) => Err(
                        ErrorModel::Upgrade("Failed to serialize binary cache meta: "@ + e@),
                    ),
                    Some(Ok(text)) => match p.written {
                        None => Ok(StoreActionModel::Write(text@)),
                        Some(Err(e)) => Err(ErrorModel::Io(e@)),
                        Some(Ok(_)) => Ok(StoreActionModel::Done),
                    },
                },
            },
        },
    }
}

/// A phase of work under the download lock.
#[derive(Clone, Copy, Debug, PartialEq, Eq, Structural)]
pub enum LockPhase {
    /// Create the lock file.
    Create,
    /// Lock it exclusively, waiting for whoever holds it.
    Acquire,
    /// Do the work.
    Run,
    /// Unlock the file.
    Release,
    /// Nothing is left to do.
    Done,
}

impl LockPhase {
    /// Whether the lock is held in this phase.
    pub open spec fn holds(self) -> bool {
        self is Run || self is Release
    }
}

/// What follows a phase of work under the download lock. The work's own outcome
/// decides nothing: the lock is released after it in any case.
pub open spec fn lock_next(phase: LockPhase, outcome: Result<(), String>) -> Result<
    LockPhase,
    ErrorModel,
> {
    match phase {
        LockPhase::Create => match outcome {
            Ok(_) => Ok(LockPhase::Acquire),
            Err(e) => Err(ErrorModel::Upgrade("Failed to create download lock: "@ + e@)),
        },
        LockPhase::Acquire => match outcome {
            Ok(_) => Ok(LockPhase::Run),
            Err(e) => Err(ErrorModel::Upgrade("Failed to acquire download lock: "@ + e@)),
        },
        LockPhase::Run => Ok(LockPhase::Release),
        LockPhase::Release => Ok(LockPhase::Done),
        LockPhase::Done => Ok(LockPhase::Done),
    }
}

impl BinaryCache {
    /// Directory that holds the cache.
    pub closed spec fn dir(&self) -> PathBuf {
        self.cache_dir
    }

    /// Platform whose naming is followed.
    pub closed spec fn target(&self) -> Platform {
        self.platform
    }

    /// Create a cache in the given directory.
    #[must_use]
    pub fn new(cache_dir: PathBuf, platform: Platform) -> (cache: Self)
        ensures
            cache.dir() == cache_dir,
            cache.target() == platform,
    {
        BinaryCache { cache_dir, platform }
    }

    /// Extension of executables.
    fn exe_extension(&self) -> (s: &'static str)
        ensures
            s@ == exe_suffix(self.target()),
    {
        match self.platform {
            Platform::Unix => "",
            Platform::Windows => ".exe",
        }
    }

    /// Where the cached binary of `version` would be.
    #[must_use]
    pub fn cached_binary_path(&self, version: &str) -> (path: Location<'_>)
        ensures
            path.is_under(self.dir(), binary_name(self.target(), version@)),
    {
        let stem = join("saorsa-node-", version);
        Location::Under(&self.cache_dir, join(stem.as_str(), self.exe_extension()))
    }

    /// Where the metadata of the cached binary of `version` would be.
    #[must_use]
    pub fn meta_path(&self, version: &str) -> (path: Location<'_>)
        ensures
            path.is_under(self.dir(), meta_name(self.target(), version@)),
    {
        let stem = join("saorsa-node-", version);
        let binary = join(stem.as_str(), self.exe_extension());
        Location::Under(&self.cache_dir, join(binary.as_str(), ".meta.json"))
    }

    /// Where the lock file is that a downloading node holds.
    #[must_use]
    pub fn download_lock_path(&self) -> (path: Location<'_>)
        ensures
            path.is_under(self.dir(), "download.lock"@),
    {
        Location::Under(&self.cache_dir, "download.lock".to_owned())
    }

    /// Path of the cached binary of `version`, given what was found at its
    /// metadata path and at its own: only if the digest matches the metadata.
    /// Metadata that is missing or cannot be parsed is `None`.
    #[must_use]
    pub fn get_verified(
        &self,
        version: &str,
        meta: &Option<CachedBinaryMeta>,
        binary: &FileRead,
    ) -> (r: Option<Location<'_>>)
        requires
            binary.hashable(),
        ensures
            r is Some <==> entry_is_valid(version@, *meta, *binary),
            r matches Some(path) ==> path.is_under(
                self.dir(),
                binary_name(self.target(), version@),
            ),
    {
        match meta {
            None => None,
            Some(meta) => {
                let wanted: String = version.to_owned();
                if meta.version != wanted {
                    return None;
                }
                match sha256_file(binary) {
                    Ok(actual) => {
                        if actual != meta.sha256 {
                            None
                        } else {
                            Some(self.cached_binary_path(version))
                        }
                    },
                    Err(_) => None,
                }
            },
        }
    }

    /// Decide what to do next to store the binary of `version`. Nothing is copied
    /// before the binary was hashed, and the metadata file is written last.
    pub fn store(&self, version: &str, progress: &StoreProgress) -> (r: Result<StoreAction, Error>)
        ensures
            match r {
                Ok(action) => store_next(version@, *progress) == Ok::<
                    StoreActionModel,
                    ErrorModel,
                >(action@),
                Err(e) => store_next(version@, *progress) == Err::<StoreActionModel, ErrorModel>(
                    e@,
                ),
            },
    {
        let sha256 = match &progress.hashed {
            None => {
                return Ok(StoreAction::Hash);
            },
            Some(Err(e)) => {
                return Err(e.duplicate());
            },
            Some(Ok(s)) => s,
        };
        match &progress.copied {
            None => {
                return Ok(StoreAction::Copy);
            },
            Some(Err(e)) => {
                return Err(Error::Io(e.clone()));
            },
            Some(Ok(_)) => {},
        }
        let secs: u64 = match &progress.now {
            None => {
                return Ok(StoreAction::ReadClock);
            },
            Some(Err(e)) => {
                return Err(Error::Upgrade(join("System clock error: ", e.as_str())));
            },
            Some(Ok(secs)) => *secs,
        };
        let text = match &progress.serialized {
            None => {
                return Ok(
                    StoreAction::Serialize(
                        CachedBinaryMeta {
                            version: version.to_owned(),
                            sha256: sha256.clone(),
                            cached_at_epoch_secs: secs,
                        },
                    ),
                );
            },
            Some(Err(e)) => {
                return Err(
                    Error::Upgrade(join("Failed to serialize binary cache meta: ", e.as_str())),
                );
            },
            Some(Ok(text)) => text,
        };
        match &progress.written {
            None => Ok(StoreAction::Write(text.clone())),
            Some(Err(e)) => Err(Error::Io(e.clone())),
            Some(Ok(_)) => Ok(StoreAction::Done),
        }
    }

    /// Go on to the phase after `phase` of work under the download lock, given
    /// how `phase` went.
    pub fn download_lock_step(phase: LockPhase, outcome: &Result<(), String>) -> (r: Result<
        LockPhase,
        Error,
    >)
        ensures
            match r {
                Ok(next) => lock_next(phase, *outcome) == Ok::<LockPhase, ErrorModel>(next),
                Err(e) => lock_next(phase, *outcome) == Err::<LockPhase, ErrorModel>(e@),
            },
    {
        match phase {
            LockPhase::Create => match outcome {
                Ok(_) => Ok(LockPhase::Acquire),
                Err(e) => Err(
                    Error::Upgrade(join("Failed to create download lock: ", e.as_str())),
                ),
            },
            LockPhase::Acquire => match outcome {
                Ok(_) => Ok(LockPhase::Run),
                Err(e) => Err(
                    Error::Upgrade(join("Failed to acquire download lock: ", e.as_str())),
                ),
            },
            LockPhase::Run => Ok(LockPhase::Release),
            LockPhase::Release => Ok(LockPhase::Done),
            LockPhase::Done => Ok(LockPhase::Done),
        }
    }

    /// Run `f` under the exclusive download lock, given how creating the lock
    /// file and locking it went. Without the lock `f` does not run.
    pub fn with_download_lock<F, T>(
        &self,
        created: Result<(), String>,
        locked: Result<(), String>,
        f: F,
    ) -> (r: Result<T, Error>) where F: FnOnce() -> Result<T, Error>
        requires
            created is Ok && locked is Ok ==> f.requires(()),
        ensures
            match created {
                Err(e) => r matches Err(err) && err@ == ErrorModel::Upgrade(
                    "Failed to create download lock: "@ + e@,
                ),
                Ok(_) => match locked {
                    Err(e) => r matches Err(err) && err@ == ErrorModel::Upgrade(
                        "Failed to acquire download lock: "@ + e@,
                    ),
                    Ok(_) => f.ensures((), r),
                },
            },
    {
        match created {
            Err(e) => {
                return Err(
                    Error::Upgrade(join("Failed to create download lock: ", e.as_str())),
                );
            },
            Ok(_) => {},
        }
        match locked {
            Err(e) => {
                return Err(
                    Error::Upgrade(join("Failed to acquire download lock: ", e.as_str())),
                );
            },
            Ok(_) => {},
        }
        f()
    }
}

/// A binary that was stored is found again, whatever the clock said; and with
/// the metadata of one content in the cache, another content is given out only
/// if the two have the same digest.
pub proof fn lemma_store_then_get(
    version: Seq<char>,
    stored: Vec<u8>,
    now: u64,
    meta: CachedBinaryMeta,
    found: Vec<u8>,
)
    requires
        stored_meta(version, FileRead::Content(stored), Ok(()), Ok(now)) == Ok::<
            MetaModel,
            ErrorModel,
        >(meta@),
    ensures
        entry_is_valid(version, Some(meta), FileRead::Content(stored)),
        entry_is_valid(version, Some(meta), FileRead::Content(found)) <==> sha256_digest(found@)
            == sha256_digest(stored@),
{
    lemma_hex_injective(sha256_digest(found@), sha256_digest(stored@));
}

/// What is not in order is never given out: without metadata, with metadata of
/// another version, or when the binary cannot be read.
pub proof fn lemma_damaged_entry_is_missed(
    version: Seq<char>,
    meta: CachedBinaryMeta,
    binary: FileRead,
    e: String,
)
    ensures
        !entry_is_valid(version, None, binary),
        meta@.version != version ==> !entry_is_valid(version, Some(meta), binary),
        !entry_is_valid(version, Some(meta), FileRead::OpenFailed(e)),
        !entry_is_valid(version, Some(meta), FileRead::ReadFailed(e)),
{
}

/// Storing keeps its order: the cache is touched only after the binary was
/// hashed; the metadata file is written only after the binary was copied and the
/// clock read; and the metadata is that of the stored binary.
pub proof fn lemma_store_order(version: Seq<char>, p: StoreProgress, source: FileRead)
    requires
        p.hashed is Some ==> p.hashed_from(source),
    ensures
        store_next(version, p) matches Ok(action) ==> {
            &&& action.touches_cache() ==> p.hashed is Some && p.hashed->0 is Ok
            &&& action is Write ==> p.copied is Some && p.copied->0 is Ok && p.now is Some
                && p.now->0 is Ok
            &&& action matches StoreActionModel::Serialize(meta) ==> stored_meta(
                version,
                source,
                p.copied->0,
                p.now->0,
            ) == Ok::<MetaModel, ErrorModel>(meta)
        },
{
}

/// A binary that cannot be read is an error, whatever else happened, and leaves
/// the cache as it was: neither hashing it nor anything after that creates or
/// changes a file.
pub proof fn lemma_unreadable_source_leaves_cache(
    version: Seq<char>,
    p: StoreProgress,
    source: FileRead,
)
    requires
        !(source is Content),
        p.hashed is Some ==> p.hashed_from(source),
    ensures
        p.hashed is Some ==> store_next(version, p) is Err,
        store_next(version, p) matches Ok(action) ==> !action.touches_cache(),
{
}

/// Phases that work under the download lock goes through from `phase` on, at
/// most `n` of them, while nothing fails but the work itself; `work` is how the
/// work went.
pub open spec fn lock_script(phase: LockPhase, work: Result<(), String>, n: nat) -> Seq<LockPhase>
    decreases n,
{
    if n == 0 {
        Seq::empty()
    } else {
        let outcome = if phase is Run {
            work
        } else {
            Ok(())
        };
        seq![phase] + lock_script(lock_next(phase, outcome)->Ok_0, work, (n - 1) as nat)
    }
}

/// With the lock the work runs exactly once, while the lock is held, and the
/// lock is released before the end, also when the work fails. Without the lock
/// it does not run.
pub proof fn lemma_work_runs_once_under_lock(work: Result<(), String>, e: String)
    ensures
        lock_script(LockPhase::Create, work, 5) == seq![
            LockPhase::Create,
            LockPhase::Acquire,
            LockPhase::Run,
            LockPhase::Release,
            LockPhase::Done,
        ],
        lock_next(LockPhase::Create, Err(e)) is Err,
        lock_next(LockPhase::Acquire, Err(e)) is Err,
        !LockPhase::Create.holds() && !LockPhase::Acquire.holds() && LockPhase::Run.holds()
            && !LockPhase::Done.holds(),
{
    reveal_with_fuel(lock_script, 6);
    assert(lock_script(LockPhase::Create, work, 5) =~= seq![
        LockPhase::Create,
        LockPhase::Acquire,
        LockPhase::Run,
        LockPhase::Release,
        LockPhase::Done,
    ]);
}

/// Calls that work under one lock file, each in its phase, and the one that has
/// the file locked.
pub struct LockWorld {
    pub phases: Seq<LockPhase>,
    pub holder: Option<int>,
}

impl LockWorld {
    /// No call has begun and the file is not locked.
    pub open spec fn fresh(self) -> bool {
        &&& self.holder is None
        &&& forall|i: int| 0 <= i < self.phases.len() ==> (#[trigger] self.phases[i]) is Create
    }

    /// Call `i` goes on after `outcome`. Locking succeeds only while nobody has
    /// the file locked, which is what an exclusive lock is; a call that fails
    /// stays where it is.
    pub open spec fn steps(self, next: LockWorld, i: int, outcome: Result<(), String>) -> bool {
        &&& 0 <= i < self.phases.len()
        &&& match lock_next(self.phases[i], outcome) {
            Err(_) => next == self,
            Ok(phase) => {
                &&& next.phases == self.phases.update(i, phase)
                &&& phase is Run ==> self.holder is None
                &&& next.holder == if phase is Run {
                    Some(i)
                } else if self.phases[i] is Release {
                    None
                } else {
                    self.holder
                }
            },
        }
    }

    /// A call is in a phase with the lock exactly if it is the one that has the
    /// file locked.
    pub open spec fn sound(self) -> bool {
        forall|i: int|
            0 <= i < self.phases.len() ==> ((#[trigger] self.phases[i]).holds() <==> self.holder
                == Some(i))
    }
}

/// The work of two calls on one cache directory never runs at the same time:
/// along any run of any number of calls, at most one is in a phase with the
/// lock.
pub proof fn lemma_work_never_overlaps(
    worlds: Seq<LockWorld>,
    calls: Seq<int>,
    outcomes: Seq<Result<(), String>>,
    at: int,
    a: int,
    b: int,
)
    requires
        0 <= at < worlds.len(),
        calls.len() == worlds.len(),
        outcomes.len() == worlds.len(),
        worlds[0].fresh(),
        forall|k: int|
            0 <= k < worlds.len() - 1 ==> (#[trigger] worlds[k]).steps(
                worlds[k + 1],
                calls[k],
                outcomes[k],
            ),
        0 <= a < worlds[at].phases.len(),
        0 <= b < worlds[at].phases.len(),
        worlds[at].phases[a] is Run,
        worlds[at].phases[b] is Run,
    ensures
        a == b,
{
    lemma_lock_is_sound(worlds, calls, outcomes, at);
    assert(worlds[at].phases[a].holds() && worlds[at].phases[b].holds());
}

/// Who holds the lock is sound along a run.
proof fn lemma_lock_is_sound(
    worlds: Seq<LockWorld>,
    calls: Seq<int>,
    outcomes: Seq<Result<(), String>>,
    at: int,
)
    requires
        0 <= at < worlds.len(),
        calls.len() == worlds.len(),
        outcomes.len() == worlds.len(),
        worlds[0].fresh(),
        forall|k: int|
            0 <= k < worlds.len() - 1 ==> (#[trigger] worlds[k]).steps(
                worlds[k + 1],
                calls[k],
                outcomes[k],
            ),
    ensures
        worlds[at].sound(),
    decreases at,
{
    if at > 0 {
        let k = at - 1;
        lemma_lock_is_sound(worlds, calls, outcomes, k);
        let before = worlds[k];
        let after = worlds[at];
        let i = calls[k];
        assert(before.steps(worlds[k + 1], i, outcomes[k]));
        assert(before.phases[i].holds() <==> before.holder == Some(i));
        assert forall|j: int| 0 <= j < after.phases.len() implies ((
        #[trigger] after.phases[j]).holds() <==> after.holder == Some(j)) by {
            if lock_next(before.phases[i], outcomes[k]) is Ok {
                assert(0 <= j < before.phases.len());
                assert(before.phases[j].holds() <==> before.holder == Some(j));
            }
        }
    }
}

/// Different versions have different names for their files. A binary and a
/// metadata file have the same name only where executables have no extension and
/// one version is another followed by `.meta.json`, and nothing is named like the
/// lock file. This is about the names alone: where a name leads, for instance one
/// with a path separator in its version, is up to the file system.
pub proof fn lemma_names_are_apart(platform: Platform, a: Seq<char>, b: Seq<char>)
    ensures
        binary_name(platform, a) == binary_name(platform, b) <==> a == b,
        meta_name(platform, a) == meta_name(platform, b) <==> a == b,
        binary_name(platform, a) == meta_name(platform, b) <==> platform is Unix && a == b
            + ".meta.json"@,
        binary_name(platform, a) != "download.lock"@,
        meta_name(platform, a) != "download.lock"@,
{
    reveal_strlit("saorsa-node-");
    reveal_strlit("download.lock");
    reveal_strlit(".meta.json");
    reveal_strlit(".exe");
    reveal_strlit("");
    let prefix = "saorsa-node-"@;
    let suffix = exe_suffix(platform);
    let tail = suffix + ".meta.json"@;
    lemma_affixes_cancel(prefix, a, b, suffix);
    lemma_affixes_cancel(prefix, a, b, tail);
    assert(meta_name(platform, a) =~= prefix + a + tail);
    assert(meta_name(platform, b) =~= prefix + b + tail);
    assert(binary_name(platform, a)[0] == 's');
    assert(meta_name(platform, a)[0] == 's');
    assert("download.lock"@[0] == 'd');
    match platform {
        Platform::Unix => {
            let longer = b + ".meta.json"@;
            lemma_affixes_cancel(prefix, a, longer, suffix);
            assert(meta_name(platform, b) =~= prefix + longer + suffix);
        },
        Platform::Windows => {
            assert(binary_name(platform, a).last() == 'e');
            assert(meta_name(platform, b).last() == 'n');
        },
    }
}

/// The digest of a file is the hexadecimal SHA-256 digest of what it holds; a
/// file that cannot be opened is an error of the system, and one whose reading
/// breaks off an error of the upgrade.
pub proof fn lemma_file_digest_cases(file: FileRead)
    ensures
        file matches FileRead::Content(bytes) ==> file_digest(file) == Ok::<Seq<char>, ErrorModel>(
            hex_chars(sha256_digest(bytes@)),
        ),
        file matches FileRead::OpenFailed(e) ==> file_digest(file) == Err::<Seq<char>, ErrorModel>(
            ErrorModel::Io(e@),
        ),
        file matches FileRead::ReadFailed(e) ==> file_digest(file) == Err::<Seq<char>, ErrorModel>(
            ErrorModel::Upgrade("Failed to read file for hashing: "@ + e@),
        ),
{
}

/// An entry of the cache is usable exactly if there is metadata, it speaks of the
/// version that is asked for, and the binary could be read and has the digest
/// that the metadata records.
pub proof fn lemma_entry_valid_iff(
    version: Seq<char>,
    meta: Option<CachedBinaryMeta>,
    binary: FileRead,
)
    ensures
        entry_is_valid(version, meta, binary) <==> {
            &&& meta matches Some(m)
            &&& m.version@ == version
            &&& binary matches FileRead::Content(bytes)
            &&& m.sha256@ == hex_chars(sha256_digest(bytes@))
        },
{
}

/// The files of a version are named after the node and the version; an
/// executable ends in `.exe` on Windows only, and metadata stands beside its
/// binary under the binary's name and `.meta.json`.
pub proof fn lemma_cache_file_names(platform: Platform, version: Seq<char>)
    ensures
        platform is Unix ==> binary_name(platform, version) == "saorsa-node-"@ + version,
        platform is Windows ==> binary_name(platform, version) == "saorsa-node-"@ + version
            + ".exe"@,
        platform is Unix ==> meta_name(platform, version) == "saorsa-node-"@ + version
            + ".meta.json"@,
        platform is Windows ==> meta_name(platform, version) == "saorsa-node-"@ + version
            + ".exe"@ + ".meta.json"@,
{
    reveal_strlit("");
    assert("saorsa-node-"@ + version + ""@ =~= "saorsa-node-"@ + version);
}

/// The steps of storing a binary, and what stops them. It is hashed, copied, the
/// clock is read, its metadata is put together and written; each step is due
/// exactly when all before it succeeded and it was not taken yet, and the first
/// that fails is the error.
pub proof fn lemma_store_steps(version: Seq<char>, p: StoreProgress)
    ensures
        ({
            let next = store_next(version, p);
            let hashed = p.hashed is Some && p.hashed->0 is Ok;
            let copied = hashed && p.copied is Some && p.copied->0 is Ok;
            let timed = copied && p.now is Some && p.now->0 is Ok;
            let worded = timed && p.serialized is Some && p.serialized->0 is Ok;
            &&& next == Ok::<StoreActionModel, ErrorModel>(StoreActionModel::Hash)
                <==> p.hashed is None
            &&& next == Ok::<StoreActionModel, ErrorModel>(StoreActionModel::Copy) <==> hashed
                && p.copied is None
            &&& next == Ok::<StoreActionModel, ErrorModel>(StoreActionModel::ReadClock)
                <==> copied && p.now is None
            &&& (next is Ok && next->Ok_0 is Serialize) <==> timed && p.serialized is None
            &&& (next is Ok && next->Ok_0 is Write) <==> worded && p.written is None
            &&& next == Ok::<StoreActionModel, ErrorModel>(StoreActionModel::Done) <==> worded
                && p.written is Some && p.written->0 is Ok
            &&& next matches Ok(StoreActionModel::Serialize(meta)) ==> {
                &&& meta.version == version
                &&& meta.sha256 == p.hashed->0->Ok_0@
                &&& meta.cached_at_epoch_secs == p.now->0->Ok_0
            }
            &&& next matches Ok(StoreActionModel::Write(text)) ==> text
                == p.serialized->0->Ok_0@
            &&& p.hashed matches Some(Err(e)) ==> next == Err::<StoreActionModel, ErrorModel>(e@)
            &&& p.copied matches Some(Err(e)) ==> hashed ==> next == Err::<
                StoreActionModel,
                ErrorModel,
            >(ErrorModel::Io(e@))
            &&& p.now matches Some(Err(e)) ==> copied ==> next == Err::<
                StoreActionModel,
                ErrorModel,
            >(ErrorModel::Upgrade("System clock error: "@ + e@))
            &&& p.serialized matches Some(Err(e)) ==> timed ==> next == Err::<
                StoreActionModel,
                ErrorModel,
            >(ErrorModel::Upgrade("Failed to serialize binary cache meta: "@ + e@))
            &&& p.written matches Some(Err(e)) ==> worded ==> next == Err::<
                StoreActionModel,
                ErrorModel,
            >(ErrorModel::Io(e@))
        }),
{
}

/// Where each phase under the download lock leads. Only a lock file that cannot
/// be created or locked stops it; how the work or the release went does not
/// matter.
pub proof fn lemma_lock_steps(phase: LockPhase, outcome: Result<(), String>)
    ensures
        ({
            let next = lock_next(phase, outcome);
            &&& next is Err <==> outcome is Err && (phase is Create || phase is Acquire)
            &&& outcome matches Err(e) ==> phase is Create ==> next == Err::<
                LockPhase,
                ErrorModel,
            >(ErrorModel::Upgrade("Failed to create download lock: "@ + e@))
            &&& outcome matches Err(e) ==> phase is Acquire ==> next == Err::<
                LockPhase,
                ErrorModel,
            >(ErrorModel::Upgrade("Failed to acquire download lock: "@ + e@))
            &&& next is Ok ==> {
                &&& next->Ok_0 is Acquire <==> phase is Create
                &&& next->Ok_0 is Run <==> phase is Acquire
                &&& next->Ok_0 is Release <==> phase is Run
                &&& next->Ok_0 is Done <==> phase is Release || phase is Done
            }
        }),
{
}

} // verus!
