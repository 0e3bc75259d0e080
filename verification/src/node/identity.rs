//! Where the identity of a node comes from.

use crate::error::{Error, ErrorModel};
use crate::node::builder::NodeBuilder;
use crate::paths::Location;
use crate::seqs::lemma_push_contains;
use crate::text::{
    encode_hex, hex_chars, join, join_texts, lemma_hex_injective, separated, text_views,
};
use std::path::PathBuf;
use vstd::prelude::*;

verus! {

/// Render a node id as the hexadecimal peer id, 64 characters long.
pub fn node_id_to_peer_id(node_id: &[u8; 32]) -> (s: String)
    ensures
        s@ == hex_chars(node_id@),
{
    encode_hex(node_id.as_slice())
}

/// Peer ids have 64 characters, and different nodes have different ones.
pub proof fn lemma_peer_ids(a: [u8; 32], b: [u8; 32])
    ensures
        hex_chars(a@).len() == 64,
        hex_chars(a@) == hex_chars(b@) <==> a@ == b@,
{
    lemma_hex_injective(a@, b@);
}

/// Directory of a node that runs for the first time: the one in the nodes
/// directory that is named after the full peer id.
pub fn first_run_dir<'a>(nodes_dir: &'a PathBuf, node_id: &[u8; 32]) -> (dir: Location<'a>)
    ensures
        dir.is_under(*nodes_dir, hex_chars(node_id@)),
{
    Location::Under(nodes_dir, node_id_to_peer_id(node_id))
}

/// An entry of the directory that holds one directory per node.
#[derive(Debug)]
pub struct DirEntry {
    /// Its path.
    pub path: PathBuf,
    /// Its name, where it has one.
    pub name: Option<String>,
    /// Whether it is a directory.
    pub is_dir: bool,
    /// Whether it holds an identity file.
    pub has_key: bool,
}

/// What came of listing a directory.
#[derive(Debug)]
pub enum DirListing {
    /// There is no such directory.
    NotFound,
    /// It could not be listed.
    Failed(String),
    /// Its entries, some of which may be unreadable.
    Entries(Vec<Result<DirEntry, String>>),
}

/// The entries that are directories with an identity file; or the first failure
/// to read an entry.
pub open spec fn scan_entries(entries: Seq<Result<DirEntry, String>>) -> Result<
    Seq<DirEntry>,
    ErrorModel,
>
    decreases entries.len(),
{
    if entries.len() == 0 {
        Ok(Seq::empty())
    } else {
        match scan_entries(entries.drop_last()) {
            Err(e) => Err(e),
            Ok(kept) => match entries.last() {
                Err(e) => Err(ErrorModel::Io(e@)),
                Ok(entry) => if entry.is_dir && entry.has_key {
                    Ok(kept.push(entry))
                } else {
                    Ok(kept)
                },
            },
        }
    }
}

/// What scanning a directory for identities finds. A directory that does not
/// exist holds none.
pub open spec fn scan(listing: DirListing) -> Result<Seq<DirEntry>, ErrorModel> {
    match listing {
        DirListing::NotFound => Ok(Seq::empty()),
        DirListing::Failed(e) => Err(ErrorModel::Io(e@)),
        DirListing::Entries(entries) => scan_entries(entries@),
    }
}

/// A failure at some entry is the outcome, whatever follows.
proof fn lemma_failure_persists(entries: Seq<Result<DirEntry, String>>, n: int)
    requires
        0 <= n <= entries.len(),
        scan_entries(entries.take(n)) is Err,
    ensures
        scan_entries(entries) == scan_entries(entries.take(n)),
    decreases entries.len(),
{
    if n < entries.len() {
        assert(entries.drop_last().take(n) =~= entries.take(n));
        lemma_failure_persists(entries.drop_last(), n);
    } else {
        assert(entries.take(n) =~= entries);
    }
}

/// Where the identity of a node comes from.
#[derive(Debug)]
pub enum IdentityPlan {
    /// From the configured root directory: load the identity that is there, or
    /// generate one.
    InRootDir,
    /// First run: generate an identity and make the directory named after its
    /// peer id the root directory.
    FirstRun,
    /// Load the identity in this directory, and make it the root directory.
    Existing(DirEntry),
}

impl IdentityPlan {
    /// Whether the identity is loaded; otherwise one is generated. A first run
    /// generates, a found directory is loaded from, and in the configured root
    /// directory it depends on whether there is an identity file.
    pub fn loads(&self, root_has_key: bool) -> (r: bool)
        ensures
            r == match *self {
                IdentityPlan::InRootDir => root_has_key,
                IdentityPlan::FirstRun => false,
                IdentityPlan::Existing(_) => true,
            },
    {
        match self {
            IdentityPlan::InRootDir => root_has_key,
            IdentityPlan::FirstRun => false,
            IdentityPlan::Existing(_) => true,
        }
    }

    /// Directory that holds the identity and becomes the root directory. The
    /// node id matters on a first run only.
    pub fn identity_dir<'a>(
        &'a self,
        root_dir: &'a PathBuf,
        nodes_dir: &'a PathBuf,
        node_id: &[u8; 32],
    ) -> (dir: Location<'a>)
        ensures
            match *self {
                IdentityPlan::InRootDir => dir.is_at(*root_dir),
                IdentityPlan::FirstRun => dir.is_under(*nodes_dir, hex_chars(node_id@)),
                IdentityPlan::Existing(found) => dir.is_at(found.path),
            },
    {
        match self {
            IdentityPlan::InRootDir => Location::At(root_dir),
            IdentityPlan::FirstRun => first_run_dir(nodes_dir, node_id),
            IdentityPlan::Existing(found) => Location::At(&found.path),
        }
    }
}

/// Names of the found directories, where they have one.
pub open spec fn found_names(dirs: Seq<DirEntry>) -> Seq<Seq<char>>
    decreases dirs.len(),
{
    if dirs.len() == 0 {
        Seq::empty()
    } else {
        match dirs.last().name {
            Some(name) => found_names(dirs.drop_last()).push(name@),
            None => found_names(dirs.drop_last()),
        }
    }
}

/// The complaint about several identities.
pub open spec fn ambiguous(nodes_dir: Seq<char>, dirs: Seq<DirEntry>) -> Seq<char> {
    "Multiple node identities found at "@ + nodes_dir + ": ["@ + separated(
        found_names(dirs),
        ", "@,
    ) + "]. Specify --root-dir to select one."@
}

/// Where the identity comes from. A root directory other than the default one
/// is used directly; otherwise the identities below the default one decide.
pub open spec fn identity_plan(
    root_is_default: bool,
    nodes_dir: Seq<char>,
    listing: DirListing,
) -> Result<IdentityPlan, ErrorModel> {
    if !root_is_default {
        Ok(IdentityPlan::InRootDir)
    } else {
        match scan(listing) {
            Err(e) => Err(e),
            Ok(dirs) => if dirs.len() == 0 {
                Ok(IdentityPlan::FirstRun)
            } else if dirs.len() == 1 {
                Ok(IdentityPlan::Existing(dirs[0]))
            } else {
                Err(ErrorModel::Config(ambiguous(nodes_dir, dirs)))
            },
        }
    }
}

/// Names of the found directories, where they have one.
fn collect_names(dirs: &Vec<DirEntry>) -> (names: Vec<String>)
    ensures
        text_views(names@) == found_names(dirs@),
{
    let mut names: Vec<String> = Vec::new();
    assert(text_views(names@) =~= found_names(dirs@.take(0)));
    for i in 0..dirs.len()
        invariant
            text_views(names@) == found_names(dirs@.take(i as int)),
    {
        let ghost before = names@;
        let ghost next = dirs@.take(i as int + 1);
        assert(next.drop_last() =~= dirs@.take(i as int));
        match &dirs[i].name {
            Some(name) => {
                names.push(name.clone());
                assert(text_views(names@) =~= text_views(before).push(name@));
            },
            None => {},
        }
    }
    assert(dirs@.take(dirs@.len() as int) =~= dirs@);
    names
}

/// What to do next about an identity.
#[derive(Clone, Copy, Debug, PartialEq, Eq, Structural)]
pub enum IdentityAction {
    /// Load it from its file.
    Load,
    /// Generate it.
    Generate,
    /// Create the directory for its file.
    CreateDir,
    /// Save it to its file.
    Save,
    /// It is ready.
    Ready,
}

/// How the actions done so far went.
#[derive(Debug)]
pub struct IdentityProgress {
    pub loaded: Option<Result<(), String>>,
    pub generated: Option<Result<(), String>>,
    pub dir_created: Option<Result<(), String>>,
    pub saved: Option<Result<(), String>>,
}

/// The next action: an existing identity is loaded; otherwise one is generated,
/// its directory created, and the identity saved there.
pub open spec fn identity_next(key_exists: bool, p: IdentityProgress) -> Result<
    IdentityAction,
    ErrorModel,
> {
    if key_exists {
        match p.loaded {
            None => Ok(IdentityAction::Load),
            Some(Err(e)) => Err(ErrorModel::Startup("Failed to load node identity: "@ + e@)),
            Some(Ok(_)) => Ok(IdentityAction::Ready),
        }
    } else {
        match p.generated {
            None => Ok(IdentityAction::Generate),
            Some(Err(e)) => Err(ErrorModel::Startup("Failed to generate node identity: "@ + e@)),
            Some(Ok(_)) => match p.dir_created {
                None => Ok(IdentityAction::CreateDir),
                Some(Err(e)) => Err(ErrorModel::Io(e@)),
                Some(Ok(_)) => match p.saved {
                    None => Ok(IdentityAction::Save),
                    Some(Err(e)) => Err(
                        ErrorModel::Startup("Failed to save node identity: "@ + e@),
                    ),
                    Some(Ok(_)) => Ok(IdentityAction::Ready),
                },
            },
        }
    }
}

impl NodeBuilder {
    /// Find the entries that are directories with an identity file.
    pub fn scan_identity_dirs(listing: DirListing) -> (r: Result<Vec<DirEntry>, Error>)
        ensures
            match r {
                Ok(dirs) => scan(listing) == Ok::<Seq<DirEntry>, ErrorModel>(dirs@),
                Err(e) => scan(listing) == Err::<Seq<DirEntry>, ErrorModel>(e@),
            },
    {
        let mut dirs: Vec<DirEntry> = Vec::new();
        let ghost outcome = scan(listing);
        let entries = match listing {
            DirListing::NotFound => {
                return Ok(dirs);
            },
            DirListing::Failed(e) => {
                return Err(Error::Io(e));
            },
            DirListing::Entries(entries) => entries,
        };
        let ghost all = entries@;
        for entry in it: entries
            invariant
                it.seq() == all,
                outcome == scan(listing),
                outcome == scan_entries(all),
                scan_entries(all.take(it.index() as int)) == Ok::<Seq<DirEntry>, ErrorModel>(dirs@),
        {
            let ghost next = all.take(it.index() as int + 1);
            assert(next.drop_last() =~= all.take(it.index() as int));
            assert(next.last() == entry);
            match entry {
                Err(e) => {
                    proof {
                        lemma_failure_persists(all, it.index() as int + 1);
                    }
                    return Err(Error::Io(e));
                },
                Ok(found) => {
                    if found.is_dir && found.has_key {
                        dirs.push(found);
                    }
                },
            }
        }
        assert(all.take(all.len() as int) =~= all);
        Ok(dirs)
    }

    /// Decide where the identity comes from. `nodes_dir` is the text of the
    /// directory that holds one directory per node, and `listing` what it holds.
    pub fn resolve_identity(root_is_default: bool, nodes_dir: &str, listing: DirListing) -> (r: Result<
        IdentityPlan,
        Error,
    >)
        ensures
            match r {
                Ok(plan) => identity_plan(root_is_default, nodes_dir@, listing) == Ok::<
                    IdentityPlan,
                    ErrorModel,
                >(plan),
                Err(e) => identity_plan(root_is_default, nodes_dir@, listing) == Err::<
                    IdentityPlan,
                    ErrorModel,
                >(e@),
            },
    {
        if !root_is_default {
            return Ok(IdentityPlan::InRootDir);
        }
        let mut dirs = match Self::scan_identity_dirs(listing) {
            Ok(dirs) => dirs,
            Err(e) => {
                return Err(e);
            },
        };
        if dirs.len() == 0 {
            return Ok(IdentityPlan::FirstRun);
        }
        if dirs.len() == 1 {
            let dir = dirs.remove(0);
            return Ok(IdentityPlan::Existing(dir));
        }
        let names = collect_names(&dirs);
        let mut text = join("Multiple node identities found at ", nodes_dir);
        text.append(": [");
        text.append(join_texts(&names, ", ").as_str());
        text.append("]. Specify --root-dir to select one.");
        Err(Error::Config(text))
    }

    /// Decide the next action about the identity of a directory; `key_exists` tells
    /// whether its identity file exists.
    pub fn load_or_generate_identity(key_exists: bool, progress: &IdentityProgress) -> (r: Result<
        IdentityAction,
        Error,
    >)
        ensures
            match r {
                Ok(action) => identity_next(key_exists, *progress) == Ok::<IdentityAction, ErrorModel>(
                    action,
                ),
                Err(e) => identity_next(key_exists, *progress) == Err::<IdentityAction, ErrorModel>(e@),
            },
    {
        if key_exists {
            return match &progress.loaded {
                None => Ok(IdentityAction::Load),
                Some(Err(e)) => Err(
                    Error::Startup(join("Failed to load node identity: ", e.as_str())),
                ),
                Some(Ok(_)) => Ok(IdentityAction::Ready),
            };
        }
        match &progress.generated {
            None => {
                return Ok(IdentityAction::Generate);
            },
            Some(Err(e)) => {
                return Err(Error::Startup(join("Failed to generate node identity: ", e.as_str())));
            },
            Some(Ok(_)) => {},
        }
        match &progress.dir_created {
            None => {
                return Ok(IdentityAction::CreateDir);
            },
            Some(Err(e)) => {
                return Err(Error::Io(e.clone()));
            },
            Some(Ok(_)) => {},
        }
        match &progress.saved {
            None => Ok(IdentityAction::Save),
            Some(Err(e)) => Err(Error::Startup(join("Failed to save node identity: ", e.as_str()))),
            Some(Ok(_)) => Ok(IdentityAction::Ready),
        }
    }
}

/// Whether the identity was loaded, or generated and saved into its directory.
pub open spec fn identity_secured(key_exists: bool, p: IdentityProgress) -> bool {
    if key_exists {
        p.loaded is Some && p.loaded->0 is Ok
    } else {
        &&& p.generated is Some && p.generated->0 is Ok
        &&& p.dir_created is Some && p.dir_created->0 is Ok
        &&& p.saved is Some && p.saved->0 is Ok
    }
}

/// An identity is ready exactly when it was loaded, or generated and saved into
/// its directory; a fresh identity is never used unsaved.
pub proof fn lemma_identity_ready_iff(key_exists: bool, p: IdentityProgress)
    ensures
        identity_next(key_exists, p) == Ok::<IdentityAction, ErrorModel>(IdentityAction::Ready)
            <==> identity_secured(key_exists, p),
{
}

/// Identity file of a directory after a run, where `key` was the identity in it
/// before and `fresh` is the one that the run generates if it needs one.
pub open spec fn key_after(
    key: Option<Seq<u8>>,
    p: IdentityProgress,
    fresh: Seq<u8>,
) -> Option<Seq<u8>> {
    if key is None && p.saved is Some && p.saved->0 is Ok {
        Some(fresh)
    } else {
        key
    }
}

/// Identity that a run uses once it is ready: the one in the directory, or the
/// fresh one.
pub open spec fn identity_used(key: Option<Seq<u8>>, fresh: Seq<u8>) -> Seq<u8> {
    match key {
        Some(k) => k,
        None => fresh,
    }
}

/// Whether an action leaves the identity file of the directory alone.
pub open spec fn keeps_key(action: Result<IdentityAction, ErrorModel>) -> bool {
    match action {
        Ok(a) => a is Load || a is Ready,
        Err(_) => true,
    }
}

/// An explicit root directory yields a stable identity. After a run that became
/// ready, whether it loaded or generated, the next run on the same directory
/// plans that directory again, loads the identity that the first one used, and
/// writes nothing. `listing` and `other` are whatever the nodes directory holds.
pub proof fn lemma_explicit_root_survives_restart(
    nodes_dir: Seq<char>,
    listing: DirListing,
    other: DirListing,
    key: Option<Seq<u8>>,
    first: IdentityProgress,
    fresh: Seq<u8>,
    second: IdentityProgress,
    unused: Seq<u8>,
)
    requires
        identity_next(key is Some, first) == Ok::<IdentityAction, ErrorModel>(
            IdentityAction::Ready,
        ),
    ensures
        identity_plan(false, nodes_dir, listing) == Ok::<IdentityPlan, ErrorModel>(
            IdentityPlan::InRootDir,
        ),
        identity_plan(false, nodes_dir, other) == identity_plan(false, nodes_dir, listing),
        key_after(key, first, fresh) == Some(identity_used(key, fresh)),
        second.loaded is None ==> identity_next(true, second) == Ok::<IdentityAction, ErrorModel>(
            IdentityAction::Load,
        ),
        keeps_key(identity_next(true, second)),
        key_after(key_after(key, first, fresh), second, unused) == key_after(key, first, fresh),
        identity_used(key_after(key, first, fresh), unused) == identity_used(key, fresh),
{
}

/// Whether `entry` is a readable directory with an identity file.
pub open spec fn keyed(entry: Result<DirEntry, String>) -> bool {
    entry is Ok && entry->Ok_0.is_dir && entry->Ok_0.has_key
}

/// Whether a listing shows the nodes directory as it is when `saved` holds, by
/// the name of its directory, each identity in it.
pub open spec fn shows(listing: DirListing, saved: Map<Seq<char>, Seq<u8>>) -> bool {
    match listing {
        DirListing::NotFound => saved == Map::<Seq<char>, Seq<u8>>::empty(),
        DirListing::Failed(_) => false,
        DirListing::Entries(entries) => {
            &&& forall|i: int| 0 <= i < entries@.len() ==> (#[trigger] entries@[i]) is Ok
            &&& forall|i: int|
                0 <= i < entries@.len() && keyed(#[trigger] entries@[i])
                    ==> entries@[i]->Ok_0.name is Some && saved.contains_key(
                    entries@[i]->Ok_0.name->0@,
                )
            &&& forall|n: Seq<char>| #[trigger]
                saved.contains_key(n) ==> exists|i: int|
                    0 <= i < entries@.len() && keyed(#[trigger] entries@[i])
                        && entries@[i]->Ok_0.name->0@ == n
            &&& forall|i: int, j: int|
                0 <= i < j < entries@.len() && keyed(#[trigger] entries@[i]) && keyed(
                    #[trigger] entries@[j],
                ) ==> entries@[i]->Ok_0.name->0@ != entries@[j]->Ok_0.name->0@
        },
    }
}

/// What a first run that generated the identity `node_id` leaves in the nodes
/// directory: the identity, in the directory named after its peer id.
pub open spec fn first_run_saves(p: IdentityProgress, node_id: Seq<u8>) -> Map<
    Seq<char>,
    Seq<u8>,
> {
    match key_after(None, p, node_id) {
        Some(key) => Map::empty().insert(hex_chars(node_id), key),
        None => Map::empty(),
    }
}

/// A scan of readable entries without an identity file finds nothing.
proof fn lemma_scan_none(entries: Seq<Result<DirEntry, String>>)
    requires
        forall|i: int|
            0 <= i < entries.len() ==> (#[trigger] entries[i]) is Ok && !keyed(entries[i]),
    ensures
        scan_entries(entries) == Ok::<Seq<DirEntry>, ErrorModel>(Seq::empty()),
    decreases entries.len(),
{
    if entries.len() > 0 {
        let init = entries.drop_last();
        assert forall|i: int| 0 <= i < init.len() implies (#[trigger] init[i]) is Ok && !keyed(
            init[i],
        ) by {
            assert(init[i] == entries[i]);
        }
        lemma_scan_none(init);
        assert(!keyed(entries[entries.len() - 1]));
    }
}

/// A scan of readable entries of which one has an identity file finds that one.
proof fn lemma_scan_one(entries: Seq<Result<DirEntry, String>>, at: int)
    requires
        0 <= at < entries.len(),
        forall|i: int|
            0 <= i < entries.len() ==> (#[trigger] entries[i]) is Ok && (keyed(entries[i]) <==> i
                == at),
    ensures
        scan_entries(entries) == Ok::<Seq<DirEntry>, ErrorModel>(seq![entries[at]->Ok_0]),
    decreases entries.len(),
{
    let init = entries.drop_last();
    let last = entries.len() - 1;
    assert(entries[last] is Ok && (keyed(entries[last]) <==> last == at));
    if at == last {
        assert forall|i: int| 0 <= i < init.len() implies (#[trigger] init[i]) is Ok && !keyed(
            init[i],
        ) by {
            assert(init[i] == entries[i]);
        }
        lemma_scan_none(init);
        assert(Seq::<DirEntry>::empty().push(entries[at]->Ok_0) =~= seq![entries[at]->Ok_0]);
    } else {
        assert forall|i: int| 0 <= i < init.len() implies (#[trigger] init[i]) is Ok && (keyed(
            init[i],
        ) <==> i == at) by {
            assert(init[i] == entries[i]);
        }
        lemma_scan_one(init, at);
    }
}

/// The identity survives a restart with the default root directory. Where the
/// nodes directory held no identity, the first run generates one and saves it in
/// the directory named after the full peer id. The next run finds exactly that
/// directory, makes it the root directory again, loads from it the identity that
/// was saved there, and writes nothing.
pub proof fn lemma_default_root_survives_restart(
    nodes_dir: Seq<char>,
    before: DirListing,
    after: DirListing,
    node_id: [u8; 32],
    first: IdentityProgress,
    second: IdentityProgress,
)
    requires
        shows(before, Map::empty()),
        identity_next(false, first) == Ok::<IdentityAction, ErrorModel>(IdentityAction::Ready),
        shows(after, first_run_saves(first, node_id@)),
    ensures
        identity_plan(true, nodes_dir, before) == Ok::<IdentityPlan, ErrorModel>(
            IdentityPlan::FirstRun,
        ),
        identity_plan(true, nodes_dir, after) is Ok,
        identity_plan(true, nodes_dir, after)->Ok_0 matches IdentityPlan::Existing(dir)
            && dir.name is Some && dir.name->0@ == hex_chars(node_id@) && dir.is_dir
            && dir.has_key && first_run_saves(first, node_id@)[dir.name->0@] == node_id@,
        hex_chars(node_id@).len() == 64,
        second.loaded is None ==> identity_next(true, second) == Ok::<IdentityAction, ErrorModel>(
            IdentityAction::Load,
        ),
        keeps_key(identity_next(true, second)),
{
    let name = hex_chars(node_id@);
    let empty = Map::<Seq<char>, Seq<u8>>::empty();
    let saved = empty.insert(name, node_id@);
    lemma_hex_injective(node_id@, node_id@);
    match before {
        DirListing::Entries(entries) => {
            assert forall|i: int| 0 <= i < entries@.len() implies (#[trigger] entries@[i]) is Ok
                && !keyed(entries@[i]) by {
                if keyed(entries@[i]) {
                    assert(empty.contains_key(entries@[i]->Ok_0.name->0@));
                }
            }
            lemma_scan_none(entries@);
        },
        _ => {},
    }
    assert(first_run_saves(first, node_id@) == saved);
    assert(saved.contains_key(name));
    match after {
        DirListing::Entries(entries) => {
            let at = choose|i: int|
                0 <= i < entries@.len() && keyed(#[trigger] entries@[i])
                    && entries@[i]->Ok_0.name->0@ == name;
            assert forall|i: int| 0 <= i < entries@.len() implies (#[trigger] entries@[i]) is Ok
                && (keyed(entries@[i]) <==> i == at) by {
                if keyed(entries@[i]) && i != at {
                    assert(saved.contains_key(entries@[i]->Ok_0.name->0@));
                    assert(entries@[i]->Ok_0.name->0@ == name);
                    assert(keyed(entries@[at]));
                }
            }
            lemma_scan_one(entries@, at);
        },
        _ => {
            assert(!empty.contains_key(name));
        },
    }
}

/// Which directories a scan finds: exactly those with an identity file, if every
/// entry could be read.
pub proof fn lemma_scan_finds(entries: Seq<Result<DirEntry, String>>, entry: DirEntry)
    requires
        scan_entries(entries) is Ok,
    ensures
        scan_entries(entries)->Ok_0.contains(entry) <==> entries.contains(Ok(entry))
            && entry.is_dir && entry.has_key,
    decreases entries.len(),
{
    if entries.len() > 0 {
        let init = entries.drop_last();
        lemma_scan_finds(init, entry);
        assert(entries =~= init.push(entries.last()));
        let wanted: Result<DirEntry, String> = Ok(entry);
        lemma_push_contains(init, entries.last(), wanted);
        let kept = scan_entries(init)->Ok_0;
        let last = entries.last()->Ok_0;
        lemma_push_contains(kept, last, entry);
    }
}

/// A scan keeps, in order, the entries that are directories with an identity
/// file. It fails exactly when some entry could not be read, with the failure of
/// the first such entry.
pub proof fn lemma_scan_keeps_identity_dirs(entries: Seq<Result<DirEntry, String>>)
    ensures
        scan_entries(entries) is Ok <==> forall|i: int|
            0 <= i < entries.len() ==> (#[trigger] entries[i]) is Ok,
        scan_entries(entries) is Ok ==> scan_entries(entries)->Ok_0 == entries.filter(
            |e: Result<DirEntry, String>| e is Ok && e->Ok_0.is_dir && e->Ok_0.has_key,
        ).map_values(|e: Result<DirEntry, String>| e->Ok_0),
        scan_entries(entries) is Err ==> exists|i: int|
            {
                &&& 0 <= i < entries.len()
                &&& (#[trigger] entries[i]) is Err
                &&& scan_entries(entries) == Err::<Seq<DirEntry>, ErrorModel>(
                    ErrorModel::Io(entries[i]->Err_0@),
                )
                &&& forall|j: int| 0 <= j < i ==> (#[trigger] entries[j]) is Ok
            },
    decreases entries.len(),
{
    reveal(Seq::filter);
    let keep = |e: Result<DirEntry, String>| e is Ok && e->Ok_0.is_dir && e->Ok_0.has_key;
    let open = |e: Result<DirEntry, String>| e->Ok_0;
    if entries.len() == 0 {
        assert(entries.filter(keep).map_values(open) =~= Seq::empty());
    } else {
        let init = entries.drop_last();
        let last = entries.len() - 1;
        lemma_scan_keeps_identity_dirs(init);
        match scan_entries(init) {
            Err(_) => {
                let i = choose|i: int|
                    {
                        &&& 0 <= i < init.len()
                        &&& (#[trigger] init[i]) is Err
                        &&& scan_entries(init) == Err::<Seq<DirEntry>, ErrorModel>(
                            ErrorModel::Io(init[i]->Err_0@),
                        )
                        &&& forall|j: int| 0 <= j < i ==> (#[trigger] init[j]) is Ok
                    };
                assert(entries[i] is Err);
                assert forall|j: int| 0 <= j < i implies (#[trigger] entries[j]) is Ok by {
                    assert(init[j] is Ok);
                }
            },
            Ok(kept) => {
                assert forall|i: int| 0 <= i < last implies (#[trigger] entries[i]) is Ok by {
                    assert(init[i] is Ok);
                }
                if entries[last] is Ok {
                    if keep(entries[last]) {
                        assert(entries.filter(keep).map_values(open) =~= init.filter(
                            keep,
                        ).map_values(open).push(entries[last]->Ok_0));
                    }
                }
            },
        }
    }
}

/// Where the identity comes from. With a root directory of its own the node uses
/// that and does not look further. With the default one it counts the
/// directories that hold an identity: with none, or without a nodes directory,
/// this is a first run; a single one is used; several are an error that lists
/// their names. A directory that cannot be read is an error.
pub proof fn lemma_identity_plan_cases(
    nodes_dir: Seq<char>,
    listing: DirListing,
    root_is_default: bool,
)
    ensures
        ({
            let plan = identity_plan(root_is_default, nodes_dir, listing);
            let found = listing->Entries_0@.filter(
                |e: Result<DirEntry, String>| e is Ok && e->Ok_0.is_dir && e->Ok_0.has_key,
            ).map_values(|e: Result<DirEntry, String>| e->Ok_0);
            let readable = forall|i: int|
                0 <= i < listing->Entries_0@.len() ==> (#[trigger] listing->Entries_0@[i]) is Ok;
            &&& !root_is_default ==> plan == Ok::<IdentityPlan, ErrorModel>(
                IdentityPlan::InRootDir,
            )
            &&& root_is_default && listing is NotFound ==> plan == Ok::<IdentityPlan, ErrorModel>(
                IdentityPlan::FirstRun,
            )
            &&& listing matches DirListing::Failed(e) ==> root_is_default ==> plan == Err::<
                IdentityPlan,
                ErrorModel,
            >(ErrorModel::Io(e@))
            &&& root_is_default && listing is Entries && !readable ==> plan is Err
                && plan->Err_0 is Io
            &&& root_is_default && listing is Entries && readable ==> {
                &&& found.len() == 0 ==> plan == Ok::<IdentityPlan, ErrorModel>(
                    IdentityPlan::FirstRun,
                )
                &&& found.len() == 1 ==> plan == Ok::<IdentityPlan, ErrorModel>(
                    IdentityPlan::Existing(found[0]),
                )
                &&& found.len() > 1 ==> plan == Err::<IdentityPlan, ErrorModel>(
                    ErrorModel::Config(
                        "Multiple node identities found at "@ + nodes_dir + ": ["@ + separated(
                            found.filter_map(
                                |d: DirEntry|
                                    match d.name {
                                        Some(name) => Some(name@),
                                        None => None,
                                    },
                            ),
                            ", "@,
                        ) + "]. Specify --root-dir to select one."@,
                    ),
                )
            }
        }),
{
    if let DirListing::Entries(entries) = listing {
        lemma_scan_keeps_identity_dirs(entries@);
        if scan_entries(entries@) is Ok {
            lemma_found_names(scan_entries(entries@)->Ok_0);
        }
    }
}

/// The names of the directories that have one, in order.
proof fn lemma_found_names(dirs: Seq<DirEntry>)
    ensures
        found_names(dirs) == dirs.filter_map(
            |d: DirEntry|
                match d.name {
                    Some(name) => Some(name@),
                    None => None,
                },
        ),
    decreases dirs.len(),
{
    let name_of = |d: DirEntry|
        match d.name {
            Some(name) => Some(name@),
            None => None,
        };
    if dirs.len() == 0 {
        assert(found_names(dirs) =~= dirs.filter_map(name_of));
    } else {
        lemma_found_names(dirs.drop_last());
        assert(found_names(dirs) =~= dirs.filter_map(name_of));
    }
}

/// The steps toward an identity, and what stops them. An identity file that is
/// there is loaded and nothing is generated or saved; otherwise an identity is
/// generated, its directory created, and the identity saved, in this order, and
/// the first step that fails is the error.
pub proof fn lemma_identity_steps(key_exists: bool, p: IdentityProgress)
    ensures
        ({
            let next = identity_next(key_exists, p);
            let generated = p.generated is Some && p.generated->0 is Ok;
            let placed = generated && p.dir_created is Some && p.dir_created->0 is Ok;
            &&& next == Ok::<IdentityAction, ErrorModel>(IdentityAction::Load) <==> key_exists
                && p.loaded is None
            &&& next == Ok::<IdentityAction, ErrorModel>(IdentityAction::Generate)
                <==> !key_exists && p.generated is None
            &&& next == Ok::<IdentityAction, ErrorModel>(IdentityAction::CreateDir)
                <==> !key_exists && generated && p.dir_created is None
            &&& next == Ok::<IdentityAction, ErrorModel>(IdentityAction::Save) <==> !key_exists
                && placed && p.saved is None
            &&& next == Ok::<IdentityAction, ErrorModel>(IdentityAction::Ready) <==> (key_exists
                && p.loaded is Some && p.loaded->0 is Ok) || (!key_exists && placed
                && p.saved is Some && p.saved->0 is Ok)
            &&& p.loaded matches Some(Err(e)) ==> key_exists ==> next == Err::<
                IdentityAction,
                ErrorModel,
            >(ErrorModel::Startup("Failed to load node identity: "@ + e@))
            &&& p.generated matches Some(Err(e)) ==> !key_exists ==> next == Err::<
                IdentityAction,
                ErrorModel,
            >(ErrorModel::Startup("Failed to generate node identity: "@ + e@))
            &&& p.dir_created matches Some(Err(e)) ==> !key_exists && generated ==> next == Err::<
                IdentityAction,
                ErrorModel,
            >(ErrorModel::Io(e@))
            &&& p.saved matches Some(Err(e)) ==> !key_exists && placed ==> next == Err::<
                IdentityAction,
                ErrorModel,
            >(ErrorModel::Startup("Failed to save node identity: "@ + e@))
        }),
{
}

/// A nodes directory that does not exist holds no identity, one that cannot be
/// listed is an error of the system, and otherwise its entries decide.
pub proof fn lemma_scan_cases(listing: DirListing)
    ensures
        listing is NotFound ==> scan(listing) == Ok::<Seq<DirEntry>, ErrorModel>(Seq::empty()),
        listing matches DirListing::Failed(e) ==> scan(listing) == Err::<Seq<DirEntry>, ErrorModel>(
            ErrorModel::Io(e@),
        ),
        listing matches DirListing::Entries(entries) ==> scan(listing) == scan_entries(entries@),
{
}

} // verus!
