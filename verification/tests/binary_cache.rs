//! The cache of upgrade binaries.

use ant_node::error::Error;
use ant_node::paths::Location;
use ant_node::upgrade::binary_cache::{
    sha256_file, BinaryCache, CachedBinaryMeta, FileRead, LockPhase, Platform, StoreAction,
    StoreProgress,
};
use std::path::PathBuf;

fn cache() -> BinaryCache {
    BinaryCache::new(PathBuf::from("/var/cache"), Platform::Unix)
}

fn content(bytes: &[u8]) -> FileRead {
    FileRead::Content(bytes.to_vec())
}

fn progress() -> StoreProgress {
    StoreProgress {
        hashed: None,
        copied: None,
        now: None,
        serialized: None,
        written: None,
    }
}

/// Store `bytes` in a cache on which every step succeeds.
fn stored(cache: &BinaryCache, version: &str, bytes: &[u8], now: u64) -> CachedBinaryMeta {
    let mut p = progress();
    loop {
        match cache.store(version, &p).unwrap() {
            StoreAction::Hash => p.hashed = Some(sha256_file(&content(bytes))),
            StoreAction::Copy => p.copied = Some(Ok(())),
            StoreAction::ReadClock => p.now = Some(Ok(now)),
            StoreAction::Serialize(meta) => return meta,
            other => panic!("unexpected step {other:?}"),
        }
    }
}

fn name(location: &Location<'_>) -> String {
    location.entry_name().unwrap().to_string()
}

#[test]
fn test_miss_returns_none() {
    let missing = FileRead::OpenFailed("not found".to_string());
    assert!(cache().get_verified("1.0.0", &None, &missing).is_none());
}

#[test]
fn test_store_and_get_verified() {
    let cache = cache();
    let meta = stored(&cache, "1.2.3", b"hello world binary", 1_700_000_000);
    let copied = content(b"hello world binary");

    let result = cache.get_verified("1.2.3", &Some(meta), &copied);
    assert!(result.is_some());
    let cached_path = result.unwrap();
    assert_eq!(name(&cached_path), "saorsa-node-1.2.3");
    assert!(matches!(cached_path, Location::Under(dir, _) if *dir == PathBuf::from("/var/cache")));
}

#[test]
fn test_sha256_mismatch_returns_none() {
    let cache = cache();
    let meta = stored(&cache, "1.0.0", b"original content", 1);
    let corrupted = content(b"corrupted content");
    assert!(cache
        .get_verified("1.0.0", &Some(meta), &corrupted)
        .is_none());
}

#[test]
fn test_missing_meta_returns_none() {
    let binary = content(b"binary data");
    assert!(cache().get_verified("1.0.0", &None, &binary).is_none());
}

#[test]
fn digest_is_sha256_in_lower_case() {
    assert_eq!(
        sha256_file(&content(b"")).unwrap(),
        "e3b0c44298fc1c149afbf4c8996fb92427ae41e4649b934ca495991b7852b855"
    );
    assert_eq!(
        sha256_file(&content(b"hello world binary")).unwrap(),
        HELLO_DIGEST
    );
}

const HELLO_DIGEST: &str = "3023b0ce7d2509c1a03cf8d84b27fac67fe980bbeece771f10f85ca050e9d27b";

#[test]
fn stored_metadata_is_exact() {
    let meta = stored(&cache(), "1.2.3", b"hello world binary", 42);
    assert_eq!(meta.version, "1.2.3");
    assert_eq!(meta.sha256, HELLO_DIGEST);
    assert_eq!(meta.cached_at_epoch_secs, 42);
}

#[test]
fn metadata_of_another_version_is_a_miss() {
    let cache = cache();
    let meta = CachedBinaryMeta {
        version: "2.0.0".to_string(),
        sha256: HELLO_DIGEST.to_string(),
        cached_at_epoch_secs: 1,
    };
    let binary = content(b"hello world binary");
    assert!(cache.get_verified("1.0.0", &Some(meta), &binary).is_none());
}

#[test]
fn unreadable_binary_is_a_miss() {
    let cache = cache();
    for binary in [
        FileRead::OpenFailed("gone".to_string()),
        FileRead::ReadFailed("broken".to_string()),
    ] {
        let meta = CachedBinaryMeta {
            version: "1.0.0".to_string(),
            sha256: HELLO_DIGEST.to_string(),
            cached_at_epoch_secs: 1,
        };
        assert!(cache.get_verified("1.0.0", &Some(meta), &binary).is_none());
    }
}

#[test]
fn file_names_follow_the_platform() {
    let unix = cache();
    assert_eq!(name(&unix.cached_binary_path("1.0.0")), "saorsa-node-1.0.0");
    assert_eq!(name(&unix.meta_path("1.0.0")), "saorsa-node-1.0.0.meta.json");
    let windows = BinaryCache::new(PathBuf::from("c"), Platform::Windows);
    assert_eq!(
        name(&windows.cached_binary_path("1.0.0")),
        "saorsa-node-1.0.0.exe"
    );
    assert_eq!(
        name(&windows.meta_path("1.0.0")),
        "saorsa-node-1.0.0.exe.meta.json"
    );
    assert_eq!(name(&unix.download_lock_path()), "download.lock");
}

#[test]
fn names_of_versions_are_apart() {
    let cache = cache();
    assert_ne!(
        name(&cache.cached_binary_path("1.0.0")),
        name(&cache.cached_binary_path("1.0.1"))
    );
    assert_ne!(
        name(&cache.meta_path("1.0.0")),
        name(&cache.meta_path("1.0.1"))
    );
    // The one way in which a binary and a metadata file can share a name.
    assert_eq!(
        name(&cache.cached_binary_path("1.0.0.meta.json")),
        name(&cache.meta_path("1.0.0"))
    );
}

#[test]
fn store_keeps_its_order() {
    let cache = cache();
    let mut p = progress();
    assert!(matches!(cache.store("1", &p), Ok(StoreAction::Hash)));
    p.hashed = Some(sha256_file(&content(b"x")));
    assert!(matches!(cache.store("1", &p), Ok(StoreAction::Copy)));
    p.copied = Some(Ok(()));
    assert!(matches!(cache.store("1", &p), Ok(StoreAction::ReadClock)));
    p.now = Some(Ok(9));
    assert!(matches!(
        cache.store("1", &p),
        Ok(StoreAction::Serialize(meta)) if meta.version == "1" && meta.cached_at_epoch_secs == 9
    ));
    p.serialized = Some(Ok("{}".to_string()));
    assert!(matches!(cache.store("1", &p), Ok(StoreAction::Write(text)) if text == "{}"));
    p.written = Some(Ok(()));
    assert!(matches!(cache.store("1", &p), Ok(StoreAction::Done)));
}

#[test]
fn store_copies_nothing_of_an_unreadable_binary() {
    let cache = cache();
    let mut p = progress();
    p.hashed = Some(sha256_file(&FileRead::OpenFailed("no such file".to_string())));
    assert!(matches!(cache.store("1", &p), Err(Error::Io(e)) if e == "no such file"));
    // Whatever else is claimed, the failure stands.
    p.copied = Some(Ok(()));
    p.now = Some(Ok(1));
    assert!(matches!(cache.store("1", &p), Err(Error::Io(_))));
    p.hashed = Some(sha256_file(&FileRead::ReadFailed("short".to_string())));
    assert!(matches!(
        cache.store("1", &p),
        Err(Error::Upgrade(e)) if e == "Failed to read file for hashing: short"
    ));
}

#[test]
fn store_reports_the_first_failure() {
    let cache = cache();
    let mut p = progress();
    p.hashed = Some(sha256_file(&content(b"x")));
    p.copied = Some(Err("disk full".to_string()));
    p.now = Some(Err("unread".to_string()));
    assert!(matches!(cache.store("1", &p), Err(Error::Io(e)) if e == "disk full"));
    p.copied = Some(Ok(()));
    p.now = Some(Err("second time provided was later than self".to_string()));
    assert!(matches!(
        cache.store("1", &p),
        Err(Error::Upgrade(e))
            if e == "System clock error: second time provided was later than self"
    ));
    p.now = Some(Ok(1));
    p.serialized = Some(Err("bad".to_string()));
    assert!(matches!(
        cache.store("1", &p),
        Err(Error::Upgrade(e)) if e == "Failed to serialize binary cache meta: bad"
    ));
    p.serialized = Some(Ok("{}".to_string()));
    p.written = Some(Err("read-only".to_string()));
    assert!(matches!(cache.store("1", &p), Err(Error::Io(e)) if e == "read-only"));
}

#[test]
fn lock_phases_run_the_work_once_and_release() {
    for work in [Ok(()), Err("work failed".to_string())] {
        let mut phase = LockPhase::Create;
        let mut seen = vec![phase];
        while phase != LockPhase::Done {
            let outcome = if phase == LockPhase::Run {
                work.clone()
            } else {
                Ok(())
            };
            phase = BinaryCache::download_lock_step(phase, &outcome).unwrap();
            seen.push(phase);
        }
        assert_eq!(
            seen,
            vec![
                LockPhase::Create,
                LockPhase::Acquire,
                LockPhase::Run,
                LockPhase::Release,
                LockPhase::Done,
            ]
        );
    }
}

#[test]
fn lock_failures_stop_before_the_work() {
    let r = BinaryCache::download_lock_step(LockPhase::Create, &Err("denied".to_string()));
    assert!(
        matches!(r, Err(Error::Upgrade(e)) if e == "Failed to create download lock: denied")
    );
    let r = BinaryCache::download_lock_step(LockPhase::Acquire, &Err("busy".to_string()));
    assert!(
        matches!(r, Err(Error::Upgrade(e)) if e == "Failed to acquire download lock: busy")
    );
}

#[test]
fn work_runs_only_under_the_lock() {
    let cache = cache();
    let mut ran = 0;
    let r: Result<u32, Error> = cache.with_download_lock(Ok(()), Ok(()), || {
        ran += 1;
        Ok(7)
    });
    assert_eq!(r.unwrap(), 7);
    assert_eq!(ran, 1);

    let r: Result<u32, Error> =
        cache.with_download_lock(Err("denied".to_string()), Ok(()), || panic!("not locked"));
    assert!(
        matches!(r, Err(Error::Upgrade(e)) if e == "Failed to create download lock: denied")
    );

    let r: Result<u32, Error> =
        cache.with_download_lock(Ok(()), Err("busy".to_string()), || panic!("not locked"));
    assert!(
        matches!(r, Err(Error::Upgrade(e)) if e == "Failed to acquire download lock: busy")
    );

    let r: Result<u32, Error> = cache.with_download_lock(Ok(()), Ok(()), || {
        Err(Error::Upgrade("download failed".to_string()))
    });
    assert!(matches!(r, Err(Error::Upgrade(e)) if e == "download failed"));
}
