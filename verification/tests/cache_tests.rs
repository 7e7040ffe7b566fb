use ajour_core::cache::AddonCache;
use ajour_core::cache::AddonCacheEntry;
use ajour_core::cache::FingerprintCache;
use ajour_core::config::Flavor;
use ajour_core::repository::GitKind;
use ajour_core::repository::RepositoryKind;

fn entry(kind: RepositoryKind, id: &str, title: &str, folders: &[&str]) -> AddonCacheEntry {
    AddonCacheEntry {
        repository_kind: kind,
        repository_id: id.to_string(),
        title: title.to_string(),
        folder_names: folders.iter().map(|f| f.to_string()).collect(),
    }
}

#[test]
fn fingerprint_cache_get_after_put() {
    let mut cache = FingerprintCache::new();
    assert!(cache.get(Flavor::Retail, "AddonX").is_none());

    cache.put(Flavor::Retail, "AddonX".to_string(), 0xDEAD, 100);
    assert_eq!(cache.get(Flavor::Retail, "AddonX"), Some(0xDEAD));
    // Another flavor is another key.
    assert!(cache.get(Flavor::Classic, "AddonX").is_none());

    // A second put for the same key replaces the value.
    cache.put(Flavor::Retail, "AddonX".to_string(), 0xBEEF, 200);
    assert_eq!(cache.get(Flavor::Retail, "AddonX"), Some(0xBEEF));
}

#[test]
fn fingerprint_cache_remove_stale() {
    let mut cache = FingerprintCache::new();
    cache.put(Flavor::Retail, "AddonX".to_string(), 1, 10);
    cache.put(Flavor::Retail, "Gone".to_string(), 2, 10);
    cache.put(Flavor::Classic, "Gone".to_string(), 3, 10);

    let known = vec!["AddonX".to_string()];
    cache.remove_stale(Flavor::Retail, &known);

    assert_eq!(cache.get(Flavor::Retail, "AddonX"), Some(1));
    assert!(cache.get(Flavor::Retail, "Gone").is_none());
    // Entries of other flavors are untouched.
    assert_eq!(cache.get(Flavor::Classic, "Gone"), Some(3));
}

#[test]
fn addon_cache_upsert_then_lookup() {
    let mut cache = AddonCache::new();
    let key_kind = RepositoryKind::Tukui;

    cache.upsert(
        Flavor::Retail,
        entry(key_kind, "42", "Addon X", &["AddonX", "AddonX_Options"]),
    );
    let found = cache.lookup(Flavor::Retail, key_kind, "42").unwrap();
    assert_eq!(found.title, "Addon X");
    assert_eq!(found.folder_names, vec!["AddonX".to_string(), "AddonX_Options".to_string()]);

    // A second upsert with a different folder set fully replaces the
    // prior entry, nothing is merged.
    cache.upsert(Flavor::Retail, entry(key_kind, "42", "Addon X", &["AddonX"]));
    let found = cache.lookup(Flavor::Retail, key_kind, "42").unwrap();
    assert_eq!(found.folder_names, vec!["AddonX".to_string()]);
}

#[test]
fn addon_cache_keys_are_full_triples() {
    let mut cache = AddonCache::new();
    cache.upsert(Flavor::Retail, entry(RepositoryKind::Tukui, "42", "A", &["A"]));

    assert!(cache.lookup(Flavor::Classic, RepositoryKind::Tukui, "42").is_none());
    assert!(cache.lookup(Flavor::Retail, RepositoryKind::WowI, "42").is_none());
    assert!(cache.lookup(Flavor::Retail, RepositoryKind::Tukui, "43").is_none());
    assert!(cache
        .lookup(Flavor::Retail, RepositoryKind::Git(GitKind::Github), "42")
        .is_none());
    assert!(cache.lookup(Flavor::Retail, RepositoryKind::Tukui, "42").is_some());
}

#[test]
fn addon_cache_remove() {
    let mut cache = AddonCache::new();
    cache.upsert(Flavor::Retail, entry(RepositoryKind::WowI, "7", "A", &["A"]));
    cache.remove(Flavor::Retail, RepositoryKind::WowI, "7");
    assert!(cache.lookup(Flavor::Retail, RepositoryKind::WowI, "7").is_none());
    // Removing an absent key changes nothing.
    cache.remove(Flavor::Retail, RepositoryKind::WowI, "7");
    assert!(cache.lookup(Flavor::Retail, RepositoryKind::WowI, "7").is_none());
}

#[test]
fn resolution_reuses_cached_identity() {
    // A cached identity for repository kind Tukui under remote id "42",
    // previously tied to folders {AddonX, AddonX_Options}.
    let mut cache = AddonCache::new();
    cache.upsert(
        Flavor::Retail,
        entry(RepositoryKind::Tukui, "42", "Addon X", &["AddonX", "AddonX_Options"]),
    );

    // The folder set now found on disk is the same: resolution reuses the
    // cached entry, so no transport lookup is needed.
    let on_disk = vec!["AddonX".to_string(), "AddonX_Options".to_string()];
    let resolved = cache.resolve_from_folder_names(Flavor::Retail, &on_disk).unwrap();
    assert_eq!(resolved.repository_kind, RepositoryKind::Tukui);
    assert_eq!(resolved.repository_id, "42");
    assert_eq!(resolved.title, "Addon X");

    // A different folder set finds nothing: the caller must go to the
    // repository.
    let other = vec!["AddonY".to_string()];
    assert!(cache.resolve_from_folder_names(Flavor::Retail, &other).is_none());
    // The same folders under another flavor find nothing either.
    assert!(cache.resolve_from_folder_names(Flavor::Classic, &on_disk).is_none());
}
