use ajour_core::addon::post_install_cache_action;
use ajour_core::addon::Addon;
use ajour_core::addon::AddonFolder;
use ajour_core::addon::AddonState;
use ajour_core::addon::CacheAction;
use ajour_core::config::Flavor;
use ajour_core::error::ErrorKind;
use ajour_core::repository::GitKind;
use ajour_core::repository::GlobalReleaseChannel;
use ajour_core::repository::ReleaseChannel;
use ajour_core::repository::RemoteRelease;
use ajour_core::repository::RepositoryKind;
use ajour_core::repository::RepositoryPackage;

fn folder(id: &str, version: Option<&str>, interface: Option<&str>) -> AddonFolder {
    AddonFolder {
        id: id.to_string(),
        title: format!("{} title", id),
        author: None,
        version: version.map(|v| v.to_string()),
        interface: interface.map(|i| i.to_string()),
        dependencies: Vec::new(),
    }
}

fn release(version: &str, channel: ReleaseChannel, file_id: Option<u64>) -> RemoteRelease {
    RemoteRelease {
        version: version.to_string(),
        channel,
        file_id,
        download_url: format!("https://example.invalid/{}", version),
        date_released: Some(1_600_000_000),
    }
}

fn package_with(releases: Vec<RemoteRelease>) -> RepositoryPackage {
    let mut package =
        RepositoryPackage::from_repo_id(Flavor::Retail, RepositoryKind::Tukui, "42".to_string())
            .unwrap();
    package.set_latest_releases(releases);
    package
}

fn addon_with(version: Option<&str>) -> Addon {
    Addon::new(
        "AddonX".to_string(),
        vec![folder("AddonX", version, Some("90001")), folder("AddonX_Options", None, None)],
    )
    .unwrap()
}

#[test]
fn addon_requires_primary_among_folders() {
    let err = Addon::new("Missing".to_string(), vec![folder("AddonX", None, None)]).unwrap_err();
    assert_eq!(err.kind, ErrorKind::Parse);

    let err = Addon::new("AddonX".to_string(), Vec::new()).unwrap_err();
    assert_eq!(err.kind, ErrorKind::Parse);

    let addon = addon_with(Some("1.2.3"));
    assert_eq!(addon.title(), "AddonX title");
    assert_eq!(addon.version(), Some(&"1.2.3".to_string()));
    assert_eq!(addon.game_version(), Some("9.0.1".to_string()));
}

#[test]
fn update_decision_full_cycle() {
    let mut addon = addon_with(Some("4.10.15"));
    assert_eq!(addon.state, AddonState::Idle);

    // A newer stable release arrives.
    let package = package_with(vec![
        release("4.10.16", ReleaseChannel::Stable, Some(1001)),
        release("4.10.15", ReleaseChannel::Stable, Some(1000)),
    ]);
    addon.set_repository(package);
    addon.evaluate_update_state(GlobalReleaseChannel::Stable);
    assert_eq!(addon.state, AddonState::Updatable);

    // Download, unpack, fingerprint, complete, and settle on rescan.
    addon.start_download();
    assert_eq!(addon.state, AddonState::Downloading);
    addon.on_download_result(true);
    assert_eq!(addon.state, AddonState::Unpacking);
    addon.on_unpack_result(true);
    assert_eq!(addon.state, AddonState::Fingerprint);
    addon.on_fingerprint_result(true, String::new());
    assert_eq!(addon.state, AddonState::Completed);
    addon.on_rescan();
    assert_eq!(addon.state, AddonState::Idle);
}

#[test]
fn update_decision_same_version_is_idle() {
    let mut addon = addon_with(Some("Rematch_4_10_15"));
    // The installed "Rematch_4_10_15" and the remote "4.10.15" strip to the
    // same digits: not updatable.
    let package = package_with(vec![release("4.10.15", ReleaseChannel::Stable, None)]);
    addon.set_repository(package);
    addon.evaluate_update_state(GlobalReleaseChannel::Stable);
    assert_eq!(addon.state, AddonState::Idle);
}

#[test]
fn update_decision_without_version_is_idle() {
    let mut addon = addon_with(None);
    let package = package_with(vec![release("4.10.16", ReleaseChannel::Stable, None)]);
    addon.set_repository(package);
    addon.evaluate_update_state(GlobalReleaseChannel::Stable);
    assert_eq!(addon.state, AddonState::Idle);
}

#[test]
fn failure_states() {
    let mut addon = addon_with(Some("1"));
    addon.set_repository(package_with(vec![release("2", ReleaseChannel::Stable, None)]));
    addon.evaluate_update_state(GlobalReleaseChannel::Stable);

    addon.start_download();
    addon.on_download_result(false);
    assert_eq!(addon.state, AddonState::Retry);
    // A retry is allowed to download again.
    addon.start_download();
    addon.on_download_result(true);
    addon.on_unpack_result(false);
    assert_eq!(addon.state, AddonState::Retry);

    addon.start_download();
    addon.on_download_result(true);
    addon.on_unpack_result(true);
    addon.on_fingerprint_result(false, "fingerprint failed".to_string());
    assert_eq!(addon.state, AddonState::Error("fingerprint failed".to_string()));
}

#[test]
fn ignore_and_unignore() {
    let mut addon = addon_with(Some("1"));
    addon.set_repository(package_with(vec![release("2", ReleaseChannel::Stable, None)]));
    addon.evaluate_update_state(GlobalReleaseChannel::Stable);
    assert_eq!(addon.state, AddonState::Updatable);

    addon.ignore();
    assert_eq!(addon.state, AddonState::Ignored);
    addon.unignore(GlobalReleaseChannel::Stable);
    assert_eq!(addon.state, AddonState::Updatable);

    // Without a package, unignoring leaves the state alone until the next
    // refresh resolves the add-on.
    let mut bare = addon_with(Some("1"));
    bare.ignore();
    bare.unignore(GlobalReleaseChannel::Stable);
    assert_eq!(bare.state, AddonState::Ignored);
}

#[test]
fn relevant_release_respects_channels() {
    let mut addon = addon_with(Some("1.0.0"));
    addon.set_repository(package_with(vec![
        release("2.0.0-beta", ReleaseChannel::Beta, None),
        release("1.9.0", ReleaseChannel::Stable, None),
        release("1.8.0", ReleaseChannel::Stable, None),
    ]));

    // The default preference resolves through the global channel.
    let rel = addon.relevant_release_package(GlobalReleaseChannel::Stable).unwrap();
    assert_eq!(rel.version, "1.9.0");
    let rel = addon.relevant_release_package(GlobalReleaseChannel::Beta).unwrap();
    assert_eq!(rel.version, "2.0.0-beta");
    // No alpha release exists.
    assert!(addon.relevant_release_package(GlobalReleaseChannel::Alpha).is_none());

    // A pinned preference wins over the global one.
    addon.release_channel = ReleaseChannel::Beta;
    let rel = addon.relevant_release_package(GlobalReleaseChannel::Stable).unwrap();
    assert_eq!(rel.version, "2.0.0-beta");
}

#[test]
fn refresh_preserves_installed_file_id() {
    let mut addon = addon_with(Some("1.0.0"));
    addon.set_repository(package_with(vec![release("1.0.0", ReleaseChannel::Stable, Some(10))]));
    // Fingerprint matching learned exactly which file is installed.
    addon.set_file_id(77);

    // A broad refresh replaces the known releases wholesale...
    match addon.repository.as_mut() {
        Some(package) => package.set_latest_releases(vec![release(
            "1.1.0",
            ReleaseChannel::Stable,
            Some(11),
        )]),
        None => unreachable!(),
    }

    // ...but is not authoritative about the installed file.
    let package = addon.repository.as_ref().unwrap();
    assert_eq!(package.installed_file_id, Some(77));
    assert_eq!(package.releases.len(), 1);
    assert_eq!(package.releases[0].version, "1.1.0");
    assert_eq!(package.remote_id, "42");
}

#[test]
fn folders_update_keeps_or_replaces_primary() {
    let mut addon = addon_with(Some("1"));
    addon.update_addon_folders(vec![folder("AddonX", Some("2"), None), folder("New", None, None)]);
    assert_eq!(addon.primary_folder_id, "AddonX");

    addon.update_addon_folders(vec![folder("Other", None, None)]);
    assert_eq!(addon.primary_folder_id, "Other");

    addon.set_version("3.0".to_string());
    assert_eq!(addon.version(), Some(&"3.0".to_string()));
}

#[test]
fn cache_entry_carries_identity() {
    let mut addon = addon_with(Some("1"));
    assert!(addon.cache_entry().is_none());

    addon.set_repository(package_with(Vec::new()));
    let entry = addon.cache_entry().unwrap();
    assert_eq!(entry.repository_kind, RepositoryKind::Tukui);
    assert_eq!(entry.repository_id, "42");
    assert_eq!(entry.title, "AddonX title");
    assert_eq!(
        entry.folder_names,
        vec!["AddonX".to_string(), "AddonX_Options".to_string()]
    );
}

#[test]
fn cache_action_per_source() {
    assert_eq!(post_install_cache_action(RepositoryKind::Curse), CacheAction::RemoveEntry);
    assert_eq!(post_install_cache_action(RepositoryKind::Tukui), CacheAction::UpdateEntry);
    assert_eq!(post_install_cache_action(RepositoryKind::WowI), CacheAction::UpdateEntry);
    assert_eq!(post_install_cache_action(RepositoryKind::Hub), CacheAction::UpdateEntry);
    assert_eq!(
        post_install_cache_action(RepositoryKind::Git(GitKind::Github)),
        CacheAction::UpdateEntry
    );
}
