//! The add-on entity: a group of folders under one primary folder, an
//! optionally attached repository package, a release-channel preference,
//! and the lifecycle state machine that the orchestrator drives between
//! its I/O steps.  All transitions here are pure and synchronous; the
//! downloading, unpacking and fingerprinting themselves happen outside.

use vstd::prelude::*;
use crate::cache::AddonCacheEntry;
use crate::error::Error;
use crate::error::ErrorKind;
use crate::repository::GlobalReleaseChannel;
use crate::repository::ReleaseChannel;
use crate::repository::RemoteRelease;
use crate::repository::RepositoryKind;
use crate::repository::RepositoryPackage;
use crate::repository::spec_effective_channel;
use crate::repository::spec_first_match;
use crate::strings::str_eq;
use crate::utility::spec_versions_differ;
use crate::utility::versions_differ;

verus! {

/// One directory under the game's add-on root, with the metadata parsed
/// from its manifest by the directory-scan collaborator.
#[derive(Debug)]
pub struct AddonFolder {
    /// The folder's name: its identity within a flavor's add-on directory.
    pub id: String,
    /// The add-on title the manifest declares.
    pub title: String,
    /// The author the manifest declares, if any.
    pub author: Option<String>,
    /// The version string the manifest declares, if any.
    pub version: Option<String>,
    /// The game-version-interface string the manifest declares, if any.
    pub interface: Option<String>,
    /// Folder names the manifest declares as related or depended upon.
    pub dependencies: Vec<String>,
}

/// The lifecycle of an add-on between refresh cycles.  `Idle` and
/// `Updatable` are the stable states; `Completed` returns to `Idle` on the
/// next scan; `Ignored` is entered and left only by explicit user action;
/// `Retry` and `Error` are where the pipeline stages land on failure.
#[derive(Debug, Clone, PartialEq)]
pub enum AddonState {
    Idle,
    Updatable,
    Downloading,
    Unpacking,
    Fingerprint,
    Completed,
    Ignored,
    Retry,
    Error(String),
}

/// The position of the first folder named `id`, if any.
pub open spec fn spec_folder_index(folders: Seq<AddonFolder>, id: Seq<char>) -> Option<int>
    decreases folders.len(),
{
    if folders.len() == 0 {
        None
    } else if folders[0].id@ == id {
        Some(0)
    } else {
        match spec_folder_index(folders.drop_first(), id) {
            Some(i) => Some(i + 1),
            None => None,
        }
    }
}

/// The names of a run of folders.
pub open spec fn spec_folder_ids(folders: Seq<AddonFolder>) -> Seq<Seq<char>> {
    folders.map_values(|f: AddonFolder| f.id@)
}

/// The unit the engine reasons about: an ordered set of constituent
/// folders, the folder whose manifest is authoritative, an optional
/// attached repository package, and the user's channel preference.
#[derive(Debug)]
pub struct Addon {
    /// The name of the folder whose manifest is authoritative.
    pub primary_folder_id: String,
    /// The constituent folders.  Never empty.
    pub folders: Vec<AddonFolder>,
    /// The repository package attached to this add-on, if resolved.
    /// Replaced wholesale on each refresh, never mutated field by field.
    pub repository: Option<RepositoryPackage>,
    /// The user's release-channel preference for this add-on.
    pub release_channel: ReleaseChannel,
    /// Where the add-on stands in its lifecycle.
    pub state: AddonState,
    /// Match quality under the current catalog search, for ranking only;
    /// never persisted.
    pub fuzzy_score: Option<i64>,
}

impl Addon {
    /// The entity's invariant: there is at least one folder, and the
    /// primary folder identifier names one of them.
    pub open spec fn wf(&self) -> bool {
        &&& self.folders@.len() > 0
        &&& spec_folder_index(self.folders@, self.primary_folder_id@) is Some
    }

    /// The position of the primary folder.
    pub open spec fn spec_primary(&self) -> int {
        spec_folder_index(self.folders@, self.primary_folder_id@)->Some_0
    }

    /// Builds an add-on from its folders.  An add-on with no folders, or
    /// whose primary identifier names none of them, is invalid and is
    /// refused as a parse error.
    pub fn new(primary_folder_id: String, folders: Vec<AddonFolder>) -> (r: Result<Addon, Error>)
        ensures
            match spec_folder_index(folders@, primary_folder_id@) {
                Some(_) => (r matches Ok(a) && a.wf() && a.primary_folder_id@ == primary_folder_id@
                    && a.folders@ == folders@ && a.repository is None && a.release_channel
                    == ReleaseChannel::Default && a.state == AddonState::Idle && a.fuzzy_score
                    is None),
                None => (r matches Err(e) && e.kind == ErrorKind::Parse),
            },
    {
        match folder_index(&folders, primary_folder_id.as_str()) {
            Some(_) => Ok(
                Addon {
                    primary_folder_id,
                    folders,
                    repository: None,
                    release_channel: ReleaseChannel::Default,
                    state: AddonState::Idle,
                    fuzzy_score: None,
                },
            ),
            None => Err(
                Error::new(ErrorKind::Parse, "primary folder is not among the folders".to_owned()),
            ),
        }
    }

    /// The folder whose manifest is authoritative.
    pub fn primary_folder(&self) -> (r: &AddonFolder)
        requires
            self.wf(),
        ensures
            *r == self.folders@[self.spec_primary()],
    {
        let i = folder_index(&self.folders, self.primary_folder_id.as_str()).unwrap();
        proof {
            assert(spec_folder_index(self.folders@, self.primary_folder_id@) == Some(i as int));
            assert(self.spec_primary() == i as int);
        }
        &self.folders[i]
    }

    /// The add-on's title: its primary folder's.
    pub fn title(&self) -> (r: &String)
        requires
            self.wf(),
        ensures
            r@ == self.folders@[self.spec_primary()].title@,
    {
        &self.primary_folder().title
    }

    /// The installed version string, when the primary manifest has one.
    pub fn version(&self) -> (r: Option<&String>)
        requires
            self.wf(),
        ensures
            match self.folders@[self.spec_primary()].version {
                Some(v) => r matches Some(x) && *x == v,
                None => r is None,
            },
    {
        self.primary_folder().version.as_ref()
    }

    /// The add-on can be updated to `release`: its installed version and
    /// the release's version name different versions under the digit-strip
    /// comparison.  An add-on with no installed version string never counts
    /// as updatable.
    pub fn is_updatable(&self, release: &RemoteRelease) -> (r: bool)
        requires
            self.wf(),
        ensures
            r == spec_is_updatable(*self, *release),
    {
        match self.version() {
            Some(v) => versions_differ(v.as_str(), release.version.as_str()),
            None => false,
        }
    }

    /// The release that the add-on's preference selects from its attached
    /// package, if it has a package and the effective channel offers one.
    pub fn relevant_release_package(&self, global: GlobalReleaseChannel) -> (r: Option<
        &RemoteRelease,
    >)
        ensures
            match spec_relevant_release(*self, global) {
                Some(rel) => r matches Some(x) && *x == rel,
                None => r is None,
            },
    {
        match &self.repository {
            Some(package) => package.relevant_release(self.release_channel, global),
            None => None,
        }
    }

    /// Attaches a freshly resolved repository package, replacing any prior
    /// one wholesale.
    pub fn set_repository(&mut self, package: RepositoryPackage)
        ensures
            final(self).repository == Some(package),
            unchanged_but_repository(*old(self), *final(self)),
    {
        self.repository = Some(package);
    }

    /// Re-evaluates the stable states after a package was (re)attached or
    /// the channel preference changed: with a relevant release the add-on
    /// is `Updatable` exactly when the version comparison says so, and
    /// `Idle` otherwise; with no relevant release the state stays.
    pub fn evaluate_update_state(&mut self, global: GlobalReleaseChannel)
        requires
            old(self).wf(),
            old(self).state is Idle || old(self).state is Updatable,
        ensures
            final(self).wf(),
            final(self).state == spec_evaluated_state(*old(self), global),
            unchanged_but_state(*old(self), *final(self)),
    {
        let decision: Option<bool> = match self.relevant_release_package(global) {
            Some(release) => Some(self.is_updatable(release)),
            None => None,
        };
        match decision {
            Some(true) => {
                self.state = AddonState::Updatable;
            },
            Some(false) => {
                self.state = AddonState::Idle;
            },
            None => {},
        }
    }

    /// Pins the add-on to a release channel (or back to deferring to the
    /// global preference).  The caller re-evaluates the update decision
    /// afterwards.
    pub fn set_release_channel(&mut self, channel: ReleaseChannel)
        ensures
            final(self).release_channel == channel,
            final(self).primary_folder_id == old(self).primary_folder_id,
            final(self).folders@ == old(self).folders@,
            final(self).repository == old(self).repository,
            final(self).state == old(self).state,
            final(self).fuzzy_score == old(self).fuzzy_score,
    {
        self.release_channel = channel;
    }

    /// The user ignores the add-on: no update decision is made for it
    /// until it is unignored.
    pub fn ignore(&mut self)
        requires
            old(self).state is Idle || old(self).state is Updatable,
        ensures
            final(self).state == AddonState::Ignored,
            unchanged_but_state(*old(self), *final(self)),
    {
        self.state = AddonState::Ignored;
    }

    /// The user takes the add-on out of `Ignored`: with a relevant release
    /// it returns to `Updatable` or `Idle` by the version comparison; with
    /// none, nothing changes until the next refresh resolves it.
    pub fn unignore(&mut self, global: GlobalReleaseChannel)
        requires
            old(self).wf(),
            old(self).state is Ignored,
        ensures
            final(self).wf(),
            final(self).state == spec_evaluated_state(*old(self), global),
            unchanged_but_state(*old(self), *final(self)),
    {
        let decision: Option<bool> = match self.relevant_release_package(global) {
            Some(release) => Some(self.is_updatable(release)),
            None => None,
        };
        match decision {
            Some(true) => {
                self.state = AddonState::Updatable;
            },
            Some(false) => {
                self.state = AddonState::Idle;
            },
            None => {},
        }
    }

    /// The update begins: the add-on's archive starts downloading.
    pub fn start_download(&mut self)
        requires
            old(self).state is Updatable || old(self).state is Retry,
        ensures
            final(self).state == AddonState::Downloading,
            unchanged_but_state(*old(self), *final(self)),
    {
        self.state = AddonState::Downloading;
    }

    /// The download finished or failed: on success the archive is next
    /// unpacked, on failure the add-on waits for a retry.
    pub fn on_download_result(&mut self, ok: bool)
        requires
            old(self).state is Downloading,
        ensures
            ok ==> final(self).state == AddonState::Unpacking,
            !ok ==> final(self).state == AddonState::Retry,
            unchanged_but_state(*old(self), *final(self)),
    {
        if ok {
            self.state = AddonState::Unpacking;
        } else {
            self.state = AddonState::Retry;
        }
    }

    /// The unpack finished or failed: on success the new folders must be
    /// fingerprinted, on failure the add-on waits for a retry.
    pub fn on_unpack_result(&mut self, ok: bool)
        requires
            old(self).state is Unpacking,
        ensures
            ok ==> final(self).state == AddonState::Fingerprint,
            !ok ==> final(self).state == AddonState::Retry,
            unchanged_but_state(*old(self), *final(self)),
    {
        if ok {
            self.state = AddonState::Fingerprint;
        } else {
            self.state = AddonState::Retry;
        }
    }

    /// The fingerprinting finished or failed: on success the update is
    /// complete, on failure the add-on lands in `Error` with the cause.
    pub fn on_fingerprint_result(&mut self, ok: bool, failure_reason: String)
        requires
            old(self).state is Fingerprint,
        ensures
            ok ==> final(self).state == AddonState::Completed,
            !ok ==> final(self).state == AddonState::Error(failure_reason),
            unchanged_but_state(*old(self), *final(self)),
    {
        if ok {
            self.state = AddonState::Completed;
        } else {
            self.state = AddonState::Error(failure_reason);
        }
    }

    /// A new scan begins: a completed update settles back to `Idle`.
    pub fn on_rescan(&mut self)
        requires
            old(self).state is Completed,
        ensures
            final(self).state == AddonState::Idle,
            unchanged_but_state(*old(self), *final(self)),
    {
        self.state = AddonState::Idle;
    }

    /// Replaces the constituent folders with the ones just installed.  The
    /// primary identifier is kept when it still names one of them, else
    /// the first new folder becomes primary, so the invariant holds.
    pub fn update_addon_folders(&mut self, folders: Vec<AddonFolder>)
        requires
            folders@.len() > 0,
        ensures
            final(self).wf(),
            final(self).folders@ == folders@,
            match spec_folder_index(folders@, old(self).primary_folder_id@) {
                Some(_) => final(self).primary_folder_id@ == old(self).primary_folder_id@,
                None => final(self).primary_folder_id@ == folders@[0].id@,
            },
            final(self).repository == old(self).repository,
            final(self).release_channel == old(self).release_channel,
            final(self).state == old(self).state,
            final(self).fuzzy_score == old(self).fuzzy_score,
    {
        match folder_index(&folders, self.primary_folder_id.as_str()) {
            Some(_) => {},
            None => {
                self.primary_folder_id = folders[0].id.clone();
            },
        }
        self.folders = folders;
    }

    /// Records the version of the build just installed on the primary
    /// folder's manifest metadata.
    pub fn set_version(&mut self, version: String)
        requires
            old(self).wf(),
        ensures
            final(self).wf(),
            final(self).folders@.len() == old(self).folders@.len(),
            final(self).spec_primary() == old(self).spec_primary(),
            final(self).folders@[final(self).spec_primary()].version == Some(version),
            final(self).folders@[final(self).spec_primary()].id@ == old(self).folders@[old(
                self,
            ).spec_primary()].id@,
            final(self).primary_folder_id == old(self).primary_folder_id,
            final(self).repository == old(self).repository,
            final(self).release_channel == old(self).release_channel,
            final(self).state == old(self).state,
    {
        let ghost before = self.folders@;
        let i = folder_index(&self.folders, self.primary_folder_id.as_str()).unwrap();
        proof {
            assert(spec_folder_index(before, self.primary_folder_id@) == Some(i as int));
        }
        let folder = &mut self.folders[i];
        folder.version = Some(version);
        proof {
            assert(self.folders@ =~= before.update(i as int, self.folders@[i as int]));
            assert(self.folders@[i as int].id@ == before[i as int].id@);
            assert(self.folders@[i as int].version == Some(version));
            assert forall|m: int| 0 <= m < before.len() implies #[trigger] before[m].id@
                == self.folders@[m].id@ by {
                if m != i {
                    assert(self.folders@[m] == before[m]);
                }
            }
            lemma_folder_index_same_ids(before, self.folders@, self.primary_folder_id@);
            assert(self.spec_primary() == i as int);
        }
    }

    /// Records on the attached package which file the installed build
    /// corresponds to.
    pub fn set_file_id(&mut self, file_id: u64)
        requires
            old(self).repository is Some,
        ensures
            match (old(self).repository, final(self).repository) {
                (Some(p0), Some(p1)) => p1 == (RepositoryPackage {
                    installed_file_id: Some(file_id),
                    ..p0
                }),
                _ => false,
            },
            final(self).primary_folder_id == old(self).primary_folder_id,
            final(self).folders@ == old(self).folders@,
            final(self).release_channel == old(self).release_channel,
            final(self).state == old(self).state,
            final(self).fuzzy_score == old(self).fuzzy_score,
    {
        match &mut self.repository {
            Some(package) => {
                package.set_installed_file_id(file_id);
            },
            None => {},
        }
    }

    /// The game version the primary manifest targets, formatted from its
    /// five-digit interface number; a malformed interface string is shown
    /// as it is.
    pub fn game_version(&self) -> (r: Option<String>)
        requires
            self.wf(),
        ensures
            match self.folders@[self.spec_primary()].interface {
                Some(s) => {
                    &&& r matches Some(g)
                    &&& crate::utility::spec_interface_well_formed(s@) ==> g@
                        == crate::utility::spec_game_version(s@)
                    &&& !crate::utility::spec_interface_well_formed(s@) ==> g@ == s@
                },
                None => r is None,
            },
    {
        match self.primary_folder().interface.as_ref() {
            Some(interface) => Some(
                crate::utility::format_interface_into_game_version(interface.as_str()),
            ),
            None => None,
        }
    }

    /// The source this add-on resolves against, if a package is attached.
    pub fn repository_kind(&self) -> (r: Option<RepositoryKind>)
        ensures
            match self.repository {
                Some(p) => r == Some(p.kind),
                None => r is None,
            },
    {
        match &self.repository {
            Some(p) => Some(p.kind),
            None => None,
        }
    }

    /// The identity-cache entry this add-on would occupy: its source key,
    /// its title and its folder names.  `None` without an attached package,
    /// since there is then no source key to file it under.
    pub fn cache_entry(&self) -> (r: Option<AddonCacheEntry>)
        requires
            self.wf(),
        ensures
            match self.repository {
                Some(p) => (r matches Some(e) && e.repository_kind == p.kind && e.repository_id@
                    == p.remote_id@ && e.title@ == self.folders@[self.spec_primary()].title@
                    && e.folder_names@.map_values(|s: String| s@) == spec_folder_ids(
                    self.folders@,
                )),
                None => r is None,
            },
    {
        match &self.repository {
            Some(package) => {
                let mut folder_names: Vec<String> = Vec::new();
                let n = self.folders.len();
                let mut i: usize = 0;
                while i < n
                    invariant
                        i <= n == self.folders@.len(),
                        folder_names@.len() == i,
                        forall|m: int|
                            0 <= m < i ==> #[trigger] folder_names@[m] == self.folders@[m].id,
                    decreases n - i,
                {
                    folder_names.push(self.folders[i].id.clone());
                    i = i + 1;
                }
                proof {
                    assert(folder_names@.map_values(|s: String| s@) =~= spec_folder_ids(
                        self.folders@,
                    ));
                }
                let title = self.primary_folder().title.clone();
                Some(
                    AddonCacheEntry {
                        repository_kind: package.kind,
                        repository_id: package.remote_id.clone(),
                        title,
                        folder_names,
                    },
                )
            },
            None => None,
        }
    }
}

/// What an install or update does to the identity cache for a source.
#[derive(Clone, Copy, Debug, PartialEq, Eq, Structural)]
pub enum CacheAction {
    /// Write the entry: the source's identity is an opaque id worth
    /// remembering.
    UpdateEntry,
    /// Drop any entry: the source is content-addressed, so identity is
    /// re-derived from fingerprints every time.
    RemoveEntry,
}

/// After an install or update from `kind`, the identity cache is updated
/// for sources with opaque identifiers and purged for content-addressed
/// ones.
pub fn post_install_cache_action(kind: RepositoryKind) -> (r: CacheAction)
    ensures
        kind is Curse ==> r == CacheAction::RemoveEntry,
        !(kind is Curse) ==> r == CacheAction::UpdateEntry,
{
    if kind.is_content_addressed() {
        CacheAction::RemoveEntry
    } else {
        CacheAction::UpdateEntry
    }
}

/// The add-on would update to `release`.
pub open spec fn spec_is_updatable(a: Addon, release: RemoteRelease) -> bool {
    match a.folders@[a.spec_primary()].version {
        Some(v) => spec_versions_differ(v@, release.version@),
        None => false,
    }
}

/// The release the add-on's preference selects from its attached package.
pub open spec fn spec_relevant_release(a: Addon, global: GlobalReleaseChannel) -> Option<
    RemoteRelease,
> {
    match a.repository {
        Some(p) => match spec_first_match(
            p.releases@,
            spec_effective_channel(a.release_channel, global),
        ) {
            Some(i) => Some(p.releases@[i]),
            None => None,
        },
        None => None,
    }
}

/// The stable state the update decision settles on.
pub open spec fn spec_evaluated_state(a: Addon, global: GlobalReleaseChannel) -> AddonState {
    match spec_relevant_release(a, global) {
        Some(rel) => if spec_is_updatable(a, rel) {
            AddonState::Updatable
        } else {
            AddonState::Idle
        },
        None => a.state,
    }
}

/// Everything but the state is the same.
pub open spec fn unchanged_but_state(a: Addon, b: Addon) -> bool {
    &&& b.primary_folder_id == a.primary_folder_id
    &&& b.folders@ == a.folders@
    &&& b.repository == a.repository
    &&& b.release_channel == a.release_channel
    &&& b.fuzzy_score == a.fuzzy_score
}

/// Everything but the attached package is the same.
pub open spec fn unchanged_but_repository(a: Addon, b: Addon) -> bool {
    &&& b.primary_folder_id == a.primary_folder_id
    &&& b.folders@ == a.folders@
    &&& b.release_channel == a.release_channel
    &&& b.state == a.state
    &&& b.fuzzy_score == a.fuzzy_score
}

/// Finds the first folder named `id`.
fn folder_index(folders: &Vec<AddonFolder>, id: &str) -> (r: Option<usize>)
    ensures
        folders@.len() <= usize::MAX,
        match spec_folder_index(folders@, id@) {
            Some(i) => r == Some(i as usize) && 0 <= i < folders@.len(),
            None => r is None,
        },
{
    let n = folders.len();
    proof {
        assert(folders@.skip(0) =~= folders@);
    }
    let mut i: usize = 0;
    while i < n
        invariant
            i <= n == folders@.len(),
            spec_folder_index(folders@, id@) == match spec_folder_index(
                folders@.skip(i as int),
                id@,
            ) {
                Some(j) => Some(j + i),
                None => None::<int>,
            },
        decreases n - i,
    {
        proof {
            assert(folders@.skip(i as int)[0] == folders@[i as int]);
            assert(folders@.skip(i as int).drop_first() =~= folders@.skip(i + 1 as int));
        }
        if str_eq(folders[i].id.as_str(), id) {
            proof {
                assert(spec_folder_index(folders@.skip(i as int), id@) == Some(0int));
            }
            return Some(i);
        }
        i = i + 1;
    }
    proof {
        assert(folders@.skip(n as int) =~= Seq::<AddonFolder>::empty());
    }
    None
}

/// Two folder runs with the same names in the same places index the same.
proof fn lemma_folder_index_same_ids(a: Seq<AddonFolder>, b: Seq<AddonFolder>, id: Seq<char>)
    requires
        a.len() == b.len(),
        forall|i: int| 0 <= i < a.len() ==> #[trigger] a[i].id@ == b[i].id@,
    ensures
        spec_folder_index(a, id) == spec_folder_index(b, id),
    decreases a.len(),
{
    if a.len() > 0 {
        assert forall|i: int|
            0 <= i < a.drop_first().len() implies #[trigger] a.drop_first()[i].id@
            == b.drop_first()[i].id@ by {
            assert(a.drop_first()[i] == a[i + 1] && b.drop_first()[i] == b[i + 1]);
        }
        lemma_folder_index_same_ids(a.drop_first(), b.drop_first(), id);
    }
}

} // verus!
