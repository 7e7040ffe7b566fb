//! The repository package abstraction: one value standing for "this add-on,
//! as one of several remote sources knows it", whatever that source's
//! conventions for identifiers, release channels and version strings.

use vstd::prelude::*;
use crate::error::Error;
use crate::error::ErrorKind;
use crate::config::Flavor;
use crate::strings::spec_starts_with;
use crate::strings::str_starts_with;

verus! {

/// The closed set of remote sources.
#[derive(Clone, Copy, Debug, PartialEq, Eq, Structural, Hash)]
pub enum RepositoryKind {
    Curse,
    Tukui,
    WowI,
    Hub,
    Git(GitKind),
}

/// The git-hosting services an add-on can be installed from by URL.
#[derive(Clone, Copy, Debug, PartialEq, Eq, Structural, Hash)]
pub enum GitKind {
    Github,
    Gitlab,
}

impl RepositoryKind {
    /// Whether this source identifies add-ons purely by content
    /// fingerprint, so that its identity is re-derived from fingerprints
    /// every time rather than remembered in the add-on identity cache.
    pub fn is_content_addressed(&self) -> (r: bool)
        ensures
            r == (*self is Curse),
    {
        match self {
            RepositoryKind::Curse => true,
            _ => false,
        }
    }
}

/// A release channel an add-on can be pinned to.  `Default` defers to the
/// user's global preference.
#[derive(Clone, Copy, Debug, PartialEq, Eq, Structural, Hash)]
pub enum ReleaseChannel {
    Default,
    Stable,
    Beta,
    Alpha,
}

/// The user's global release-channel preference: what `Default` means.
#[derive(Clone, Copy, Debug, PartialEq, Eq, Structural, Hash)]
pub enum GlobalReleaseChannel {
    Stable,
    Beta,
    Alpha,
}

impl GlobalReleaseChannel {
    /// The concrete channel this global preference stands for.
    pub fn to_channel(&self) -> (r: ReleaseChannel)
        ensures
            r == spec_global_channel(*self),
    {
        match self {
            GlobalReleaseChannel::Stable => ReleaseChannel::Stable,
            GlobalReleaseChannel::Beta => ReleaseChannel::Beta,
            GlobalReleaseChannel::Alpha => ReleaseChannel::Alpha,
        }
    }
}

/// The concrete channel a global preference stands for.
pub open spec fn spec_global_channel(g: GlobalReleaseChannel) -> ReleaseChannel {
    match g {
        GlobalReleaseChannel::Stable => ReleaseChannel::Stable,
        GlobalReleaseChannel::Beta => ReleaseChannel::Beta,
        GlobalReleaseChannel::Alpha => ReleaseChannel::Alpha,
    }
}

/// The channel an add-on's own preference resolves to under a global
/// preference: its own, unless it defers.
pub open spec fn spec_effective_channel(
    preference: ReleaseChannel,
    global: GlobalReleaseChannel,
) -> ReleaseChannel {
    if preference is Default {
        spec_global_channel(global)
    } else {
        preference
    }
}

/// One release a remote source offers, newest releases first in a
/// package's list (the source's own ordering, not semantic-version order).
#[derive(Debug, Clone, PartialEq)]
pub struct RemoteRelease {
    /// The source's version string for this release.
    pub version: String,
    /// The channel the source published it on.
    pub channel: ReleaseChannel,
    /// The source's identifier for the release's file, when it has one.
    pub file_id: Option<u64>,
    /// Where the release's archive is downloaded from.
    pub download_url: String,
    /// When it was released, as seconds of Unix time, when known.
    pub date_released: Option<u64>,
}

/// An add-on as one remote source knows it.  Immutable once resolved for a
/// refresh cycle: new remote data replaces the releases wholesale, never a
/// field at a time.
#[derive(Debug, Clone, PartialEq)]
pub struct RepositoryPackage {
    /// The source this package was resolved against.
    pub kind: RepositoryKind,
    /// The flavor the package was resolved for.
    pub flavor: Flavor,
    /// The source's identifier: an opaque id, or the source URL for a
    /// git-hosted add-on.
    pub remote_id: String,
    /// The currently known releases, newest first by the source's order.
    pub releases: Vec<RemoteRelease>,
    /// The file identifier of the build actually installed, learned from
    /// fingerprint-based matching; a broad refresh never overwrites it.
    pub installed_file_id: Option<u64>,
}

/// The position of the first release on channel `ch`, if any.
pub open spec fn spec_first_match(releases: Seq<RemoteRelease>, ch: ReleaseChannel) -> Option<int>
    decreases releases.len(),
{
    if releases.len() == 0 {
        None
    } else if releases[0].channel == ch {
        Some(0)
    } else {
        match spec_first_match(releases.drop_first(), ch) {
            Some(i) => Some(i + 1),
            None => None,
        }
    }
}

impl RepositoryPackage {
    /// A package freshly keyed to a source by an opaque identifier; its
    /// releases are learned later from the transport collaborator.  An
    /// empty identifier is invalid for every source.
    pub fn from_repo_id(flavor: Flavor, kind: RepositoryKind, id: String) -> (r: Result<
        RepositoryPackage,
        Error,
    >)
        ensures
            id@.len() > 0 ==> (r matches Ok(p) && p.kind == kind && p.flavor == flavor
                && p.remote_id@ == id@ && p.releases@ =~= Seq::<RemoteRelease>::empty()
                && p.installed_file_id is None),
            id@.len() == 0 ==> (r matches Err(e) && e.kind == ErrorKind::Repository),
    {
        if id.as_str().unicode_len() > 0 {
            Ok(
                RepositoryPackage {
                    kind,
                    flavor,
                    remote_id: id,
                    releases: Vec::new(),
                    installed_file_id: None,
                },
            )
        } else {
            Err(Error::new(ErrorKind::Repository, "empty repository identifier".to_owned()))
        }
    }

    /// The release the add-on's channel preference selects: the first
    /// release of the effective channel, in the source's own order.
    pub fn relevant_release(
        &self,
        preference: ReleaseChannel,
        global: GlobalReleaseChannel,
    ) -> (r: Option<&RemoteRelease>)
        ensures
            match spec_first_match(self.releases@, spec_effective_channel(preference, global)) {
                Some(i) => r matches Some(rel) && *rel == self.releases@[i],
                None => r is None,
            },
    {
        let channel = if let ReleaseChannel::Default = preference {
            global.to_channel()
        } else {
            preference
        };
        proof {
            assert(channel == spec_effective_channel(preference, global));
        }
        let n = self.releases.len();
        proof {
            assert(self.releases@.skip(0) =~= self.releases@);
        }
        let mut i: usize = 0;
        while i < n
            invariant
                i <= n == self.releases@.len(),
                channel == spec_effective_channel(preference, global),
                spec_first_match(self.releases@, channel) == match spec_first_match(
                    self.releases@.skip(i as int),
                    channel,
                ) {
                    Some(j) => Some(j + i),
                    None => None::<int>,
                },
            decreases n - i,
        {
            proof {
                assert(self.releases@.skip(i as int)[0] == self.releases@[i as int]);
                assert(self.releases@.skip(i as int).drop_first() =~= self.releases@.skip(
                    i + 1 as int,
                ));
            }
            if release_channel_eq(&self.releases[i].channel, &channel) {
                let rel = &self.releases[i];
                proof {
                    assert(*rel == self.releases@[i as int]);
                    assert(self.releases@.skip(i as int)[0].channel == channel);
                    assert(spec_first_match(self.releases@.skip(i as int), channel) == Some(0int));
                    assert(spec_first_match(self.releases@, channel) == Some(i as int));
                }
                return Some(rel);
            }
            i = i + 1;
        }
        proof {
            assert(self.releases@.skip(n as int) =~= Seq::<RemoteRelease>::empty());
        }
        None
    }

    /// Applies a broad refresh: the newly fetched releases replace the
    /// known ones wholesale, while the source key and the locally learned
    /// installed-file identifier stay as they are.
    pub fn set_latest_releases(&mut self, latest: Vec<RemoteRelease>)
        ensures
            final(self).releases == latest,
            final(self).kind == old(self).kind,
            final(self).flavor == old(self).flavor,
            final(self).remote_id == old(self).remote_id,
            final(self).installed_file_id == old(self).installed_file_id,
    {
        self.releases = latest;
    }

    /// Records which file the installed build corresponds to, as learned
    /// from fingerprint-based matching.
    pub fn set_installed_file_id(&mut self, file_id: u64)
        ensures
            final(self).installed_file_id == Some(file_id),
            final(self).kind == old(self).kind,
            final(self).flavor == old(self).flavor,
            final(self).remote_id == old(self).remote_id,
            final(self).releases == old(self).releases,
    {
        self.installed_file_id = Some(file_id);
    }
}

/// The host part of an URL tail: the characters up to the first slash.
pub open spec fn leading_host(t: Seq<char>) -> Seq<char>
    decreases t.len(),
{
    if t.len() == 0 || t[0] == '/' {
        Seq::empty()
    } else {
        seq![t[0]] + leading_host(t.drop_first())
    }
}

/// The host of an http or https URL: the characters between the scheme and
/// the next slash.  `None` when the string carries neither scheme.
pub open spec fn spec_url_host(s: Seq<char>) -> Option<Seq<char>> {
    if spec_starts_with(s, "https://"@) {
        Some(leading_host(s.skip("https://"@.len() as int)))
    } else if spec_starts_with(s, "http://"@) {
        Some(leading_host(s.skip("http://"@.len() as int)))
    } else {
        None
    }
}

/// The git service a source URL points at, if its host names one.
pub open spec fn spec_git_kind_of_url(s: Seq<char>) -> Option<GitKind> {
    match spec_url_host(s) {
        Some(h) => if h == "github.com"@ {
            Some(GitKind::Github)
        } else if h == "gitlab.com"@ {
            Some(GitKind::Gitlab)
        } else {
            None
        },
        None => None,
    }
}

/// Whether the character at index `i` of `s` is a slash.
fn slash_at(s: &str, i: usize) -> (r: bool)
    requires
        i < s@.len(),
    ensures
        r == (s@[i as int] == '/'),
{
    s.get_char(i) == '/'
}

/// Extracts the host of an http or https URL.
fn url_host(s: &str) -> (r: Option<String>)
    ensures
        match spec_url_host(s@) {
            Some(h) => r matches Some(x) && x@ == h,
            None => r is None,
        },
{
    let n = s.unicode_len();
    let is_https = str_starts_with(s, "https://");
    let is_http = str_starts_with(s, "http://");
    proof {
        reveal_strlit("https://");
        reveal_strlit("http://");
    }
    if !is_https && !is_http {
        return None;
    }
    let start: usize = if is_https {
        8
    } else {
        7
    };
    let ghost tail = s@.skip(start as int);
    let mut j: usize = start;
    while j < n && !slash_at(s, j)
        invariant
            start <= j <= n == s@.len(),
            tail == s@.skip(start as int),
            leading_host(tail) == s@.subrange(start as int, j as int) + leading_host(
                s@.skip(j as int),
            ),
        decreases n - j,
    {
        proof {
            assert(s@.skip(j as int)[0] == s@[j as int]);
            assert(s@.skip(j as int).drop_first() =~= s@.skip(j + 1 as int));
            let a = s@.subrange(start as int, j as int);
            let b = seq![s@[j as int]];
            let c = leading_host(s@.skip(j + 1 as int));
            assert(a.len() == j - start);
            assert(leading_host(s@.skip(j as int)) == b + c);
            assert(a + (b + c) =~= (a + b) + c);
            assert(a + b =~= s@.subrange(start as int, j + 1 as int));
            assert(leading_host(tail) == s@.subrange(start as int, j + 1 as int) + c);
        }
        j = j + 1;
    }
    proof {
        if j == n {
            assert(s@.skip(n as int) =~= Seq::<char>::empty());
        }
        assert(leading_host(tail) == s@.subrange(start as int, j as int));
    }
    let host = s.substring_char(start, j);
    Some(host.to_owned())
}

impl RepositoryPackage {
    /// A package keyed to a git service by the source URL the user gave.
    /// Only an http or https URL whose host is one of the known services
    /// is accepted; anything else is a repository error.
    pub fn from_source_url(flavor: Flavor, url: String) -> (r: Result<RepositoryPackage, Error>)
        ensures
            match spec_git_kind_of_url(url@) {
                Some(gk) => (r matches Ok(p) && p.kind == RepositoryKind::Git(gk) && p.flavor
                    == flavor && p.remote_id@ == url@ && p.releases@ =~= Seq::<
                    RemoteRelease,
                >::empty() && p.installed_file_id is None),
                None => (r matches Err(e) && e.kind == ErrorKind::Repository),
            },
    {
        let kind: GitKind;
        match url_host(url.as_str()) {
            Option::Some(host) => {
                if crate::strings::str_eq(host.as_str(), "github.com") {
                    kind = GitKind::Github;
                } else if crate::strings::str_eq(host.as_str(), "gitlab.com") {
                    kind = GitKind::Gitlab;
                } else {
                    return Err(
                        Error::new(ErrorKind::Repository, "invalid source URL".to_owned()),
                    );
                }
            },
            Option::None => {
                return Err(Error::new(ErrorKind::Repository, "invalid source URL".to_owned()));
            },
        }
        Ok(
            RepositoryPackage {
                kind: RepositoryKind::Git(kind),
                flavor,
                remote_id: url,
                releases: Vec::new(),
                installed_file_id: None,
            },
        )
    }
}

/// Channel equality, decided structurally.
fn release_channel_eq(a: &ReleaseChannel, b: &ReleaseChannel) -> (r: bool)
    ensures
        r == (*a == *b),
{
    match (a, b) {
        (ReleaseChannel::Default, ReleaseChannel::Default) => true,
        (ReleaseChannel::Stable, ReleaseChannel::Stable) => true,
        (ReleaseChannel::Beta, ReleaseChannel::Beta) => true,
        (ReleaseChannel::Alpha, ReleaseChannel::Alpha) => true,
        _ => false,
    }
}

} // verus!
