//! Whether a newer release of the client is out.

use vstd::prelude::*;
use vstd::string::*;

verus! {

/// One release, as the list of releases names it.
#[derive(Debug)]
pub struct Release {
    pub tag_name: String,
    pub draft: bool,
    pub prerelease: bool,
    pub html_url: String,
}

/// The release is meant for everybody.
pub open spec fn is_public(release: Release) -> bool {
    !release.draft && !release.prerelease
}

/// The position of the first release of `releases` that is meant for
/// everybody, or the length of `releases`.
pub open spec fn first_public(releases: Seq<Release>) -> int
    decreases releases.len(),
{
    if releases.len() == 0 {
        0
    } else if is_public(releases[0]) {
        0
    } else {
        1 + first_public(releases.skip(1))
    }
}

/// The tag that a release of the version `version` has.
pub open spec fn tag_of(version: Seq<char>) -> Seq<char> {
    "v"@ + version
}

/// The first public release, where it is not tagged as the running version.
pub open spec fn newer_release(releases: Seq<Release>, version: Seq<char>) -> Option<Release> {
    let i = first_public(releases);
    if i < releases.len() && releases[i].tag_name@ != tag_of(version) {
        Some(releases[i])
    } else {
        None
    }
}

/// `first_public` is the least position of a public release.
pub proof fn lemma_first_public(releases: Seq<Release>)
    ensures
        0 <= first_public(releases) <= releases.len(),
        first_public(releases) < releases.len() ==> is_public(releases[first_public(releases)]),
        forall|i: int| 0 <= i < first_public(releases) ==> !is_public(releases[i]),
    decreases releases.len(),
{
    if releases.len() > 0 && !is_public(releases[0]) {
        let rest = releases.skip(1);
        lemma_first_public(rest);
        assert forall|i: int| 0 <= i < first_public(releases) implies !is_public(releases[i]) by {
            if i > 0 {
                assert(rest[i - 1] == releases[i]);
            }
        }
    }
}

/// A position before which no release is public, and which holds a public
/// release or is the length, is `first_public`.
pub proof fn lemma_first_public_is(releases: Seq<Release>, at: int)
    requires
        0 <= at <= releases.len(),
        at < releases.len() ==> is_public(releases[at]),
        forall|i: int| 0 <= i < at ==> !is_public(releases[i]),
    ensures
        first_public(releases) == at,
{
    lemma_first_public(releases);
}

/// Looks through the releases, newest first, as the list gives them, for the
/// first that is meant for everybody.  Where it is not tagged `v` and the
/// running version, its page is the result.
pub fn check_for_new_version(releases: &Vec<Release>, version: &str) -> (url: Option<String>)
    ensures
        match newer_release(releases@, version@) {
            Some(release) => url == Some(release.html_url),
            None => url is None,
        },
{
    let mut i: usize = 0;
    while i < releases.len()
        invariant
            i <= releases.len(),
            forall|j: int| 0 <= j < i ==> !is_public(releases@[j]),
        decreases releases.len() - i,
    {
        let release = &releases[i];
        if !release.draft && !release.prerelease {
            proof {
                lemma_first_public_is(releases@, i as int);
            }
            let own = String::from_str("v").concat(version);
            if release.tag_name != own {
                return Some(release.html_url.clone());
            }
            return None;
        }
        i += 1;
    }
    proof {
        lemma_first_public_is(releases@, releases.len() as int);
    }
    None
}

} // verus!
