use vstd::prelude::*;

use crate::cache::{Cache, archive_path_for, spec_archive_path};
use crate::errors::RegitError;
use crate::repository::{
    Repository,
    Ref,
    refs_view,
    spec_parse_locator,
    repo_matches,
    spec_archive_url,
    spec_signature,
    spec_clone_hash,
};

verus! {

/// The options of one run.
#[derive(Debug, Clone, Copy, PartialEq, Eq, Structural)]
pub struct RegitOptions {
    pub cache: bool,
    pub force: bool,
    pub verbose: bool,
    pub has_stashed: bool,
}

impl Default for RegitOptions {
    /// Caching on; everything else off.
    fn default() -> (r: Self)
        ensures
            r.cache == true,
            r.force == false,
            r.verbose == false,
            r.has_stashed == false,
    {
        RegitOptions { cache: true, force: false, verbose: false, has_stashed: false }
    }
}

/// One clone run: the locator, the parsed repository, the cache, and
/// the options.  The cache starts empty; the caller loads the persisted
/// map into it.
#[derive(Debug)]
pub struct Regit {
    pub src: String,
    pub repo: Option<Repository>,
    pub cache: Cache,
    pub options: RegitOptions,
}

impl Regit {
    /// A run for `src` with the given options, over a fresh cache rooted
    /// at `.regit`.
    pub fn new(src: &str, options: RegitOptions) -> (r: Regit)
        ensures
            r.src@ == src@,
            r.options == options,
            r.cache.wf(),
            r.cache.map() == Map::<Seq<char>, Seq<char>>::empty(),
            r.cache.spec_dir() == ".regit"@,
            match spec_parse_locator(src@) {
                Some(p) => r.repo matches Some(rep) && repo_matches(rep, p),
                None => r.repo is None,
            },
    {
        let repo = match Repository::parse(src) {
            Ok(rp) => Some(rp),
            Err(_) => None,
        };
        Regit { src: src.to_owned(), repo, cache: Cache::new_custom(".regit"), options }
    }
}

/// Whether a clone may proceed into the destination: an empty
/// destination always may; a nonempty one only under `force`.
pub fn check_dest(dest_is_empty: bool, force: bool) -> (r: Result<(), RegitError>)
    ensures
        r is Ok <==> (dest_is_empty || force),
        r matches Err(e) ==> e == RegitError::DestinationNotEmpty,
{
    if dest_is_empty || force {
        Ok(())
    } else {
        Err(RegitError::DestinationNotEmpty)
    }
}

/// The archive's synthetic wrapper directory, with the subdirectory
/// appended when one was given: the extraction filter for one clone.
pub open spec fn spec_tar_sub_dir(name: Seq<char>, hash: Seq<char>, sub: Seq<char>) -> Seq<
    char,
> {
    if sub.len() == 0 {
        name + "-"@ + hash
    } else {
        name + "-"@ + hash + "/"@ + sub
    }
}

/// Everything the I/O side needs to perform one archive-mode clone.
#[derive(Debug)]
pub struct ClonePlan {
    pub hash: String,
    pub archive_url: String,
    pub tar_sub_dir: String,
    pub archive_file: String,
    pub signature: String,
}

/// Work out one archive-mode clone: the hash (cached, or resolved
/// against the reference list), the archive's address, the extraction
/// filter, the archive file's path under `repo_dir`, and the cache
/// signature to record.
pub fn plan_clone(repo: &Repository, refs: &Vec<Ref>, cache: &Cache, repo_dir: &str) -> (r:
    Result<ClonePlan, RegitError>)
    requires
        cache.wf(),
    ensures
        r is Ok <==> spec_clone_hash(*repo, refs_view(refs@), cache.map()) is Ok,
        r matches Ok(plan) ==> (spec_clone_hash(*repo, refs_view(refs@), cache.map()) matches Ok(
            h,
        ) && {
            &&& plan.hash@ == h
            &&& plan.archive_url@ == spec_archive_url(repo.domain@, repo.url@, h)
            &&& plan.tar_sub_dir@ == spec_tar_sub_dir(repo.name@, h, repo.sub_dir@)
            &&& plan.archive_file@ == spec_archive_path(repo_dir@, h)
            &&& plan.signature@ == spec_signature(repo.user@, repo.name@, repo._ref@)
        }),
        r matches Err(e) ==> spec_clone_hash(*repo, refs_view(refs@), cache.map()) matches Err(
            se,
        ) && e == se,
{
    let hash = match repo.get_hash_cached(cache, refs) {
        Ok(h) => h,
        Err(e) => {
            return Err(e);
        },
    };
    let archive_url = repo.archive_url(hash.as_str());
    let tar_sub_dir = if repo.sub_dir.as_str().unicode_len() == 0 {
        let t = repo.name.clone().concat("-").concat(hash.as_str());
        proof {
            assert(t@ =~= spec_tar_sub_dir(repo.name@, hash@, repo.sub_dir@));
        }
        t
    } else {
        let t = repo.name.clone().concat("-").concat(hash.as_str()).concat("/").concat(
            repo.sub_dir.as_str(),
        );
        proof {
            assert(t@ =~= spec_tar_sub_dir(repo.name@, hash@, repo.sub_dir@));
        }
        t
    };
    let archive_file = archive_path_for(repo_dir, hash.as_str());
    let signature = repo.signature();
    Ok(ClonePlan { hash, archive_url, tar_sub_dir, archive_file, signature })
}

} // verus!
