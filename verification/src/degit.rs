use vstd::prelude::*;

use crate::options::ValidModes;
use crate::repository::{Repository, spec_parse_locator, repo_matches};

verus! {

/// A set of files a directive acts on.
#[derive(Debug)]
pub struct Action {
    pub files: Vec<String>,
}

impl Action {
    /// An action over the given files.
    pub fn new(files: Vec<String>) -> (a: Action)
        ensures
            a.files@ == files@,
    {
        Action { files }
    }
}

/// The configuration of one clone operation, assembled by a
/// `DegitBuilder`.
#[derive(Debug)]
pub struct Degit {
    pub src: String,
    pub cache: bool,
    pub force: bool,
    pub verbose: bool,
    pub proxy: String,
    pub repo: Option<Repository>,
    pub mode: ValidModes,
    pub _has_stashed: bool,
}

impl Degit {
    /// Start building a clone of `src`.
    pub fn new(src: &str) -> (b: DegitBuilder)
        ensures
            b.degit_spec().src@ == src@,
            b.degit_spec().cache == false,
            b.degit_spec().force == false,
            b.degit_spec().verbose == false,
            b.degit_spec().proxy@ == Seq::<char>::empty(),
            b.degit_spec().mode == ValidModes::Tar,
            b.degit_spec()._has_stashed == false,
            match spec_parse_locator(src@) {
                Some(p) => b.degit_spec().repo matches Some(rep) && repo_matches(rep, p),
                None => b.degit_spec().repo is None,
            },
    {
        DegitBuilder::new(src)
    }
}

/// Builds a `Degit`, option by option.
pub struct DegitBuilder {
    degit: Degit,
}

impl DegitBuilder {
    /// The configuration as built so far.
    pub closed spec fn degit_spec(&self) -> Degit {
        self.degit
    }

    fn new(src: &str) -> (b: DegitBuilder)
        ensures
            b.degit_spec().src@ == src@,
            b.degit_spec().cache == false,
            b.degit_spec().force == false,
            b.degit_spec().verbose == false,
            b.degit_spec().proxy@ == Seq::<char>::empty(),
            b.degit_spec().mode == ValidModes::Tar,
            b.degit_spec()._has_stashed == false,
            match spec_parse_locator(src@) {
                Some(p) => b.degit_spec().repo matches Some(rep) && repo_matches(rep, p),
                None => b.degit_spec().repo is None,
            },
    {
        let repo = match Repository::parse(src) {
            Ok(rp) => Some(rp),
            Err(_) => None,
        };
        DegitBuilder {
            degit: Degit {
                src: src.to_owned(),
                cache: false,
                force: false,
                verbose: false,
                proxy: String::new(),
                repo,
                mode: ValidModes::Tar,
                _has_stashed: false,
            },
        }
    }

    /// Use the archive cache, or not.
    pub fn with_cache(self, value: bool) -> (b: Self)
        ensures
            b.degit_spec() == (Degit { cache: value, ..self.degit_spec() }),
    {
        let mut degit = self.degit;
        degit.cache = value;
        DegitBuilder { degit }
    }

    /// Clone into a nonempty destination, or not.
    pub fn with_force(self, value: bool) -> (b: Self)
        ensures
            b.degit_spec() == (Degit { force: value, ..self.degit_spec() }),
    {
        let mut degit = self.degit;
        degit.force = value;
        DegitBuilder { degit }
    }

    /// Log verbosely, or not.
    pub fn with_verbose(self, value: bool) -> (b: Self)
        ensures
            b.degit_spec() == (Degit { verbose: value, ..self.degit_spec() }),
    {
        let mut degit = self.degit;
        degit.verbose = value;
        DegitBuilder { degit }
    }

    /// Route fetches through this proxy.
    pub fn with_proxy(self, value: &str) -> (b: Self)
        ensures
            b.degit_spec().proxy@ == value@,
            b.degit_spec() == (Degit { proxy: b.degit_spec().proxy, ..self.degit_spec() }),
    {
        let mut degit = self.degit;
        degit.proxy = value.to_owned();
        DegitBuilder { degit }
    }

    /// Replace the repository descriptor.
    pub fn with_repo(self, value: Repository) -> (b: Self)
        ensures
            b.degit_spec() == (Degit { repo: Some(value), ..self.degit_spec() }),
    {
        let mut degit = self.degit;
        degit.repo = Some(value);
        DegitBuilder { degit }
    }

    /// Choose the transport mode.
    pub fn with_mode(self, value: ValidModes) -> (b: Self)
        ensures
            b.degit_spec() == (Degit { mode: value, ..self.degit_spec() }),
    {
        let mut degit = self.degit;
        degit.mode = value;
        DegitBuilder { degit }
    }

    /// The finished configuration.
    pub fn build(self) -> (d: Degit)
        ensures
            d == self.degit_spec(),
    {
        self.degit
    }
}

} // verus!
