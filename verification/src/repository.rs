use vstd::prelude::*;

use crate::cache::Cache;
use crate::errors::RegitError;
use crate::options::ValidModes;
use crate::strutil::{
    first_ix, has_prefix, has_suffix, lacks, no_adjacent, first_index_of, str_eq,
    str_has_prefix, str_has_suffix, lemma_first_ix_is, lemma_first_ix_concat,
    lemma_first_ix_absent, lemma_lacks_concat, lemma_no_adjacent_concat,
};

verus! {

// --- The locator grammar, as specification functions ---
//
// A locator is an optional host prefix (`https://host/`, `git@host:`,
// `git@host/` or `host:`), a mandatory `user/name`, an optional
// `/sub/path` of arbitrary depth, an optional single trailing `/`, and an
// optional `#ref` suffix.  When the host is omitted it defaults to
// `github.com`; when the ref is omitted it defaults to `HEAD`.  One
// trailing `.git` artifact on the repository name is stripped.

/// Whitespace characters that may not occur in a host or path component.
pub open spec fn is_space_char(c: char) -> bool {
    c == ' ' || c == '\t' || c == '\n' || c == '\r'
}

/// A valid host: nonempty, free of separators and whitespace.
pub open spec fn ok_host(h: Seq<char>) -> bool {
    &&& h.len() > 0
    &&& forall|i: int|
        0 <= i < h.len() ==> h[i] != '/' && h[i] != ':' && h[i] != '#' && !is_space_char(h[i])
}

/// A valid path component (user, name, or one subdirectory level):
/// nonempty, free of `/`, `#` and whitespace.
pub open spec fn ok_seg(s: Seq<char>) -> bool {
    &&& s.len() > 0
    &&& forall|i: int| 0 <= i < s.len() ==> s[i] != '/' && s[i] != '#' && !is_space_char(s[i])
}

/// A valid nonempty subdirectory path: `/`-separated nonempty components,
/// no leading or trailing slash.
pub open spec fn ok_sub(s: Seq<char>) -> bool {
    &&& s.len() > 0
    &&& s[0] != '/'
    &&& s[s.len() - 1] != '/'
    &&& forall|i: int| 0 <= i < s.len() ==> s[i] != '#' && !is_space_char(s[i])
    &&& forall|i: int| 0 <= i < s.len() - 1 ==> !(#[trigger] s[i] == '/' && s[i + 1] == '/')
}

/// The fields recovered from a locator.
pub struct LocatorParts {
    pub domain: Seq<char>,
    pub user: Seq<char>,
    pub name: Seq<char>,
    pub sub_dir: Seq<char>,
    pub git_ref: Seq<char>,
}

/// Split the host prefix off the part of the locator before any `#`.
/// `None` means the prefix is present but malformed; otherwise the result
/// carries the host (if one was written) and the remaining `user/name/...`
/// path.  Host validity is checked by the caller.
pub open spec fn spec_split_host(b: Seq<char>) -> Option<(Option<Seq<char>>, Seq<char>)> {
    if has_prefix(b, "https://"@) {
        let t = b.skip("https://"@.len() as int);
        let i = first_ix(t, '/');
        if i < t.len() {
            Some((Some(t.take(i)), t.skip(i + 1)))
        } else {
            None
        }
    } else if has_prefix(b, "git@"@) {
        let t = b.skip("git@"@.len() as int);
        let i = first_ix(t, ':');
        let j = first_ix(t, '/');
        let k = if i <= j { i } else { j };
        if k < t.len() {
            Some((Some(t.take(k)), t.skip(k + 1)))
        } else {
            None
        }
    } else {
        let i = first_ix(b, ':');
        let j = first_ix(b, '/');
        if i < j && i < b.len() {
            Some((Some(b.take(i)), b.skip(i + 1)))
        } else {
            Some((None, b))
        }
    }
}

/// One trailing `.git` artifact is stripped from a repository name; a
/// name that is nothing but `.git` stays as it is.
pub open spec fn strip_git_suffix(name: Seq<char>) -> Seq<char> {
    if name.len() > ".git"@.len() && has_suffix(name, ".git"@) {
        name.take(name.len() - ".git"@.len())
    } else {
        name
    }
}

/// Split a `user/name[/sub/path][/]` path into its parts, stripping one
/// trailing `.git` artifact from the name.
pub open spec fn spec_split_path(p: Seq<char>) -> Option<(Seq<char>, Seq<char>, Seq<char>)> {
    let i = first_ix(p, '/');
    if i >= p.len() {
        None
    } else {
        let user = p.take(i);
        let q = p.skip(i + 1);
        let j = first_ix(q, '/');
        if j >= q.len() {
            if ok_seg(user) && ok_seg(q) {
                Some((user, strip_git_suffix(q), Seq::<char>::empty()))
            } else {
                None
            }
        } else {
            let name = q.take(j);
            let r0 = q.skip(j + 1);
            let r = if r0.len() > 0 && r0[r0.len() - 1] == '/' {
                r0.drop_last()
            } else {
                r0
            };
            if r.len() == 0 {
                if ok_seg(user) && ok_seg(name) {
                    Some((user, strip_git_suffix(name), Seq::<char>::empty()))
                } else {
                    None
                }
            } else {
                if ok_seg(user) && ok_seg(name) && ok_sub(r) {
                    Some((user, strip_git_suffix(name), r))
                } else {
                    None
                }
            }
        }
    }
}

/// Parse a whole locator into its fields, or `None` when it does not
/// match the grammar.
pub open spec fn spec_parse_locator(s: Seq<char>) -> Option<LocatorParts> {
    let i = first_ix(s, '#');
    let body = s.take(i);
    if i < s.len() && s.skip(i + 1).len() == 0 {
        None
    } else {
        let reff = if i < s.len() {
            s.skip(i + 1)
        } else {
            "HEAD"@
        };
        match spec_split_host(body) {
            None => None,
            Some((hopt, path)) => {
                if (match hopt {
                    Some(h) => ok_host(h),
                    None => true,
                }) {
                    match spec_split_path(path) {
                        None => None,
                        Some((user, name, sub)) => {
                            let domain = match hopt {
                                Some(h) => h,
                                None => "github.com"@,
                            };
                            Some(
                                LocatorParts {
                                    domain,
                                    user,
                                    name,
                                    sub_dir: sub,
                                    git_ref: reff,
                                },
                            )
                        },
                    }
                } else {
                    None
                }
            },
        }
    }
}

/// The hosting providers served by archive downloads.
pub open spec fn is_supported_domain(d: Seq<char>) -> bool {
    ||| d == "github.com"@
    ||| d == "gitlab.com"@
    ||| d == "bitbucket.org"@
    ||| d == "git.sr.ht"@
}

/// The HTTPS URL of a repository.
pub open spec fn spec_url(domain: Seq<char>, user: Seq<char>, name: Seq<char>) -> Seq<char> {
    "https://"@ + domain + "/"@ + user + "/"@ + name
}

/// The SSH address of a repository.
pub open spec fn spec_ssh(domain: Seq<char>, user: Seq<char>, name: Seq<char>) -> Seq<char> {
    "git@"@ + domain + ":"@ + user + "/"@ + name
}

/// A remote repository descriptor, built once by `parse` and read-only
/// afterwards.
#[derive(Debug, Clone)]
pub struct Repository {
    pub url: String,
    pub domain: String,
    pub user: String,
    pub name: String,
    pub sub_dir: String,
    pub _ref: String,
    pub ssh: String,
    pub mode: ValidModes,
}

/// How a `Repository` relates to the fields of its locator.
pub open spec fn repo_matches(r: Repository, p: LocatorParts) -> bool {
    &&& r.domain@ == p.domain
    &&& r.user@ == p.user
    &&& r.name@ == p.name
    &&& r.sub_dir@ == p.sub_dir
    &&& r._ref@ == p.git_ref
    &&& r.url@ == spec_url(p.domain, p.user, p.name)
    &&& r.ssh@ == spec_ssh(p.domain, p.user, p.name)
    &&& r.mode == (if is_supported_domain(p.domain) {
        ValidModes::Tar
    } else {
        ValidModes::Git
    })
}

/// An unrecognized host is a degraded fallback, not an error: a
/// descriptor built from any parsed locator carries `Git` mode exactly
/// when its domain is unsupported, and `Tar` mode otherwise.  (That a
/// locator with an unrecognized host still parses is the success half of
/// `parse`'s contract: success depends on the grammar alone, never on
/// the domain.)
pub proof fn lemma_mode_follows_domain(repo: Repository, p: LocatorParts)
    requires
        repo_matches(repo, p),
    ensures
        is_supported_domain(p.domain) ==> repo.mode == ValidModes::Tar,
        !is_supported_domain(p.domain) ==> repo.mode == ValidModes::Git,
{
}

// --- Executable checks for the character classes ---

fn check_host(h: &str) -> (r: bool)
    ensures
        r == ok_host(h@),
{
    let n = h.unicode_len();
    if n == 0 {
        return false;
    }
    let mut i: usize = 0;
    while i < n
        invariant
            n == h@.len(),
            0 <= i <= n,
            forall|j: int|
                0 <= j < i ==> h@[j] != '/' && h@[j] != ':' && h@[j] != '#' && !is_space_char(
                    h@[j],
                ),
        decreases n - i,
    {
        let c = h.get_char(i);
        if c == '/' || c == ':' || c == '#' || c == ' ' || c == '\t' || c == '\n' || c == '\r' {
            return false;
        }
        i = i + 1;
    }
    true
}

fn check_seg(s: &str) -> (r: bool)
    ensures
        r == ok_seg(s@),
{
    let n = s.unicode_len();
    if n == 0 {
        return false;
    }
    let mut i: usize = 0;
    while i < n
        invariant
            n == s@.len(),
            0 <= i <= n,
            forall|j: int|
                0 <= j < i ==> s@[j] != '/' && s@[j] != '#' && !is_space_char(s@[j]),
        decreases n - i,
    {
        let c = s.get_char(i);
        if c == '/' || c == '#' || c == ' ' || c == '\t' || c == '\n' || c == '\r' {
            return false;
        }
        i = i + 1;
    }
    true
}

fn check_sub(s: &str) -> (r: bool)
    ensures
        r == ok_sub(s@),
{
    let n = s.unicode_len();
    if n == 0 {
        return false;
    }
    if s.get_char(0) == '/' {
        return false;
    }
    if s.get_char(n - 1) == '/' {
        return false;
    }
    let mut i: usize = 0;
    while i < n
        invariant
            n == s@.len(),
            0 <= i <= n,
            forall|j: int| 0 <= j < i ==> s@[j] != '#' && !is_space_char(s@[j]),
            forall|j: int| 0 <= j < i && j < n - 1 ==> !(#[trigger] s@[j] == '/' && s@[j + 1] == '/'),
        decreases n - i,
    {
        let c = s.get_char(i);
        if c == '#' || c == ' ' || c == '\t' || c == '\n' || c == '\r' {
            return false;
        }
        if i + 1 < n {
            if c == '/' && s.get_char(i + 1) == '/' {
                return false;
            }
        }
        i = i + 1;
    }
    true
}

// --- Executable split functions, proved against the grammar ---

fn split_host(b: &str) -> (r: Option<(Option<String>, String)>)
    ensures
        r is Some <==> spec_split_host(b@) is Some,
        r matches Some((hopt, rest)) ==> {
            let (shopt, srest) = spec_split_host(b@).unwrap();
            &&& rest@ == srest
            &&& (hopt is Some <==> shopt is Some)
            &&& (hopt matches Some(h) ==> shopt matches Some(sh) && h@ == sh)
        },
{
    let n = b.unicode_len();
    if str_has_prefix(b, "https://") {
        proof {
            reveal_strlit("https://");
        }
        let t = b.substring_char(8, n);
        proof {
            assert(t@ =~= b@.skip("https://"@.len() as int));
        }
        let tn = t.unicode_len();
        let i = first_index_of(t, '/');
        if i < tn {
            let host = t.substring_char(0, i);
            let rest = t.substring_char(i + 1, tn);
            proof {
                assert(host@ =~= t@.take(i as int));
                assert(rest@ =~= t@.skip(i as int + 1));
            }
            Some((Some(host.to_owned()), rest.to_owned()))
        } else {
            None
        }
    } else if str_has_prefix(b, "git@") {
        proof {
            reveal_strlit("git@");
        }
        let t = b.substring_char(4, n);
        proof {
            assert(t@ =~= b@.skip("git@"@.len() as int));
        }
        let tn = t.unicode_len();
        let i = first_index_of(t, ':');
        let j = first_index_of(t, '/');
        let k = if i <= j {
            i
        } else {
            j
        };
        if k < tn {
            let host = t.substring_char(0, k);
            let rest = t.substring_char(k + 1, tn);
            proof {
                assert(host@ =~= t@.take(k as int));
                assert(rest@ =~= t@.skip(k as int + 1));
            }
            Some((Some(host.to_owned()), rest.to_owned()))
        } else {
            None
        }
    } else {
        let i = first_index_of(b, ':');
        let j = first_index_of(b, '/');
        if i < j && i < n {
            let host = b.substring_char(0, i);
            let rest = b.substring_char(i + 1, n);
            proof {
                assert(host@ =~= b@.take(i as int));
                assert(rest@ =~= b@.skip(i as int + 1));
            }
            Some((Some(host.to_owned()), rest.to_owned()))
        } else {
            Some((None, b.to_owned()))
        }
    }
}

/// Strip one trailing `.git` artifact from a repository name.
fn strip_git(name: &str) -> (r: String)
    ensures
        r@ == strip_git_suffix(name@),
{
    proof {
        reveal_strlit(".git");
    }
    let n = name.unicode_len();
    if n > 4 && str_has_suffix(name, ".git") {
        let stripped = name.substring_char(0, n - 4);
        proof {
            assert(stripped@ =~= name@.take(n as int - 4));
        }
        stripped.to_owned()
    } else {
        name.to_owned()
    }
}

fn split_path(p: &str) -> (r: Option<(String, String, String)>)
    ensures
        r is Some <==> spec_split_path(p@) is Some,
        r matches Some((user, name, sub)) ==> {
            let (su, sn, ss) = spec_split_path(p@).unwrap();
            user@ == su && name@ == sn && sub@ == ss
        },
{
    let n = p.unicode_len();
    let i = first_index_of(p, '/');
    if i >= n {
        return None;
    }
    let user = p.substring_char(0, i);
    let q = p.substring_char(i + 1, n);
    proof {
        assert(user@ =~= p@.take(i as int));
        assert(q@ =~= p@.skip(i as int + 1));
    }
    let qn = q.unicode_len();
    let j = first_index_of(q, '/');
    if j >= qn {
        if check_seg(user) && check_seg(q) {
            Some((user.to_owned(), strip_git(q), String::new()))
        } else {
            None
        }
    } else {
        let name = q.substring_char(0, j);
        let r0 = q.substring_char(j + 1, qn);
        proof {
            assert(name@ =~= q@.take(j as int));
            assert(r0@ =~= q@.skip(j as int + 1));
        }
        let r0n = r0.unicode_len();
        let rest = if r0n > 0 && r0.get_char(r0n - 1) == '/' {
            let rr = r0.substring_char(0, r0n - 1);
            proof {
                assert(rr@ =~= r0@.drop_last());
            }
            rr
        } else {
            r0
        };
        if rest.unicode_len() == 0 {
            if check_seg(user) && check_seg(name) {
                assert(rest@ =~= Seq::<char>::empty());
                Some((user.to_owned(), strip_git(name), String::new()))
            } else {
                None
            }
        } else {
            if check_seg(user) && check_seg(name) && check_sub(rest) {
                Some((user.to_owned(), strip_git(name), rest.to_owned()))
            } else {
                None
            }
        }
    }
}

/// Whether `domain` is one of the hosting providers served by archive
/// downloads.
pub fn is_supported(domain: &str) -> (r: bool)
    ensures
        r == is_supported_domain(domain@),
{
    str_eq(domain, "github.com") || str_eq(domain, "gitlab.com") || str_eq(
        domain,
        "bitbucket.org",
    ) || str_eq(domain, "git.sr.ht")
}

impl Repository {
    /// Parse a locator into a repository descriptor.  Fails with
    /// `MalformedLocator` exactly when the locator does not match the
    /// grammar.
    pub fn parse(src: &str) -> (r: Result<Repository, RegitError>)
        ensures
            r is Ok <==> spec_parse_locator(src@) is Some,
            r matches Ok(repo) ==> repo_matches(repo, spec_parse_locator(src@).unwrap()),
            r matches Err(e) ==> e == RegitError::MalformedLocator,
    {
        let n = src.unicode_len();
        let i = first_index_of(src, '#');
        let body = src.substring_char(0, i);
        proof {
            assert(body@ =~= src@.take(i as int));
        }
        let reff: String = if i < n {
            let rs = src.substring_char(i + 1, n);
            proof {
                assert(rs@ =~= src@.skip(i as int + 1));
            }
            if rs.unicode_len() == 0 {
                return Err(RegitError::MalformedLocator);
            }
            rs.to_owned()
        } else {
            String::from_str("HEAD")
        };
        let (host_opt, path) = match split_host(body) {
            None => {
                return Err(RegitError::MalformedLocator);
            },
            Some(hp) => hp,
        };
        let domain: String = match host_opt {
            Some(h) => {
                if !check_host(h.as_str()) {
                    return Err(RegitError::MalformedLocator);
                }
                h
            },
            None => String::from_str("github.com"),
        };
        let (user, name, sub_dir) = match split_path(path.as_str()) {
            None => {
                return Err(RegitError::MalformedLocator);
            },
            Some(uns) => uns,
        };
        let mode = if is_supported(domain.as_str()) {
            ValidModes::Tar
        } else {
            ValidModes::Git
        };
        let url = String::from_str("https://").concat(domain.as_str()).concat("/").concat(
            user.as_str(),
        ).concat("/").concat(name.as_str());
        let ssh = String::from_str("git@").concat(domain.as_str()).concat(":").concat(
            user.as_str(),
        ).concat("/").concat(name.as_str());
        proof {
            assert(url@ =~= spec_url(domain@, user@, name@));
            assert(ssh@ =~= spec_ssh(domain@, user@, name@));
        }
        Ok(
            Repository {
                url,
                domain,
                user,
                name,
                sub_dir,
                _ref: reff,
                ssh,
                mode,
            },
        )
    }
}

// --- The remote's reference list ---

/// The structural kind of one remote reference.
#[derive(Debug, Clone, Copy, PartialEq, Eq, Structural)]
pub enum RefKind {
    Head,
    Branch,
    Tag,
    OtherRef,
}

/// One row of the remote's reference list.
#[derive(Debug, Clone)]
pub struct Ref {
    pub kind: RefKind,
    pub name: String,
    pub hash: String,
}

/// The mathematical value of a `Ref`.
#[verifier::ext_equal]
pub struct RefV {
    pub kind: RefKind,
    pub name: Seq<char>,
    pub hash: Seq<char>,
}

impl View for Ref {
    type V = RefV;

    open spec fn view(&self) -> RefV {
        RefV { kind: self.kind, name: self.name@, hash: self.hash@ }
    }
}

impl Ref {
    /// Build one reference entry.
    pub fn new(kind: RefKind, name: &str, hash: &str) -> (r: Ref)
        ensures
            r.kind == kind,
            r.name@ == name@,
            r.hash@ == hash@,
    {
        Ref { kind, name: name.to_owned(), hash: hash.to_owned() }
    }
}

/// The values of a list of reference entries.
pub open spec fn refs_view(refs: Seq<Ref>) -> Seq<RefV> {
    refs.map_values(|r: Ref| r@)
}

/// Index of the last `/` in `s`, or `-1` when there is none.
pub open spec fn last_slash(s: Seq<char>) -> int
    decreases s.len(),
{
    if s.len() == 0 {
        -1
    } else if s[s.len() - 1] == '/' {
        s.len() - 1
    } else {
        last_slash(s.drop_last())
    }
}

/// What it means for `i` to be the last `/` of `s` (`-1` when absent).
pub open spec fn is_last_slash(s: Seq<char>, i: int) -> bool {
    &&& -1 <= i < s.len()
    &&& i >= 0 ==> s[i] == '/'
    &&& forall|j: int| i < j < s.len() ==> s[j] != '/'
}

pub proof fn lemma_last_slash_is(s: Seq<char>)
    ensures
        is_last_slash(s, last_slash(s)),
    decreases s.len(),
{
    if s.len() == 0 {
    } else if s[s.len() - 1] == '/' {
    } else {
        lemma_last_slash_is(s.drop_last());
        assert forall|j: int| last_slash(s) < j < s.len() implies s[j] != '/' by {
            if j < s.len() - 1 {
                assert(s.drop_last()[j] == s[j]);
            }
        }
    }
}

pub proof fn lemma_last_slash_unique(s: Seq<char>, i: int, j: int)
    requires
        is_last_slash(s, i),
        is_last_slash(s, j),
    ensures
        i == j,
{
}

/// Classify a ref path by its structural prefix and extract the trailing
/// name component.
pub open spec fn spec_classify(rp: Seq<char>) -> (RefKind, Seq<char>) {
    if rp == "HEAD"@ {
        (RefKind::Head, Seq::<char>::empty())
    } else if has_prefix(rp, "refs/heads/"@) {
        (RefKind::Branch, rp.skip("refs/heads/"@.len() as int))
    } else if has_prefix(rp, "refs/tags/"@) {
        (RefKind::Tag, rp.skip("refs/tags/"@.len() as int))
    } else {
        (RefKind::OtherRef, rp.skip(last_slash(rp) + 1))
    }
}

/// Parse one `hash<TAB>refPath` row.  A row without a tab yields an empty
/// ref path.
pub open spec fn spec_parse_ref_line(l: Seq<char>) -> RefV {
    let t = first_ix(l, '\t');
    let hash = l.take(t);
    let rp = if t < l.len() {
        l.skip(t + 1)
    } else {
        Seq::<char>::empty()
    };
    RefV { kind: spec_classify(rp).0, name: spec_classify(rp).1, hash }
}

/// Parse the whole newline-delimited reference list, skipping empty rows.
pub open spec fn spec_parse_ref_list(t: Seq<char>) -> Seq<RefV>
    decreases t.len(),
{
    if t.len() == 0 {
        Seq::<RefV>::empty()
    } else {
        let i = first_ix(t, '\n');
        if 0 <= i < t.len() {
            let head = if i == 0 {
                Seq::<RefV>::empty()
            } else {
                seq![spec_parse_ref_line(t.take(i))]
            };
            head + spec_parse_ref_list(t.skip(i + 1))
        } else {
            seq![spec_parse_ref_line(t)]
        }
    }
}

/// Position right after the last `/` of `s` (0 when `s` has no `/`).
fn after_last_slash(s: &str) -> (r: usize)
    ensures
        r as int == last_slash(s@) + 1,
        r as int <= s@.len(),
{
    let n = s.unicode_len();
    let mut i: usize = n;
    while i > 0
        invariant
            n == s@.len(),
            0 <= i <= n,
            forall|j: int| i <= j < n ==> s@[j] != '/',
        decreases i,
    {
        if s.get_char(i - 1) == '/' {
            proof {
                lemma_last_slash_is(s@);
                lemma_last_slash_unique(s@, last_slash(s@), i as int - 1);
            }
            return i;
        }
        i = i - 1;
    }
    proof {
        lemma_last_slash_is(s@);
        lemma_last_slash_unique(s@, last_slash(s@), -1);
    }
    0
}

/// Classify one ref path.
fn classify(rp: &str) -> (r: (RefKind, String))
    ensures
        r.0 == spec_classify(rp@).0,
        r.1@ == spec_classify(rp@).1,
{
    let n = rp.unicode_len();
    if str_eq(rp, "HEAD") {
        (RefKind::Head, String::new())
    } else if str_has_prefix(rp, "refs/heads/") {
        proof {
            reveal_strlit("refs/heads/");
        }
        let name = rp.substring_char(11, n);
        proof {
            assert(name@ =~= rp@.skip("refs/heads/"@.len() as int));
        }
        (RefKind::Branch, name.to_owned())
    } else if str_has_prefix(rp, "refs/tags/") {
        proof {
            reveal_strlit("refs/tags/");
        }
        let name = rp.substring_char(10, n);
        proof {
            assert(name@ =~= rp@.skip("refs/tags/"@.len() as int));
        }
        (RefKind::Tag, name.to_owned())
    } else {
        let k = after_last_slash(rp);
        let name = rp.substring_char(k, n);
        proof {
            assert(name@ =~= rp@.skip(last_slash(rp@) + 1));
        }
        (RefKind::OtherRef, name.to_owned())
    }
}

/// Parse one row of the reference list.
fn parse_ref_line(l: &str) -> (r: Ref)
    ensures
        r@ == spec_parse_ref_line(l@),
{
    let n = l.unicode_len();
    let t = first_index_of(l, '\t');
    let hash = l.substring_char(0, t);
    proof {
        assert(hash@ =~= l@.take(t as int));
    }
    let (kind, name) = if t < n {
        let rp = l.substring_char(t + 1, n);
        proof {
            assert(rp@ =~= l@.skip(t as int + 1));
        }
        classify(rp)
    } else {
        proof {
            reveal_strlit("");
            assert(""@ =~= Seq::<char>::empty());
        }
        classify("")
    };
    let r = Ref { kind, name, hash: hash.to_owned() };
    proof {
        assert(r@ =~= spec_parse_ref_line(l@));
    }
    r
}

/// Parse the raw output of a remote reference listing into entries.
/// Pure text processing: the caller supplies the text.
pub fn parse_ref_list(text: &str) -> (r: Vec<Ref>)
    ensures
        refs_view(r@) == spec_parse_ref_list(text@),
{
    let n = text.unicode_len();
    let mut out: Vec<Ref> = Vec::new();
    let mut pos: usize = 0;
    proof {
        assert(text@.skip(0) =~= text@);
        assert(refs_view(out@) =~= Seq::<RefV>::empty());
    }
    loop
        invariant
            n == text@.len(),
            0 <= pos <= n,
            spec_parse_ref_list(text@) =~= refs_view(out@) + spec_parse_ref_list(
                text@.skip(pos as int),
            ),
        decreases n - pos,
    {
        let rem = text.substring_char(pos, n);
        proof {
            assert(rem@ =~= text@.skip(pos as int));
        }
        let rn = rem.unicode_len();
        let i = first_index_of(rem, '\n');
        if i < rn {
            if i > 0 {
                let line = rem.substring_char(0, i);
                proof {
                    assert(line@ =~= rem@.take(i as int));
                }
                let entry = parse_ref_line(line);
                out.push(entry);
            }
            proof {
                assert(text@.skip(pos as int).skip(i as int + 1) =~= text@.skip(
                    pos as int + i as int + 1,
                ));
                assert(refs_view(out@) + spec_parse_ref_list(text@.skip(pos as int + i as int + 1))
                    =~= spec_parse_ref_list(text@));
            }
            pos = pos + i + 1;
        } else {
            if rn > 0 {
                let entry = parse_ref_line(rem);
                out.push(entry);
            }
            proof {
                assert(refs_view(out@) =~= spec_parse_ref_list(text@));
            }
            return out;
        }
    }
}

// --- Ref resolution ---

/// Hash of the first `HEAD` entry, if any.
pub open spec fn find_head(refs: Seq<RefV>) -> Option<Seq<char>>
    decreases refs.len(),
{
    if refs.len() == 0 {
        None
    } else if refs[0].kind == RefKind::Head {
        Some(refs[0].hash)
    } else {
        find_head(refs.skip(1))
    }
}

/// Hash of the first entry whose name is exactly `sel`, if any.
pub open spec fn find_exact(refs: Seq<RefV>, sel: Seq<char>) -> Option<Seq<char>>
    decreases refs.len(),
{
    if refs.len() == 0 {
        None
    } else if refs[0].name == sel {
        Some(refs[0].hash)
    } else {
        find_exact(refs.skip(1), sel)
    }
}

/// Hash of the first entry whose hash starts with `sel`, if any.
pub open spec fn find_pref(refs: Seq<RefV>, sel: Seq<char>) -> Option<Seq<char>>
    decreases refs.len(),
{
    if refs.len() == 0 {
        None
    } else if has_prefix(refs[0].hash, sel) {
        Some(refs[0].hash)
    } else {
        find_pref(refs.skip(1), sel)
    }
}

/// Resolution of a non-`HEAD` selector: exact name match first; a
/// selector shorter than eight characters is then rejected outright;
/// otherwise a partial-hash prefix scan runs.
pub open spec fn spec_select(sel: Seq<char>, refs: Seq<RefV>) -> Result<Seq<char>, RegitError> {
    match find_exact(refs, sel) {
        Some(h) => Ok(h),
        None => {
            if sel.len() < 8 {
                Err(RegitError::RefTooShort)
            } else {
                match find_pref(refs, sel) {
                    Some(h) => Ok(h),
                    None => Err(RegitError::RefNotFound),
                }
            }
        },
    }
}

/// Resolution of a ref against a reference list.  `HEAD` resolves only
/// through the head entry and ignores every other entry.
pub open spec fn spec_resolve(sel: Seq<char>, refs: Seq<RefV>) -> Result<Seq<char>, RegitError> {
    if sel == "HEAD"@ {
        match find_head(refs) {
            Some(h) => Ok(h),
            None => Err(RegitError::RefNotFound),
        }
    } else {
        spec_select(sel, refs)
    }
}

proof fn lemma_find_head_skip(refs: Seq<RefV>, i: int)
    requires
        0 <= i <= refs.len(),
        forall|j: int| 0 <= j < i ==> refs[j].kind != RefKind::Head,
    ensures
        find_head(refs) == find_head(refs.skip(i)),
    decreases i,
{
    if i == 0 {
        assert(refs.skip(0) =~= refs);
    } else {
        lemma_find_head_skip(refs, i - 1);
        assert(refs.skip(i - 1).len() > 0);
        assert(refs.skip(i - 1)[0] == refs[i - 1]);
        assert(refs.skip(i - 1).skip(1) =~= refs.skip(i));
    }
}

proof fn lemma_find_exact_skip(refs: Seq<RefV>, sel: Seq<char>, i: int)
    requires
        0 <= i <= refs.len(),
        forall|j: int| 0 <= j < i ==> refs[j].name != sel,
    ensures
        find_exact(refs, sel) == find_exact(refs.skip(i), sel),
    decreases i,
{
    if i == 0 {
        assert(refs.skip(0) =~= refs);
    } else {
        lemma_find_exact_skip(refs, sel, i - 1);
        assert(refs.skip(i - 1)[0] == refs[i - 1]);
        assert(refs.skip(i - 1).skip(1) =~= refs.skip(i));
    }
}

proof fn lemma_find_pref_skip(refs: Seq<RefV>, sel: Seq<char>, i: int)
    requires
        0 <= i <= refs.len(),
        forall|j: int| 0 <= j < i ==> !has_prefix(refs[j].hash, sel),
    ensures
        find_pref(refs, sel) == find_pref(refs.skip(i), sel),
    decreases i,
{
    if i == 0 {
        assert(refs.skip(0) =~= refs);
    } else {
        lemma_find_pref_skip(refs, sel, i - 1);
        assert(refs.skip(i - 1)[0] == refs[i - 1]);
        assert(refs.skip(i - 1).skip(1) =~= refs.skip(i));
    }
}

/// Resolve a non-`HEAD` selector against the reference list: the first
/// exact name match wins; with no exact match a selector shorter than
/// eight characters fails with `RefTooShort`; otherwise the first entry
/// whose hash starts with the selector wins; else `RefNotFound`.
pub fn select_ref(refs: &Vec<Ref>, selector: &str) -> (r: Result<String, RegitError>)
    ensures
        r is Ok <==> spec_select(selector@, refs_view(refs@)) is Ok,
        r matches Ok(h) ==> spec_select(selector@, refs_view(refs@)) matches Ok(sh) && h@ == sh,
        r matches Err(e) ==> spec_select(selector@, refs_view(refs@)) matches Err(se) && e == se,
{
    let ghost rv = refs_view(refs@);
    let n = refs.len();
    let mut i: usize = 0;
    while i < n
        invariant
            rv == refs_view(refs@),
            n == refs.len(),
            rv.len() == n,
            0 <= i <= n,
            forall|j: int| 0 <= j < i ==> rv[j].name != selector@,
        decreases n - i,
    {
        let entry = &refs[i];
        if str_eq(entry.name.as_str(), selector) {
            proof {
                lemma_find_exact_skip(rv, selector@, i as int);
                assert(rv.skip(i as int)[0] == rv[i as int]);
            }
            return Ok(entry.hash.clone());
        }
        i = i + 1;
    }
    proof {
        lemma_find_exact_skip(rv, selector@, n as int);
        assert(rv.skip(n as int) =~= Seq::<RefV>::empty());
    }
    if selector.unicode_len() < 8 {
        return Err(RegitError::RefTooShort);
    }
    let mut i: usize = 0;
    while i < n
        invariant
            rv == refs_view(refs@),
            n == refs.len(),
            rv.len() == n,
            0 <= i <= n,
            find_exact(rv, selector@) is None,
            selector@.len() >= 8,
            forall|j: int| 0 <= j < i ==> !has_prefix(rv[j].hash, selector@),
        decreases n - i,
    {
        let entry = &refs[i];
        if str_has_prefix(entry.hash.as_str(), selector) {
            proof {
                lemma_find_pref_skip(rv, selector@, i as int);
                assert(rv.skip(i as int)[0] == rv[i as int]);
            }
            return Ok(entry.hash.clone());
        }
        i = i + 1;
    }
    proof {
        lemma_find_pref_skip(rv, selector@, n as int);
        assert(rv.skip(n as int) =~= Seq::<RefV>::empty());
    }
    Err(RegitError::RefNotFound)
}

impl Repository {
    /// Resolve this repository's ref against a reference list supplied by
    /// the caller.  Deterministic: the result is a function of the ref
    /// and the list alone.
    pub fn get_hash(&self, refs: &Vec<Ref>) -> (r: Result<String, RegitError>)
        ensures
            r is Ok <==> spec_resolve(self._ref@, refs_view(refs@)) is Ok,
            r matches Ok(h) ==> spec_resolve(self._ref@, refs_view(refs@)) matches Ok(sh) && h@
                == sh,
            r matches Err(e) ==> spec_resolve(self._ref@, refs_view(refs@)) matches Err(se) && e
                == se,
    {
        let ghost rv = refs_view(refs@);
        if str_eq(self._ref.as_str(), "HEAD") {
            let n = refs.len();
            let mut i: usize = 0;
            while i < n
                invariant
                    self._ref@ == "HEAD"@,
                    rv == refs_view(refs@),
                    n == refs.len(),
                    rv.len() == n,
                    0 <= i <= n,
                    forall|j: int| 0 <= j < i ==> rv[j].kind != RefKind::Head,
                decreases n - i,
            {
                let entry = &refs[i];
                if matches!(entry.kind, RefKind::Head) {
                    proof {
                        lemma_find_head_skip(rv, i as int);
                        assert(rv.skip(i as int)[0] == rv[i as int]);
                    }
                    return Ok(entry.hash.clone());
                }
                i = i + 1;
            }
            proof {
                lemma_find_head_skip(rv, n as int);
                assert(rv.skip(n as int) =~= Seq::<RefV>::empty());
            }
            Err(RegitError::RefNotFound)
        } else {
            select_ref(refs, self._ref.as_str())
        }
    }
}

impl Repository {
    /// Resolve this repository's ref against the raw newline-delimited
    /// `hash<TAB>refPath` listing of the remote.
    pub fn resolve(&self, ref_list: &str) -> (r: Result<String, RegitError>)
        ensures
            r is Ok <==> spec_resolve(self._ref@, spec_parse_ref_list(ref_list@)) is Ok,
            r matches Ok(h) ==> spec_resolve(self._ref@, spec_parse_ref_list(ref_list@))
                matches Ok(sh) && h@ == sh,
            r matches Err(e) ==> spec_resolve(self._ref@, spec_parse_ref_list(ref_list@))
                matches Err(se) && e == se,
    {
        let refs = parse_ref_list(ref_list);
        self.get_hash(&refs)
    }
}

// --- Derived names and addresses ---

/// The archive download address for a resolved hash; its shape depends on
/// the hosting provider.
pub open spec fn spec_archive_url(domain: Seq<char>, url: Seq<char>, hash: Seq<char>) -> Seq<
    char,
> {
    if domain == "gitlab.com"@ {
        url + "/repository/archive.tar.gz?ref="@ + hash
    } else if domain == "bitbucket.org"@ {
        url + "/get/"@ + hash + ".tar.gz"@
    } else {
        url + "/archive/"@ + hash + ".tar.gz"@
    }
}

/// `user/name`, with the subdirectory appended when one was given.
pub open spec fn spec_full_name(user: Seq<char>, name: Seq<char>, sub: Seq<char>) -> Seq<char> {
    if sub.len() == 0 {
        user + "/"@ + name
    } else {
        user + "/"@ + name + "/"@ + sub
    }
}

/// The cache signature `user/name:ref` of a repository at a ref.
pub open spec fn spec_signature(user: Seq<char>, name: Seq<char>, reff: Seq<char>) -> Seq<char> {
    user + "/"@ + name + ":"@ + reff
}

impl Repository {
    /// The address the archive for `hash` is downloaded from.
    pub fn archive_url(&self, hash: &str) -> (r: String)
        ensures
            r@ == spec_archive_url(self.domain@, self.url@, hash@),
    {
        if str_eq(self.domain.as_str(), "gitlab.com") {
            let r = self.url.clone().concat("/repository/archive.tar.gz?ref=").concat(hash);
            proof {
                assert(r@ =~= spec_archive_url(self.domain@, self.url@, hash@));
            }
            r
        } else if str_eq(self.domain.as_str(), "bitbucket.org") {
            let r = self.url.clone().concat("/get/").concat(hash).concat(".tar.gz");
            proof {
                assert(r@ =~= spec_archive_url(self.domain@, self.url@, hash@));
            }
            r
        } else {
            let r = self.url.clone().concat("/archive/").concat(hash).concat(".tar.gz");
            proof {
                assert(r@ =~= spec_archive_url(self.domain@, self.url@, hash@));
            }
            r
        }
    }

    /// `user/name`, with the subdirectory appended when one was given.
    pub fn full_name(&self) -> (r: String)
        ensures
            r@ == spec_full_name(self.user@, self.name@, self.sub_dir@),
    {
        let base = self.user.clone().concat("/").concat(self.name.as_str());
        if self.sub_dir.as_str().unicode_len() == 0 {
            proof {
                assert(base@ =~= spec_full_name(self.user@, self.name@, self.sub_dir@));
            }
            base
        } else {
            let r = base.concat("/").concat(self.sub_dir.as_str());
            proof {
                assert(r@ =~= spec_full_name(self.user@, self.name@, self.sub_dir@));
            }
            r
        }
    }

    /// The full name followed by `:` and the ref.
    pub fn full_name_ref(&self) -> (r: String)
        ensures
            r@ == spec_full_name(self.user@, self.name@, self.sub_dir@) + ":"@ + self._ref@,
    {
        let r = self.full_name().concat(":").concat(self._ref.as_str());
        proof {
            assert(r@ =~= spec_full_name(self.user@, self.name@, self.sub_dir@) + ":"@
                + self._ref@);
        }
        r
    }

    /// The cache signature `user/name:ref` of this repository at its ref.
    pub fn signature(&self) -> (r: String)
        ensures
            r@ == spec_signature(self.user@, self.name@, self._ref@),
    {
        let r = self.user.clone().concat("/").concat(self.name.as_str()).concat(":").concat(
            self._ref.as_str(),
        );
        proof {
            assert(r@ =~= spec_signature(self.user@, self.name@, self._ref@));
        }
        r
    }

    /// The HTTPS URL of the repository.
    pub fn url(&self) -> (r: String)
        ensures
            r@ == self.url@,
    {
        self.url.clone()
    }
}

/// The hash one clone uses: the cached hash when the repository's
/// signature is in the cache, else the ref resolved against the
/// reference list.
pub open spec fn spec_clone_hash(
    repo: Repository,
    refs: Seq<RefV>,
    m: Map<Seq<char>, Seq<char>>,
) -> Result<Seq<char>, RegitError> {
    let sig = spec_signature(repo.user@, repo.name@, repo._ref@);
    if m.contains_key(sig) {
        Ok(m[sig])
    } else {
        spec_resolve(repo._ref@, refs)
    }
}

impl Repository {
    /// The cached hash for this repository at its ref when the cache
    /// holds one, else the ref resolved against the reference list.
    pub fn get_hash_cached(&self, cache: &Cache, refs: &Vec<Ref>) -> (r: Result<
        String,
        RegitError,
    >)
        requires
            cache.wf(),
        ensures
            r is Ok <==> spec_clone_hash(*self, refs_view(refs@), cache.map()) is Ok,
            r matches Ok(h) ==> spec_clone_hash(*self, refs_view(refs@), cache.map()) matches Ok(
                sh,
            ) && h@ == sh,
            r matches Err(e) ==> spec_clone_hash(*self, refs_view(refs@), cache.map())
                matches Err(se) && e == se,
    {
        let id = self.user.clone().concat("/").concat(self.name.as_str());
        proof {
            assert(id@ + ":"@ + self._ref@ =~= spec_signature(self.user@, self.name@, self._ref@));
        }
        if let Some(h) = cache.get_cached_hash(id.as_str(), self._ref.as_str()) {
            return Ok(h);
        }
        self.get_hash(refs)
    }
}

// --- The locator round trip ---

/// The subdirectory part of a locator: nothing, or `/` and the path.
pub open spec fn spec_sub_part(sub: Seq<char>) -> Seq<char> {
    if sub.len() == 0 {
        Seq::<char>::empty()
    } else {
        "/"@ + sub
    }
}

/// The path part of a locator: `user/name`, then the subdirectory part.
pub open spec fn spec_build_path(user: Seq<char>, name: Seq<char>, sub: Seq<char>) -> Seq<char> {
    user + "/"@ + name + spec_sub_part(sub)
}

/// A locator's part before any `#`: the path, with `host:` in front when
/// a host is written.
pub open spec fn spec_build_body(
    host: Option<Seq<char>>,
    user: Seq<char>,
    name: Seq<char>,
    sub: Seq<char>,
) -> Seq<char> {
    match host {
        Some(h) => h + ":"@ + spec_build_path(user, name, sub),
        None => spec_build_path(user, name, sub),
    }
}

/// A whole locator, with `#ref` appended when a ref is written.
pub open spec fn spec_build_locator(
    host: Option<Seq<char>>,
    user: Seq<char>,
    name: Seq<char>,
    sub: Seq<char>,
    reff: Option<Seq<char>>,
) -> Seq<char> {
    match reff {
        Some(r) => spec_build_body(host, user, name, sub) + "#"@ + r,
        None => spec_build_body(host, user, name, sub),
    }
}

proof fn lemma_split_path_of_build(user: Seq<char>, name: Seq<char>, sub: Seq<char>)
    requires
        ok_seg(user),
        ok_seg(name),
        strip_git_suffix(name) == name,
        sub.len() == 0 || ok_sub(sub),
    ensures
        spec_split_path(spec_build_path(user, name, sub)) == Some((user, name, sub)),
        lacks(spec_build_path(user, name, sub), '#'),
        no_adjacent(spec_build_path(user, name, sub), '/'),
        spec_build_path(user, name, sub).len() > user.len(),
        forall|i: int|
            0 <= i < user.len() ==> #[trigger] spec_build_path(user, name, sub)[i] == user[i],
        spec_build_path(user, name, sub)[user.len() as int] == '/',
        first_ix(spec_build_path(user, name, sub), '/') == user.len(),
{
    reveal_strlit("/");
    let subpart = spec_sub_part(sub);
    let p = spec_build_path(user, name, sub);
    let tail = "/"@ + (name + subpart);
    assert(p =~= user + tail);
    // lacks '#'
    assert(lacks("/"@, '#'));
    assert(lacks(name, '#'));
    assert(lacks(subpart, '#')) by {
        if sub.len() > 0 {
            lemma_lacks_concat("/"@, sub, '#');
        }
    }
    lemma_lacks_concat(user, "/"@, '#');
    lemma_lacks_concat(user + "/"@, name, '#');
    lemma_lacks_concat(user + "/"@ + name, subpart, '#');
    // no adjacent slashes
    assert(no_adjacent(user, '/'));
    assert(no_adjacent(name, '/'));
    assert(no_adjacent("/"@, '/'));
    assert(no_adjacent(subpart, '/')) by {
        if sub.len() > 0 {
            lemma_no_adjacent_concat("/"@, sub, '/');
        }
    }
    lemma_no_adjacent_concat(user, "/"@, '/');
    lemma_no_adjacent_concat(user + "/"@, name, '/');
    lemma_no_adjacent_concat(user + "/"@ + name, subpart, '/');
    // first slash at user.len()
    assert(tail[0] == '/');
    assert(first_ix(tail, '/') == 0);
    lemma_first_ix_concat(user, tail, '/');
    assert(first_ix(p, '/') == user.len());
    // the path splits back into its parts
    let ul = user.len() as int;
    assert(p.take(ul) =~= user);
    let q = p.skip(ul + 1);
    assert(q =~= name + subpart);
    if sub.len() == 0 {
        assert(q =~= name);
        lemma_first_ix_absent(q, '/');
        assert(sub =~= Seq::<char>::empty());
        assert(spec_split_path(p) == Some((user, name, sub)));
    } else {
        assert(q =~= name + ("/"@ + sub));
        assert(("/"@ + sub)[0] == '/');
        assert(first_ix("/"@ + sub, '/') == 0);
        lemma_first_ix_concat(name, "/"@ + sub, '/');
        let nl = name.len() as int;
        assert(first_ix(q, '/') == nl);
        assert(q.take(nl) =~= name);
        assert(q.skip(nl + 1) =~= sub);
        assert(sub[sub.len() - 1] != '/');
        assert(spec_split_path(p) == Some((user, name, sub)));
    }
    assert forall|i: int| 0 <= i < user.len() implies #[trigger] p[i] == user[i] by {
        assert(p[i] == (user + tail)[i]);
    }
}

/// A locator assembled from a host, a user, a name, a subdirectory path
/// and a ref parses back to exactly those fields; an omitted ref parses
/// to `HEAD`, and an omitted host to the default domain, which is a
/// supported one.
#[verifier::rlimit(100)]
#[verifier::spinoff_prover]
pub proof fn lemma_locator_round_trip(
    host: Option<Seq<char>>,
    user: Seq<char>,
    name: Seq<char>,
    sub: Seq<char>,
    reff: Option<Seq<char>>,
)
    requires
        host matches Some(h) ==> ok_host(h) && !has_prefix(h, "git@"@),
        ok_seg(user),
        lacks(user, ':'),
        host is None ==> !has_prefix(user, "git@"@),
        ok_seg(name),
        strip_git_suffix(name) == name,
        sub.len() == 0 || ok_sub(sub),
        reff matches Some(r) ==> r.len() > 0,
    ensures
        spec_parse_locator(spec_build_locator(host, user, name, sub, reff)) matches Some(p) && {
            &&& p.domain == (match host {
                Some(h) => h,
                None => "github.com"@,
            })
            &&& p.user == user
            &&& p.name == name
            &&& p.sub_dir == sub
            &&& p.git_ref == (match reff {
                Some(r) => r,
                None => "HEAD"@,
            })
        },
        is_supported_domain("github.com"@),
{
    reveal_strlit("https://");
    reveal_strlit("git@");
    reveal_strlit(":");
    reveal_strlit("/");
    reveal_strlit("#");
    lemma_split_path_of_build(user, name, sub);
    let path0 = spec_build_path(user, name, sub);
    let body = spec_build_body(host, user, name, sub);
    let ll = spec_build_locator(host, user, name, sub, reff);
    // The body holds no `#`.
    match host {
        Some(h) => {
            assert(lacks(":"@, '#'));
            lemma_lacks_concat(h, ":"@, '#');
            lemma_lacks_concat(h + ":"@, path0, '#');
            assert(body =~= (h + ":"@) + path0);
            assert(lacks(body, '#'));
        },
        None => {
            assert(body == path0);
        },
    }
    // Splitting the ref off recovers the body and the ref.
    let i = first_ix(ll, '#');
    match reff {
        Some(r) => {
            assert(ll =~= body + ("#"@ + r));
            assert(("#"@ + r)[0] == '#');
            assert(first_ix("#"@ + r, '#') == 0);
            lemma_first_ix_concat(body, "#"@ + r, '#');
            assert(i == body.len());
            assert(ll.take(i) =~= body);
            assert(ll.skip(i + 1) =~= r);
            assert(i < ll.len());
            assert(ll.skip(i + 1).len() == r.len());
        },
        None => {
            assert(ll == body);
            lemma_first_ix_absent(ll, '#');
            assert(i == ll.len());
            assert(ll.take(i) =~= body);
        },
    }
    // Splitting the host off recovers the host and the path.
    match host {
        Some(h) => {
            let hl = h.len() as int;
            // no double slash anywhere in the body
            assert(no_adjacent(h, '/'));
            assert(no_adjacent(":"@, '/'));
            lemma_no_adjacent_concat(h, ":"@, '/');
            lemma_no_adjacent_concat(h + ":"@, path0, '/');
            assert(no_adjacent(body, '/'));
            // so the body cannot start with `https://`
            assert(!has_prefix(body, "https://"@)) by {
                if has_prefix(body, "https://"@) {
                    assert(body.take(8)[6] == body[6]);
                    assert(body.take(8)[7] == body[7]);
                    assert(body[6] == '/' && body[7] == '/');
                    assert(!(body[6] == '/' && body[7] == '/'));
                }
            }
            // nor with `git@`
            assert(!has_prefix(body, "git@"@)) by {
                if has_prefix(body, "git@"@) {
                    if h.len() >= 4 {
                        assert forall|j: int| 0 <= j < 4 implies h[j] == "git@"@[j] by {
                            assert(body[j] == ((h + ":"@) + path0)[j]);
                            assert(body.take(4)[j] == body[j]);
                        }
                        assert(h.take(4) =~= "git@"@);
                        assert(has_prefix(h, "git@"@));
                    } else {
                        assert(body[hl] == ((h + ":"@) + path0)[hl]);
                        assert(body[hl] == ':');
                        assert(body.take(4)[hl] == body[hl]);
                        assert(body[hl] == "git@"@[hl]);
                        assert("git@"@[1] == 'i' && "git@"@[2] == 't' && "git@"@[3] == '@');
                        assert(hl >= 1);
                        assert(false);
                    }
                }
            }
            // the first `:` ends the host; the first `/` comes later
            assert(body =~= h + (":"@ + path0));
            assert((":"@ + path0)[0] == ':');
            assert(first_ix(":"@ + path0, ':') == 0);
            lemma_first_ix_concat(h, ":"@ + path0, ':');
            assert(first_ix(body, ':') == hl);
            lemma_lacks_concat(h, ":"@, '/');
            lemma_lacks_concat(h + ":"@, user, '/');
            let upre = (h + ":"@) + user;
            let tail = "/"@ + (name + spec_sub_part(sub));
            assert(body =~= upre + tail);
            assert(tail[0] == '/');
            assert(first_ix(tail, '/') == 0);
            lemma_first_ix_concat(upre, tail, '/');
            assert(first_ix(body, '/') == hl + 1 + user.len());
            assert(body.take(hl) =~= h);
            assert(body.skip(hl + 1) =~= path0);
            assert(spec_split_host(body) == Some((Some(h), path0)));
        },
        None => {
            // no double slash in the path either
            assert(!has_prefix(body, "https://"@)) by {
                if has_prefix(body, "https://"@) {
                    assert(body.take(8)[6] == body[6]);
                    assert(body.take(8)[7] == body[7]);
                    assert(body[6] == '/' && body[7] == '/');
                    assert(!(body[6] == '/' && body[7] == '/'));
                }
            }
            let ul = user.len() as int;
            assert(!has_prefix(body, "git@"@)) by {
                if has_prefix(body, "git@"@) {
                    if user.len() >= 4 {
                        assert forall|j: int| 0 <= j < 4 implies user[j] == "git@"@[j] by {
                            assert(body[j] == user[j]);
                            assert(body.take(4)[j] == body[j]);
                        }
                        assert(user.take(4) =~= "git@"@);
                        assert(has_prefix(user, "git@"@));
                    } else {
                        assert(body[ul] == '/');
                        assert(body.take(4)[ul] == body[ul]);
                        assert(body[ul] == "git@"@[ul]);
                        assert("git@"@[1] == 'i' && "git@"@[2] == 't' && "git@"@[3] == '@');
                        assert(ul >= 1);
                        assert(false);
                    }
                }
            }
            // no `:` before the first `/`
            lemma_first_ix_is(body, ':');
            let ci = first_ix(body, ':');
            if ci < ul {
                assert(body[ci] == user[ci]);
                assert(false);
            }
            assert(first_ix(body, '/') == ul);
            assert(spec_split_host(body) == Some((None::<Seq<char>>, body)));
        },
    }
    assert(spec_parse_locator(ll) matches Some(p) && {
        &&& p.domain == (match host {
            Some(h) => h,
            None => "github.com"@,
        })
        &&& p.user == user
        &&& p.name == name
        &&& p.sub_dir == sub
        &&& p.git_ref == (match reff {
            Some(r) => r,
            None => "HEAD"@,
        })
    });
}

/// Splitting the ref suffix off a built locator recovers the body and
/// the ref.
proof fn lemma_ref_split(body: Seq<char>, reff: Option<Seq<char>>)
    requires
        lacks(body, '#'),
        reff matches Some(r) ==> r.len() > 0,
    ensures
        ({
            let ll = match reff {
                Some(r) => body + "#"@ + r,
                None => body,
            };
            let i = first_ix(ll, '#');
            &&& ll.take(i) == body
            &&& (match reff {
                Some(r) => i == body.len() && i < ll.len() && ll.skip(i + 1) == r && ll.skip(
                    i + 1,
                ).len() == r.len(),
                None => i == ll.len(),
            })
        }),
{
    reveal_strlit("#");
    match reff {
        Some(r) => {
            let ll = body + "#"@ + r;
            assert(ll =~= body + ("#"@ + r));
            assert(("#"@ + r)[0] == '#');
            assert(first_ix("#"@ + r, '#') == 0);
            lemma_first_ix_concat(body, "#"@ + r, '#');
            assert(ll.take(body.len() as int) =~= body);
            assert(ll.skip(body.len() as int + 1) =~= r);
        },
        None => {
            lemma_first_ix_absent(body, '#');
            assert(body.take(body.len() as int) =~= body);
        },
    }
}

/// A locator's part before any `#`, written with the `https://host/`
/// prefix.
pub open spec fn spec_build_body_https(
    h: Seq<char>,
    user: Seq<char>,
    name: Seq<char>,
    sub: Seq<char>,
) -> Seq<char> {
    "https://"@ + h + "/"@ + spec_build_path(user, name, sub)
}

/// A whole locator written with the `https://host/` prefix.
pub open spec fn spec_build_locator_https(
    h: Seq<char>,
    user: Seq<char>,
    name: Seq<char>,
    sub: Seq<char>,
    reff: Option<Seq<char>>,
) -> Seq<char> {
    match reff {
        Some(r) => spec_build_body_https(h, user, name, sub) + "#"@ + r,
        None => spec_build_body_https(h, user, name, sub),
    }
}

/// The locator round trip for the `https://host/` form: the host, user,
/// name, subdirectory path and ref are recovered exactly; an omitted ref
/// parses to `HEAD`.
#[verifier::spinoff_prover]
pub proof fn lemma_locator_round_trip_https(
    h: Seq<char>,
    user: Seq<char>,
    name: Seq<char>,
    sub: Seq<char>,
    reff: Option<Seq<char>>,
)
    requires
        ok_host(h),
        ok_seg(user),
        ok_seg(name),
        strip_git_suffix(name) == name,
        sub.len() == 0 || ok_sub(sub),
        reff matches Some(r) ==> r.len() > 0,
    ensures
        spec_parse_locator(spec_build_locator_https(h, user, name, sub, reff)) matches Some(p)
            && {
            &&& p.domain == h
            &&& p.user == user
            &&& p.name == name
            &&& p.sub_dir == sub
            &&& p.git_ref == (match reff {
                Some(r) => r,
                None => "HEAD"@,
            })
        },
{
    reveal_strlit("https://");
    reveal_strlit("/");
    lemma_split_path_of_build(user, name, sub);
    let path0 = spec_build_path(user, name, sub);
    let body = spec_build_body_https(h, user, name, sub);
    let ll = spec_build_locator_https(h, user, name, sub, reff);
    assert(lacks("https://"@, '#'));
    assert(lacks("/"@, '#'));
    lemma_lacks_concat("https://"@, h, '#');
    lemma_lacks_concat("https://"@ + h, "/"@, '#');
    lemma_lacks_concat("https://"@ + h + "/"@, path0, '#');
    assert(lacks(body, '#'));
    lemma_ref_split(body, reff);
    assert(has_prefix(body, "https://"@)) by {
        assert(body.take(8) =~= "https://"@);
    }
    let t = body.skip(8);
    let tail = "/"@ + path0;
    assert(t =~= h + tail);
    assert(tail[0] == '/');
    assert(first_ix(tail, '/') == 0);
    lemma_first_ix_concat(h, tail, '/');
    assert(first_ix(t, '/') == h.len());
    assert(t.take(h.len() as int) =~= h);
    assert(t.skip(h.len() as int + 1) =~= path0);
    assert(spec_split_host(body) == Some((Some(h), path0)));
    assert(spec_parse_locator(ll) matches Some(p) && {
        &&& p.domain == h
        &&& p.user == user
        &&& p.name == name
        &&& p.sub_dir == sub
        &&& p.git_ref == (match reff {
            Some(r) => r,
            None => "HEAD"@,
        })
    });
}

/// A locator's part before any `#`, written with the `git@host:` prefix.
pub open spec fn spec_build_body_git_at(
    h: Seq<char>,
    user: Seq<char>,
    name: Seq<char>,
    sub: Seq<char>,
) -> Seq<char> {
    "git@"@ + h + ":"@ + spec_build_path(user, name, sub)
}

/// A whole locator written with the `git@host:` prefix.
pub open spec fn spec_build_locator_git_at(
    h: Seq<char>,
    user: Seq<char>,
    name: Seq<char>,
    sub: Seq<char>,
    reff: Option<Seq<char>>,
) -> Seq<char> {
    match reff {
        Some(r) => spec_build_body_git_at(h, user, name, sub) + "#"@ + r,
        None => spec_build_body_git_at(h, user, name, sub),
    }
}

/// The locator round trip for the `git@host:` form: the host, user,
/// name, subdirectory path and ref are recovered exactly; an omitted ref
/// parses to `HEAD`.
#[verifier::rlimit(60)]
#[verifier::spinoff_prover]
pub proof fn lemma_locator_round_trip_git_at(
    h: Seq<char>,
    user: Seq<char>,
    name: Seq<char>,
    sub: Seq<char>,
    reff: Option<Seq<char>>,
)
    requires
        ok_host(h),
        ok_seg(user),
        ok_seg(name),
        strip_git_suffix(name) == name,
        sub.len() == 0 || ok_sub(sub),
        reff matches Some(r) ==> r.len() > 0,
    ensures
        spec_parse_locator(spec_build_locator_git_at(h, user, name, sub, reff)) matches Some(p)
            && {
            &&& p.domain == h
            &&& p.user == user
            &&& p.name == name
            &&& p.sub_dir == sub
            &&& p.git_ref == (match reff {
                Some(r) => r,
                None => "HEAD"@,
            })
        },
{
    reveal_strlit("https://");
    reveal_strlit("git@");
    reveal_strlit(":");
    reveal_strlit("/");
    lemma_split_path_of_build(user, name, sub);
    let path0 = spec_build_path(user, name, sub);
    let body = spec_build_body_git_at(h, user, name, sub);
    let ll = spec_build_locator_git_at(h, user, name, sub, reff);
    assert(lacks("git@"@, '#'));
    assert(lacks(":"@, '#'));
    lemma_lacks_concat("git@"@, h, '#');
    lemma_lacks_concat("git@"@ + h, ":"@, '#');
    lemma_lacks_concat("git@"@ + h + ":"@, path0, '#');
    assert(lacks(body, '#'));
    lemma_ref_split(body, reff);
    assert(!has_prefix(body, "https://"@)) by {
        if has_prefix(body, "https://"@) {
            assert(body.take(8)[0] == body[0]);
            assert(body[0] == 'h');
            assert(body[0] == (("git@"@ + h) + ":"@ + path0)[0]);
            assert(body[0] == 'g');
        }
    }
    assert(has_prefix(body, "git@"@)) by {
        assert(body.take(4) =~= "git@"@);
    }
    let t = body.skip(4);
    assert(t =~= h + (":"@ + path0));
    assert((":"@ + path0)[0] == ':');
    assert(first_ix(":"@ + path0, ':') == 0);
    lemma_first_ix_concat(h, ":"@ + path0, ':');
    assert(first_ix(t, ':') == h.len());
    lemma_lacks_concat(h, ":"@, '/');
    lemma_lacks_concat(h + ":"@, user, '/');
    let upre = (h + ":"@) + user;
    let tail = "/"@ + (name + spec_sub_part(sub));
    assert(t =~= upre + tail);
    assert(tail[0] == '/');
    assert(first_ix(tail, '/') == 0);
    lemma_first_ix_concat(upre, tail, '/');
    assert(first_ix(t, '/') == h.len() + 1 + user.len());
    assert(t.take(h.len() as int) =~= h);
    assert(t.skip(h.len() as int + 1) =~= path0);
    assert(spec_split_host(body) == Some((Some(h), path0)));
    assert(spec_parse_locator(ll) matches Some(p) && {
        &&& p.domain == h
        &&& p.user == user
        &&& p.name == name
        &&& p.sub_dir == sub
        &&& p.git_ref == (match reff {
            Some(r) => r,
            None => "HEAD"@,
        })
    });
}

// --- Laws of ref resolution ---

/// The `HEAD` entries of a reference list, in order.
pub open spec fn heads_only(refs: Seq<RefV>) -> Seq<RefV>
    decreases refs.len(),
{
    if refs.len() == 0 {
        Seq::<RefV>::empty()
    } else if refs[0].kind == RefKind::Head {
        seq![refs[0]] + heads_only(refs.skip(1))
    } else {
        heads_only(refs.skip(1))
    }
}

/// Resolving `HEAD` ignores every entry that is not a `HEAD` entry: the
/// result over the whole list is the result over the `HEAD` entries
/// alone.
pub proof fn lemma_resolve_head_ignores_others(refs: Seq<RefV>)
    ensures
        spec_resolve("HEAD"@, refs) == spec_resolve("HEAD"@, heads_only(refs)),
    decreases refs.len(),
{
    if refs.len() == 0 {
    } else if refs[0].kind == RefKind::Head {
        assert(heads_only(refs)[0] == refs[0]);
        assert(find_head(heads_only(refs)) == Some(refs[0].hash));
    } else {
        lemma_resolve_head_ignores_others(refs.skip(1));
    }
}

/// Resolving `HEAD` returns the hash of the first `HEAD` entry,
/// whatever the other entries hold.
pub proof fn lemma_head_resolution(refs: Seq<RefV>, i: int)
    requires
        0 <= i < refs.len(),
        refs[i].kind == RefKind::Head,
        forall|j: int| 0 <= j < i ==> refs[j].kind != RefKind::Head,
    ensures
        spec_resolve("HEAD"@, refs) == Ok::<Seq<char>, RegitError>(refs[i].hash),
{
    lemma_find_head_skip(refs, i);
    assert(refs.skip(i)[0] == refs[i]);
}

/// A ref shorter than eight characters with no exact name match fails
/// with `RefTooShort` on every reference list: the partial-hash scan is
/// never attempted, whatever hashes the list holds.
pub proof fn lemma_short_ref_rejected(sel: Seq<char>, refs: Seq<RefV>)
    requires
        sel != "HEAD"@,
        sel.len() < 8,
        find_exact(refs, sel) is None,
    ensures
        spec_resolve(sel, refs) == Err::<Seq<char>, RegitError>(RegitError::RefTooShort),
{
}

/// Resolution is deterministic: two resolutions of the same ref against
/// the same reference list give the same result.
pub proof fn lemma_resolve_deterministic(
    sel: Seq<char>,
    refs: Seq<RefV>,
    r1: Result<Seq<char>, RegitError>,
    r2: Result<Seq<char>, RegitError>,
)
    requires
        r1 == spec_resolve(sel, refs),
        r2 == spec_resolve(sel, refs),
    ensures
        r1 == r2,
{
}

} // verus!
