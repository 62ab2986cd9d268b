use vstd::prelude::*;

use std::io::Read;
use crate::errors::ExtractError;
use crate::strutil::{has_prefix, str_has_prefix};

verus! {

// --- Archive entries ---

/// One entry of a tar archive: its stored path, its bytes, and whether it
/// is a directory.
#[derive(Debug)]
pub struct TarEntry {
    pub path: String,
    pub data: Vec<u8>,
    pub is_dir: bool,
}

/// The mathematical value of a `TarEntry`.
#[verifier::ext_equal]
pub struct TarEntryV {
    pub path: Seq<char>,
    pub data: Seq<u8>,
    pub is_dir: bool,
}

impl View for TarEntry {
    type V = TarEntryV;

    open spec fn view(&self) -> TarEntryV {
        TarEntryV { path: self.path@, data: self.data@, is_dir: self.is_dir }
    }
}

/// The values of a list of entries.
pub open spec fn entries_view(entries: Seq<TarEntry>) -> Seq<TarEntryV> {
    entries.map_values(|e: TarEntry| e@)
}

// --- Trusted decoding of the gzip and tar layers ---

/// The bytes a gzip stream decompresses to, `None` when the stream is not
/// well-formed gzip.
pub uninterp spec fn gunzip_of(b: Seq<u8>) -> Option<Seq<u8>>;

/// The entries a tar stream holds, in archive order, `None` when the
/// stream is not a well-formed tar archive.
pub uninterp spec fn tar_entries_of(b: Seq<u8>) -> Option<Seq<TarEntryV>>;

/// Relies on flate2's GzDecoder: decompression is a function of the
/// input bytes alone, and fails exactly on malformed input.
#[verifier::external_body]
fn gunzip(bytes: &Vec<u8>) -> (r: Option<Vec<u8>>)
    ensures
        match r {
            Some(v) => gunzip_of(bytes@) == Some(v@),
            None => gunzip_of(bytes@) is None,
        },
{
    let mut d = flate2::read::GzDecoder::new(&bytes[..]);
    let mut out: Vec<u8> = Vec::new();
    match d.read_to_end(&mut out) {
        Ok(_) => Some(out),
        Err(_) => None,
    }
}

/// Relies on tar's Archive over an in-memory reader: the entry list
/// (paths, bytes, directory flags, in archive order) is a function of
/// the input bytes alone, and reading fails exactly on a malformed
/// archive.
#[verifier::external_body]
fn tar_entry_list(bytes: &Vec<u8>) -> (r: Option<Vec<TarEntry>>)
    ensures
        match r {
            Some(v) => tar_entries_of(bytes@) == Some(entries_view(v@)),
            None => tar_entries_of(bytes@) is None,
        },
{
    let mut archive = tar::Archive::new(&bytes[..]);
    let mut out: Vec<TarEntry> = Vec::new();
    for entry in archive.entries().ok()? {
        let mut e = entry.ok()?;
        let path = e.path().ok()?.to_string_lossy().into_owned();
        let is_dir = e.header().entry_type().is_dir();
        let mut data: Vec<u8> = Vec::new();
        e.read_to_end(&mut data).ok()?;
        out.push(TarEntry { path, data, is_dir });
    }
    Some(out)
}

// --- The selective extraction rules ---

/// `i` starts a `..` path segment of `p`.
pub open spec fn is_dotdot_at(p: Seq<char>, i: int) -> bool {
    &&& 0 <= i
    &&& i + 2 <= p.len()
    &&& p[i] == '.'
    &&& p[i + 1] == '.'
    &&& i == 0 || p[i - 1] == '/'
    &&& i + 2 == p.len() || p[i + 2] == '/'
}

/// `p` holds a `..` segment, by which a path escapes its destination.
pub open spec fn has_dotdot_segment(p: Seq<char>) -> bool {
    exists|i: int| is_dotdot_at(p, i)
}

/// A path that would land outside the destination: one with a `..`
/// segment, or an absolute one (joining an absolute path replaces the
/// destination instead of descending into it).
pub open spec fn is_escaping_path(p: Seq<char>) -> bool {
    has_dotdot_segment(p) || (p.len() > 0 && p[0] == '/')
}

/// What selective extraction does with one entry path.
pub enum SpecEntryAction {
    /// Unpack under the destination at this relative path.
    Keep(Seq<char>),
    /// Not under the requested subdirectory: pass over it.
    Skip,
    /// The rewritten path would escape the destination.
    Escape,
}

/// The rule for one entry: with no subdirectory filter every entry is
/// unpacked at its stored path; with a filter, an entry is unpacked
/// exactly when `<subDir>/` is a prefix of its path, at the path with
/// that prefix stripped.  Either way a resulting path that escapes the
/// destination (a `..` segment, or an absolute path) is rejected.
pub open spec fn spec_entry_target(p: Seq<char>, sub: Seq<char>) -> SpecEntryAction {
    if sub.len() == 0 {
        if is_escaping_path(p) {
            SpecEntryAction::Escape
        } else {
            SpecEntryAction::Keep(p)
        }
    } else {
        let pref = sub + "/"@;
        if has_prefix(p, pref) {
            let rest = p.skip(pref.len() as int);
            if rest.len() == 0 {
                SpecEntryAction::Skip
            } else if is_escaping_path(rest) {
                SpecEntryAction::Escape
            } else {
                SpecEntryAction::Keep(rest)
            }
        } else {
            SpecEntryAction::Skip
        }
    }
}

/// The kept entries with rewritten paths, or the first escape.
pub open spec fn spec_filter(entries: Seq<TarEntryV>, sub: Seq<char>) -> Result<
    Seq<TarEntryV>,
    ExtractError,
>
    decreases entries.len(),
{
    if entries.len() == 0 {
        Ok(Seq::<TarEntryV>::empty())
    } else {
        match spec_entry_target(entries[0].path, sub) {
            SpecEntryAction::Escape => Err(ExtractError::PathEscape),
            SpecEntryAction::Skip => spec_filter(entries.skip(1), sub),
            SpecEntryAction::Keep(t) => match spec_filter(entries.skip(1), sub) {
                Err(e) => Err(e),
                Ok(rest) => Ok(
                    seq![
                        TarEntryV { path: t, data: entries[0].data, is_dir: entries[0].is_dir },
                    ] + rest,
                ),
            },
        }
    }
}

/// The whole plan: the filtered entries, except that a nonempty filter
/// that matches no entry is reported.
pub open spec fn spec_extract_plan(entries: Seq<TarEntryV>, sub: Seq<char>) -> Result<
    Seq<TarEntryV>,
    ExtractError,
> {
    match spec_filter(entries, sub) {
        Err(e) => Err(e),
        Ok(kept) => {
            if sub.len() > 0 && kept.len() == 0 {
                Err(ExtractError::EmptySubDir)
            } else {
                Ok(kept)
            }
        },
    }
}

/// Whether `p` holds a `..` path segment.
fn has_dotdot(p: &str) -> (r: bool)
    ensures
        r == has_dotdot_segment(p@),
{
    let n = p.unicode_len();
    let mut i: usize = 0;
    while i < n
        invariant
            n == p@.len(),
            0 <= i <= n,
            forall|j: int| 0 <= j < i ==> !is_dotdot_at(p@, j),
        decreases n - i,
    {
        if n >= 2 && i <= n - 2 && p.get_char(i) == '.' && p.get_char(i + 1) == '.' && (i == 0
            || p.get_char(i - 1) == '/') && (i + 2 == n || p.get_char(i + 2) == '/') {
            assert(is_dotdot_at(p@, i as int));
            return true;
        }
        i = i + 1;
    }
    assert forall|j: int| !is_dotdot_at(p@, j) by {
        if 0 <= j < n {
        }
    }
    false
}

/// Decide what selective extraction does with one entry path.
pub fn entry_action(path: &str, sub_dir: &str) -> (r: Result<Option<String>, ExtractError>)
    ensures
        match spec_entry_target(path@, sub_dir@) {
            SpecEntryAction::Keep(t) => r matches Ok(s) && s matches Some(q) && q@ == t,
            SpecEntryAction::Skip => r matches Ok(s) && s is None,
            SpecEntryAction::Escape => r matches Err(e) && e == ExtractError::PathEscape,
        },
{
    let sn = sub_dir.unicode_len();
    if sn == 0 {
        let n = path.unicode_len();
        if has_dotdot(path) || (n > 0 && path.get_char(0) == '/') {
            Err(ExtractError::PathEscape)
        } else {
            Ok(Some(path.to_owned()))
        }
    } else {
        let pref = sub_dir.to_owned().concat("/");
        proof {
            assert(pref@ =~= sub_dir@ + "/"@);
        }
        if str_has_prefix(path, pref.as_str()) {
            let n = path.unicode_len();
            proof {
                reveal_strlit("/");
                assert(pref@.len() == sn + 1);
                assert(sn + 1 <= n);
            }
            let rest = path.substring_char(sn + 1, n);
            proof {
                assert(rest@ =~= path@.skip(pref@.len() as int));
            }
            if rest.unicode_len() == 0 {
                Ok(None)
            } else if has_dotdot(rest) || rest.get_char(0) == '/' {
                Err(ExtractError::PathEscape)
            } else {
                Ok(Some(rest.to_owned()))
            }
        } else {
            Ok(None)
        }
    }
}

/// Apply the selective extraction rules to a list of entries: keep
/// exactly the entries under the subdirectory filter, their paths
/// rewritten; reject an entry whose rewritten path escapes; report a
/// nonempty filter that matches nothing.
#[verifier::loop_isolation(false)]
pub fn filter_entries(entries: Vec<TarEntry>, sub_dir: &str) -> (r: Result<
    Vec<TarEntry>,
    ExtractError,
>)
    ensures
        match spec_extract_plan(entries_view(entries@), sub_dir@) {
            Ok(kept) => r matches Ok(v) && entries_view(v@) == kept,
            Err(e) => r matches Err(e2) && e2 == e,
        },
{
    let ghost orig = entries_view(entries@);
    let mut rem = entries;
    let mut out: Vec<TarEntry> = Vec::new();
    proof {
        assert(entries_view(out@) =~= Seq::<TarEntryV>::empty());
    }
    loop
        invariant
            spec_filter(orig, sub_dir@) == (match spec_filter(entries_view(rem@), sub_dir@) {
                Err(e) => Err::<Seq<TarEntryV>, ExtractError>(e),
                Ok(rest) => Ok(entries_view(out@) + rest),
            }),
        decreases rem.len(),
    {
        if rem.len() == 0 {
            proof {
                assert(entries_view(rem@) =~= Seq::<TarEntryV>::empty());
                assert(entries_view(out@) + Seq::<TarEntryV>::empty() =~= entries_view(out@));
            }
            if sub_dir.unicode_len() > 0 && out.len() == 0 {
                proof {
                    assert(entries_view(out@) =~= Seq::<TarEntryV>::empty());
                }
                return Err(ExtractError::EmptySubDir);
            }
            return Ok(out);
        }
        let ghost rv = entries_view(rem@);
        let e = rem.remove(0);
        proof {
            assert(rv[0] == e@);
            assert(entries_view(rem@) =~= rv.skip(1));
        }
        match entry_action(e.path.as_str(), sub_dir) {
            Err(_) => {
                return Err(ExtractError::PathEscape);
            },
            Ok(None) => {},
            Ok(Some(target)) => {
                let ghost out0 = entries_view(out@);
                let kept = TarEntry { path: target, data: e.data, is_dir: e.is_dir };
                out.push(kept);
                proof {
                    let ghost t = spec_entry_target(rv[0].path, sub_dir@)->Keep_0;
                    assert(entries_view(out@) =~= out0 + seq![
                        TarEntryV { path: t, data: rv[0].data, is_dir: rv[0].is_dir },
                    ]);
                    if spec_filter(rv.skip(1), sub_dir@) is Ok {
                        let rest = spec_filter(rv.skip(1), sub_dir@)->Ok_0;
                        assert(out0 + (seq![
                            TarEntryV { path: t, data: rv[0].data, is_dir: rv[0].is_dir },
                        ] + rest) =~= entries_view(out@) + rest);
                    }
                }
            },
        }
    }
}

/// Decode a gzip-compressed tar archive and apply the selective
/// extraction rules.  A failing gzip or tar layer is a corrupt archive;
/// otherwise the result follows the extraction plan for the archive's
/// entries.
pub fn extract(archive: &Vec<u8>, sub_dir: &str) -> (r: Result<Vec<TarEntry>, ExtractError>)
    ensures
        gunzip_of(archive@) is None ==> (r matches Err(e) && e == ExtractError::CorruptArchive),
        gunzip_of(archive@) matches Some(raw) ==> {
            &&& tar_entries_of(raw) is None ==> (r matches Err(e) && e
                == ExtractError::CorruptArchive)
            &&& tar_entries_of(raw) matches Some(ents) ==> (match spec_extract_plan(
                ents,
                sub_dir@,
            ) {
                Ok(kept) => r matches Ok(v) && entries_view(v@) == kept,
                Err(e) => r matches Err(e2) && e2 == e,
            })
        },
{
    let raw = match gunzip(archive) {
        Some(v) => v,
        None => {
            return Err(ExtractError::CorruptArchive);
        },
    };
    let entries = match tar_entry_list(&raw) {
        Some(v) => v,
        None => {
            return Err(ExtractError::CorruptArchive);
        },
    };
    filter_entries(entries, sub_dir)
}

/// No entry that a successful extraction plan keeps has an escaping
/// path (a `..` segment, or an absolute path): a plan that would escape
/// the destination is rejected as a whole, never partially written.
pub proof fn lemma_extract_plan_no_escape(entries: Seq<TarEntryV>, sub: Seq<char>)
    requires
        spec_extract_plan(entries, sub) is Ok,
    ensures
        forall|i: int|
            0 <= i < spec_extract_plan(entries, sub)->Ok_0.len() ==> !is_escaping_path(
                (#[trigger] spec_extract_plan(entries, sub)->Ok_0[i]).path,
            ),
{
    lemma_filter_no_escape(entries, sub);
}

proof fn lemma_filter_no_escape(entries: Seq<TarEntryV>, sub: Seq<char>)
    requires
        spec_filter(entries, sub) is Ok,
    ensures
        forall|i: int|
            0 <= i < spec_filter(entries, sub)->Ok_0.len() ==> !is_escaping_path(
                (#[trigger] spec_filter(entries, sub)->Ok_0[i]).path,
            ),
    decreases entries.len(),
{
    if entries.len() == 0 {
    } else {
        match spec_entry_target(entries[0].path, sub) {
            SpecEntryAction::Escape => {
                assert(false);
            },
            SpecEntryAction::Skip => {
                lemma_filter_no_escape(entries.skip(1), sub);
            },
            SpecEntryAction::Keep(t) => {
                lemma_filter_no_escape(entries.skip(1), sub);
                let rest = spec_filter(entries.skip(1), sub)->Ok_0;
                let head = TarEntryV { path: t, data: entries[0].data, is_dir: entries[0].is_dir };
                assert forall|i: int|
                    0 <= i < spec_filter(entries, sub)->Ok_0.len() implies !is_escaping_path(
                    (#[trigger] spec_filter(entries, sub)->Ok_0[i]).path,
                ) by {
                    if i == 0 {
                        assert(spec_filter(entries, sub)->Ok_0[0] == head);
                    } else {
                        assert(spec_filter(entries, sub)->Ok_0[i] == rest[i - 1]);
                    }
                }
            },
        }
    }
}

} // verus!
