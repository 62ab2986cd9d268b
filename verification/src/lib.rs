mod app;
mod cache;
mod degit;
mod errors;
mod extract;
mod options;
mod repository;
mod strutil;
mod util;

pub use app::{ClonePlan, Regit, RegitOptions, check_dest, plan_clone, spec_tar_sub_dir};
pub use cache::{
    Cache, archive_path_for, json_of, json_parse_of, lemma_no_evict_while_referenced,
    lemma_update_idempotent, spec_archive_path, spec_cache_key, spec_evict, spec_other_ref,
    tree_map, unique_keys,
};
pub use degit::{Action, Degit, DegitBuilder};
pub use errors::{CacheError, ExtractError, FetchError, RegitError};
pub use extract::{
    SpecEntryAction, TarEntry, TarEntryV, entries_view, entry_action, extract, filter_entries,
    gunzip_of, has_dotdot_segment, is_dotdot_at, is_escaping_path,
    lemma_extract_plan_no_escape, spec_entry_target, spec_extract_plan, spec_filter,
    tar_entries_of,
};
pub use options::{GitServer, ValidModes};
pub use repository::{
    LocatorParts, Ref, RefKind, RefV, Repository, find_exact, find_head, find_pref, heads_only,
    is_last_slash, is_space_char, is_supported, is_supported_domain, last_slash,
    lemma_head_resolution, lemma_last_slash_is, lemma_last_slash_unique, lemma_locator_round_trip,
    lemma_locator_round_trip_git_at, lemma_locator_round_trip_https, lemma_mode_follows_domain,
    lemma_resolve_deterministic, lemma_resolve_head_ignores_others, lemma_short_ref_rejected,
    ok_host, ok_seg, ok_sub, parse_ref_list, refs_view, repo_matches, select_ref,
    spec_archive_url, spec_build_body, spec_build_locator, spec_build_path, spec_classify,
    spec_build_body_git_at, spec_build_body_https, spec_build_locator_git_at,
    spec_build_locator_https, spec_clone_hash, spec_full_name, spec_parse_locator,
    spec_parse_ref_line, spec_parse_ref_list, spec_resolve, spec_select, spec_signature,
    spec_split_host, spec_split_path, spec_ssh, spec_sub_part, spec_url, strip_git_suffix,
};
pub use strutil::{
    first_index_of, first_ix, has_prefix, has_suffix, is_first_ix, lacks, no_adjacent, str_eq,
    str_has_prefix, str_has_suffix,
};
pub use util::{Agent, FetchStep, REDIRECT_CAP, fetch_step, log_line, spec_log_parts};
