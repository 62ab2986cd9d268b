use regit::{RegitError, Repository, ValidModes, parse_ref_list, select_ref, RefKind};


#[test]
fn parses_repository() {
    println!("Testing...");
    let repo = Repository::parse("solidjs/templates/ts").unwrap();

    assert_eq!(repo.url, "https://github.com/solidjs/templates");
    assert_eq!(repo.domain, "github.com");
    assert_eq!(repo.sub_dir, "ts");
    assert_eq!(repo.user, "solidjs");
    assert_eq!(repo.name, "templates");
    assert_eq!(repo.ssh, "git@github.com:solidjs/templates");
    assert_eq!(repo.mode, ValidModes::Tar);
    assert_eq!(repo._ref, "HEAD");
}

#[test]
fn parses_bare_user_name() {
    let repo = Repository::parse("acme/widgets").unwrap();
    assert_eq!(repo.domain, "github.com");
    assert_eq!(repo.user, "acme");
    assert_eq!(repo.name, "widgets");
    assert_eq!(repo.sub_dir, "");
    assert_eq!(repo._ref, "HEAD");
    assert_eq!(repo.mode, ValidModes::Tar);
}

#[test]
fn parses_https_prefix() {
    let repo = Repository::parse("https://gitlab.com/acme/widgets#v1.2.3").unwrap();
    assert_eq!(repo.domain, "gitlab.com");
    assert_eq!(repo.user, "acme");
    assert_eq!(repo.name, "widgets");
    assert_eq!(repo._ref, "v1.2.3");
    assert_eq!(repo.url, "https://gitlab.com/acme/widgets");
    assert_eq!(repo.ssh, "git@gitlab.com:acme/widgets");
    assert_eq!(repo.mode, ValidModes::Tar);
}

#[test]
fn parses_git_at_prefix() {
    let repo = Repository::parse("git@bitbucket.org:acme/widgets/docs#dev").unwrap();
    assert_eq!(repo.domain, "bitbucket.org");
    assert_eq!(repo.user, "acme");
    assert_eq!(repo.name, "widgets");
    assert_eq!(repo.sub_dir, "docs");
    assert_eq!(repo._ref, "dev");
    assert_eq!(repo.mode, ValidModes::Tar);
}

#[test]
fn parses_host_colon_prefix() {
    let repo = Repository::parse("git.sr.ht:acme/widgets").unwrap();
    assert_eq!(repo.domain, "git.sr.ht");
    assert_eq!(repo.mode, ValidModes::Tar);
}

#[test]
fn unrecognized_host_degrades_to_git_mode() {
    let repo = Repository::parse("example.org:acme/widgets").unwrap();
    assert_eq!(repo.domain, "example.org");
    assert_eq!(repo.mode, ValidModes::Git);
    assert_eq!(repo.url, "https://example.org/acme/widgets");
}

#[test]
fn parses_multi_segment_sub_dir() {
    let repo = Repository::parse("acme/widgets/examples/basic#v2.0.0").unwrap();
    assert_eq!(repo.user, "acme");
    assert_eq!(repo.name, "widgets");
    assert_eq!(repo.sub_dir, "examples/basic");
    assert_eq!(repo._ref, "v2.0.0");
}

#[test]
fn drops_one_trailing_slash() {
    let repo = Repository::parse("acme/widgets/docs/").unwrap();
    assert_eq!(repo.sub_dir, "docs");
    let repo = Repository::parse("acme/widgets/").unwrap();
    assert_eq!(repo.sub_dir, "");
}

#[test]
fn rejects_malformed_locators() {
    for bad in [
        "",
        "justaname",
        "user/",
        "/name",
        "user//name",
        "user/name#",
        "a b/name",
        "https://nohostslash",
        "git@:user/name",
        ":user/name",
    ] {
        assert_eq!(
            Repository::parse(bad).unwrap_err(),
            RegitError::MalformedLocator,
            "locator {:?} should be malformed",
            bad
        );
    }
}

#[test]
fn builds_urls_per_host() {
    let gh = Repository::parse("acme/widgets").unwrap();
    assert_eq!(
        gh.archive_url("cafe"),
        "https://github.com/acme/widgets/archive/cafe.tar.gz"
    );
    let gl = Repository::parse("gitlab.com:acme/widgets").unwrap();
    assert_eq!(
        gl.archive_url("cafe"),
        "https://gitlab.com/acme/widgets/repository/archive.tar.gz?ref=cafe"
    );
    let bb = Repository::parse("bitbucket.org:acme/widgets").unwrap();
    assert_eq!(
        bb.archive_url("cafe"),
        "https://bitbucket.org/acme/widgets/get/cafe.tar.gz"
    );
}

#[test]
fn names_and_signature() {
    let repo = Repository::parse("acme/widgets/examples/basic#v2.0.0").unwrap();
    assert_eq!(repo.full_name(), "acme/widgets/examples/basic");
    assert_eq!(repo.full_name_ref(), "acme/widgets/examples/basic:v2.0.0");
    assert_eq!(repo.signature(), "acme/widgets:v2.0.0");
    assert_eq!(repo.url(), "https://github.com/acme/widgets");
    let plain = Repository::parse("acme/widgets").unwrap();
    assert_eq!(plain.full_name(), "acme/widgets");
    assert_eq!(plain.full_name_ref(), "acme/widgets:HEAD");
}

const LS_REMOTE: &str = "1111111111111111111111111111111111111111\tHEAD\n1111111111111111111111111111111111111111\trefs/heads/main\n2222222222222222222222222222222222222222\trefs/heads/dev\n3333333333333333333333333333333333333333\trefs/tags/v1.0.0\n4444444444444444444444444444444444444444\trefs/pull/7/head\n";

#[test]
fn parses_ref_list_rows() {
    let refs = parse_ref_list(LS_REMOTE);
    assert_eq!(refs.len(), 5);
    assert_eq!(refs[0].kind, RefKind::Head);
    assert_eq!(refs[0].name, "");
    assert_eq!(refs[0].hash, "1111111111111111111111111111111111111111");
    assert_eq!(refs[1].kind, RefKind::Branch);
    assert_eq!(refs[1].name, "main");
    assert_eq!(refs[2].kind, RefKind::Branch);
    assert_eq!(refs[2].name, "dev");
    assert_eq!(refs[3].kind, RefKind::Tag);
    assert_eq!(refs[3].name, "v1.0.0");
    assert_eq!(refs[4].kind, RefKind::OtherRef);
    assert_eq!(refs[4].name, "head");
}

#[test]
fn skips_empty_ref_rows() {
    let refs = parse_ref_list("\n\naaaa\trefs/tags/x\n\n");
    assert_eq!(refs.len(), 1);
    assert_eq!(refs[0].name, "x");
}

#[test]
fn resolves_head() {
    let refs = parse_ref_list(LS_REMOTE);
    let repo = Repository::parse("acme/widgets").unwrap();
    assert_eq!(
        repo.get_hash(&refs).unwrap(),
        "1111111111111111111111111111111111111111"
    );
}

#[test]
fn resolves_exact_name_first_match_wins() {
    let refs = parse_ref_list(LS_REMOTE);
    let repo = Repository::parse("acme/widgets#dev").unwrap();
    assert_eq!(
        repo.get_hash(&refs).unwrap(),
        "2222222222222222222222222222222222222222"
    );
    let tag = Repository::parse("acme/widgets#v1.0.0").unwrap();
    assert_eq!(
        tag.get_hash(&refs).unwrap(),
        "3333333333333333333333333333333333333333"
    );
}

#[test]
fn resolves_partial_hash() {
    let refs = parse_ref_list(LS_REMOTE);
    let repo = Repository::parse("acme/widgets#33333333").unwrap();
    assert_eq!(
        repo.get_hash(&refs).unwrap(),
        "3333333333333333333333333333333333333333"
    );
}

#[test]
fn short_ref_fails_without_prefix_scan() {
    let refs = parse_ref_list(LS_REMOTE);
    // "2222222" is seven characters: a prefix of a listed hash, yet the
    // scan must never run.
    let repo = Repository::parse("acme/widgets#2222222").unwrap();
    assert_eq!(repo.get_hash(&refs).unwrap_err(), RegitError::RefTooShort);
}

#[test]
fn unknown_ref_fails() {
    let refs = parse_ref_list(LS_REMOTE);
    let repo = Repository::parse("acme/widgets#does-not-exist").unwrap();
    assert_eq!(repo.get_hash(&refs).unwrap_err(), RegitError::RefNotFound);
    let missing_head = parse_ref_list("aaaa\trefs/heads/main\n");
    let head = Repository::parse("acme/widgets").unwrap();
    assert_eq!(
        head.get_hash(&missing_head).unwrap_err(),
        RegitError::RefNotFound
    );
}

#[test]
fn resolution_is_deterministic() {
    let refs = parse_ref_list(LS_REMOTE);
    let once = select_ref(&refs, "main").unwrap();
    let twice = select_ref(&refs, "main").unwrap();
    assert_eq!(once, twice);
}

#[test]
fn resolves_from_raw_listing() {
    let repo = Repository::parse("acme/widgets#v1.0.0").unwrap();
    assert_eq!(
        repo.resolve(LS_REMOTE).unwrap(),
        "3333333333333333333333333333333333333333"
    );
}

#[test]
fn strips_git_suffix_from_name() {
    let repo = Repository::parse("acme/widgets.git").unwrap();
    assert_eq!(repo.name, "widgets");
    assert_eq!(repo.url, "https://github.com/acme/widgets");
    assert_eq!(repo.ssh, "git@github.com:acme/widgets");
    let repo = Repository::parse("https://gitlab.com/acme/widgets.git#dev").unwrap();
    assert_eq!(repo.name, "widgets");
    assert_eq!(repo._ref, "dev");
    // A name that is nothing but the artifact stays as it is.
    let repo = Repository::parse("acme/.git").unwrap();
    assert_eq!(repo.name, ".git");
    // Only the name is stripped, not a subdirectory.
    let repo = Repository::parse("acme/widgets.git/docs").unwrap();
    assert_eq!(repo.name, "widgets");
    assert_eq!(repo.sub_dir, "docs");
}
