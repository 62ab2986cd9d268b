use regit::{
    Cache, Degit, FetchError, FetchStep, Regit, RegitError, RegitOptions, ValidModes,
    check_dest, fetch_step, log_line, parse_ref_list, plan_clone, REDIRECT_CAP,
};

#[test]
fn builds() {
    let _degit = Degit::new("path").build();
}

#[test]
fn builder_sets_options() {
    let degit = Degit::new("acme/widgets#dev")
        .with_cache(true)
        .with_force(true)
        .with_verbose(true)
        .with_proxy("http://proxy:8080")
        .build();
    assert_eq!(degit.src, "acme/widgets#dev");
    assert!(degit.cache);
    assert!(degit.force);
    assert!(degit.verbose);
    assert_eq!(degit.proxy, "http://proxy:8080");
    assert_eq!(degit.mode, ValidModes::Tar);
    let repo = degit.repo.expect("a well-formed locator parses");
    assert_eq!(repo.user, "acme");
    assert_eq!(repo._ref, "dev");
}

#[test]
fn builder_keeps_unparsable_locator_as_none() {
    let degit = Degit::new("###").build();
    assert!(degit.repo.is_none());
}

#[test]
fn default_options() {
    let options = RegitOptions::default();
    assert!(options.cache);
    assert!(!options.force);
    assert!(!options.verbose);
    assert!(!options.has_stashed);
}

#[test]
fn regit_new_parses_and_starts_cold() {
    let regit = Regit::new("acme/widgets", RegitOptions::default());
    assert_eq!(regit.src, "acme/widgets");
    let repo = regit.repo.expect("parses");
    assert_eq!(repo.name, "widgets");
    assert!(regit.cache.tree().is_empty());
    assert_eq!(regit.cache.dir(), ".regit");
}

#[test]
fn destination_check() {
    assert!(check_dest(true, false).is_ok());
    assert!(check_dest(true, true).is_ok());
    assert!(check_dest(false, true).is_ok());
    assert_eq!(check_dest(false, false).unwrap_err(), RegitError::DestinationNotEmpty);
}

#[test]
fn fetch_steps() {
    assert!(matches!(fetch_step(200, None, 0, REDIRECT_CAP), FetchStep::Save));
    assert!(matches!(fetch_step(299, None, 3, REDIRECT_CAP), FetchStep::Save));
    match fetch_step(404, None, 0, REDIRECT_CAP) {
        FetchStep::Fail(FetchError::RemoteRejected(code)) => assert_eq!(code, 404),
        other => panic!("expected rejection, got {:?}", other),
    }
    match fetch_step(302, Some("https://next".to_string()), 0, REDIRECT_CAP) {
        FetchStep::Follow(url) => assert_eq!(url, "https://next"),
        other => panic!("expected follow, got {:?}", other),
    }
    assert!(matches!(
        fetch_step(302, Some("https://next".to_string()), REDIRECT_CAP, REDIRECT_CAP),
        FetchStep::Fail(FetchError::TooManyRedirects)
    ));
    assert!(matches!(
        fetch_step(302, None, 0, REDIRECT_CAP),
        FetchStep::Fail(FetchError::IOFailure)
    ));
}

#[test]
fn log_test() {
    let line = log_line(
        "   ",
        &vec!["Just logging some stuff...".to_string(), "123".to_string(), "5".to_string()],
    );
    println!("{}", line);
    assert_eq!(line, "   Just logging some stuff... 123 5 ");
    println!(
        "{}",
        log_line(
            "? ",
            &vec!["Repairing cache directory...".to_string(), "/dir/name".to_string()]
        )
    );
    println!(
        "{}",
        log_line(
            "* ",
            &vec![
                "Debugging cache...".to_string(),
                "Bug hiding here!".to_string(),
                "345".to_string()
            ]
        )
    );
    println!(
        "{}",
        log_line(
            "! ",
            &vec!["Careful before proceeding!".to_string(), "Yellow Stains".to_string()]
        )
    );
    println!(
        "{}",
        log_line(
            "x ",
            &vec![
                "There was a tiny error!".to_string(),
                "Code: ".to_string(),
                format!("{}", 0x3276)
            ]
        )
    );
    println!("{}", log_line("+ ", &vec!["Directory fixed!".to_string()]));
    assert_eq!(log_line("tag", &vec![]), "tag");
}

#[test]
fn plans_a_cached_clone_without_refs() {
    let repo = regit::Repository::parse("acme/widgets#dev").unwrap();
    let mut cache = Cache::new_custom(".regit");
    cache.update("acme/widgets:dev", "2222222222222222222222222222222222222222", ".regit");
    let plan = plan_clone(&repo, &vec![], &cache, "/tmp/repo").unwrap();
    assert_eq!(plan.hash, "2222222222222222222222222222222222222222");
}

#[test]
fn plans_a_clone_from_refs() {
    let repo = regit::Repository::parse("acme/widgets/examples/basic#v2.0.0").unwrap();
    let refs = parse_ref_list(
        "deadbeefdeadbeefdeadbeefdeadbeefdeadbeef\trefs/tags/v2.0.0\n",
    );
    let cache = Cache::new_custom(".regit");
    let plan = plan_clone(&repo, &refs, &cache, "/cache/acme/widgets").unwrap();
    assert_eq!(plan.hash, "deadbeefdeadbeefdeadbeefdeadbeefdeadbeef");
    assert_eq!(
        plan.archive_url,
        "https://github.com/acme/widgets/archive/deadbeefdeadbeefdeadbeefdeadbeefdeadbeef.tar.gz"
    );
    assert_eq!(
        plan.tar_sub_dir,
        "widgets-deadbeefdeadbeefdeadbeefdeadbeefdeadbeef/examples/basic"
    );
    assert_eq!(
        plan.archive_file,
        "/cache/acme/widgets/deadbeefdeadbeefdeadbeefdeadbeefdeadbeef.tar.gz"
    );
    assert_eq!(plan.signature, "acme/widgets:v2.0.0");
    let missing = regit::Repository::parse("acme/widgets#v9.9.9-missing").unwrap();
    assert_eq!(
        plan_clone(&missing, &refs, &cache, "/cache/acme/widgets").unwrap_err(),
        RegitError::RefNotFound
    );
}

#[test]
fn e() {}
