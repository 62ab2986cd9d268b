use regit::{Cache, Repository, extract, parse_ref_list, plan_clone};
use std::io::Write;

fn gzip_tar_archive(files: &[(&str, &[u8])]) -> Vec<u8> {
    let mut builder = tar::Builder::new(Vec::new());
    for (path, data) in files {
        let mut header = tar::Header::new_gnu();
        header.set_size(data.len() as u64);
        header.set_mode(0o644);
        header.set_cksum();
        builder.append_data(&mut header, *path, *data).unwrap();
    }
    let tar_bytes = builder.into_inner().unwrap();
    let mut gz = flate2::write::GzEncoder::new(Vec::new(), flate2::Compression::default());
    gz.write_all(&tar_bytes).unwrap();
    gz.finish().unwrap()
}

#[test]
fn clones_a_tagged_subdirectory() {
    let hash = "deadbeefdeadbeefdeadbeefdeadbeefdeadbeef";

    // Parse the locator.
    let repo = Repository::parse("acme/widgets/examples/basic#v2.0.0").unwrap();

    // Resolve the tag against the remote's reference list.
    let ls_remote = format!(
        "1212121212121212121212121212121212121212\tHEAD\n{}\trefs/tags/v2.0.0\n",
        hash
    );
    let refs = parse_ref_list(&ls_remote);

    // Plan the clone against a cold cache.
    let mut cache = Cache::new_custom("/cache");
    let plan = plan_clone(&repo, &refs, &cache, "/cache/acme/widgets").unwrap();
    assert_eq!(plan.hash, hash);
    assert_eq!(plan.tar_sub_dir, format!("widgets-{}/examples/basic", hash));

    // The remote's archive, with the synthetic top-level wrapper.
    let archive = gzip_tar_archive(&[
        (format!("widgets-{}/README", hash).as_str(), b"readme".as_slice()),
        (format!("widgets-{}/examples/basic/index.txt", hash).as_str(), b"hello".as_slice()),
        (
            format!("widgets-{}/examples/basic/src/app.txt", hash).as_str(),
            b"app".as_slice(),
        ),
        (format!("widgets-{}/examples/other/skip.txt", hash).as_str(), b"no".as_slice()),
    ]);

    // Selective extraction: exactly the files under examples/basic,
    // stripped of the wrapper and the subdirectory.
    let kept = extract(&archive, &plan.tar_sub_dir).unwrap();
    let paths: Vec<&str> = kept.iter().map(|e| e.path.as_str()).collect();
    assert_eq!(paths, vec!["index.txt", "src/app.txt"]);
    assert_eq!(kept[0].data, b"hello");
    assert_eq!(kept[1].data, b"app");

    // The cache records the signature, and the record survives a
    // round trip through the persisted form.
    let evict = cache.update(&plan.signature, &plan.hash, "/cache/acme/widgets");
    assert_eq!(evict, None);
    let persisted = cache.persist_string();
    let reloaded = Cache::new_custom("/cache").load(&persisted);
    assert_eq!(reloaded.lookup("acme/widgets:v2.0.0"), Some(hash.to_string()));
}
