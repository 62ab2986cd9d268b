use regit::{ExtractError, TarEntry, entry_action, extract, filter_entries};
use std::io::Write;

fn entry(path: &str, data: &[u8]) -> TarEntry {
    TarEntry { path: path.to_string(), data: data.to_vec(), is_dir: false }
}

#[test]
fn prefix_filter_keeps_exactly_the_subdirectory() {
    let entries = vec![
        entry("pkg-abc123/LICENSE", b"mit"),
        entry("pkg-abc123/src/main.txt", b"fn main"),
        entry("pkg-abc123-other/x", b"nope"),
    ];
    let kept = filter_entries(entries, "pkg-abc123").unwrap();
    assert_eq!(kept.len(), 2);
    assert_eq!(kept[0].path, "LICENSE");
    assert_eq!(kept[0].data, b"mit");
    assert_eq!(kept[1].path, "src/main.txt");
    assert_eq!(kept[1].data, b"fn main");
}

#[test]
fn empty_filter_keeps_everything_as_stored() {
    let entries = vec![entry("pkg/LICENSE", b"a"), entry("pkg/src/x", b"b")];
    let kept = filter_entries(entries, "").unwrap();
    assert_eq!(kept.len(), 2);
    assert_eq!(kept[0].path, "pkg/LICENSE");
    assert_eq!(kept[1].path, "pkg/src/x");
}

#[test]
fn path_escape_is_rejected() {
    let entries = vec![entry("pkg/../../etc/passwd", b"root")];
    assert_eq!(filter_entries(entries, "pkg").unwrap_err(), ExtractError::PathEscape);
    let entries = vec![entry("../outside", b"x")];
    assert_eq!(filter_entries(entries, "").unwrap_err(), ExtractError::PathEscape);
}

#[test]
fn entry_action_cases() {
    assert_eq!(entry_action("pkg/a.txt", "pkg").unwrap(), Some("a.txt".to_string()));
    assert_eq!(entry_action("pkg-other/a.txt", "pkg").unwrap(), None);
    assert_eq!(entry_action("pkg/", "pkg").unwrap(), None);
    assert_eq!(entry_action("pkg/a.txt", "").unwrap(), Some("pkg/a.txt".to_string()));
    assert_eq!(
        entry_action("pkg/../../etc/passwd", "pkg").unwrap_err(),
        ExtractError::PathEscape
    );
    // A `..` that is only part of a file name does not escape.
    assert_eq!(entry_action("pkg/a..b", "pkg").unwrap(), Some("a..b".to_string()));
}

#[test]
fn empty_sub_dir_match_is_reported() {
    let entries = vec![entry("pkg/LICENSE", b"a")];
    assert_eq!(
        filter_entries(entries, "not-there").unwrap_err(),
        ExtractError::EmptySubDir
    );
}

#[test]
fn corrupt_archive_is_reported() {
    let garbage = vec![1u8, 2, 3, 4, 5];
    assert_eq!(extract(&garbage, "").unwrap_err(), ExtractError::CorruptArchive);
}

fn build_tar_gz(files: &[(&str, &[u8])]) -> Vec<u8> {
    let mut builder = tar::Builder::new(Vec::new());
    for (path, data) in files {
        let mut header = tar::Header::new_gnu();
        header.set_size(data.len() as u64);
        header.set_mode(0o644);
        header.set_cksum();
        builder.append_data(&mut header, path, *data).unwrap();
    }
    let tar_bytes = builder.into_inner().unwrap();
    let mut gz = flate2::write::GzEncoder::new(Vec::new(), flate2::Compression::default());
    gz.write_all(&tar_bytes).unwrap();
    gz.finish().unwrap()
}

#[test]
fn extracts_real_archive_selectively() {
    let archive = build_tar_gz(&[
        ("widgets-cafe/examples/basic/a.txt", b"alpha"),
        ("widgets-cafe/examples/basic/sub/b.txt", b"beta"),
        ("widgets-cafe/README", b"readme"),
    ]);
    let kept = extract(&archive, "widgets-cafe/examples/basic").unwrap();
    assert_eq!(kept.len(), 2);
    assert_eq!(kept[0].path, "a.txt");
    assert_eq!(kept[0].data, b"alpha");
    assert_eq!(kept[1].path, "sub/b.txt");
    assert_eq!(kept[1].data, b"beta");
}

#[test]
fn extracts_real_archive_fully_when_unfiltered() {
    let archive = build_tar_gz(&[("pkg/a.txt", b"alpha")]);
    let kept = extract(&archive, "").unwrap();
    assert_eq!(kept.len(), 1);
    assert_eq!(kept[0].path, "pkg/a.txt");
    assert_eq!(kept[0].data, b"alpha");
    assert!(!kept[0].is_dir);
}

#[test]
fn absolute_paths_are_rejected() {
    let entries = vec![entry("/etc/passwd", b"root")];
    assert_eq!(filter_entries(entries, "").unwrap_err(), ExtractError::PathEscape);
    // A stripped remainder that begins with `/` escapes too.
    let entries = vec![entry("pkg//etc/passwd", b"root")];
    assert_eq!(filter_entries(entries, "pkg").unwrap_err(), ExtractError::PathEscape);
    assert_eq!(entry_action("/abs", "").unwrap_err(), ExtractError::PathEscape);
}
