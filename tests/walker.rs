use dirscan::inventory::{build_node_map, read_level, remaining_depth, MetaData};
use dirscan::walker::{is_path_valid, validate_settings, Admission, EntryInfo, Settings};
use dirscan::wildcard::PatternError;

fn strings(items: &[&str]) -> Vec<String> {
    items.iter().map(|s| s.to_string()).collect()
}

fn settings(inc_ext: &[&str], exc_ext: &[&str], exc: &[&str], inc: &[&str]) -> Settings {
    Settings {
        exclude_extensions: strings(exc_ext),
        include_extensions: strings(inc_ext),
        exclude_paths: strings(exc),
        include_paths: strings(inc),
        multi_thread_enabled: false,
        depth: 3,
    }
}

fn file(path: &str, name: &str) -> EntryInfo {
    EntryInfo {
        path: path.to_string(),
        name: name.to_string(),
        is_dir: false,
        is_file: true,
        glob_included: false,
    }
}

fn dir(path: &str, name: &str) -> EntryInfo {
    EntryInfo {
        path: path.to_string(),
        name: name.to_string(),
        is_dir: true,
        is_file: false,
        glob_included: false,
    }
}

#[test]
fn extension_filter_include_ts() {
    let s = settings(&["ts"], &[], &[], &["/p"]);
    assert_eq!(is_path_valid(&file("/p/a.js", "a.js"), &s), Admission::SkippedExt);
    assert_eq!(is_path_valid(&file("/p/a.ts", "a.ts"), &s), Admission::IncludedRegex);
    let level = read_level(&s, "/p", 0, &vec![file("/p/a.js", "a.js"), file("/p/a.ts", "a.ts")]);
    assert_eq!(level.len(), 1);
    match &level[0].record {
        MetaData::File(f) => assert_eq!(f.file_name, "a.ts"),
        MetaData::Directory(_) => panic!("expected a file record"),
    }
}

#[test]
fn extension_is_compared_in_lowercase() {
    let s = settings(&["ts"], &[], &[], &["/p"]);
    assert_eq!(is_path_valid(&file("/p/A.TS", "A.TS"), &s), Admission::IncludedRegex);
}

#[test]
fn exclude_extension_alone_rejects_only_listed() {
    let s = settings(&[], &["lock"], &[], &["/p"]);
    assert_eq!(is_path_valid(&file("/p/y.lock", "y.lock"), &s), Admission::SkippedExt);
    assert_eq!(is_path_valid(&file("/p/y.rs", "y.rs"), &s), Admission::IncludedRegex);
}

#[test]
fn files_go_through_the_pattern_rules() {
    let s = settings(&[], &[], &[".*.json"], &["/p"]);
    assert_eq!(is_path_valid(&file("/p/package.json", "package.json"), &s), Admission::ExcludedRegex);
    assert_eq!(is_path_valid(&file("/p/main.rs", "main.rs"), &s), Admission::IncludedRegex);
    assert_eq!(is_path_valid(&file("/q/main.rs", "main.rs"), &s), Admission::Skipped);
    assert_eq!(is_path_valid(&file("/q/main.rs", "main.rs"), &s).tag(), "skipped");
}

#[test]
fn default_deny_for_unmatched_directory() {
    let s = settings(&[], &[], &["build"], &["react"]);
    assert_eq!(is_path_valid(&dir("/home/docs", "docs"), &s), Admission::Skipped);
    let level = read_level(&s, "/home", 0, &vec![dir("/home/docs", "docs"), file("/home/notes.md", "notes.md")]);
    assert!(level.is_empty());
}

#[test]
fn directory_admission_reasons() {
    let s = settings(&[], &[], &["node_modules", "te?mp"], &["src"]);
    let mut globbed = dir("/r/anything", "anything");
    globbed.glob_included = true;
    assert_eq!(is_path_valid(&globbed, &s), Admission::PathIncluded);
    assert_eq!(is_path_valid(&dir("/r/Node_Modules", "Node_Modules"), &s), Admission::PathExcluded);
    assert_eq!(is_path_valid(&dir("C:\\r\\Node_Modules", "Node_Modules"), &s), Admission::PathExcluded);
    assert_eq!(is_path_valid(&dir("/r/tmp/x", "x"), &s), Admission::ExcludedRegex);
    assert_eq!(is_path_valid(&dir("/r/src", "src"), &s), Admission::IncludedRegex);
}

#[test]
fn exclude_wins_over_include() {
    let s = settings(&[], &[], &["secret"], &["src"]);
    assert_eq!(is_path_valid(&dir("/r/src/secret", "secret2"), &s), Admission::PathExcluded);
    assert_eq!(is_path_valid(&dir("/r/src/secret/x", "x"), &s), Admission::ExcludedRegex);
    assert_eq!(is_path_valid(&file("/r/src/secret.txt", "secret.txt"), &s), Admission::ExcludedRegex);
}

#[test]
fn invalid_pattern_fails_validation() {
    let s = settings(&[], &[], &["("], &[]);
    assert_eq!(validate_settings(&s), Err(PatternError::InvalidRegex));
    assert_eq!(validate_settings(&settings(&[], &[], &["build"], &["(x"])), Err(PatternError::InvalidRegex));
    assert_eq!(validate_settings(&settings(&[], &[], &["build"], &["./src"])), Ok(()));
}

#[test]
fn depth_bound() {
    assert_eq!(remaining_depth(0), None);
    assert_eq!(remaining_depth(1), None);
    assert_eq!(remaining_depth(-5), None);
    assert_eq!(remaining_depth(4), Some(3));
}

#[test]
fn node_modules_excluded_and_src_default_denied() {
    let s = settings(&[], &[], &["node_modules"], &[]);
    let listing = vec![dir("/root/src", "src"), dir("/root/node_modules", "node_modules")];
    assert_eq!(is_path_valid(&listing[1], &s), Admission::PathExcluded);
    assert_eq!(is_path_valid(&listing[1], &s).tag(), "path-excluded");
    assert_eq!(is_path_valid(&listing[0], &s).tag(), "skipped");
    assert_eq!(is_path_valid(&listing[0], &s), Admission::Skipped);
    assert!(read_level(&s, "/root", 0, &listing).is_empty());
}

#[test]
fn src_tree_with_include_pattern() {
    let s = settings(&[], &[], &["node_modules"], &["src"]);
    let top = read_level(
        &s,
        "/root",
        0,
        &vec![dir("/root/src", "src"), dir("/root/node_modules", "node_modules")],
    );
    assert_eq!(top.len(), 1);
    let src = &top[0];
    let inner = read_level(&s, &src.path, src.hash, &vec![file("/root/src/main.txt", "main.txt")]);
    assert_eq!(inner.len(), 1);
    let (dir_hash, dir_parent) = match &src.record {
        MetaData::Directory(d) => {
            assert_eq!(d.path, "/root/src");
            (d.hash, d.parent_hash)
        },
        MetaData::File(_) => panic!("expected a directory record"),
    };
    assert_eq!(dir_parent, 0);
    assert_eq!(dir_hash, src.hash);
    let file_hash = inner[0].hash;
    match &inner[0].record {
        MetaData::File(f) => {
            assert_eq!(f.file_name, "main.txt");
            assert_eq!(f.directory_hash, dir_hash);
            assert_eq!(f.hash, file_hash);
        },
        MetaData::Directory(_) => panic!("expected a file record"),
    }
    let mut records = Vec::new();
    for v in top.into_iter().chain(inner.into_iter()) {
        records.push(v.record);
    }
    let map = build_node_map(records);
    assert_eq!(map.len(), 2);
    assert!(map.contains_key(&dir_hash));
    assert!(map.contains_key(&file_hash));
}

#[test]
fn node_map_later_record_wins() {
    let s = settings(&[], &[], &[], &["f.md"]);
    let a = read_level(&s, "/one", 1, &vec![file("/one/f.md", "f.md")]);
    let b = read_level(&s, "/two", 2, &vec![file("/one/f.md", "renamed.md")]);
    let key = a[0].hash;
    let mut two_entry = dir("/two", "two");
    two_entry.glob_included = true;
    let two = read_level(&s, "/x", 0, &vec![two_entry]);
    let two_hash = two[0].hash;
    let records: Vec<MetaData> = a.into_iter().chain(b.into_iter()).map(|v| v.record).collect();
    let map = build_node_map(records);
    assert_eq!(map.len(), 1);
    match map.get(&key) {
        Some(MetaData::File(f)) => {
            assert_eq!(f.file_name, "renamed.md");
            assert_eq!(f.directory_hash, two_hash);
        },
        _ => panic!("expected the later file record"),
    }
}

fn file_record(level: &[dirscan::inventory::Visit], k: usize) -> (u64, u64) {
    match &level[k].record {
        MetaData::File(f) => (f.hash, f.file_extension_hash),
        MetaData::Directory(_) => panic!("expected a file record"),
    }
}

#[test]
fn hashes_follow_paths_and_lowercase_extensions() {
    let s = settings(&[], &[], &[], &["/d"]);
    let level = read_level(
        &s,
        "/d",
        0,
        &vec![file("/d/a.txt", "a.txt"), file("/d/B.TXT", "B.TXT"), file("/d/c.md", "c.md"), file("/d/a.txt", "a.txt")],
    );
    assert_eq!(level.len(), 4);
    let (a, a_ext) = file_record(&level, 0);
    let (b, b_ext) = file_record(&level, 1);
    let (c, c_ext) = file_record(&level, 2);
    let (a_again, _) = file_record(&level, 3);
    assert_eq!(a, a_again);
    assert_ne!(a, b);
    assert_ne!(a, c);
    assert_eq!(a_ext, b_ext);
    assert_ne!(a_ext, c_ext);
}

#[test]
fn admission_tags() {
    assert_eq!(Admission::SkippedExt.tag(), "skipped-ext");
    assert_eq!(Admission::PathIncluded.tag(), "path-included");
    assert_eq!(Admission::ExcludedRegex.tag(), "excluded-regex");
    assert_eq!(Admission::IncludedRegex.tag(), "included-regex");
    assert!(Admission::IncludedRegex.admitted());
    assert!(!Admission::Skipped.admitted());
}
