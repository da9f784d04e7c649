//! The directory enumerator: split, sort, and metadata strings.
use fileshare::listing::{build_entry, build_listing, human_size, rel_display_of, RawEntry};
use fileshare::validate::AbsPath;

fn raw(name: &str, is_dir: bool, size: u64) -> RawEntry {
    RawEntry { name: name.to_string(), is_dir, size, modified: Some(0) }
}

fn abs(parts: &[&str]) -> AbsPath {
    AbsPath { segs: parts.iter().map(|s| s.to_string()).collect() }
}

#[test]
fn directories_sort_before_files_case_insensitively() {
    let raws = vec![
        raw("b.txt", false, 1),
        raw("A.txt", false, 2),
        raw("sub2", true, 0),
        raw("sub1", true, 0),
    ];
    let (dirs, files) = build_listing("", &raws);
    let dir_names: Vec<&str> = dirs.iter().map(|e| e.name.as_str()).collect();
    let file_names: Vec<&str> = files.iter().map(|e| e.name.as_str()).collect();
    assert_eq!(dir_names, vec!["sub1", "sub2"]);
    assert_eq!(file_names, vec!["A.txt", "b.txt"]);
}

#[test]
fn sort_ignores_ascii_case() {
    let raws = vec![
        raw("Zebra.txt", false, 1),
        raw("apple.txt", false, 1),
        raw("Mango.txt", false, 1),
    ];
    let (_, files) = build_listing("", &raws);
    let names: Vec<&str> = files.iter().map(|e| e.name.as_str()).collect();
    assert_eq!(names, vec!["apple.txt", "Mango.txt", "Zebra.txt"]);
}

#[test]
fn entry_paths_are_relative_to_root() {
    let raws = vec![raw("readme.md", false, 10)];
    let (_, files) = build_listing("docs", &raws);
    assert_eq!(files[0].path, "docs/readme.md");
    let (_, at_root) = build_listing("", &raws);
    assert_eq!(at_root[0].path, "readme.md");
}

#[test]
fn directories_report_no_size() {
    let e = build_entry("", &raw("sub", true, 4096));
    assert!(e.size.is_none());
    assert!(e.is_dir);
}

#[test]
fn small_file_size_is_exact_bytes() {
    let e = build_entry("", &raw("readme.md", false, 10));
    assert_eq!(e.size.as_deref(), Some("10 B"));
}

#[test]
fn sizes_scale_with_binary_units() {
    assert_eq!(human_size(10), "10 B");
    assert_eq!(human_size(1023), "1023 B");
    assert_eq!(human_size(1024), "1 KiB");
    assert_eq!(human_size(1536), "1.50 KiB");
}

#[test]
fn unknown_modification_time_stays_unknown() {
    let e = build_entry("", &RawEntry {
        name: "x.txt".to_string(),
        is_dir: false,
        size: 1,
        modified: None,
    });
    assert!(e.modified.is_none());
}

#[test]
fn display_prefix_strips_the_root() {
    let root = abs(&["srv", "files"]);
    let v = abs(&["srv", "files", "docs", "sub"]);
    assert_eq!(rel_display_of(&root, &v), "docs/sub");
    assert_eq!(rel_display_of(&root, &abs(&["srv", "files"])), "");
}

#[test]
fn modification_times_render_at_minute_granularity() {
    // late 2023 in every time zone; the rendered form is always
    // "year-month-day hour:minute", sixteen characters
    let rendered = fileshare::listing::local_minute(1_700_000_000).unwrap();
    assert_eq!(rendered.len(), 16);
    assert!(rendered.starts_with("2023-11-1"));
    assert_eq!(rendered.as_bytes()[13], b':');
}
