//! The sanitizer on adversarial and ordinary inputs.
use fileshare::paths::{rel_is_root, rel_to_string, sanitize, RelPath};

fn segs(p: &RelPath) -> Vec<String> {
    p.segs.clone()
}

#[test]
fn plain_relative_path_passes_through() {
    let p = sanitize("docs/readme.md");
    assert_eq!(segs(&p), vec!["docs".to_string(), "readme.md".to_string()]);
}

#[test]
fn traversal_is_stripped() {
    let p = sanitize("../../../etc/passwd");
    assert_eq!(segs(&p), vec!["etc".to_string(), "passwd".to_string()]);
}

#[test]
fn encoded_traversal_is_decoded_then_stripped() {
    let p = sanitize("..%2f..%2fsecret");
    assert_eq!(segs(&p), vec!["secret".to_string()]);
}

#[test]
fn interior_traversal_cannot_climb() {
    let p = sanitize("a/../../b");
    assert_eq!(segs(&p), vec!["b".to_string()]);
}

#[test]
fn absolute_prefix_is_discarded() {
    let p = sanitize("/etc/passwd");
    assert_eq!(segs(&p), vec!["etc".to_string(), "passwd".to_string()]);
}

#[test]
fn empty_input_defaults_to_current_dir() {
    let p = sanitize("");
    assert_eq!(segs(&p), vec![".".to_string()]);
    assert!(rel_is_root(&p));
}

#[test]
fn pure_traversal_defaults_to_current_dir() {
    let p = sanitize("../..");
    assert_eq!(segs(&p), vec![".".to_string()]);
}

#[test]
fn leading_current_dir_is_kept() {
    let p = sanitize("./docs");
    assert_eq!(segs(&p), vec![".".to_string(), "docs".to_string()]);
}

#[test]
fn hidden_segment_is_dropped() {
    // the hidden directory and its config leaf survive only if the
    // leaf's extension is allowlisted; bare names are not
    let p = sanitize("/.git/config");
    assert_eq!(segs(&p), vec!["config".to_string()]);
}

#[test]
fn hidden_file_without_extension_is_dropped() {
    let p = sanitize(".bashrc");
    assert_eq!(segs(&p), vec![".".to_string()]);
}

#[test]
fn hidden_file_with_allowlisted_extension_is_kept() {
    let p = sanitize(".config.toml");
    assert_eq!(segs(&p), vec![".config.toml".to_string()]);
}

#[test]
fn sanitize_is_idempotent_on_samples() {
    for s in [
        "a/b/c",
        "../../../etc/passwd",
        "a/../../b",
        "./x/./y",
        "/.git/config",
        "",
        "..",
        "docs//readme.md",
        "a/b/../c",
    ] {
        let once = sanitize(s);
        let again = sanitize(&rel_to_string(&once));
        assert_eq!(segs(&once), segs(&again));
    }
}

#[test]
fn rel_to_string_joins_with_slashes() {
    let p = sanitize("a/b/c");
    assert_eq!(rel_to_string(&p), "a/b/c");
}

#[test]
fn percent_decoding_handles_spaces() {
    let p = sanitize("my%20file.txt");
    assert_eq!(segs(&p), vec!["my file.txt".to_string()]);
}

#[test]
fn parent_string_of_nested_path() {
    let p = sanitize("docs/sub/readme.md");
    assert_eq!(fileshare::paths::rel_parent_string(&p), "docs/sub");
    let q = sanitize("docs");
    assert_eq!(fileshare::paths::rel_parent_string(&q), "");
}
