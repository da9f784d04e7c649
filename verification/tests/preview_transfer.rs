//! The preview allowlist, language labels, and download metadata.
use fileshare::preview::{detect_language, file_extension, previewable_name};
use fileshare::transfer::{download_headers, guess_mime, DOWNLOAD_CHUNK};
use fileshare::validate::AbsPath;

fn abs(parts: &[&str]) -> AbsPath {
    AbsPath { segs: parts.iter().map(|s| s.to_string()).collect() }
}

#[test]
fn extensions_follow_std_rules() {
    assert_eq!(file_extension("readme.md"), "md");
    assert_eq!(file_extension("archive.tar.gz"), "gz");
    assert_eq!(file_extension(".bashrc"), "");
    assert_eq!(file_extension(".config.toml"), "toml");
    assert_eq!(file_extension("nodots"), "");
    assert_eq!(file_extension("trailing."), "");
}

#[test]
fn text_like_files_are_previewable() {
    assert!(previewable_name("main.rs"));
    assert!(previewable_name("notes.TXT"));
    assert!(previewable_name("build.gradle"));
    assert!(previewable_name("query.sql"));
    assert!(!previewable_name("photo.jpg"));
    assert!(!previewable_name("binary.exe"));
    assert!(!previewable_name("noext"));
    assert!(!previewable_name(".bashrc"));
}

#[test]
fn languages_follow_extensions() {
    assert_eq!(detect_language("main.rs"), "rust");
    assert_eq!(detect_language("script.PY"), "python");
    assert_eq!(detect_language("page.htm"), "html");
    assert_eq!(detect_language("conf.yml"), "yaml");
    assert_eq!(detect_language("setup.cfg"), "ini");
    assert_eq!(detect_language("notes.md"), "markdown");
    assert_eq!(detect_language("header.hpp"), "c");
    assert_eq!(detect_language("run.zsh"), "bash");
    assert_eq!(detect_language("data.bin"), "plaintext");
}

#[test]
fn special_filenames_override_extensions() {
    assert_eq!(detect_language("Dockerfile"), "dockerfile");
    assert_eq!(detect_language("dockerfile.dev"), "dockerfile");
    assert_eq!(detect_language("Makefile"), "makefile");
    assert_eq!(detect_language("makefile.am"), "makefile");
}

#[test]
fn download_headers_carry_exact_metadata() {
    let file = abs(&["srv", "files", "docs", "readme.md"]);
    let m = download_headers(&file, 10);
    assert_eq!(m.filename, "readme.md");
    assert_eq!(m.content_length, "10");
    assert_eq!(m.content_type, "text/markdown");
    assert_eq!(m.content_disposition, "attachment; filename=\"readme.md\"");
}

#[test]
fn download_name_with_spaces_stays_quoted() {
    let file = abs(&["srv", "files", "my report.pdf"]);
    let m = download_headers(&file, 123456);
    assert_eq!(m.content_disposition, "attachment; filename=\"my report.pdf\"");
    assert_eq!(m.content_length, "123456");
    assert_eq!(m.content_type, "application/pdf");
}

#[test]
fn unknown_extension_defaults_to_octet_stream() {
    assert_eq!(guess_mime("mystery.qqq"), "application/octet-stream");
    assert_eq!(guess_mime("noext"), "application/octet-stream");
}

#[test]
fn chunk_size_bounds_streaming_memory() {
    assert_eq!(DOWNLOAD_CHUNK, 256 * 1024);
}
