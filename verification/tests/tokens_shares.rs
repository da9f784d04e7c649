//! Token text, the strict parser, and the share registry.
use fileshare::share::{create_share, fresh_token, lookup_share, share_link_path, ShareRegistry};
use fileshare::token::{parse_token, token_to_string, ShareToken};
use fileshare::validate::{file_target, AbsPath, CanonOutcome, FsError};

fn abs(parts: &[&str]) -> AbsPath {
    AbsPath { segs: parts.iter().map(|s| s.to_string()).collect() }
}

#[test]
fn token_text_is_hyphenated_hex() {
    let t = ShareToken { hi: 0x0123456789abcdef, lo: 0xfedcba9876543210 };
    assert_eq!(token_to_string(&t), "01234567-89ab-cdef-fedc-ba9876543210");
}

#[test]
fn token_text_parses_back() {
    let t = ShareToken { hi: 0xdeadbeef00c0ffee, lo: 0x0102030405060708 };
    let s = token_to_string(&t);
    assert_eq!(parse_token(&s), Some(t));
}

#[test]
fn fresh_tokens_round_trip() {
    for _ in 0..8 {
        let t = fresh_token();
        let s = token_to_string(&t);
        assert_eq!(s.len(), 36);
        assert_eq!(parse_token(&s), Some(t));
    }
}

#[test]
fn malformed_token_texts_are_rejected() {
    assert_eq!(parse_token(""), None);
    assert_eq!(parse_token("0123456789abcdef0123456789abcdef"), None);
    assert_eq!(parse_token("01234567-89ab-cdef-fedc-ba987654321g"), None);
    assert_eq!(parse_token("01234567089ab-cdef-fedc-ba9876543210"), None);
    assert_eq!(parse_token("01234567-89AB-cdef-fedc-ba9876543210"), None);
    assert_eq!(parse_token("01234567-89ab-cdef-fedc-ba98765432100"), None);
}

#[test]
fn share_link_carries_the_token() {
    let t = ShareToken { hi: 1, lo: 2 };
    assert_eq!(
        share_link_path(&t),
        "/share/00000000-0000-0001-0000-000000000002"
    );
}

#[test]
fn created_share_resolves_to_its_file() {
    let mut reg = ShareRegistry::new();
    let file = abs(&["srv", "files", "docs", "readme.md"]);
    let t = create_share(&mut reg, &file);
    let s = token_to_string(&t);
    let got = lookup_share(&reg, &s).unwrap();
    assert_eq!(got.segs, file.segs);
}

#[test]
fn unknown_token_is_not_found() {
    let reg = ShareRegistry::new();
    let t = fresh_token();
    let s = token_to_string(&t);
    assert_eq!(lookup_share(&reg, &s).unwrap_err(), FsError::NotFound);
    assert_eq!(lookup_share(&reg, "not-a-token").unwrap_err(), FsError::NotFound);
}

#[test]
fn distinct_tokens_do_not_interfere() {
    let mut reg = ShareRegistry::new();
    let a = abs(&["srv", "files", "a.txt"]);
    let b = abs(&["srv", "files", "b.txt"]);
    let ta = create_share(&mut reg, &a);
    let tb = create_share(&mut reg, &b);
    assert_eq!(lookup_share(&reg, &token_to_string(&ta)).unwrap().segs, a.segs);
    assert_eq!(lookup_share(&reg, &token_to_string(&tb)).unwrap().segs, b.segs);
}

#[test]
fn deleted_file_makes_redemption_fail() {
    // mint a token, then pretend the file vanished: canonicalizing the
    // stored path now reports a missing target, and redemption must be
    // NotFound rather than stale bytes
    let root = abs(&["srv", "files"]);
    let mut reg = ShareRegistry::new();
    let file = abs(&["srv", "files", "docs", "readme.md"]);
    let t = create_share(&mut reg, &file);
    let stored = lookup_share(&reg, &token_to_string(&t)).unwrap();
    let redeemed = file_target(&root, CanonOutcome::MissingTarget, false);
    assert_eq!(redeemed.unwrap_err(), FsError::NotFound);
    // while the file exists, the same stored path redeems fine
    let ok = file_target(&root, CanonOutcome::Resolved(stored), true);
    assert_eq!(ok.unwrap().segs, file.segs);
}

#[test]
fn replaced_by_outside_symlink_is_forbidden() {
    let root = abs(&["srv", "files"]);
    let mut reg = ShareRegistry::new();
    let file = abs(&["srv", "files", "docs", "readme.md"]);
    create_share(&mut reg, &file);
    // the stored path now canonicalizes to somewhere outside the root
    let escaped = CanonOutcome::Resolved(abs(&["home", "user", "secret"]));
    assert_eq!(file_target(&root, escaped, true).unwrap_err(), FsError::Forbidden);
}

#[test]
fn share_target_no_longer_a_file_is_rejected() {
    let root = abs(&["srv", "files"]);
    let dir_now = CanonOutcome::Resolved(abs(&["srv", "files", "docs"]));
    assert_eq!(file_target(&root, dir_now, false).unwrap_err(), FsError::NotAFile);
}
