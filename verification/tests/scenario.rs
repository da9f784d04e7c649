//! One request flow end to end, with the filesystem's answers played
//! by hand: browse the root and a subdirectory, share a file, download
//! it, then delete it and watch the link die.
use fileshare::listing::{build_listing, rel_display_of, RawEntry};
use fileshare::paths::sanitize;
use fileshare::share::{create_share, lookup_share, ShareRegistry};
use fileshare::token::token_to_string;
use fileshare::transfer::download_headers;
use fileshare::validate::{dir_target, file_target, AbsPath, CanonOutcome, FsError, join_under_root};

fn abs(parts: &[&str]) -> AbsPath {
    AbsPath { segs: parts.iter().map(|s| s.to_string()).collect() }
}

#[test]
fn browse_share_download_delete() {
    let root = abs(&["srv", "files"]);

    // browse "." : the joined path canonicalizes to the root itself
    let rel = sanitize(".");
    let joined = join_under_root(&root, &rel);
    assert_eq!(joined.segs, vec!["srv", "files", "."]);
    let v = dir_target(&root, CanonOutcome::Resolved(abs(&["srv", "files"])), true).unwrap();
    let prefix = rel_display_of(&root, &v);
    assert_eq!(prefix, "");
    // the root holds a single directory, docs
    let raws = vec![RawEntry {
        name: "docs".to_string(),
        is_dir: true,
        size: 0,
        modified: Some(0),
    }];
    let (dirs, files) = build_listing(&prefix, &raws);
    assert_eq!(dirs.len(), 1);
    assert_eq!(dirs[0].name, "docs");
    assert_eq!(dirs[0].path, "docs");
    assert!(files.is_empty());

    // browse "docs" : readme.md, 10 bytes
    let rel = sanitize("docs");
    let joined = join_under_root(&root, &rel);
    assert_eq!(joined.segs, vec!["srv", "files", "docs"]);
    let v = dir_target(&root, CanonOutcome::Resolved(abs(&["srv", "files", "docs"])), true)
        .unwrap();
    let prefix = rel_display_of(&root, &v);
    assert_eq!(prefix, "docs");
    let raws = vec![RawEntry {
        name: "readme.md".to_string(),
        is_dir: false,
        size: 10,
        modified: Some(1_700_000_000),
    }];
    let (dirs, files) = build_listing(&prefix, &raws);
    assert!(dirs.is_empty());
    assert_eq!(files[0].name, "readme.md");
    assert_eq!(files[0].path, "docs/readme.md");
    assert_eq!(files[0].size.as_deref(), Some("10 B"));

    // share-create "docs/readme.md"
    let rel = sanitize("docs/readme.md");
    let joined = join_under_root(&root, &rel);
    let canonical = abs(&["srv", "files", "docs", "readme.md"]);
    assert_eq!(joined.segs, canonical.segs);
    let file = file_target(&root, CanonOutcome::Resolved(canonical), true).unwrap();
    let mut reg = ShareRegistry::new();
    let token = create_share(&mut reg, &file);
    let link = fileshare::share::share_link_path(&token);
    assert!(link.starts_with("/share/"));

    // redeem: look the token up, re-validate, build download headers
    let token_str = token_to_string(&token);
    let stored = lookup_share(&reg, &token_str).unwrap();
    let fresh = abs(&["srv", "files", "docs", "readme.md"]);
    let target = file_target(&root, CanonOutcome::Resolved(fresh), true).unwrap();
    assert_eq!(target.segs, stored.segs);
    let m = download_headers(&target, 10);
    assert_eq!(m.content_length, "10");
    assert_eq!(m.content_disposition, "attachment; filename=\"readme.md\"");

    // delete readme.md: the same token must now die with NotFound
    let again = lookup_share(&reg, &token_str).unwrap();
    assert_eq!(again.segs, stored.segs);
    let redeemed = file_target(&root, CanonOutcome::MissingTarget, false);
    assert_eq!(redeemed.unwrap_err(), FsError::NotFound);
}
