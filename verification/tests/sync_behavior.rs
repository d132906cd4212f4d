//! Sync-direction decisions and text normalisation.

use promptheus::sync::{normalize_toml_content, should_sync, RemoteSnippet, SyncDirection};

#[test]
fn sync_test_sync_direction_logic() {
    let now: i64 = 1700000000;
    let earlier = now - 3600;
    let later = now + 3600;

    assert_eq!(should_sync(later, earlier, false), SyncDirection::Upload);
    assert_eq!(should_sync(earlier, later, false), SyncDirection::Download);
    assert_eq!(should_sync(now, now, false), SyncDirection::NoSync);

    assert_eq!(should_sync(earlier, later, true), SyncDirection::Upload);
    assert_eq!(should_sync(later, earlier, true), SyncDirection::Upload);
}

#[test]
fn normalisation_trims_and_drops_empty_lines() {
    assert_eq!(
        normalize_toml_content("  a = 1  \n\n   \nb = 2\n"),
        "a = 1\nb = 2"
    );
    assert_eq!(normalize_toml_content(""), "");
}

#[test]
fn remote_snippet_carries_content_and_time() {
    let snap = RemoteSnippet { content: "c".to_string(), updated_at: 7 };
    assert_eq!(snap.content, "c");
    assert_eq!(snap.updated_at, 7);
}
