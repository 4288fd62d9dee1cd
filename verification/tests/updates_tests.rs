use stattracker::updates::{
    installs_silently, update_notes, format_release_notes, parse_semver, plain_release_notes, releases_api_url, truncate_notes,
    version_chars, GithubRelease,
};

#[test]
fn semver_reads_tags() {
    assert_eq!(parse_semver("v1.4.2"), Some((1, 4, 2)));
    assert_eq!(parse_semver("  V2.0  "), Some((2, 0, 0)));
    assert_eq!(parse_semver("3"), Some((3, 0, 0)));
    assert_eq!(parse_semver("1.2.3-beta.1"), Some((1, 2, 3)));
    assert_eq!(parse_semver("1.2.x"), None);
    assert_eq!(parse_semver("1.x"), None);
    assert_eq!(parse_semver("release"), None);
    assert_eq!(parse_semver(""), None);
    assert_eq!(parse_semver("+1.+2.3"), Some((1, 2, 3)));
    assert_eq!(parse_semver("18446744073709551616.0.0"), None);
    assert_eq!(parse_semver("18446744073709551615.0.0"), Some((u64::MAX, 0, 0)));
}

#[test]
fn versions_read_back_as_written() {
    for v in [(0u64, 0u64, 0u64), (1, 22, 333), (u64::MAX, 9, 10)] {
        let text: String = version_chars(v).into_iter().collect();
        assert_eq!(parse_semver(&text), Some(v));
    }
}

#[test]
fn release_notes_become_plain_text() {
    let md = "## What's new\r\n\r\n- **Faster** sync\n* Fixed __bugs__\n\n\n### Thanks\n";
    assert_eq!(
        plain_release_notes(md),
        "What's new\n\n\u{2022} Faster sync\n\u{2022} Fixed bugs\n\nThanks"
    );
    assert_eq!(plain_release_notes("   \n\n"), "");
    assert_eq!(plain_release_notes("##\ntext"), "text");
}

#[test]
fn notes_are_cut_to_length() {
    assert_eq!(truncate_notes("short", 10), "short");
    assert_eq!(truncate_notes("abcdefghij", 4), "abcd\n\u{2026}");
    assert_eq!(truncate_notes("line one\nline two", 12), "line one\n\u{2026}");
    assert_eq!(truncate_notes("a\nbcdefghij", 8), "a\nbcdefg\n\u{2026}");
    let cut = truncate_notes(&"x".repeat(3000), 1600);
    assert!(cut.chars().count() <= 1602);
}

fn release(tag: &str, body: &str, draft: bool, prerelease: bool) -> GithubRelease {
    GithubRelease { tag_name: tag.to_string(), body: body.to_string(), draft, prerelease }
}

#[test]
fn notes_since_current_are_listed_newest_first() {
    let releases = vec![
        release("v1.1.0", "- one", false, false),
        release("v1.3.0", "", false, false),
        release("v1.2.0", "**two**", false, false),
        release("v1.4.0", "later", false, false),
        release("v1.2.5", "draft", true, false),
        release("v1.2.6", "pre", false, true),
        release("v1.0.0", "old", false, false),
    ];
    assert_eq!(
        format_release_notes(&releases, "1.0.0", "v1.3.0"),
        "1.3.0\n\n1.2.0\ntwo\n\n1.1.0\n\u{2022} one"
    );
    assert_eq!(format_release_notes(&releases, "1.4.0", "1.4.0"), "");
}

#[test]
fn releases_endpoint_names_the_repository() {
    assert_eq!(
        releases_api_url("https://github.com/acme/stattracker/releases/latest/download/latest.json"),
        Some("https://api.github.com/repos/acme/stattracker/releases?per_page=30".to_string())
    );
    assert_eq!(releases_api_url("https://example.com/acme/stattracker"), None);
    assert_eq!(releases_api_url("https://github.com/acme"), None);
    assert_eq!(releases_api_url("https://github.com//repo"), None);
}

#[test]
fn update_notices_fall_back_to_the_update_body() {
    assert_eq!(update_notes(Some("1.2.0\nfix".to_string()), Some("## body")), "1.2.0\nfix");
    assert_eq!(update_notes(Some(String::new()), Some("## body")), "body");
    assert_eq!(update_notes(None, Some("- item")), "\u{2022} item");
    assert_eq!(update_notes(None, None), "");
    assert!(installs_silently("silent"));
    assert!(!installs_silently("notify"));
    assert!(!installs_silently("Silent"));
}
