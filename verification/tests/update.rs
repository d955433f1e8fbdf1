use std::cmp::Ordering;

use shield_optimizer::numeric::parse_u64;
use shield_optimizer::update::{
    check_for_update, latest_v2_tag_of_body, pick_latest_v2_tag, Release, RELEASES_PAGE,
};
use shield_optimizer::version::{
    cmp_numeric_triplet, cmp_prerelease, compare_versions, is_newer, parse_triplet, split_pre,
};

#[test]
fn newer_patch_and_minor() {
    assert!(is_newer("0.1.1", "0.1.0"));
    assert!(is_newer("0.2.0", "0.1.9"));
    assert!(!is_newer("0.1.0", "0.1.0"));
    assert!(!is_newer("0.1.0", "0.2.0"));
}

#[test]
fn stable_beats_prerelease_same_core() {
    assert!(is_newer("0.1.0", "0.1.0-beta.9"));
    assert!(!is_newer("0.1.0-beta.9", "0.1.0"));
}

#[test]
fn prerelease_numeric_segments_compare_numerically() {
    assert!(is_newer("0.1.0-beta.10", "0.1.0-beta.9"));
    assert!(!is_newer("0.1.0-beta.9", "0.1.0-beta.10"));
    assert!(is_newer("0.1.0-rc.1", "0.1.0-beta.9"));
}

#[test]
fn higher_core_beats_any_prerelease() {
    assert!(is_newer("0.2.0-beta.1", "0.1.0"));
}

fn chars(s: &str) -> Vec<char> {
    s.chars().collect()
}

#[test]
fn no_version_is_newer_than_itself() {
    for v in ["0.1.0", "1.2.3-beta.4", "", "-", "x.y.z-a..b", "1.0.0-10"] {
        assert!(!is_newer(v, v));
        assert_eq!(compare_versions(v, v), Ordering::Equal);
    }
}

#[test]
fn comparing_the_other_way_round_flips() {
    let pairs = [("0.1.0", "0.1.0-rc"), ("1.0.0-2", "1.0.0-alpha"), ("2.0", "1.9.9"), ("1.0.0-a.b", "1.0.0-a")];
    for (a, b) in pairs {
        let ab = compare_versions(a, b);
        let ba = compare_versions(b, a);
        assert_eq!(ab, ba.reverse());
        assert!(!(is_newer(a, b) && is_newer(b, a)));
    }
}

#[test]
fn missing_core_pieces_count_as_zero() {
    assert_eq!(compare_versions("1.2", "1.2.0"), Ordering::Equal);
    assert_eq!(compare_versions("1", "0.9"), Ordering::Greater);
    assert_eq!(parse_triplet("1.2.3"), (1, 2, 3));
    assert_eq!(parse_triplet("1.2.3.4"), (1, 2, 3));
    assert_eq!(parse_triplet("a.b"), (0, 0, 0));
    assert_eq!(parse_triplet("7..9"), (7, 0, 9));
    assert_eq!(parse_triplet("+4.05.18446744073709551616"), (4, 5, 0));
}

#[test]
fn core_comparison_is_by_number() {
    assert_eq!(cmp_numeric_triplet("10.0.0", "9.9.9"), Ordering::Greater);
    assert_eq!(cmp_numeric_triplet("1.2.3", "1.2.4"), Ordering::Less);
    assert_eq!(cmp_numeric_triplet("01.2", "1.2.0"), Ordering::Equal);
}

#[test]
fn split_pre_cuts_at_the_first_dash() {
    assert_eq!(split_pre("1.0.0-rc-1"), ("1.0.0", Some("rc-1")));
    assert_eq!(split_pre("1.0.0"), ("1.0.0", None));
    assert_eq!(split_pre("-x"), ("", Some("x")));
}

#[test]
fn prerelease_identifiers() {
    assert_eq!(cmp_prerelease("beta", "beta.1"), Ordering::Less);
    assert_eq!(cmp_prerelease("beta.01", "beta.1"), Ordering::Equal);
    // A number and a word compare as text: '2' comes before 'a'.
    assert_eq!(cmp_prerelease("2", "alpha"), Ordering::Less);
    // Too large for u64: compared as text.
    assert_eq!(cmp_prerelease("18446744073709551616", "9"), Ordering::Less);
    assert_eq!(cmp_prerelease("18446744073709551615", "9"), Ordering::Greater);
}

#[test]
fn newer_is_not_transitive_across_numbers_and_words() {
    // 10 > 9 numerically, "9" > "5x" and "5x" > "10" as text.
    assert!(is_newer("1.0.0-10", "1.0.0-9"));
    assert!(is_newer("1.0.0-9", "1.0.0-5x"));
    assert!(is_newer("1.0.0-5x", "1.0.0-10"));
}

#[test]
fn unreadable_version_is_never_newer() {
    assert!(!is_newer("garbage", "0.0.0-beta.1"));
    assert!(!is_newer("garbage", "0.0.1"));
    assert!(!is_newer("1", "0.9"));
    assert!(!is_newer("1.2", "1.1.9"));
    assert!(!is_newer("1.2.3.4", "1.0.0"));
    assert!(!is_newer("1.x.0", "0.0.0"));
    assert!(!is_newer("", "0.0.0-rc"));
    assert!(is_newer("1.2.0", "1.1.9"));
    assert!(is_newer("+1.02.0-rc", "1.1.9"));
    // Only the first version has to read as one.
    assert!(is_newer("0.0.1", "garbage"));
}

#[test]
fn u64_numerals() {
    assert_eq!(parse_u64(&chars("0")), Some(0));
    assert_eq!(parse_u64(&chars("007")), Some(7));
    assert_eq!(parse_u64(&chars("+12")), Some(12));
    assert_eq!(parse_u64(&chars("18446744073709551615")), Some(u64::MAX));
    assert_eq!(parse_u64(&chars("18446744073709551616")), None);
    assert_eq!(parse_u64(&chars("")), None);
    assert_eq!(parse_u64(&chars("+")), None);
    assert_eq!(parse_u64(&chars("-1")), None);
    assert_eq!(parse_u64(&chars("1a")), None);
    assert_eq!(parse_u64(&chars("٣")), None);
}

fn release(draft: Option<bool>, tag: Option<&str>) -> Release {
    Release { draft, tag_name: tag.map(|t| t.to_string()) }
}

#[test]
fn latest_v2_tag_skips_drafts_and_other_lines() {
    let releases = vec![
        release(Some(false), Some("v2-0.1.0")),
        release(Some(true), Some("v2-9.0.0")),
        release(None, Some("v0.9.9")),
        release(None, Some("v2-0.2.0-beta.1")),
        release(None, None),
        release(Some(false), Some("v2-0.1.5")),
    ];
    assert_eq!(pick_latest_v2_tag(&releases), Some("0.2.0-beta.1".to_string()));
}

#[test]
fn latest_v2_tag_none_without_candidates() {
    assert_eq!(pick_latest_v2_tag(&vec![]), None);
    let releases = vec![release(Some(true), Some("v2-1.0.0")), release(None, Some("v1-3.0.0"))];
    assert_eq!(pick_latest_v2_tag(&releases), None);
}

#[test]
fn latest_v2_tag_keeps_first_of_equals() {
    let releases = vec![release(None, Some("v2-1.0")), release(None, Some("v2-1.0.0"))];
    assert_eq!(pick_latest_v2_tag(&releases), Some("1.0".to_string()));
}

#[test]
fn update_available_only_for_newer_release() {
    let info = check_for_update("0.1.0".to_string(), Ok(Some("0.2.0".to_string())));
    assert_eq!(info.current, "0.1.0");
    assert_eq!(info.latest, Some("0.2.0".to_string()));
    assert!(info.update_available);
    assert_eq!(info.url, RELEASES_PAGE);
    assert_eq!(info.url, "https://github.com/bryanroscoe/shield_optimizer/releases");

    let same = check_for_update("0.2.0".to_string(), Ok(Some("0.2.0".to_string())));
    assert!(!same.update_available);

    let none = check_for_update("0.2.0".to_string(), Ok(None));
    assert_eq!(none.latest, None);
    assert!(!none.update_available);
}

#[test]
fn failed_lookup_means_no_update() {
    let info = check_for_update("0.1.0".to_string(), Err("GitHub API returned 500".to_string()));
    assert_eq!(info.latest, None);
    assert!(!info.update_available);
}

#[test]
fn latest_v2_tag_from_a_response_body() {
    let body = r#"[
        {"tag_name": "v2-0.1.0", "draft": false},
        {"tag_name": "v2-0.3.0", "draft": true},
        {"tag_name": "v2-0.2.0-beta.2", "draft": "no"},
        {"tag_name": 7},
        {"name": "no tag"},
        {"tag_name": "v0.9.0"}
    ]"#;
    assert_eq!(latest_v2_tag_of_body(body), Ok(Some("0.2.0-beta.2".to_string())));
    assert_eq!(latest_v2_tag_of_body("[]"), Ok(None));
    assert!(latest_v2_tag_of_body("{\"message\": \"rate limited\"}").is_err());
    assert!(latest_v2_tag_of_body("not json").is_err());
}

#[test]
fn unreadable_latest_is_no_update() {
    let info = check_for_update("0.1.0".to_string(), Ok(Some("nightly".to_string())));
    assert_eq!(info.latest, Some("nightly".to_string()));
    assert!(!info.update_available);
}

#[test]
fn parse_error_text_is_serde_jsons() {
    let body = "{\"message\": \"rate limited\"}";
    let expected = serde_json::from_str::<Vec<serde_json::Value>>(body).unwrap_err().to_string();
    assert!(!expected.is_empty());
    assert_eq!(latest_v2_tag_of_body(body), Err(expected));
}
