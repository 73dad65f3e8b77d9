use qwen_studio::updates::{
    check_for_updates, escape_notes, get_update_info, install_update_with_progress, Download,
    Release, UpdateCheck, UpdateNotice, CHECK_INTERVAL_SECS,
};
use qwen_studio::version::{compare_versions, parse_semver, parse_u64, parse_version};

fn offer(version: &str, body: Option<&str>) -> UpdateCheck {
    UpdateCheck::Available(Release {
        version: version.to_string(),
        body: body.map(|b| b.to_string()),
    })
}

#[test]
fn versions_are_compared_by_component() {
    assert_eq!(compare_versions("2.2.3", "2.2.3"), 0);
    assert_eq!(compare_versions("2.2.3", "2.2.4"), -1);
    assert_eq!(compare_versions("2.3.0", "2.2.9"), 1);
    assert_eq!(compare_versions("2.10.0", "2.9.9"), 1);
    assert_eq!(compare_versions("10", "9.9.9"), 1);
}

#[test]
fn missing_parts_are_zero() {
    assert_eq!(compare_versions("2.2", "2.2.0"), 0);
    assert_eq!(compare_versions("2.2.0.0", "2.2"), 0);
    assert_eq!(compare_versions("2.2", "2.2.1"), -1);
    assert_eq!(compare_versions("", "0.0"), 0);
    assert_eq!(compare_versions("", "0.1"), -1);
}

#[test]
fn a_prerelease_is_older_than_its_release() {
    assert_eq!(compare_versions("2.0.0-beta.5", "2.0.0"), -1);
    assert_eq!(compare_versions("2.0.0", "2.0.0-beta.5"), 1);
    assert_eq!(compare_versions("2.2.3-beta", "2.2"), 1);
    assert_eq!(compare_versions("2.2.3-beta", "2.2.2"), 1);
    assert_eq!(compare_versions("2.2.3-beta", "2.2.3-beta"), 0);
    assert_eq!(compare_versions("2.2-beta", "2.2.0-beta"), 0);
}

#[test]
fn prereleases_are_ordered_by_their_identifiers() {
    let ascending = [
        "1.0.0--",
        "1.0.0-1",
        "1.0.0-2",
        "1.0.0-10",
        "1.0.0-99999999999999999999",
        "1.0.0-100000000000000000000",
        "1.0.0-Z",
        "1.0.0-alpha",
        "1.0.0-alpha.1",
        "1.0.0-alpha.beta",
        "1.0.0-alpha-1",
        "1.0.0-beta",
        "1.0.0-beta.2",
        "1.0.0-beta.11",
        "1.0.0-rc.1",
        "1.0.0",
        "1.0.1-0",
    ];
    for (i, a) in ascending.iter().enumerate().skip(1) {
        for (j, b) in ascending.iter().enumerate().skip(1) {
            let expected = if i < j {
                -1
            } else if i > j {
                1
            } else {
                0
            };
            assert_eq!(compare_versions(a, b), expected, "{} {}", a, b);
        }
    }
    assert_eq!(compare_versions(ascending[0], "1.0.0-10"), 1);
    assert_eq!(compare_versions(ascending[0], "1.0.0-Z"), -1);
    assert_eq!(compare_versions("1.0.0-0a", "1.0.0-0b"), -1);
    assert_eq!(compare_versions("1.0.0-0", "1.0.0-1"), -1);
}

#[test]
fn build_metadata_does_not_count() {
    assert_eq!(compare_versions("2.0.0+build.7", "2.0.0"), 0);
    assert_eq!(compare_versions("2.0.0+build-7", "2.0.0+1"), 0);
    assert_eq!(compare_versions("2.0.0-rc.1+build.7", "2.0.0-rc.1"), 0);
    assert_eq!(compare_versions("2.0.0-rc.1+build.7", "2.0.0"), -1);
    assert_eq!(compare_versions("2.0.3+007", "2.0.3"), 0);
}

#[test]
fn semantic_versions_are_taken_apart() {
    let release = parse_semver("2.2.3").unwrap();
    assert_eq!(release.numbers, vec![2, 2, 3]);
    assert_eq!(release.prerelease, None);
    let beta = parse_semver("2.3-beta.1+x86-64").unwrap();
    assert_eq!(beta.numbers, vec![2, 3]);
    assert_eq!(
        beta.prerelease,
        Some(vec!["beta".to_string(), "1".to_string()])
    );
    for text in ["0", "1.0.0-0", "1.0.0-0a.-", "1.0.0+007", "1.0.0-a+b", "18446744073709551615"] {
        assert!(parse_semver(text).is_some(), "{}", text);
    }
    for text in [
        "", "v2.0.0", "7.", "7.-", "+7", "7.0a-beta", "2.2.3-", "2.2.3-a..b", "2.2.3+", "2.2.3-a_b",
        "1.0.0-01", "1.0.0-a.00", "1.02.3", "01.2.3-beta", "1.2.3.4", "1.2.3.4-beta",
        "1.2.3.4+build", "18446744073709551616",
    ] {
        assert!(parse_semver(text).is_none(), "{}", text);
    }
}

#[test]
fn parts_that_are_no_numbers_do_not_count() {
    for text in ["v2..x.7", "7.", "7.-", "+7", "7.0a-beta"] {
        assert_eq!(parse_version(text), vec![7], "{}", text);
    }
    assert_eq!(parse_version("2.2.3-a..b"), vec![2, 2]);
    assert_eq!(parse_version("1.0.0-a.00.5"), vec![1, 0, 0, 5]);
    assert_eq!(parse_version("1.2.3.4+build"), vec![1, 2, 3]);
    assert_eq!(compare_versions("2.x.3", "2.3"), 0);
    assert_eq!(compare_versions("99999999999999999999.1", "1"), 0);
}

#[test]
fn other_texts_are_compared_by_their_numbers() {
    assert_eq!(compare_versions("1.0.0-01", "1.0.0"), 0);
    assert_eq!(compare_versions("1.0.0-01", "1.0.0-1"), 0);
    assert_eq!(compare_versions("1.2.3.4-beta", "1.2.3"), 0);
    assert_eq!(compare_versions("1.2.3.4-beta", "1.2.3-beta"), 1);
    assert_eq!(compare_versions("1.2.3.4", "1.2.3"), 1);
    assert_eq!(compare_versions("01.2.3-beta", "1.2"), 0);
    assert_eq!(compare_versions("v2.0.0-beta.5", "2.0.0-beta.5"), -1);
}

#[test]
fn numbers_are_parsed_as_u64() {
    for text in [
        "0",
        "007",
        "+5",
        "18446744073709551615",
        "18446744073709551616",
        "184467440737095516150",
        "",
        "+",
        "++1",
        "-0",
        "1 ",
        " 1",
        "1a",
        "٣",
    ] {
        assert_eq!(parse_u64(text), text.parse::<u64>().ok(), "{:?}", text);
    }
}

#[test]
fn order_of_versions_is_an_order() {
    let semantic = [
        "1", "1.0.1", "1.2-rc", "1.2", "2-1", "2-a", "2", "2.0", "2.0+x", "2.0.3+7", "10.1",
    ];
    let alike = ["1", "1.0.1", "2", "2.0+x", "10.1", "v2", "2-01", "2.0.0.0-a", "2.x.5"];
    for versions in [&semantic[..], &alike[..]] {
        for a in versions {
            assert_eq!(compare_versions(a, a), 0);
            for b in versions {
                assert_eq!(compare_versions(a, b), -compare_versions(b, a));
                for c in versions {
                    if compare_versions(a, b) <= 0 && compare_versions(b, c) <= 0 {
                        assert!(compare_versions(a, c) <= 0);
                    }
                }
            }
        }
    }
}

#[test]
fn a_release_is_offered_to_its_prereleases() {
    assert!(matches!(
        check_for_updates("2.0.0-beta.5", offer("2.0.0", None), true),
        UpdateNotice::Announce { .. }
    ));
    assert!(matches!(
        check_for_updates("2.0.0", offer("2.0.0-beta.5", None), true),
        UpdateNotice::NotNewer { .. }
    ));
    assert!(get_update_info("2.0.0-beta.5", offer("2.0.0", None)).unwrap().available);
    assert!(install_update_with_progress("2.0.0", offer("2.0.0-beta.5", None)).is_err());
}

#[test]
fn only_a_newer_release_is_announced() {
    let notice = check_for_updates("2.2.3", offer("2.2.4", Some("a\n\"b\"")), true);
    match notice {
        UpdateNotice::Announce { version, notes } => {
            assert_eq!(version, "2.2.4");
            assert_eq!(notes, "a\\n\\\"b\\\"");
        }
        other => panic!("{:?}", other),
    }
    assert!(matches!(
        check_for_updates("2.2.3", offer("2.2.4", None), false),
        UpdateNotice::Suppress { .. }
    ));
    for old in ["2.2.3", "2.2.2", "2.2.3.0"] {
        assert!(matches!(
            check_for_updates("2.2.3", offer(old, None), true),
            UpdateNotice::NotNewer { .. }
        ));
    }
    match check_for_updates("2.2.3", offer("3", None), true) {
        UpdateNotice::Announce { notes, .. } => assert_eq!(notes, "No release notes"),
        other => panic!("{:?}", other),
    }
    assert!(matches!(
        check_for_updates("1", UpdateCheck::UpToDate, true),
        UpdateNotice::UpToDate
    ));
    match check_for_updates("1", UpdateCheck::Failed("offline".to_string()), false) {
        UpdateNotice::Failed(e) => assert_eq!(e, "offline"),
        other => panic!("{:?}", other),
    }
}

#[test]
fn update_info_is_shown() {
    let info = get_update_info("2.2.3", offer("2.3", Some("new"))).unwrap();
    assert_eq!(info.current_version, "2.2.3");
    assert!(info.available);
    assert_eq!(info.latest_version, "2.3");
    assert_eq!(info.release_notes, "new");
    let info = get_update_info("2.2.3", offer("2.3", None)).unwrap();
    assert_eq!(info.release_notes, "No release notes");
    for found in [offer("2.2.3", Some("x")), UpdateCheck::UpToDate] {
        let info = get_update_info("2.2.3", found).unwrap();
        assert!(!info.available);
        assert_eq!(info.latest_version, "2.2.3");
        assert_eq!(info.release_notes, "");
    }
    let e = get_update_info("1", UpdateCheck::Failed("offline".to_string())).unwrap_err();
    assert_eq!(e, "offline");
}

#[test]
fn installation_is_refused_unless_newer() {
    assert_eq!(
        install_update_with_progress("2.2.3", offer("2.2.10", None)).unwrap(),
        "2.2.10"
    );
    assert_eq!(
        install_update_with_progress("2.2.3", offer("2.2.3", None)).unwrap_err(),
        "Remote version 2.2.3 is not newer than current version 2.2.3. You're already up to date!"
    );
    assert_eq!(
        install_update_with_progress("1", UpdateCheck::UpToDate).unwrap_err(),
        "No update available"
    );
    assert_eq!(
        install_update_with_progress("1", UpdateCheck::Failed("x".to_string())).unwrap_err(),
        "x"
    );
}

#[test]
fn download_is_counted() {
    let mut d = Download::new();
    d.advance(10, None);
    assert_eq!((d.downloaded, d.total), (10, 0));
    d.advance(5, Some(100));
    d.advance(5, Some(200));
    assert_eq!((d.downloaded, d.total), (20, 100));
}

#[test]
fn escaped_notes_are_one_line() {
    let notes = "first\nsecond \"quoted\"\r\n\\n";
    let escaped = escape_notes(notes);
    assert_eq!(
        escaped,
        notes.replace('\n', "\\n").replace('"', "\\\"")
    );
    assert!(!escaped.contains('\n'));
    assert_eq!(CHECK_INTERVAL_SECS, 4 * 60 * 60);
}
