use cmvm::error::ErrorKind;
use cmvm::platform::{linux_supported_definition, macos_supported_definition, supported_definition};
use cmvm::versions::{
    get_releases, list_installable, sort_releases, Asset, InstalledEntry, RawRelease, Version,
};

fn asset(name: &str, content_type: &str) -> Asset {
    Asset {
        name: name.to_string(),
        content_type: content_type.to_string(),
        browser_download_url: "http://fake_browser_download_url".to_string(),
    }
}

fn linux_asset(tag: &str) -> Asset {
    asset(&format!("cmake-{}-linux-x86_64.tar.gz", tag), "application/gzip")
}

fn raw(tag: &str, prerelease: Option<bool>, assets: Vec<Asset>) -> RawRelease {
    RawRelease { tag_name: tag.to_string(), prerelease, assets }
}

fn release(tag: &str) -> Version {
    let name = tag.trim_start_matches('v').to_string();
    Version::from_raw_value(raw(tag, Some(false), vec![linux_asset(&name)])).unwrap()
}

#[test]
fn test_version_tag_omits_v_key_word() {
    let version = Version {
        major: Some(1),
        minor: Some(10),
        patch: Some(0),
        tag_name: "v1.10.0".to_string(),
        assets: vec![],
        prerelease: Some(false),
    };

    assert_eq!(version.get_tag_name(), "1.10.0");
}

#[test]
fn test_major_version_extracted() {
    let version = Version {
        major: Some(3),
        minor: Some(20),
        patch: Some(10),
        prerelease: Some(false),
        tag_name: "v3.20.10".to_string(),
        assets: vec![],
    };

    assert_eq!(version.major.unwrap(), 3);
}

#[test]
fn test_raw_version_converted_to_version_struct() {
    let raw_asset = Asset {
        name: "cmake-3.22.3-linux-aarch64.tar.gz".to_string(),
        browser_download_url: "http://fake_browser_download_url".to_string(),
        content_type: "application/gzip".to_string(),
    };
    let raw_version = RawRelease {
        tag_name: "v3.22.3".to_string(),
        prerelease: None,
        assets: vec![raw_asset],
    };

    let version_from_raw = Version::from_raw_value(raw_version);
    let version = version_from_raw.unwrap();
    let assets = version.assets.first();

    assert_eq!(version.tag_name, "v3.22.3");
    assert_eq!(version.assets.len(), 1);
    assert_eq!(assets.is_some(), true);
    assert_eq!(assets.unwrap().name, "cmake-3.22.3-linux-aarch64.tar.gz");
    assert_eq!(
        assets.unwrap().browser_download_url,
        "http://fake_browser_download_url"
    );
    assert_eq!(assets.unwrap().content_type, "application/gzip");
}

#[test]
fn test_raw_version_rc_converted_to_version_struct() {
    let raw_asset = Asset {
        name: "cmake-3.22.3-linux-aarch64.tar.gz".to_string(),
        browser_download_url: "http://fake_browser_download_url".to_string(),
        content_type: "application/gzip".to_string(),
    };
    let raw_version = RawRelease {
        tag_name: "v3.22.3-rc5".to_string(),
        prerelease: Some(true),
        assets: vec![raw_asset],
    };

    let version_from_raw = Version::from_raw_value(raw_version);
    let version = version_from_raw.unwrap();

    assert_eq!(version.tag_name, "v3.22.3-rc5");
    assert_eq!(version.major, Some(3));
    assert_eq!(version.minor, Some(22));
    assert_eq!(version.patch, Some(3));
    assert_eq!(version.prerelease, Some(true));
    assert_eq!(version.is_rc(), true);
}

#[test]
fn parse_recovers_the_triple() {
    let version = release("v3.22.3");
    assert_eq!((version.major, version.minor, version.patch), (Some(3), Some(22), Some(3)));
    let big = release("v2147483647.0.12");
    assert_eq!((big.major, big.minor, big.patch), (Some(2147483647), Some(0), Some(12)));
}

#[test]
fn missing_and_odd_components_count_as_zero() {
    let short = release("v3");
    assert_eq!((short.major, short.minor, short.patch), (Some(3), Some(0), Some(0)));
    let two = release("3.5");
    assert_eq!((two.major, two.minor, two.patch), (Some(3), Some(5), Some(0)));
    let odd = release("vx.y.7");
    assert_eq!((odd.major, odd.minor, odd.patch), (Some(0), Some(0), Some(7)));
    let too_big = release("v2147483648.1.1");
    assert_eq!(too_big.major, Some(0));
    let empty_piece = release("v3..4");
    assert_eq!((empty_piece.major, empty_piece.minor, empty_piece.patch), (Some(3), Some(0), Some(4)));
}

#[test]
fn version_vec_has_one_number_for_each_component() {
    assert_eq!(release("v3.22.3-rc5").get_version_vec(), vec![3, 22, 3, 0]);
    assert_eq!(release("v3.22-1").get_version_vec(), vec![3, 22, 1]);
    assert_eq!(release("v").get_version_vec(), vec![0]);
    assert_eq!(release("v+7.-").get_version_vec(), vec![7, 0, 0]);
}

#[test]
fn only_what_leads_the_tag_is_stripped() {
    assert_eq!(release("v3.1.0-dev").get_tag_name(), "3.1.0-dev");
    assert_eq!(release("3.1.0").get_tag_name(), "3.1.0");
    assert_eq!(release("vv1").get_tag_name(), "1");
    assert_eq!(release("v").get_tag_name(), "");
    assert_eq!(release("vvv").get_tag_name(), "");
    assert_eq!(release("1v").get_tag_name(), "1v");
}

#[test]
fn a_normalized_tag_stays_as_it_is() {
    for tag in ["v3.22.3", "vv1", "3.1.0", "v", "v1v", "vvv3.v"] {
        let once = release(tag).get_tag_name();
        if !once.is_empty() {
            assert_eq!(release(&once).get_tag_name(), once, "for {:?}", tag);
            assert!(!once.starts_with('v'));
        }
    }
}

#[test]
fn a_record_without_a_tag_is_no_release() {
    let r = Version::from_raw_value(raw("", Some(false), vec![linux_asset("1")]));
    assert_eq!(r, Err(ErrorKind::ParseFailure));
}

#[test]
fn is_rc_reads_the_flag() {
    assert!(!Version::from_raw_value(raw("v3.1.0", None, vec![])).unwrap().is_rc());
    assert!(!Version::from_raw_value(raw("v3.1.0", Some(false), vec![])).unwrap().is_rc());
    assert!(Version::from_raw_value(raw("v3.1.0", Some(true), vec![])).unwrap().is_rc());
}

#[test]
fn catalog_leaves_out_unreadable_and_untagged_records() {
    let records = vec![
        Some(raw("v3.1.0", None, vec![])),
        None,
        Some(raw("", None, vec![])),
        Some(raw("v3.2.0", None, vec![])),
    ];
    let catalog = get_releases(records);
    let tags: Vec<&str> = catalog.iter().map(|v| v.tag_name.as_str()).collect();
    assert_eq!(tags, vec!["v3.1.0", "v3.2.0"]);
}

#[test]
fn listing_is_in_numeric_order() {
    let def = linux_supported_definition();
    let catalog = vec![release("v3.1.0"), release("v3.20.0"), release("v3.2.0")];
    let listed = list_installable(catalog, &def);
    let tags: Vec<String> = listed.iter().map(|v| v.get_tag_name()).collect();
    assert_eq!(tags, vec!["3.1.0", "3.2.0", "3.20.0"]);
}

#[test]
fn sort_keeps_the_order_of_equal_triples() {
    let a = Version::from_raw_value(raw("v3.1.0-a", None, vec![])).unwrap();
    let b = Version::from_raw_value(raw("v3.1.0-b", None, vec![])).unwrap();
    let c = Version::from_raw_value(raw("v2.9.9", None, vec![])).unwrap();
    let sorted = sort_releases(vec![a, b, c]);
    let tags: Vec<&str> = sorted.iter().map(|v| v.tag_name.as_str()).collect();
    assert_eq!(tags, vec!["v2.9.9", "v3.1.0-a", "v3.1.0-b"]);
}

#[test]
fn listing_leaves_out_what_cannot_be_installed() {
    let def = linux_supported_definition();
    let records = vec![
        Some(raw("v3.5.0", Some(true), vec![linux_asset("3.5.0")])),
        Some(raw("v2.8.0", Some(false), vec![linux_asset("2.8.0")])),
        Some(raw("", Some(false), vec![linux_asset("x")])),
        Some(raw("v3.6.0", Some(false), vec![asset("cmake-3.6.0-linux-x86_64.tar.gz", "text/plain")])),
        Some(raw("v3.7.0", Some(false), vec![asset("cmake-3.7.0-win64.zip", "application/gzip")])),
        Some(raw("v3.10.0", None, vec![linux_asset("3.10.0")])),
        Some(raw("v3.9.0", Some(false), vec![linux_asset("3.9.0")])),
    ];
    let text = Version::list_remote(records, &def).unwrap();
    assert_eq!(text, "[cmvm] 3.9.0\n[cmvm] 3.10.0");
}

#[test]
fn listing_of_nothing_is_empty() {
    let def = macos_supported_definition();
    assert_eq!(Version::list_remote(vec![], &def).unwrap(), "");
}

#[test]
fn listing_fails_on_an_unreadable_record() {
    let def = linux_supported_definition();
    let records = vec![Some(raw("v3.9.0", None, vec![linux_asset("3.9.0")])), None];
    assert_eq!(Version::list_remote(records, &def), Err(ErrorKind::ParseFailure));
}

#[test]
fn installable_needs_every_condition() {
    let def = supported_definition("linux");
    assert!(release("v3.9.0").is_installable(&def));
    assert!(!release("v2.9.0").is_installable(&def));
    let mac = supported_definition("macos");
    assert!(!release("v3.9.0").is_installable(&mac));
}

#[test]
fn installed_listing_marks_the_current_version() {
    let entries = vec![
        InstalledEntry { path: "/d/versions/3.20.0".to_string(), name: Some("3.20.0".to_string()), is_dir: true },
        InstalledEntry { path: "/d/versions/notes.txt".to_string(), name: Some("notes.txt".to_string()), is_dir: false },
        InstalledEntry { path: "/d/versions/3.22.3".to_string(), name: Some("3.22.3".to_string()), is_dir: true },
        InstalledEntry { path: "/d/versions/..".to_string(), name: None, is_dir: true },
    ];
    let current = Some("/d/versions/3.22.3".to_string());
    assert_eq!(Version::list(&entries, &current), "[cmvm]   3.20.0\n[cmvm] * 3.22.3");
    assert_eq!(Version::list(&entries, &None), "[cmvm]   3.20.0\n[cmvm]   3.22.3");
    assert_eq!(Version::list(&vec![], &current), "");
}

#[test]
fn duplicate_is_equal() {
    let v = release("v3.9.0");
    assert_eq!(v.duplicate(), v);
    assert!(release("v3.9.0").comes_before(&release("v3.10.0")));
    assert!(!release("v3.10.0").comes_before(&release("v3.9.0")));
    assert!(!release("v3.9.0").comes_before(&release("v3.9.0")));
}
