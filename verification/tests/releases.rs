use cmvm::error::ErrorKind;
use cmvm::releases::{
    build_cache, cache_releases, delete_cache_release, find, get_number_of_pages, get_release,
    last_page, merge, merge_records, refresh_step, start_refresh, Pointer, RefreshAction,
    RefreshEvent, RefreshMode, RefreshSignal, RefreshState, Removal,
};
use cmvm::versions::{Asset, RawRelease, Version};

fn raw(tag: &str) -> Option<RawRelease> {
    Some(RawRelease {
        tag_name: tag.to_string(),
        prerelease: Some(false),
        assets: vec![Asset {
            name: "cmake.tar.gz".to_string(),
            content_type: "application/gzip".to_string(),
            browser_download_url: "http://u".to_string(),
        }],
    })
}

fn link_header(last: &str) -> String {
    format!(
        "<https://api.github.com/repositories/537699/releases?page=2>; rel=\"next\", <https://api.github.com/repositories/537699/releases?page={}>; rel=\"last\"",
        last
    )
}

#[test]
fn number_of_pages_is_read_from_the_last_link() {
    assert_eq!(get_number_of_pages(&link_header("14")), Ok(14));
    assert_eq!(get_number_of_pages(&link_header("+3")), Ok(3));
}

#[test]
fn a_header_without_last_link_means_one_page() {
    let header = "<https://api.github.com/repositories/537699/releases?page=1>; rel=\"prev\"";
    assert_eq!(get_number_of_pages(header), Ok(1));
}

#[test]
fn a_malformed_header_is_a_parse_failure() {
    assert_eq!(get_number_of_pages(&link_header("x")), Err(ErrorKind::ParseFailure));
    assert_eq!(get_number_of_pages(&link_header("")), Err(ErrorKind::ParseFailure));
    assert_eq!(get_number_of_pages(&link_header("0")), Err(ErrorKind::ParseFailure));
    let no_page = "<https://api.github.com/repositories/537699/releases?per_page=2>; rel=\"last\"";
    assert_eq!(get_number_of_pages(no_page), Err(ErrorKind::ParseFailure));
    let no_value = "<https://api.github.com/releases?page>; rel=\"last\"";
    assert_eq!(get_number_of_pages(no_value), Err(ErrorKind::ParseFailure));
    assert_eq!(get_number_of_pages("<http://[>; rel=\"last\""), Err(ErrorKind::ParseFailure));
}

#[test]
fn last_page_decides_for_each_lookup() {
    assert_eq!(last_page(None), Ok(1));
    assert_eq!(last_page(Some(None)), Err(ErrorKind::ParseFailure));
    assert_eq!(last_page(Some(Some("7".to_string()))), Ok(7));
    assert_eq!(last_page(Some(Some("1".to_string()))), Ok(1));
    assert_eq!(last_page(Some(Some("0".to_string()))), Err(ErrorKind::ParseFailure));
    assert_eq!(last_page(Some(Some("-2".to_string()))), Err(ErrorKind::ParseFailure));
    assert_eq!(last_page(Some(Some("seven".to_string()))), Err(ErrorKind::ParseFailure));
}

#[test]
fn merging_three_pages_keeps_all_records_in_page_order() {
    let pages = vec![
        Some("[{\"tag_name\":\"v1\"}, {\"tag_name\":\"v2\"}]".to_string()),
        Some("[{\"tag_name\":\"v3\"},{\"tag_name\":\"v4\"},{\"tag_name\":\"v5\"}]".to_string()),
        Some("[ {\"tag_name\": \"v6\"} ]".to_string()),
    ];
    let document = merge(&pages).unwrap();
    assert_eq!(
        document,
        "[{\"tag_name\":\"v1\"},{\"tag_name\":\"v2\"},{\"tag_name\":\"v3\"},{\"tag_name\":\"v4\"},{\"tag_name\":\"v5\"},{\"tag_name\":\"v6\"}]"
    );
    let parsed: Vec<serde_json::Value> = serde_json::from_str(&document).unwrap();
    assert_eq!(parsed.len(), 6);
    let tags: Vec<&str> = parsed.iter().map(|r| r["tag_name"].as_str().unwrap()).collect();
    assert_eq!(tags, vec!["v1", "v2", "v3", "v4", "v5", "v6"]);
}

#[test]
fn merge_writes_what_serde_json_writes() {
    let page = "[{\"b\": 1, \"a\": [true, null, 1.5, \"x\\ny\"]}, 3, \"s\"]";
    let values: Vec<serde_json::Value> = serde_json::from_str(page).unwrap();
    assert_eq!(merge(&vec![Some(page.to_string())]).unwrap(), serde_json::to_string(&values).unwrap());
}

#[test]
fn a_page_that_is_absent_gives_nothing() {
    let pages = vec![Some("[1,2]".to_string()), None, Some("[3]".to_string())];
    assert_eq!(merge(&pages).unwrap(), "[1,2,3]");
    assert_eq!(merge(&vec![]).unwrap(), "[]");
    assert_eq!(merge(&vec![None]).unwrap(), "[]");
    assert_eq!(merge(&vec![Some("[]".to_string())]).unwrap(), "[]");
}

#[test]
fn a_page_that_is_no_array_fails_the_merge() {
    let pages = vec![Some("[1]".to_string()), Some("{\"message\":\"rate limit\"}".to_string())];
    assert_eq!(merge(&pages), Err(ErrorKind::ParseFailure));
    assert_eq!(merge(&vec![Some("[1,".to_string())]), Err(ErrorKind::ParseFailure));
    assert_eq!(merge(&vec![Some("".to_string())]), Err(ErrorKind::ParseFailure));
}

#[test]
fn merge_records_frames_the_records() {
    let pages = vec![vec!["1".to_string(), "{}".to_string()], vec![], vec!["\"x\"".to_string()]];
    assert_eq!(merge_records(&pages), "[1,{},\"x\"]");
    assert_eq!(merge_records(&vec![]), "[]");
}

#[test]
fn find_hands_out_the_normalized_tag() {
    let records = vec![raw("v3.20.0"), raw("v3.22.3"), raw("3.22.3")];
    let found = get_release("  3.22.3\n", records).unwrap();
    assert_eq!(found.tag_name, "3.22.3");
    assert_eq!((found.major, found.minor, found.patch), (Some(3), Some(22), Some(3)));
    assert_eq!(found.assets.len(), 1);
}

#[test]
fn find_takes_the_first_match() {
    let a = Version::from_raw_value(raw("3.1.0").unwrap()).unwrap();
    let mut b = Version::from_raw_value(raw("v3.1.0").unwrap()).unwrap();
    b.prerelease = Some(true);
    let catalog = vec![a, b];
    let found = find(&catalog, "3.1.0").unwrap();
    assert_eq!(found.prerelease, Some(false));
    assert_eq!(find(&catalog, "3.1.1"), Err(ErrorKind::NotFound));
    assert_eq!(find(&vec![], ""), Err(ErrorKind::NotFound));
}

#[test]
fn not_to_find_is_no_failure() {
    assert_eq!(get_release("3.99.0", vec![raw("v3.20.0")]), None);
    assert_eq!(get_release("v3.20.0", vec![raw("v3.20.0")]), None);
    assert_eq!(get_release("3.20.0", vec![]), None);
}

#[test]
fn a_record_without_tag_is_never_found() {
    assert_eq!(get_release("", vec![raw(""), None]), None);
    assert_eq!(get_release("  ", vec![raw("")]), None);
}

#[test]
fn uninstall_removes_the_pointer_only_where_it_names_the_version() {
    let current = Pointer::Version("3.20.0".to_string());
    assert_eq!(
        delete_cache_release("3.20.0", vec![raw("v3.20.0")], &current),
        Ok(Some(Removal { tag: "3.20.0".to_string(), with_pointer: true }))
    );
    assert_eq!(
        delete_cache_release("3.22.3", vec![raw("v3.20.0"), raw("v3.22.3")], &current),
        Ok(Some(Removal { tag: "3.22.3".to_string(), with_pointer: false }))
    );
    assert_eq!(
        delete_cache_release("3.20.0", vec![raw("v3.20.0")], &Pointer::Elsewhere),
        Ok(Some(Removal { tag: "3.20.0".to_string(), with_pointer: false }))
    );
}

#[test]
fn uninstall_of_an_unknown_version_asks_for_nothing() {
    assert_eq!(delete_cache_release("9.9.9", vec![raw("v3.20.0")], &Pointer::Unreadable), Ok(None));
}

#[test]
fn uninstall_needs_a_readable_pointer() {
    assert_eq!(
        delete_cache_release("3.20.0", vec![raw("v3.20.0")], &Pointer::Unreadable),
        Err(ErrorKind::IoFailure)
    );
}

#[test]
fn refresh_blocks_only_without_a_catalog() {
    assert_eq!(build_cache(false), RefreshMode::Blocking);
    assert_eq!(build_cache(true), RefreshMode::Background);
}

#[test]
fn refresh_fetches_every_page_once_and_then_merges() {
    let (mut state, mut action) = start_refresh();
    let mut fetched = vec![];
    let mut rounds = 0;
    loop {
        rounds += 1;
        assert!(rounds < 20);
        match action {
            RefreshAction::Fetch { page } => {
                fetched.push(page);
                let event = if page == 1 {
                    RefreshEvent::Fetched(Some(link_header("4")))
                } else if page == 3 {
                    RefreshEvent::Failed
                } else {
                    RefreshEvent::Fetched(None)
                };
                let next = cache_releases(state, &event);
                state = next.0;
                action = next.1;
            }
            RefreshAction::Merge { last } => {
                assert_eq!(last, 4);
                let next = cache_releases(state, &RefreshEvent::Completed);
                state = next.0;
                action = next.1;
            }
            RefreshAction::Finish => break,
            other => panic!("unexpected action {:?}", other),
        }
    }
    assert_eq!(fetched, vec![1, 2, 3, 4]);
    assert_eq!(state, RefreshState::Done);
}

#[test]
fn a_single_page_is_adopted() {
    let (state, action) = start_refresh();
    assert_eq!((state, action), (RefreshState::First, RefreshAction::Fetch { page: 1 }));
    let (state, action) = cache_releases(state, &RefreshEvent::Fetched(None));
    assert_eq!((state, action), (RefreshState::Adopting, RefreshAction::Adopt));
    let (state, action) = cache_releases(state, &RefreshEvent::Completed);
    assert_eq!((state, action), (RefreshState::Done, RefreshAction::Finish));
    let (state, action) = cache_releases(state, &RefreshEvent::Failed);
    assert_eq!((state, action), (RefreshState::Done, RefreshAction::Finish));
}

#[test]
fn refresh_fails_without_the_first_page() {
    let (state, _) = start_refresh();
    let (state, action) = cache_releases(state, &RefreshEvent::Failed);
    assert_eq!(state, RefreshState::Failed(ErrorKind::NetworkFailure));
    assert_eq!(action, RefreshAction::Abort(ErrorKind::NetworkFailure));
    let (state, _) = cache_releases(state, &RefreshEvent::Completed);
    assert_eq!(state, RefreshState::Failed(ErrorKind::NetworkFailure));
}

#[test]
fn refresh_fails_on_a_header_that_cannot_be_read() {
    let (state, _) = start_refresh();
    let (state, action) = cache_releases(state, &RefreshEvent::Fetched(Some(link_header("many"))));
    assert_eq!(state, RefreshState::Failed(ErrorKind::ParseFailure));
    assert_eq!(action, RefreshAction::Abort(ErrorKind::ParseFailure));
}

#[test]
fn refresh_steps_follow_the_table() {
    let first = RefreshState::First;
    assert_eq!(
        refresh_step(first, RefreshSignal::Fetched, Some(Ok(1))),
        (RefreshState::Merging { last: 1 }, RefreshAction::Merge { last: 1 })
    );
    assert_eq!(
        refresh_step(first, RefreshSignal::Fetched, Some(Ok(0))),
        (
            RefreshState::Failed(ErrorKind::ParseFailure),
            RefreshAction::Abort(ErrorKind::ParseFailure)
        )
    );
    assert_eq!(
        refresh_step(first, RefreshSignal::Fetched, Some(Ok(-7))).0,
        RefreshState::Failed(ErrorKind::ParseFailure)
    );
    assert_eq!(
        refresh_step(first, RefreshSignal::Fetched, Some(Ok(2))),
        (RefreshState::Rest { next: 2, last: 2 }, RefreshAction::Fetch { page: 2 })
    );
    assert_eq!(
        refresh_step(RefreshState::Rest { next: 2, last: 2 }, RefreshSignal::Failed, None),
        (RefreshState::Merging { last: 2 }, RefreshAction::Merge { last: 2 })
    );
    let max = i32::MAX;
    assert_eq!(
        refresh_step(RefreshState::Rest { next: max, last: max }, RefreshSignal::Fetched, None),
        (RefreshState::Merging { last: max }, RefreshAction::Merge { last: max })
    );
    assert_eq!(
        refresh_step(RefreshState::Merging { last: 2 }, RefreshSignal::Failed, None).0,
        RefreshState::Failed(ErrorKind::ParseFailure)
    );
    assert_eq!(
        refresh_step(RefreshState::Adopting, RefreshSignal::Failed, None).0,
        RefreshState::Failed(ErrorKind::IoFailure)
    );
    assert_eq!(
        refresh_step(RefreshState::Rest { next: 2, last: 3 }, RefreshSignal::Completed, None).0,
        RefreshState::Failed(ErrorKind::IoFailure)
    );
}

#[test]
fn a_found_release_has_one_name_everywhere() {
    let def = cmvm::platform::linux_supported_definition();
    let tagged = |tag: &str| {
        Some(RawRelease {
            tag_name: tag.to_string(),
            prerelease: Some(false),
            assets: vec![Asset {
                name: "cmake-1-linux-x86_64.tar.gz".to_string(),
                content_type: "application/gzip".to_string(),
                browser_download_url: "http://u".to_string(),
            }],
        })
    };
    for (tag, word) in [("vv1", "1"), ("v3.22.3", "3.22.3"), ("3.20.0", " 3.20.0 ")] {
        let name = word.trim();
        let found = get_release(word, vec![tagged(tag)]).unwrap();
        assert_eq!(found.tag_name, name);
        assert_eq!(found.get_tag_name(), name);
        assert_eq!(cmvm::package::get_cmake_release(&found, &def).unwrap().tag, name);
        assert_eq!(found.activate().tag, name);
        assert_eq!(
            delete_cache_release(word, vec![tagged(tag)], &Pointer::Version(name.to_string())),
            Ok(Some(Removal { tag: name.to_string(), with_pointer: true }))
        );
        assert_eq!(get_release(name, vec![Some(RawRelease {
            tag_name: found.tag_name.clone(),
            prerelease: None,
            assets: vec![],
        })]).unwrap().tag_name, name);
    }
    assert_eq!(get_release("v1", vec![tagged("vv1")]), None);
}

#[test]
fn a_listed_name_is_the_name_that_finds_and_removes() {
    let def = cmvm::platform::linux_supported_definition();
    let record = Some(RawRelease {
        tag_name: "vv3.1.0".to_string(),
        prerelease: None,
        assets: vec![Asset {
            name: "cmake-3.1.0-linux-x86_64.tar.gz".to_string(),
            content_type: "application/gzip".to_string(),
            browser_download_url: "http://u".to_string(),
        }],
    });
    let listing = Version::list_remote(vec![record.clone()], &def).unwrap();
    assert_eq!(listing, "[cmvm] 3.1.0");
    let shown = listing.trim_start_matches("[cmvm] ");
    let removal = delete_cache_release(shown, vec![record], &Pointer::Version(shown.to_string()));
    assert_eq!(removal, Ok(Some(Removal { tag: "3.1.0".to_string(), with_pointer: true })));
}

/// Carries out a refresh on a cache in memory; `fails` holds the pages whose
/// fetch fails. Hands back the state and the page files that are left.
fn refresh_on(header: Option<String>, fails: &[i32]) -> (RefreshState, Vec<i32>, Vec<RefreshAction>) {
    let mut files: Vec<i32> = vec![];
    let mut log = vec![];
    let (mut state, mut action) = start_refresh();
    for _ in 0..50 {
        log.push(action);
        let event = match action {
            RefreshAction::Fetch { page } => {
                if fails.contains(&page) {
                    RefreshEvent::Failed
                } else {
                    files.push(page);
                    RefreshEvent::Fetched(if page == 1 { header.clone() } else { None })
                }
            }
            RefreshAction::Merge { last } => {
                files.retain(|page| !(1 <= *page && *page <= last));
                RefreshEvent::Completed
            }
            RefreshAction::Adopt => {
                files.retain(|page| *page != 1);
                RefreshEvent::Completed
            }
            RefreshAction::Finish | RefreshAction::Abort(_) => return (state, files, log),
        };
        let next = cache_releases(state, &event);
        state = next.0;
        action = next.1;
    }
    panic!("the refresh does not end");
}

#[test]
fn a_finished_refresh_leaves_no_page_file() {
    for (header, fails) in [
        (Some(link_header("3")), vec![]),
        (Some(link_header("3")), vec![2]),
        (Some(link_header("5")), vec![2, 3, 4, 5]),
        (Some(link_header("1")), vec![]),
        (None, vec![]),
    ] {
        let (state, files, log) = refresh_on(header, &fails);
        assert_eq!(state, RefreshState::Done);
        assert_eq!(files, Vec::<i32>::new());
        assert_eq!(log.last(), Some(&RefreshAction::Finish));
    }
}

#[test]
fn no_merge_without_a_page() {
    let (state, files, log) = refresh_on(Some(link_header("0")), &[]);
    assert_eq!(state, RefreshState::Failed(ErrorKind::ParseFailure));
    assert_eq!(files, vec![1]);
    assert!(!log.iter().any(|action| matches!(action, RefreshAction::Merge { .. })));
    assert_eq!(
        refresh_step(RefreshState::Rest { next: 3, last: 0 }, RefreshSignal::Fetched, None).0,
        RefreshState::Failed(ErrorKind::ParseFailure)
    );
    assert_eq!(
        refresh_step(RefreshState::Rest { next: 3, last: -4 }, RefreshSignal::Failed, None).1,
        RefreshAction::Abort(ErrorKind::ParseFailure)
    );
}

#[test]
fn uninstall_leaves_no_dangling_pointer() {
    let mut versions = vec!["3.20.0".to_string(), "3.22.3".to_string()];
    let mut pointer = Some("3.22.3".to_string());
    let current = Pointer::Version("3.22.3".to_string());
    let removal = delete_cache_release("3.22.3", vec![raw("v3.20.0"), raw("v3.22.3")], &current)
        .unwrap()
        .unwrap();
    if removal.with_pointer {
        pointer = None;
    }
    versions.retain(|name| *name != removal.tag);
    assert_eq!(versions, vec!["3.20.0".to_string()]);
    assert_eq!(pointer, None);
}
