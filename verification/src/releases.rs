//! The release catalog: how many pages the feed has, how the pages are
//! merged into one document, when the catalog is refreshed, and how a
//! release is found in it.

use crate::error::ErrorKind;
use crate::feed::{json_array_records, link_header_query, link_query, page_records};
use crate::text::{decimal_i32, join, joined, parse_i32_str, same_text, trim, trimmed};
use crate::versions::{
    catalog_releases, get_releases, normalized_tag, record_release, RawRelease, RawReleaseView,
    Version, VersionView,
};
use vstd::prelude::*;

verus! {

/// The number of the feed's last page, given what a `Link` header holds for
/// the relation `last` and the query `page`. A header without that relation
/// belongs to a feed of one page. A header that cannot be read, a last link
/// without a page, and a page that is no number or lies below 1 are
/// malformed.
pub open spec fn pages_of(found: Option<Option<Option<Seq<char>>>>) -> Result<i32, ErrorKind> {
    match found {
        None => Err(ErrorKind::ParseFailure),
        Some(None) => Ok(1i32),
        Some(Some(None)) => Err(ErrorKind::ParseFailure),
        Some(Some(Some(value))) => match decimal_i32(value) {
            Some(n) => if n >= 1 {
                Ok(n)
            } else {
                Err(ErrorKind::ParseFailure)
            },
            None => Err(ErrorKind::ParseFailure),
        },
    }
}

/// The feed has at least one page wherever its number of pages is known.
pub proof fn lemma_pages_of_at_least_one(found: Option<Option<Option<Seq<char>>>>)
    ensures
        pages_of(found) matches Ok(n) ==> n >= 1,
{
}

/// The number of the feed's last page, given what a header that could be
/// read holds for the relation `last` and the query `page`.
pub fn last_page(found: Option<Option<String>>) -> (r: Result<i32, ErrorKind>)
    ensures
        r == pages_of(Some(found.deep_view())),
{
    match found {
        None => Ok(1),
        Some(None) => Err(ErrorKind::ParseFailure),
        Some(Some(value)) => match parse_i32_str(value.as_str()) {
            Some(n) => if n >= 1 {
                Ok(n)
            } else {
                Err(ErrorKind::ParseFailure)
            },
            None => Err(ErrorKind::ParseFailure),
        },
    }
}

/// The number of the feed's last page, as the `Link` header of the first
/// page's response gives it.
pub fn get_number_of_pages(link_header: &str) -> (r: Result<i32, ErrorKind>)
    ensures
        r == pages_of(link_header_query(link_header@, "last"@, "page"@)),
{
    match link_query(link_header, "last", "page") {
        Ok(found) => last_page(found),
        Err(_) => Err(ErrorKind::ParseFailure),
    }
}

/// The catalog document that holds the given records: a JSON array of them,
/// in order, in compact form.
pub open spec fn framed(records: Seq<Seq<char>>) -> Seq<char> {
    "["@ + joined(records, ","@) + "]"@
}

/// What one page gives to the catalog: its records in their order. A page
/// that is absent gives none.
pub open spec fn page_contribution(page: Option<Seq<char>>) -> Seq<Seq<char>> {
    match page {
        Some(text) => match json_array_records(text) {
            Some(records) => records,
            None => Seq::empty(),
        },
        None => Seq::empty(),
    }
}

/// Whether every page that is present holds a JSON array.
pub open spec fn pages_readable(pages: Seq<Option<Seq<char>>>) -> bool {
    forall|i: int|
        0 <= i < pages.len() ==> ((#[trigger] pages[i]) matches Some(text) ==> json_array_records(
            text,
        ) is Some)
}

/// The records of the pages, page after page.
pub open spec fn merged_records(pages: Seq<Option<Seq<char>>>) -> Seq<Seq<char>> {
    pages.map_values(|page: Option<Seq<char>>| page_contribution(page)).flatten()
}

/// How many records the pages before page `p` hold together.
pub open spec fn records_before<A>(pages: Seq<Seq<A>>, p: int) -> int
    decreases p,
{
    if p <= 0 {
        0
    } else {
        records_before(pages, p - 1) + pages[p - 1].len()
    }
}

/// Merging keeps every record and the order of the feed: the merged list
/// has as many records as the pages have together, and record `i` of page
/// `p` stands in it behind all records of the pages before `p`, at place
/// `i` among those of its page.
pub proof fn lemma_merge_keeps_page_order<A>(pages: Seq<Seq<A>>, p: int, i: int)
    requires
        0 <= p < pages.len(),
        0 <= i < pages[p].len(),
    ensures
        pages.flatten().len() == records_before(pages, pages.len() as int),
        0 <= records_before(pages, p) + i < pages.flatten().len(),
        pages.flatten()[records_before(pages, p) + i] == pages[p][i],
    decreases pages.len(),
{
    let front = pages.drop_last();
    let last = pages.last();
    assert(pages =~= front.push(last));
    front.lemma_flatten_push(last);
    lemma_merged_length(pages);
    lemma_merged_length(front);
    lemma_records_before_prefix(pages, front, p);
    lemma_records_before_nonnegative(pages, p);
    if p < front.len() {
        assert(front[p] == pages[p]);
        lemma_merge_keeps_page_order(front, p, i);
    } else {
        lemma_records_before_prefix(pages, front, front.len() as int);
    }
}

/// The merged list has as many records as the pages have together.
pub proof fn lemma_merged_length<A>(pages: Seq<Seq<A>>)
    ensures
        pages.flatten().len() == records_before(pages, pages.len() as int),
    decreases pages.len(),
{
    if pages.len() == 0 {
        assert(pages.flatten() =~= Seq::<A>::empty());
    } else {
        let front = pages.drop_last();
        let last = pages.last();
        assert(pages =~= front.push(last));
        front.lemma_flatten_push(last);
        lemma_merged_length(front);
        lemma_records_before_prefix(pages, front, front.len() as int);
    }
}

/// The count of records before a page depends only on the pages before it.
pub proof fn lemma_records_before_prefix<A>(pages: Seq<Seq<A>>, front: Seq<Seq<A>>, p: int)
    requires
        0 <= p <= front.len() <= pages.len(),
        forall|k: int| 0 <= k < front.len() ==> front[k] == pages[k],
    ensures
        records_before(pages, p) == records_before(front, p),
    decreases p,
{
    if p > 0 {
        lemma_records_before_prefix(pages, front, p - 1);
    }
}

/// The count of records before a page is never negative.
pub proof fn lemma_records_before_nonnegative<A>(pages: Seq<Seq<A>>, p: int)
    ensures
        0 <= records_before(pages, p),
    decreases p,
{
    if p > 0 {
        lemma_records_before_nonnegative(pages, p - 1);
    }
}

/// The catalog document for the records of the given pages, page after
/// page.
pub fn merge_records(pages: &Vec<Vec<String>>) -> (r: String)
    ensures
        r@ == framed(pages.deep_view().flatten()),
{
    let mut all: Vec<String> = Vec::new();
    let mut p: usize = 0;
    proof {
        assert(pages.deep_view().take(0).flatten() =~= Seq::<Seq<char>>::empty());
        assert(all.deep_view() =~= Seq::<Seq<char>>::empty());
    }
    while p < pages.len()
        invariant
            p <= pages.len(),
            all.deep_view() == pages.deep_view().take(p as int).flatten(),
        decreases pages.len() - p,
    {
        let page = &pages[p];
        let ghost before = all.deep_view();
        let mut i: usize = 0;
        proof {
            assert(page.deep_view().take(0) =~= Seq::<Seq<char>>::empty());
            assert(before + page.deep_view().take(0) =~= before);
        }
        while i < page.len()
            invariant
                i <= page.len(),
                all.deep_view() == before + page.deep_view().take(i as int),
            decreases page.len() - i,
        {
            let ghost so_far = all.deep_view();
            all.push(page[i].clone());
            proof {
                assert(all.deep_view() =~= so_far.push(page@[i as int]@));
                assert(page.deep_view().take(i + 1) =~= page.deep_view().take(i as int).push(
                    page@[i as int]@,
                ));
            }
            i = i + 1;
        }
        proof {
            assert(page.deep_view().take(page.len() as int) =~= page.deep_view());
            let seen = pages.deep_view().take(p as int);
            assert(pages.deep_view().take(p + 1) =~= seen.push(page.deep_view()));
            seen.lemma_flatten_push(page.deep_view());
        }
        p = p + 1;
    }
    proof {
        assert(pages.deep_view().take(pages.len() as int) =~= pages.deep_view());
    }
    let mut out = "[".to_owned();
    let body = join(&all, ",");
    out.append(body.as_str());
    out.append("]");
    out
}

/// Merges the pages of the feed into the catalog document. `pages` holds
/// the text of each page in ascending order of page number, and `None` for
/// a page that could not be fetched: such a page gives nothing, and the
/// others are merged. A page whose text is no JSON array makes the merge
/// fail.
pub fn merge(pages: &Vec<Option<String>>) -> (r: Result<String, ErrorKind>)
    ensures
        match r {
            Ok(document) => pages_readable(pages.deep_view()) && document@ == framed(
                merged_records(pages.deep_view()),
            ),
            Err(kind) => !pages_readable(pages.deep_view()) && kind == ErrorKind::ParseFailure,
        },
{
    let ghost contribution = |page: Option<Seq<char>>| page_contribution(page);
    let mut read: Vec<Vec<String>> = Vec::new();
    let mut p: usize = 0;
    while p < pages.len()
        invariant
            p <= pages.len(),
            contribution == |page: Option<Seq<char>>| page_contribution(page),
            read.deep_view() == pages.deep_view().take(p as int).map_values(contribution),
            forall|i: int|
                0 <= i < p ==> ((#[trigger] pages.deep_view()[i]) matches Some(text)
                    ==> json_array_records(text) is Some),
        decreases pages.len() - p,
    {
        let ghost before = read.deep_view();
        let records = match &pages[p] {
            Some(text) => match page_records(text.as_str()) {
                Ok(records) => records,
                Err(_) => {
                    proof {
                        assert(pages.deep_view()[p as int] == Some(text@));
                    }
                    return Err(ErrorKind::ParseFailure);
                },
            },
            None => Vec::new(),
        };
        proof {
            assert(pages.deep_view()[p as int] == pages@[p as int].deep_view());
            assert(records.deep_view() =~= page_contribution(pages.deep_view()[p as int]));
        }
        read.push(records);
        proof {
            assert(read.deep_view() =~= before.push(records.deep_view()));
            assert(pages.deep_view().take(p + 1).map_values(contribution) =~= before.push(
                page_contribution(pages.deep_view()[p as int]),
            ));
        }
        p = p + 1;
    }
    proof {
        assert(pages.deep_view().take(pages.len() as int) =~= pages.deep_view());
    }
    Ok(merge_records(&read))
}

/// Whether the user's word for a version names a release: without the
/// white space at its ends, it is the release's tag without the `v`.
pub open spec fn names(v: VersionView, wanted: Seq<char>) -> bool {
    normalized_tag(v.tag_name) == trimmed(wanted)
}

/// A release as a search hands it out: its tag is the normalized one.
pub open spec fn found_release(v: VersionView) -> VersionView {
    VersionView {
        major: v.major,
        minor: v.minor,
        patch: v.patch,
        prerelease: v.prerelease,
        tag_name: normalized_tag(v.tag_name),
        assets: v.assets,
    }
}

/// A release that a search hands out is named the same wherever its name
/// is worked out: its tag is normalized already, so the directory that an
/// installation fills, the one that an activation points at and the one
/// that an uninstall removes are all named by that tag, and a search for
/// that tag names the release.
pub proof fn lemma_found_release_has_one_name(v: VersionView)
    ensures
        normalized_tag(found_release(v).tag_name) == found_release(v).tag_name,
        found_release(found_release(v)) == found_release(v),
        found_release(v).tag_name.len() > 0 ==> found_release(v).tag_name[0] != 'v',
{
    crate::versions::lemma_normalized_tag_idempotent(v.tag_name);
}

/// The first release of the catalog that the word names, as a search hands
/// it out; `None` where it names none.
pub open spec fn find_release(catalog: Seq<VersionView>, wanted: Seq<char>) -> Option<VersionView>
    decreases catalog.len(),
{
    if catalog.len() == 0 {
        None
    } else if names(catalog[0], wanted) {
        Some(found_release(catalog[0]))
    } else {
        find_release(catalog.skip(1), wanted)
    }
}

/// A search finds nothing exactly where the word names no release of the
/// catalog; what it finds is the first release that the word names.
pub proof fn lemma_find_release(catalog: Seq<VersionView>, wanted: Seq<char>)
    ensures
        find_release(catalog, wanted) is None <==> forall|i: int|
            0 <= i < catalog.len() ==> !names(#[trigger] catalog[i], wanted),
        find_release(catalog, wanted) is Some ==> exists|i: int|
            0 <= i < catalog.len() && names(#[trigger] catalog[i], wanted) && find_release(
                catalog,
                wanted,
            ) == Some(found_release(catalog[i])) && forall|j: int|
                0 <= j < i ==> !names(#[trigger] catalog[j], wanted),
    decreases catalog.len(),
{
    if catalog.len() == 0 {
    } else if names(catalog[0], wanted) {
        assert(names(catalog[0], wanted) && find_release(catalog, wanted) == Some(
            found_release(catalog[0]),
        ));
    } else {
        let rest = catalog.skip(1);
        lemma_find_release(rest, wanted);
        assert forall|i: int| 0 <= i < rest.len() implies rest[i] == catalog[i + 1] by {}
        if find_release(rest, wanted) is Some {
            let k = choose|k: int|
                0 <= k < rest.len() && names(#[trigger] rest[k], wanted) && find_release(
                    rest,
                    wanted,
                ) == Some(found_release(rest[k])) && forall|j: int|
                    0 <= j < k ==> !names(#[trigger] rest[j], wanted);
            assert(rest[k] == catalog[k + 1]);
            assert forall|j: int| 0 <= j < k + 1 implies !names(#[trigger] catalog[j], wanted) by {
                if j > 0 {
                    assert(rest[j - 1] == catalog[j]);
                }
            }
            assert(names(catalog[k + 1], wanted));
        } else {
            assert forall|i: int| 0 <= i < catalog.len() implies !names(
                #[trigger] catalog[i],
                wanted,
            ) by {
                if i > 0 {
                    assert(rest[i - 1] == catalog[i]);
                }
            }
        }
        if forall|i: int| 0 <= i < catalog.len() ==> !names(#[trigger] catalog[i], wanted) {
            assert forall|i: int| 0 <= i < rest.len() implies !names(#[trigger] rest[i], wanted) by {
                assert(rest[i] == catalog[i + 1]);
            }
        }
    }
}

/// What a search of the records of the feed finds stands for a record that
/// could be read and has a tag: a record with an empty tag is never found.
pub proof fn lemma_found_release_has_record(
    records: Seq<Option<RawReleaseView>>,
    wanted: Seq<char>,
)
    requires
        find_release(catalog_releases(records), wanted) is Some,
    ensures
        exists|i: int, v: VersionView|
            0 <= i < records.len() && record_release(#[trigger] records[i]) == Some(v)
                && v.tag_name.len() > 0 && #[trigger] found_release(v) == find_release(
                catalog_releases(records),
                wanted,
            )->0,
{
    let catalog = catalog_releases(records);
    lemma_find_release(catalog, wanted);
    let k = choose|k: int|
        0 <= k < catalog.len() && names(#[trigger] catalog[k], wanted) && find_release(
            catalog,
            wanted,
        ) == Some(found_release(catalog[k]));
    assert(catalog.contains(catalog[k]));
    crate::versions::lemma_catalog_release_has_record(records, catalog[k]);
    let i = choose|i: int|
        0 <= i < records.len() && record_release(#[trigger] records[i]) == Some(catalog[k]);
    assert(record_release(records[i]) == Some(catalog[k]) && found_release(catalog[k])
        == find_release(catalog, wanted)->0);
}

/// The outcome of a search: the release, or that none was found.
pub open spec fn search(catalog: Seq<VersionView>, wanted: Seq<char>) -> Result<
    VersionView,
    ErrorKind,
> {
    match find_release(catalog, wanted) {
        Some(found) => Ok(found),
        None => Err(ErrorKind::NotFound),
    }
}

/// The view of the outcome of a search.
pub open spec fn search_view(outcome: Result<Version, ErrorKind>) -> Result<VersionView, ErrorKind> {
    match outcome {
        Ok(found) => Ok(found@),
        Err(kind) => Err(kind),
    }
}

/// Finds in a catalog the first release that the user's word names, and
/// hands out a copy of it with the normalized tag. Where the word names no
/// release the outcome is `NotFound`.
pub fn find(catalog: &Vec<Version>, version: &str) -> (r: Result<Version, ErrorKind>)
    ensures
        search_view(r) == search(catalog.deep_view(), version@),
{
    let wanted = trim(version);
    let ghost all = catalog.deep_view();
    let mut i: usize = 0;
    proof {
        assert(all.skip(0) =~= all);
    }
    while i < catalog.len()
        invariant
            i <= catalog.len(),
            all == catalog.deep_view(),
            wanted@ == trimmed(version@),
            find_release(all.skip(i as int), version@) == find_release(all, version@),
        decreases catalog.len() - i,
    {
        let name = catalog[i].get_tag_name();
        proof {
            assert(all.skip(i as int)[0] == catalog[i as int]@);
            assert(all.skip(i as int).skip(1) =~= all.skip(i + 1));
        }
        if same_text(name.as_str(), wanted.as_str()) {
            let mut found = catalog[i].duplicate();
            found.tag_name = name;
            return Ok(found);
        }
        i = i + 1;
    }
    Err(ErrorKind::NotFound)
}

/// Finds the release that the user's word names among the records of the
/// feed. Not to find one is an ordinary outcome, not a failure.
pub fn get_release(version: &str, records: Vec<Option<RawRelease>>) -> (r: Option<Version>)
    ensures
        r.deep_view() == find_release(catalog_releases(records.deep_view()), version@),
{
    let catalog = get_releases(records);
    match find(&catalog, version) {
        Ok(found) => Some(found),
        Err(_) => None,
    }
}

/// How the catalog is refreshed at the start of a command.
#[derive(Clone, Copy, Debug, PartialEq, Eq, Structural)]
pub enum RefreshMode {
    /// There is no catalog yet: the caller waits for the fetch.
    Blocking,
    /// There is a catalog: the fetch runs beside the command, and its
    /// failure is only reported.
    Background,
}

/// How to refresh the catalog, given whether its file is there.
pub fn build_cache(catalog_present: bool) -> (r: RefreshMode)
    ensures
        r == if catalog_present {
            RefreshMode::Background
        } else {
            RefreshMode::Blocking
        },
{
    if catalog_present {
        RefreshMode::Background
    } else {
        RefreshMode::Blocking
    }
}

/// Where a refresh of the catalog stands.
#[derive(Clone, Copy, Debug, PartialEq, Eq, Structural)]
pub enum RefreshState {
    /// The first page is being fetched.
    First,
    /// Page `next` of `last` is being fetched.
    Rest { next: i32, last: i32 },
    /// The pages up to `last` are being merged into the catalog.
    Merging { last: i32 },
    /// The only page is being made the catalog.
    Adopting,
    /// The catalog has been replaced.
    Done,
    /// The refresh has failed; the catalog is as it was.
    Failed(ErrorKind),
}

/// What the caller does next for a refresh.
#[derive(Clone, Copy, Debug, PartialEq, Eq, Structural)]
pub enum RefreshAction {
    /// Fetch that page of the feed into the file of its number.
    Fetch { page: i32 },
    /// Read the page files 1 to `last`, merge them, write the result over
    /// the catalog and delete the page files.
    Merge { last: i32 },
    /// Write the first page over the catalog and delete its file.
    Adopt,
    /// Nothing: the refresh is done.
    Finish,
    /// Nothing: the refresh has failed.
    Abort(ErrorKind),
}

/// How the action that was asked for ended.
#[derive(Debug, Clone, PartialEq, Eq)]
pub enum RefreshEvent {
    /// The page was fetched; the response had this `Link` header, or none.
    Fetched(Option<String>),
    /// The merge, or the adoption of the only page, was written.
    Completed,
    /// The action could not be carried out.
    Failed,
}

/// What an event tells the refresh: its kind, without the header.
#[derive(Clone, Copy, Debug, PartialEq, Eq, Structural)]
pub enum RefreshSignal {
    Fetched,
    Completed,
    Failed,
}

impl RefreshEvent {
    /// The kind of the event.
    pub open spec fn signal(self) -> RefreshSignal {
        match self {
            RefreshEvent::Fetched(_) => RefreshSignal::Fetched,
            RefreshEvent::Completed => RefreshSignal::Completed,
            RefreshEvent::Failed => RefreshSignal::Failed,
        }
    }

    /// The number of pages that the event's header announces: `None`
    /// where the event has no header.
    pub open spec fn announced(self) -> Option<Result<i32, ErrorKind>> {
        match self {
            RefreshEvent::Fetched(Some(header)) => Some(
                pages_of(link_header_query(header@, "last"@, "page"@)),
            ),
            _ => None,
        }
    }
}

/// What follows the first page, given the number of pages that its header
/// announces. Without a header the page is the whole catalog. With a
/// header that cannot be read, or that announces a last page below 1, the
/// refresh fails and the catalog stays as it was. Else the pages from 2 on
/// are fetched, and where the first page is the last, its merge follows at
/// once.
pub open spec fn after_first(pages: Option<Result<i32, ErrorKind>>) -> (RefreshState, RefreshAction) {
    match pages {
        None => (RefreshState::Adopting, RefreshAction::Adopt),
        Some(Err(kind)) => (RefreshState::Failed(kind), RefreshAction::Abort(kind)),
        Some(Ok(last)) => if last >= 2 {
            (RefreshState::Rest { next: 2, last }, RefreshAction::Fetch { page: 2 })
        } else if last == 1 {
            (RefreshState::Merging { last }, RefreshAction::Merge { last })
        } else {
            (
                RefreshState::Failed(ErrorKind::ParseFailure),
                RefreshAction::Abort(ErrorKind::ParseFailure),
            )
        },
    }
}

/// What follows the fetch of page `next`, whether it was fetched or not: a
/// page that fails gives nothing to the catalog and stops nothing. Where
/// the last page lies below 1 there is nothing to merge, and the refresh
/// fails.
pub open spec fn after_page(next: i32, last: i32) -> (RefreshState, RefreshAction) {
    if last < 1 {
        (
            RefreshState::Failed(ErrorKind::ParseFailure),
            RefreshAction::Abort(ErrorKind::ParseFailure),
        )
    } else if next < last {
        (
            RefreshState::Rest { next: (next + 1) as i32, last },
            RefreshAction::Fetch { page: (next + 1) as i32 },
        )
    } else {
        (RefreshState::Merging { last }, RefreshAction::Merge { last })
    }
}

/// The state that a refresh starts in, and its first action.
pub open spec fn refresh_start() -> (RefreshState, RefreshAction) {
    (RefreshState::First, RefreshAction::Fetch { page: 1 })
}

/// The next state and action of a refresh. `pages` is what the event's
/// header announces, and counts only after the first page. An event that
/// does not answer the pending action makes the refresh fail.
pub open spec fn refresh_next(
    state: RefreshState,
    signal: RefreshSignal,
    pages: Option<Result<i32, ErrorKind>>,
) -> (RefreshState, RefreshAction) {
    match state {
        RefreshState::First => match signal {
            RefreshSignal::Fetched => after_first(pages),
            RefreshSignal::Failed => (
                RefreshState::Failed(ErrorKind::NetworkFailure),
                RefreshAction::Abort(ErrorKind::NetworkFailure),
            ),
            RefreshSignal::Completed => (
                RefreshState::Failed(ErrorKind::IoFailure),
                RefreshAction::Abort(ErrorKind::IoFailure),
            ),
        },
        RefreshState::Rest { next, last } => match signal {
            RefreshSignal::Fetched => after_page(next, last),
            RefreshSignal::Failed => after_page(next, last),
            RefreshSignal::Completed => (
                RefreshState::Failed(ErrorKind::IoFailure),
                RefreshAction::Abort(ErrorKind::IoFailure),
            ),
        },
        RefreshState::Merging { last } => match signal {
            RefreshSignal::Completed => (RefreshState::Done, RefreshAction::Finish),
            RefreshSignal::Failed => (
                RefreshState::Failed(ErrorKind::ParseFailure),
                RefreshAction::Abort(ErrorKind::ParseFailure),
            ),
            RefreshSignal::Fetched => (
                RefreshState::Failed(ErrorKind::IoFailure),
                RefreshAction::Abort(ErrorKind::IoFailure),
            ),
        },
        RefreshState::Adopting => match signal {
            RefreshSignal::Completed => (RefreshState::Done, RefreshAction::Finish),
            _ => (
                RefreshState::Failed(ErrorKind::IoFailure),
                RefreshAction::Abort(ErrorKind::IoFailure),
            ),
        },
        RefreshState::Done => (RefreshState::Done, RefreshAction::Finish),
        RefreshState::Failed(kind) => (RefreshState::Failed(kind), RefreshAction::Abort(kind)),
    }
}

/// A merge is asked for only where there is a page to merge: whatever the
/// state and the event, the last page of a merge is 1 at least. So the
/// catalog is never replaced by the merge of no page.
pub proof fn lemma_merge_has_a_page(
    state: RefreshState,
    signal: RefreshSignal,
    pages: Option<Result<i32, ErrorKind>>,
)
    ensures
        refresh_next(state, signal, pages).1 matches RefreshAction::Merge { last } ==> last >= 1,
{
}

/// Starts a refresh of the catalog.
pub fn start_refresh() -> (r: (RefreshState, RefreshAction))
    ensures
        r == refresh_start(),
{
    (RefreshState::First, RefreshAction::Fetch { page: 1 })
}

/// The next state and action of a refresh, given its state, the kind of
/// the event and the number of pages that the event's header announces.
pub fn refresh_step(
    state: RefreshState,
    signal: RefreshSignal,
    pages: Option<Result<i32, ErrorKind>>,
) -> (r: (RefreshState, RefreshAction))
    ensures
        r == refresh_next(state, signal, pages),
{
    let io = (RefreshState::Failed(ErrorKind::IoFailure), RefreshAction::Abort(ErrorKind::IoFailure));
    match state {
        RefreshState::First => match signal {
            RefreshSignal::Fetched => match pages {
                None => (RefreshState::Adopting, RefreshAction::Adopt),
                Some(Err(kind)) => (RefreshState::Failed(kind), RefreshAction::Abort(kind)),
                Some(Ok(last)) => if last >= 2 {
                    (RefreshState::Rest { next: 2, last }, RefreshAction::Fetch { page: 2 })
                } else if last == 1 {
                    (RefreshState::Merging { last }, RefreshAction::Merge { last })
                } else {
                    (
                        RefreshState::Failed(ErrorKind::ParseFailure),
                        RefreshAction::Abort(ErrorKind::ParseFailure),
                    )
                },
            },
            RefreshSignal::Failed => (
                RefreshState::Failed(ErrorKind::NetworkFailure),
                RefreshAction::Abort(ErrorKind::NetworkFailure),
            ),
            RefreshSignal::Completed => io,
        },
        RefreshState::Rest { next, last } => match signal {
            RefreshSignal::Completed => io,
            _ => if last < 1 {
                (
                    RefreshState::Failed(ErrorKind::ParseFailure),
                    RefreshAction::Abort(ErrorKind::ParseFailure),
                )
            } else if next < last {
                (RefreshState::Rest { next: next + 1, last }, RefreshAction::Fetch { page: next + 1 })
            } else {
                (RefreshState::Merging { last }, RefreshAction::Merge { last })
            },
        },
        RefreshState::Merging { last } => match signal {
            RefreshSignal::Completed => (RefreshState::Done, RefreshAction::Finish),
            RefreshSignal::Failed => (
                RefreshState::Failed(ErrorKind::ParseFailure),
                RefreshAction::Abort(ErrorKind::ParseFailure),
            ),
            RefreshSignal::Fetched => io,
        },
        RefreshState::Adopting => match signal {
            RefreshSignal::Completed => (RefreshState::Done, RefreshAction::Finish),
            _ => io,
        },
        RefreshState::Done => (RefreshState::Done, RefreshAction::Finish),
        RefreshState::Failed(kind) => (RefreshState::Failed(kind), RefreshAction::Abort(kind)),
    }
}

/// The next state and action of a refresh of the catalog, given its state
/// and how the action that was asked for ended. After the first page the
/// `Link` header of the response decides how many pages follow.
pub fn cache_releases(state: RefreshState, event: &RefreshEvent) -> (r: (
    RefreshState,
    RefreshAction,
))
    ensures
        r == refresh_next(state, event.signal(), event.announced()),
{
    match event {
        RefreshEvent::Fetched(Some(header)) => {
            let pages = match state {
                RefreshState::First => Some(get_number_of_pages(header.as_str())),
                _ => None,
            };
            proof {
                if !(state is First) {
                    assert(refresh_next(state, RefreshSignal::Fetched, None) == refresh_next(
                        state,
                        RefreshSignal::Fetched,
                        event.announced(),
                    ));
                }
            }
            refresh_step(state, RefreshSignal::Fetched, pages)
        },
        RefreshEvent::Fetched(None) => refresh_step(state, RefreshSignal::Fetched, None),
        RefreshEvent::Completed => refresh_step(state, RefreshSignal::Completed, None),
        RefreshEvent::Failed => refresh_step(state, RefreshSignal::Failed, None),
    }
}

/// What the current pointer names.
#[derive(Debug, Clone, PartialEq, Eq)]
pub enum Pointer {
    /// There is no pointer, or it cannot be read.
    Unreadable,
    /// The pointer names a place that is no installed version.
    Elsewhere,
    /// The pointer names the installed version of that name.
    Version(String),
}

/// What to delete to uninstall a version: the directory of the version
/// named `tag`, and before it the current pointer where it names that
/// version.
#[derive(Debug, Clone, PartialEq, Eq)]
pub struct Removal {
    pub tag: String,
    pub with_pointer: bool,
}

/// Whether the pointer names the installed version of that name.
pub open spec fn points_at(current: Pointer, tag: Seq<char>) -> bool {
    match current {
        Pointer::Version(name) => name@ == tag,
        _ => false,
    }
}

/// Decides what to delete to uninstall the version that the user's word
/// names: the directory named by the found release's tag, and the pointer
/// where it names that directory. A word that names no release asks for
/// nothing. For a release that is found the pointer has to be readable.
pub fn delete_cache_release(
    version: &str,
    records: Vec<Option<RawRelease>>,
    current: &Pointer,
) -> (r: Result<Option<Removal>, ErrorKind>)
    ensures
        match find_release(catalog_releases(records.deep_view()), version@) {
            None => r == Ok::<Option<Removal>, ErrorKind>(None),
            Some(found) => if *current is Unreadable {
                r == Err::<Option<Removal>, ErrorKind>(ErrorKind::IoFailure)
            } else {
                r matches Ok(Some(removal)) && removal.tag@ == found.tag_name
                    && removal.with_pointer == points_at(*current, found.tag_name)
            },
        },
{
    match get_release(version, records) {
        None => Ok(None),
        Some(release) => {
            let tag = release.tag_name;
            match current {
                Pointer::Unreadable => Err(ErrorKind::IoFailure),
                Pointer::Elsewhere => Ok(Some(Removal { tag, with_pointer: false })),
                Pointer::Version(name) => {
                    let with_pointer = same_text(name.as_str(), tag.as_str());
                    Ok(Some(Removal { tag, with_pointer }))
                },
            }
        },
    }
}

/// The state of a refresh after a row of page fetches, each of which was
/// fetched (`true`) or failed (`false`).
pub open spec fn after_fetches(state: RefreshState, fetched: Seq<bool>) -> RefreshState
    decreases fetched.len(),
{
    if fetched.len() == 0 {
        state
    } else {
        refresh_next(
            after_fetches(state, fetched.drop_last()),
            if fetched.last() {
                RefreshSignal::Fetched
            } else {
                RefreshSignal::Failed
            },
            None,
        ).0
    }
}

/// The pages after the first are fetched in ascending order, each once,
/// whether or not the ones before could be fetched: after `k` fetches from
/// page `next` on, page `next + k` is being fetched, and when page `last`
/// has had its turn the merge of the pages up to `last` follows.
pub proof fn lemma_pages_in_order(next: i32, last: i32, fetched: Seq<bool>)
    requires
        2 <= next <= last,
        fetched.len() <= last - next + 1,
    ensures
        after_fetches(RefreshState::Rest { next, last }, fetched) == if fetched.len() <= last
            - next {
            RefreshState::Rest { next: (next + fetched.len()) as i32, last }
        } else {
            RefreshState::Merging { last }
        },
    decreases fetched.len(),
{
    if fetched.len() > 0 {
        lemma_pages_in_order(next, last, fetched.drop_last());
    }
}

/// The installed versions and the pointer, as an uninstall sees them: the
/// names of the version directories, and the name that the pointer holds,
/// if there is a pointer.
pub ghost struct Installation {
    pub versions: Set<Seq<char>>,
    pub pointer: Option<Seq<char>>,
}

/// What is left after a removal was carried out: the pointer goes first
/// where the removal says so, then the directory of the version.
pub open spec fn after_removal(before: Installation, tag: Seq<char>, with_pointer: bool) -> Installation {
    Installation {
        versions: before.versions.remove(tag),
        pointer: if with_pointer {
            None
        } else {
            before.pointer
        },
    }
}

/// An uninstall removes the directory of the version and nothing of the
/// other versions, and never leaves the pointer at the removed directory:
/// a pointer that named it is gone, and any other pointer stays.
pub proof fn lemma_uninstall_leaves_no_dangling_pointer(before: Installation, tag: Seq<char>)
    ensures
        ({
            let after = after_removal(before, tag, before.pointer == Some(tag));
            &&& !after.versions.contains(tag)
            &&& after.pointer != Some(tag)
            &&& before.pointer == Some(tag) ==> after.pointer is None
            &&& before.pointer != Some(tag) ==> after.pointer == before.pointer
            &&& forall|other: Seq<char>|
                other != tag ==> after.versions.contains(other) == before.versions.contains(other)
        }),
{
}

/// Where a refresh stands after some of its actions, and which page files
/// lie in the cache.
pub ghost struct RefreshRun {
    pub state: RefreshState,
    pub action: RefreshAction,
    pub files: Set<int>,
}

/// The event that ends an action, given whether it could be carried out.
pub open spec fn signal_of(action: RefreshAction, carried_out: bool) -> RefreshSignal {
    if !carried_out {
        RefreshSignal::Failed
    } else {
        match action {
            RefreshAction::Fetch { page } => RefreshSignal::Fetched,
            _ => RefreshSignal::Completed,
        }
    }
}

/// The page files in the cache after an action. A fetch that is carried
/// out leaves the file of its page. A merge that is carried out deletes
/// the files of the pages 1 to `last`, and an adoption the file of page 1.
/// An action that fails leaves the files as they were.
pub open spec fn files_after(files: Set<int>, action: RefreshAction, carried_out: bool) -> Set<int> {
    if !carried_out {
        files
    } else {
        match action {
            RefreshAction::Fetch { page } => files.insert(page as int),
            RefreshAction::Merge { last } => files.filter(|page: int| !(1 <= page <= last)),
            RefreshAction::Adopt => files.remove(1),
            _ => files,
        }
    }
}

/// A refresh that starts with no page file in the cache, after one action
/// for each entry of `carried_out`, which tells whether that action could
/// be carried out. `announced` is what the header of the first page
/// announces.
pub open spec fn refresh_run(
    announced: Option<Result<i32, ErrorKind>>,
    carried_out: Seq<bool>,
) -> RefreshRun
    decreases carried_out.len(),
{
    if carried_out.len() == 0 {
        RefreshRun { state: refresh_start().0, action: refresh_start().1, files: Set::empty() }
    } else {
        let before = refresh_run(announced, carried_out.drop_last());
        let next = refresh_next(
            before.state,
            signal_of(before.action, carried_out.last()),
            announced,
        );
        RefreshRun {
            state: next.0,
            action: next.1,
            files: files_after(before.files, before.action, carried_out.last()),
        }
    }
}

/// What holds of a refresh at every moment: the pending action is the one
/// of the state, and the page files in the cache are among those of the
/// pages that had their turn.
pub open spec fn refresh_in_order(run: RefreshRun) -> bool {
    match run.state {
        RefreshState::First => run.action == (RefreshAction::Fetch { page: 1 })
            && run.files == Set::<int>::empty(),
        RefreshState::Rest { next, last } => run.action == (RefreshAction::Fetch { page: next })
            && 2 <= next <= last && forall|page: int|
            run.files.contains(page) ==> 1 <= page < next,
        RefreshState::Merging { last } => run.action == (RefreshAction::Merge { last })
            && forall|page: int| run.files.contains(page) ==> 1 <= page <= last,
        RefreshState::Adopting => run.action == RefreshAction::Adopt && forall|page: int|
            run.files.contains(page) ==> page == 1,
        RefreshState::Done => run.action == RefreshAction::Finish && run.files
            == Set::<int>::empty(),
        RefreshState::Failed(kind) => run.action == RefreshAction::Abort(kind),
    }
}

/// A refresh that is done has left no page file behind. Whatever the
/// header announced and whichever pages could be fetched, once the catalog
/// has been replaced the cache holds none of the files of the pages: the
/// merge, or the adoption of the only page, has deleted them all.
pub proof fn lemma_no_page_file_left(
    announced: Option<Result<i32, ErrorKind>>,
    carried_out: Seq<bool>,
)
    ensures
        refresh_in_order(refresh_run(announced, carried_out)),
        refresh_run(announced, carried_out).state is Done ==> refresh_run(
            announced,
            carried_out,
        ).files == Set::<int>::empty(),
    decreases carried_out.len(),
{
    if carried_out.len() > 0 {
        lemma_no_page_file_left(announced, carried_out.drop_last());
        let before = refresh_run(announced, carried_out.drop_last());
        let after = refresh_run(announced, carried_out);
        let ok = carried_out.last();
        match before.state {
            RefreshState::Merging { last } => {
                if ok {
                    assert(after.files =~= Set::<int>::empty());
                }
            },
            RefreshState::Adopting => {
                if ok {
                    assert(after.files =~= Set::<int>::empty());
                }
            },
            RefreshState::First => {
                if ok {
                    assert(after.files =~= set![1int]);
                }
            },
            _ => {},
        }
    }
}

} // verus!
