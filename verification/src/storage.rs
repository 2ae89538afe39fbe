//! The places on disk that the tool works with, named without a path: one
//! of the four directories that the storage resolves, and the names below
//! it.

use crate::text::{decimal, decimal_text};
use vstd::prelude::*;

verus! {

/// One of the four directories that the storage resolves.
#[derive(Clone, Copy, Debug, PartialEq, Eq, Structural)]
pub enum Root {
    /// The directory of the application's data.
    Data,
    /// The directory of the catalog, the pages and the downloads.
    Cache,
    /// The directory with one directory for each installed version.
    Versions,
    /// The pointer to the version in use.
    Current,
}

/// A place on disk: a root, and the names that lead from it to the place.
#[derive(Debug, Clone, PartialEq, Eq)]
pub struct Location {
    pub root: Root,
    pub parts: Vec<String>,
}

/// The mathematical content of a [`Location`].
pub ghost struct LocationView {
    pub root: Root,
    pub parts: Seq<Seq<char>>,
}

impl DeepView for Location {
    type V = LocationView;

    open spec fn deep_view(&self) -> LocationView {
        LocationView { root: self.root, parts: self.parts.deep_view() }
    }
}

impl View for Location {
    type V = LocationView;

    open spec fn view(&self) -> LocationView {
        self.deep_view()
    }
}

/// The directories to create at start: those of data, versions and cache
/// that are not there, in this order.
pub open spec fn missing_roots(data: bool, versions: bool, cache: bool) -> Seq<Root> {
    (if data {
        Seq::<Root>::empty()
    } else {
        seq![Root::Data]
    }) + (if versions {
        Seq::<Root>::empty()
    } else {
        seq![Root::Versions]
    }) + (if cache {
        Seq::<Root>::empty()
    } else {
        seq![Root::Cache]
    })
}

/// The directories to create at start, given which of them are present.
pub fn bootstrap(data_present: bool, versions_present: bool, cache_present: bool) -> (r: Vec<Root>)
    ensures
        r@ == missing_roots(data_present, versions_present, cache_present),
{
    let mut out: Vec<Root> = Vec::new();
    if !data_present {
        out.push(Root::Data);
    }
    if !versions_present {
        out.push(Root::Versions);
    }
    if !cache_present {
        out.push(Root::Cache);
    }
    proof {
        assert(out@ =~= missing_roots(data_present, versions_present, cache_present));
    }
    out
}

/// The name of the file that holds the merged catalog, below the cache.
pub fn catalog_file_name() -> (r: String)
    ensures
        r@ == "releases.json"@,
{
    "releases.json".to_owned()
}

/// The address of the release feed, to which the page number is added.
pub fn feed_url() -> (r: String)
    ensures
        r@ == "https://api.github.com/repos/Kitware/CMake/releases"@,
{
    "https://api.github.com/repos/Kitware/CMake/releases".to_owned()
}

/// The address of one page of the release feed.
pub open spec fn page_address(page: i32) -> Seq<char> {
    "https://api.github.com/repos/Kitware/CMake/releases"@ + "?page="@ + decimal_text(page as int)
}

/// The address of one page of the release feed.
pub fn page_url(page: i32) -> (r: String)
    ensures
        r@ == page_address(page),
{
    let mut out = feed_url();
    out.append("?page=");
    out.append(decimal(page).as_str());
    out
}

/// The name of the file that holds one page of the feed until the pages
/// are merged, below the cache.
pub fn page_file_name(page: i32) -> (r: String)
    ensures
        r@ == decimal_text(page as int) + ".json"@,
{
    let mut out = decimal(page);
    out.append(".json");
    out
}

} // verus!
