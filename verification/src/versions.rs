//! Releases of the build tool: their tags, the numbers that a tag holds,
//! and the listings shown to the user.

use crate::error::ErrorKind;
use crate::package::{asset_matches, filter_platform_assets, platform_assets};
use crate::platform::{SupportedDefinition, SupportedDefinitionView};
use crate::text::{
    all_digits, chars_of, decimal_i32, decimal_text, digits_value, is_digit, join, joined,
    lemma_decimal_digits, parse_i32,
};
use vstd::prelude::*;

verus! {

/// One downloadable file of a release.
#[derive(Debug, Clone, PartialEq, Eq, PartialOrd, Ord)]
pub struct Asset {
    pub name: String,
    pub content_type: String,
    pub browser_download_url: String,
}

/// The mathematical content of an [`Asset`].
pub ghost struct AssetView {
    pub name: Seq<char>,
    pub content_type: Seq<char>,
    pub browser_download_url: Seq<char>,
}

impl DeepView for Asset {
    type V = AssetView;

    open spec fn deep_view(&self) -> AssetView {
        AssetView {
            name: self.name@,
            content_type: self.content_type@,
            browser_download_url: self.browser_download_url@,
        }
    }
}

impl View for Asset {
    type V = AssetView;

    open spec fn view(&self) -> AssetView {
        self.deep_view()
    }
}

/// A release as the feed gives it: the tag, the prerelease flag where the
/// record has one, and the assets.
#[derive(Debug, Clone, PartialEq, Eq)]
pub struct RawRelease {
    pub tag_name: String,
    pub prerelease: Option<bool>,
    pub assets: Vec<Asset>,
}

/// The mathematical content of a [`RawRelease`].
pub ghost struct RawReleaseView {
    pub tag_name: Seq<char>,
    pub prerelease: Option<bool>,
    pub assets: Seq<AssetView>,
}

impl DeepView for RawRelease {
    type V = RawReleaseView;

    open spec fn deep_view(&self) -> RawReleaseView {
        RawReleaseView {
            tag_name: self.tag_name@,
            prerelease: self.prerelease,
            assets: self.assets.deep_view(),
        }
    }
}

impl View for RawRelease {
    type V = RawReleaseView;

    open spec fn view(&self) -> RawReleaseView {
        self.deep_view()
    }
}

/// A release with the numbers of its tag worked out.
#[derive(Debug, Clone, PartialEq, Eq, PartialOrd, Ord)]
pub struct Version {
    pub major: Option<i32>,
    pub minor: Option<i32>,
    pub patch: Option<i32>,
    pub prerelease: Option<bool>,
    pub tag_name: String,
    pub assets: Vec<Asset>,
}

/// The mathematical content of a [`Version`].
pub ghost struct VersionView {
    pub major: Option<i32>,
    pub minor: Option<i32>,
    pub patch: Option<i32>,
    pub prerelease: Option<bool>,
    pub tag_name: Seq<char>,
    pub assets: Seq<AssetView>,
}

impl DeepView for Version {
    type V = VersionView;

    open spec fn deep_view(&self) -> VersionView {
        VersionView {
            major: self.major,
            minor: self.minor,
            patch: self.patch,
            prerelease: self.prerelease,
            tag_name: self.tag_name@,
            assets: self.assets.deep_view(),
        }
    }
}

impl View for Version {
    type V = VersionView;

    open spec fn view(&self) -> VersionView {
        self.deep_view()
    }
}

/// A tag without any `v` at its start, which is how a version is named to
/// the user and on disk. What is left does not begin with `v`, so a
/// normalized tag is its own normalized tag.
pub open spec fn normalized_tag(tag: Seq<char>) -> Seq<char>
    decreases tag.len(),
{
    if tag.len() > 0 && tag[0] == 'v' {
        normalized_tag(tag.skip(1))
    } else {
        tag
    }
}

/// The normalized tag is what follows the first `k` characters, where these
/// are all `v` and the next one, if there is one, is none.
pub proof fn lemma_normalized_tag_skips(tag: Seq<char>, k: int)
    requires
        0 <= k <= tag.len(),
        forall|i: int| 0 <= i < k ==> #[trigger] tag[i] == 'v',
        k < tag.len() ==> tag[k] != 'v',
    ensures
        normalized_tag(tag) == tag.skip(k),
    decreases k,
{
    if k == 0 {
        assert(tag.skip(0) =~= tag);
    } else {
        let rest = tag.skip(1);
        assert forall|i: int| 0 <= i < k - 1 implies #[trigger] rest[i] == 'v' by {
            assert(rest[i] == tag[i + 1]);
        }
        lemma_normalized_tag_skips(rest, k - 1);
        assert(rest.skip(k - 1) =~= tag.skip(k));
    }
}

/// A normalized tag does not begin with `v`, and normalizing it again
/// changes nothing: the name of a version is the same however often it is
/// worked out.
pub proof fn lemma_normalized_tag_idempotent(tag: Seq<char>)
    ensures
        normalized_tag(tag).len() > 0 ==> normalized_tag(tag)[0] != 'v',
        normalized_tag(normalized_tag(tag)) == normalized_tag(tag),
    decreases tag.len(),
{
    if tag.len() > 0 && tag[0] == 'v' {
        lemma_normalized_tag_idempotent(tag.skip(1));
    }
}

/// Whether `c` parts two components of a tag: a dot, or the hyphen that
/// sets off a release-candidate suffix.
pub open spec fn is_separator(c: char) -> bool {
    c == '.' || c == '-'
}

/// Where the first separator of `s` stands; `s.len()` where it has none.
pub open spec fn first_separator(s: Seq<char>) -> int
    decreases s.len(),
{
    if s.len() == 0 || is_separator(s[0]) {
        0
    } else {
        1 + first_separator(s.skip(1))
    }
}

/// The pieces into which the separators cut `s`. There is always at least
/// one, and a piece may be empty.
pub open spec fn components(s: Seq<char>) -> Seq<Seq<char>>
    decreases s.len(),
{
    let at = first_separator(s);
    if 0 <= at < s.len() {
        seq![s.take(at)] + components(s.skip(at + 1))
    } else {
        seq![s]
    }
}

/// The number that one component stands for: its value as a decimal
/// integer, and 0 where it is none.
pub open spec fn component_number(component: Seq<char>) -> i32 {
    match decimal_i32(component) {
        Some(n) => n,
        None => 0,
    }
}

/// The numbers of a tag, one for each component of the normalized tag.
pub open spec fn version_numbers(tag: Seq<char>) -> Seq<i32> {
    components(normalized_tag(tag)).map_values(|c: Seq<char>| component_number(c))
}

/// The number at place `k` of a tag, and 0 where the tag has fewer numbers.
pub open spec fn number_at(tag: Seq<char>, k: int) -> i32 {
    if 0 <= k < version_numbers(tag).len() {
        version_numbers(tag)[k]
    } else {
        0
    }
}

/// The release that a raw record with a tag stands for: major, minor and
/// patch are the first three numbers of the tag.
pub open spec fn parsed_release(raw: RawReleaseView) -> VersionView {
    VersionView {
        major: Some(number_at(raw.tag_name, 0)),
        minor: Some(number_at(raw.tag_name, 1)),
        patch: Some(number_at(raw.tag_name, 2)),
        prerelease: raw.prerelease,
        tag_name: raw.tag_name,
        assets: raw.assets,
    }
}

/// The first separator of `s` stands at `k` where no character before `k`
/// is one and `k` is the end of `s` or holds one.
pub proof fn lemma_first_separator(s: Seq<char>, k: int)
    requires
        0 <= k <= s.len(),
        forall|i: int| 0 <= i < k ==> !is_separator(#[trigger] s[i]),
        k < s.len() ==> is_separator(s[k]),
    ensures
        first_separator(s) == k,
    decreases k,
{
    if k > 0 {
        let rest = s.skip(1);
        assert forall|i: int| 0 <= i < k - 1 implies !is_separator(#[trigger] rest[i]) by {
            assert(rest[i] == s[i + 1]);
        }
        lemma_first_separator(rest, k - 1);
    }
}

/// Whether `s` writes a number that a release can have: at least one digit,
/// nothing but digits, and a value that fits.
pub open spec fn is_number_text(s: Seq<char>) -> bool {
    s.len() > 0 && all_digits(s) && digits_value(s) <= i32::MAX
}

/// A text without separators is its own single component.
pub proof fn lemma_components_single(s: Seq<char>)
    requires
        forall|i: int| 0 <= i < s.len() ==> !is_separator(#[trigger] s[i]),
    ensures
        components(s) == seq![s],
{
    lemma_first_separator(s, s.len() as int);
}

/// A text without separators, a separator and more text: the first is a
/// component, and the others are those of the rest.
pub proof fn lemma_components_cons(head: Seq<char>, separator: char, rest: Seq<char>)
    requires
        forall|i: int| 0 <= i < head.len() ==> !is_separator(#[trigger] head[i]),
        is_separator(separator),
    ensures
        components(head + seq![separator] + rest) == seq![head] + components(rest),
{
    let s = head + seq![separator] + rest;
    assert forall|i: int| 0 <= i < head.len() implies !is_separator(#[trigger] s[i]) by {
        assert(s[i] == head[i]);
    }
    assert(s[head.len() as int] == separator);
    lemma_first_separator(s, head.len() as int);
    assert(s.take(head.len() as int) =~= head);
    assert(s.skip(head.len() as int + 1) =~= rest);
}

/// A run of digits that fits is read as the number it writes.
pub proof fn lemma_number_text_value(s: Seq<char>)
    requires
        is_number_text(s),
    ensures
        forall|i: int| 0 <= i < s.len() ==> !is_separator(#[trigger] s[i]),
        component_number(s) == digits_value(s),
{
    assert(is_digit(s[0]));
    crate::text::lemma_digits_value_nonnegative(s);
    assert forall|i: int| 0 <= i < s.len() implies !is_separator(#[trigger] s[i]) by {
        assert(is_digit(s[i]));
    }
}

/// For every tag made of `v`, three runs of digits and the dots between
/// them, the release has the numbers that the three runs write as its
/// major, minor and patch.
pub proof fn lemma_parse_recovers_triple(
    raw: RawReleaseView,
    major: Seq<char>,
    minor: Seq<char>,
    patch: Seq<char>,
)
    requires
        is_number_text(major),
        is_number_text(minor),
        is_number_text(patch),
        raw.tag_name == seq!['v'] + major + seq!['.'] + minor + seq!['.'] + patch,
    ensures
        parsed_release(raw).major == Some(digits_value(major) as i32),
        parsed_release(raw).minor == Some(digits_value(minor) as i32),
        parsed_release(raw).patch == Some(digits_value(patch) as i32),
{
    let tag = raw.tag_name;
    let tail = minor + seq!['.'] + patch;
    let name = major + seq!['.'] + tail;
    assert(tag[0] == 'v');
    lemma_number_text_value(major);
    assert(is_digit(major[0]));
    assert(tag[1] == major[0]);
    lemma_normalized_tag_skips(tag, 1);
    assert(tag.skip(1) =~= name);
    lemma_number_text_value(major);
    lemma_number_text_value(minor);
    lemma_number_text_value(patch);
    lemma_components_cons(major, '.', tail);
    lemma_components_cons(minor, '.', patch);
    lemma_components_single(patch);
    assert(components(name) =~= seq![major, minor, patch]);
    let numbers = version_numbers(tag);
    assert(numbers.len() == 3);
    assert(numbers[0] == component_number(major));
    assert(numbers[1] == component_number(minor));
    assert(numbers[2] == component_number(patch));
}

/// The place of one number in the order of releases. A release that lacks
/// the number comes before every release that has it.
pub open spec fn rank(number: Option<i32>) -> int {
    match number {
        Some(n) => n as int,
        None => i32::MIN - 1,
    }
}

/// Whether `a` comes strictly before `b` in the order of releases: by
/// major, then minor, then patch, each compared as a number.
pub open spec fn precedes(a: VersionView, b: VersionView) -> bool {
    ||| rank(a.major) < rank(b.major)
    ||| rank(a.major) == rank(b.major) && rank(a.minor) < rank(b.minor)
    ||| rank(a.major) == rank(b.major) && rank(a.minor) == rank(b.minor) && rank(a.patch) < rank(
        b.patch,
    )
}

/// Whether no release of `list` comes before one that stands earlier in it.
pub open spec fn ascending(list: Seq<VersionView>) -> bool {
    forall|i: int, j: int| 0 <= i < j < list.len() ==> !precedes(#[trigger] list[j], #[trigger] list[i])
}

/// `sorted` with `v` put in behind the last release that does not come
/// after it.
pub open spec fn inserted(sorted: Seq<VersionView>, v: VersionView) -> Seq<VersionView>
    decreases sorted.len(),
{
    if sorted.len() == 0 || !precedes(v, sorted.last()) {
        sorted.push(v)
    } else {
        inserted(sorted.drop_last(), v).push(sorted.last())
    }
}

/// The releases of `list` in ascending order; releases with the same three
/// numbers keep the order that they have in `list`.
pub open spec fn sorted_releases(list: Seq<VersionView>) -> Seq<VersionView>
    decreases list.len(),
{
    if list.len() == 0 {
        list
    } else {
        inserted(sorted_releases(list.drop_last()), list.last())
    }
}

/// Putting a release in at `at` is what [`inserted`] does, where every
/// release from `at` on comes after it and the one before `at` does not.
pub proof fn lemma_inserted_at(sorted: Seq<VersionView>, v: VersionView, at: int)
    requires
        0 <= at <= sorted.len(),
        forall|i: int| at <= i < sorted.len() ==> precedes(v, #[trigger] sorted[i]),
        at > 0 ==> !precedes(v, sorted[at - 1]),
    ensures
        inserted(sorted, v) == sorted.insert(at, v),
    decreases sorted.len() - at,
{
    if at == sorted.len() {
        assert(sorted.insert(at, v) =~= sorted.push(v));
    } else {
        let shorter = sorted.drop_last();
        assert(precedes(v, sorted[sorted.len() - 1]));
        assert forall|i: int| at <= i < shorter.len() implies precedes(v, #[trigger] shorter[i]) by {
            assert(shorter[i] == sorted[i]);
        }
        if at > 0 {
            assert(shorter[at - 1] == sorted[at - 1]);
        }
        lemma_inserted_at(shorter, v, at);
        assert(shorter.insert(at, v).push(sorted.last()) =~= sorted.insert(at, v));
    }
}

/// Putting a release into an ascending list leaves it ascending, adds that
/// release and takes none away.
pub proof fn lemma_inserted_properties(sorted: Seq<VersionView>, v: VersionView)
    requires
        ascending(sorted),
    ensures
        ascending(inserted(sorted, v)),
        inserted(sorted, v).to_multiset() == sorted.to_multiset().insert(v),
        inserted(sorted, v).len() == sorted.len() + 1,
    decreases sorted.len(),
{
    broadcast use vstd::seq_lib::group_to_multiset_ensures;

    if sorted.len() == 0 || !precedes(v, sorted.last()) {
        let out = sorted.push(v);
        assert forall|i: int, j: int| 0 <= i < j < out.len() implies !precedes(
            #[trigger] out[j],
            #[trigger] out[i],
        ) by {
            if j == sorted.len() {
                assert(!precedes(sorted.last(), sorted[i]) || i == sorted.len() - 1);
            } else {
                assert(out[j] == sorted[j] && out[i] == sorted[i]);
            }
        }
    } else {
        let shorter = sorted.drop_last();
        let last = sorted.last();
        assert forall|i: int, j: int| 0 <= i < j < shorter.len() implies !precedes(
            #[trigger] shorter[j],
            #[trigger] shorter[i],
        ) by {
            assert(shorter[j] == sorted[j] && shorter[i] == sorted[i]);
        }
        lemma_inserted_properties(shorter, v);
        let inner = inserted(shorter, v);
        let out = inner.push(last);
        assert(sorted =~= shorter.push(last));
        assert forall|i: int, j: int| 0 <= i < j < out.len() implies !precedes(
            #[trigger] out[j],
            #[trigger] out[i],
        ) by {
            if j == inner.len() {
                assert(inner.to_multiset().count(inner[i]) > 0);
                if inner[i] == v {
                } else {
                    assert(shorter.to_multiset().count(inner[i]) > 0);
                    assert(shorter.contains(inner[i]));
                    let k = choose|k: int| 0 <= k < shorter.len() && shorter[k] == inner[i];
                    assert(sorted[k] == inner[i]);
                    assert(!precedes(sorted[sorted.len() - 1], sorted[k]));
                }
            } else {
                assert(out[j] == inner[j] && out[i] == inner[i]);
            }
        }
        assert(out.to_multiset() =~= sorted.to_multiset().insert(v));
    }
}

/// The sorted list is ascending and holds the releases of the list, each as
/// often as the list does.
pub proof fn lemma_sorted_releases(list: Seq<VersionView>)
    ensures
        ascending(sorted_releases(list)),
        sorted_releases(list).to_multiset() == list.to_multiset(),
        sorted_releases(list).len() == list.len(),
    decreases list.len(),
{
    broadcast use vstd::seq_lib::group_to_multiset_ensures;

    if list.len() > 0 {
        lemma_sorted_releases(list.drop_last());
        lemma_inserted_properties(sorted_releases(list.drop_last()), list.last());
        assert(list =~= list.drop_last().push(list.last()));
    }
}

/// Whether a release is offered for installation on a platform: it has a
/// tag, is no prerelease, is not older than the platform asks for, and has
/// at least one asset for the platform.
pub open spec fn installable(v: VersionView, def: SupportedDefinitionView) -> bool {
    &&& v.tag_name.len() > 0
    &&& v.prerelease != Some(true)
    &&& rank(v.major) >= def.major_version_required
    &&& platform_assets(v.assets, def).len() > 0
}

/// The releases of a catalog that are offered for installation on a
/// platform, in ascending order.
pub open spec fn installable_releases(
    catalog: Seq<VersionView>,
    def: SupportedDefinitionView,
) -> Seq<VersionView> {
    sorted_releases(catalog.filter(|v: VersionView| installable(v, def)))
}

/// The release that a record of the feed stands for. A record that could
/// not be read, or that has no tag, stands for none.
pub open spec fn record_release(record: Option<RawReleaseView>) -> Option<VersionView> {
    match record {
        Some(raw) => if raw.tag_name.len() > 0 {
            Some(parsed_release(raw))
        } else {
            None
        },
        None => None,
    }
}

/// The releases of a list of records, in the order of the records.
pub open spec fn catalog_releases(records: Seq<Option<RawReleaseView>>) -> Seq<VersionView> {
    records.filter_map(|record: Option<RawReleaseView>| record_release(record))
}

/// Whether every record of the list could be read.
pub open spec fn all_readable(records: Seq<Option<RawReleaseView>>) -> bool {
    forall|i: int| 0 <= i < records.len() ==> (#[trigger] records[i]) is Some
}

/// The line that the listing of remote releases shows for a release.
pub open spec fn remote_line(v: VersionView) -> Seq<char> {
    "[cmvm] "@ + normalized_tag(v.tag_name)
}

/// The listing of remote releases: one line for each release, in order.
pub open spec fn remote_listing(list: Seq<VersionView>) -> Seq<char> {
    joined(list.map_values(|v: VersionView| remote_line(v)), "\n"@)
}

/// A release is in the listing exactly where it is in the catalog and is
/// offered for installation.
pub proof fn lemma_listed_iff_installable(
    catalog: Seq<VersionView>,
    def: SupportedDefinitionView,
    v: VersionView,
)
    ensures
        installable_releases(catalog, def).contains(v) <==> catalog.contains(v) && installable(
            v,
            def,
        ),
{
    broadcast use vstd::seq_lib::group_to_multiset_ensures;

    let wanted = |v: VersionView| installable(v, def);
    let kept = catalog.filter(wanted);
    lemma_sorted_releases(kept);
    assert(sorted_releases(kept).contains(v) <==> kept.contains(v)) by {
        assert(sorted_releases(kept).to_multiset().count(v) == kept.to_multiset().count(v));
    }
    if kept.contains(v) {
        catalog.lemma_filter_contains_rev(wanted, v);
        let i = choose|i: int| 0 <= i < kept.len() && kept[i] == v;
        catalog.lemma_filter_pred(wanted, i);
    }
    if catalog.contains(v) && installable(v, def) {
        let i = choose|i: int| 0 <= i < catalog.len() && catalog[i] == v;
        catalog.lemma_filter_contains(wanted, i);
    }
}

/// The listing is in ascending order of major, minor and patch, each
/// compared as a number, and it has each installable release of the catalog
/// as often as the catalog has it.
pub proof fn lemma_listing_ascending(catalog: Seq<VersionView>, def: SupportedDefinitionView)
    ensures
        ascending(installable_releases(catalog, def)),
        installable_releases(catalog, def).to_multiset() == catalog.filter(
            |v: VersionView| installable(v, def),
        ).to_multiset(),
{
    lemma_sorted_releases(catalog.filter(|v: VersionView| installable(v, def)));
}

/// Every release of a catalog stands for a record that could be read and
/// has a tag; a record with an empty tag stands for no release.
pub proof fn lemma_catalog_release_has_record(
    records: Seq<Option<RawReleaseView>>,
    v: VersionView,
)
    requires
        catalog_releases(records).contains(v),
    ensures
        v.tag_name.len() > 0,
        exists|i: int| 0 <= i < records.len() && record_release(#[trigger] records[i]) == Some(v),
{
    let release = |record: Option<RawReleaseView>| record_release(record);
    records.lemma_filter_map_contains(release, v);
    let record = choose|record: Option<RawReleaseView>|
        records.contains(record) && release(record) == Some(v);
    let i = choose|i: int| 0 <= i < records.len() && records[i] == record;
    assert(record_release(records[i]) == Some(v));
}

/// A record with an empty tag is left out of the listing: every listed
/// release has a tag, and stands for a record of the feed that has one.
pub proof fn lemma_empty_tag_excluded(
    records: Seq<Option<RawReleaseView>>,
    def: SupportedDefinitionView,
    v: VersionView,
)
    requires
        installable_releases(catalog_releases(records), def).contains(v),
    ensures
        v.tag_name.len() > 0,
        exists|i: int| 0 <= i < records.len() && record_release(#[trigger] records[i]) == Some(v),
{
    lemma_listed_iff_installable(catalog_releases(records), def, v);
    lemma_catalog_release_has_record(records, v);
}

/// A release that the feed flags as a prerelease is left out of the
/// listing, whatever its assets and its numbers.
pub proof fn lemma_prerelease_excluded(
    catalog: Seq<VersionView>,
    def: SupportedDefinitionView,
    v: VersionView,
)
    requires
        v.prerelease == Some(true),
    ensures
        !installable_releases(catalog, def).contains(v),
{
    lemma_listed_iff_installable(catalog, def, v);
}

/// A release whose major number is below the one that the platform asks
/// for is left out of the listing, whatever its assets.
pub proof fn lemma_old_major_excluded(
    catalog: Seq<VersionView>,
    def: SupportedDefinitionView,
    v: VersionView,
)
    requires
        rank(v.major) < def.major_version_required,
    ensures
        !installable_releases(catalog, def).contains(v),
{
    lemma_listed_iff_installable(catalog, def, v);
}

/// A release without an asset that passes both tests of the platform is
/// left out of the listing.
pub proof fn lemma_no_asset_excluded(
    catalog: Seq<VersionView>,
    def: SupportedDefinitionView,
    v: VersionView,
)
    requires
        forall|i: int| 0 <= i < v.assets.len() ==> !asset_matches(#[trigger] v.assets[i], def),
    ensures
        !installable_releases(catalog, def).contains(v),
{
    lemma_listed_iff_installable(catalog, def, v);
    let matches = |asset: AssetView| asset_matches(asset, def);
    if v.assets.filter(matches).len() > 0 {
        v.assets.lemma_filter_pred(matches, 0);
        v.assets.lemma_filter_contains_rev(matches, v.assets.filter(matches)[0]);
    }
}

/// Three numbers written as a tag are read back: for every tag made of `v`
/// and the decimal texts of a major, a minor and a patch number, with dots
/// between them, the release has these three numbers.
pub proof fn lemma_written_triple_is_read(raw: RawReleaseView, major: i32, minor: i32, patch: i32)
    requires
        major >= 0,
        minor >= 0,
        patch >= 0,
        raw.tag_name == seq!['v'] + decimal_text(major as int) + seq!['.'] + decimal_text(
            minor as int,
        ) + seq!['.'] + decimal_text(patch as int),
    ensures
        parsed_release(raw).major == Some(major),
        parsed_release(raw).minor == Some(minor),
        parsed_release(raw).patch == Some(patch),
{
    lemma_decimal_digits(major as nat);
    lemma_decimal_digits(minor as nat);
    lemma_decimal_digits(patch as nat);
    lemma_parse_recovers_triple(
        raw,
        decimal_text(major as int),
        decimal_text(minor as int),
        decimal_text(patch as int),
    );
}

impl Version {
    /// The tag without any `v` at its start.
    pub fn get_tag_name(&self) -> (r: String)
        ensures
            r@ == normalized_tag(self.tag_name@),
    {
        let tag = self.tag_name.as_str();
        let chars = chars_of(tag);
        let n = chars.len();
        let mut k: usize = 0;
        while k < n && chars[k] == 'v'
            invariant
                k <= n == chars.len(),
                forall|i: int| 0 <= i < k ==> #[trigger] chars@[i] == 'v',
            decreases n - k,
        {
            k = k + 1;
        }
        proof {
            lemma_normalized_tag_skips(tag@, k as int);
            assert(tag@.skip(k as int) =~= tag@.subrange(k as int, n as int));
        }
        tag.substring_char(k, n).to_owned()
    }

    /// Whether the feed flags this release as a prerelease.
    pub fn is_rc(&self) -> (r: bool)
        ensures
            r == (self.prerelease == Some(true)),
    {
        match self.prerelease {
            Some(flag) => flag,
            None => false,
        }
    }

    /// The numbers of the tag, one for each of its components.
    pub fn get_version_vec(&self) -> (r: Vec<i32>)
        ensures
            r@ == version_numbers(self.tag_name@),
    {
        let name = self.get_tag_name();
        let chars = chars_of(name.as_str());
        let ghost s = chars@;
        let n = chars.len();
        let mut out: Vec<i32> = Vec::new();
        let mut start: usize = 0;
        let mut i: usize = 0;
        proof {
            assert(s.skip(0) =~= s);
            assert(Seq::<Seq<char>>::empty() + components(s) =~= components(s));
        }
        let ghost done: Seq<Seq<char>> = Seq::empty();
        while i < n
            invariant
                start <= i <= n == chars.len(),
                s == chars@,
                done + components(s.skip(start as int)) == components(s),
                out@ == done.map_values(|c: Seq<char>| component_number(c)),
                forall|j: int| start <= j < i ==> !is_separator(#[trigger] s[j]),
            decreases n - i,
        {
            if chars[i] == '.' || chars[i] == '-' {
                let number = match parse_i32(&chars, start, i) {
                    Some(value) => value,
                    None => 0,
                };
                proof {
                    let rest = s.skip(start as int);
                    assert forall|j: int| 0 <= j < i - start implies !is_separator(
                        #[trigger] rest[j],
                    ) by {
                        assert(rest[j] == s[j + start]);
                    }
                    assert(rest[i - start] == s[i as int]);
                    lemma_first_separator(rest, i - start);
                    assert(rest.take(i - start) =~= s.subrange(start as int, i as int));
                    assert(rest.skip(i - start + 1) =~= s.skip(i + 1));
                    let piece = s.subrange(start as int, i as int);
                    assert(done + (seq![piece] + components(s.skip(i + 1))) =~= done.push(piece)
                        + components(s.skip(i + 1)));
                    assert(done.push(piece).map_values(|c: Seq<char>| component_number(c))
                        =~= done.map_values(|c: Seq<char>| component_number(c)).push(
                        component_number(piece),
                    ));
                    done = done.push(piece);
                }
                out.push(number);
                start = i + 1;
            }
            i = i + 1;
        }
        let number = match parse_i32(&chars, start, n) {
            Some(value) => value,
            None => 0,
        };
        proof {
            let rest = s.skip(start as int);
            assert forall|j: int| 0 <= j < n - start implies !is_separator(#[trigger] rest[j]) by {
                assert(rest[j] == s[j + start]);
            }
            lemma_first_separator(rest, n - start);
            assert(rest =~= s.subrange(start as int, n as int));
            assert(done + seq![rest] =~= done.push(rest));
            assert(done.push(rest).map_values(|c: Seq<char>| component_number(c))
                =~= done.map_values(|c: Seq<char>| component_number(c)).push(
                component_number(rest),
            ));
        }
        out.push(number);
        out
    }

    /// Makes a release of a raw record: works out major, minor and patch
    /// from the tag and keeps the rest. A record without a tag is no release.
    pub fn from_raw_value(raw: RawRelease) -> (r: Result<Version, ErrorKind>)
        ensures
            match r {
                Ok(version) => raw.tag_name@.len() > 0 && version@ == parsed_release(raw@),
                Err(kind) => raw.tag_name@.len() == 0 && kind == ErrorKind::ParseFailure,
            },
    {
        if raw.tag_name.as_str().unicode_len() == 0 {
            return Err(ErrorKind::ParseFailure);
        }
        let mut version = Version {
            major: None,
            minor: None,
            patch: None,
            prerelease: raw.prerelease,
            tag_name: raw.tag_name,
            assets: raw.assets,
        };
        let numbers = version.get_version_vec();
        version.major = Some(if numbers.len() > 0 { numbers[0] } else { 0 });
        version.minor = Some(if numbers.len() > 1 { numbers[1] } else { 0 });
        version.patch = Some(if numbers.len() > 2 { numbers[2] } else { 0 });
        Ok(version)
    }
}

impl Asset {
    /// A copy of the asset.
    pub fn duplicate(&self) -> (r: Asset)
        ensures
            r@ == self@,
    {
        Asset {
            name: self.name.clone(),
            content_type: self.content_type.clone(),
            browser_download_url: self.browser_download_url.clone(),
        }
    }
}

/// The number by which an optional field is ordered.
fn rank_of(number: Option<i32>) -> (r: i64)
    ensures
        r == rank(number),
{
    match number {
        Some(n) => n as i64,
        None => -2147483649,
    }
}

impl Version {
    /// A copy of the release.
    pub fn duplicate(&self) -> (r: Version)
        ensures
            r@ == self@,
    {
        let mut assets: Vec<Asset> = Vec::new();
        let mut i: usize = 0;
        while i < self.assets.len()
            invariant
                i <= self.assets.len(),
                assets.deep_view() == self.assets.deep_view().take(i as int),
            decreases self.assets.len() - i,
        {
            let ghost before = assets.deep_view();
            assets.push(self.assets[i].duplicate());
            proof {
                assert(assets.deep_view() =~= before.push(self.assets[i as int]@));
                assert(self.assets.deep_view().take(i + 1) =~= before.push(self.assets[i as int]@));
            }
            i = i + 1;
        }
        proof {
            assert(self.assets.deep_view().take(self.assets.len() as int)
                =~= self.assets.deep_view());
        }
        Version {
            major: self.major,
            minor: self.minor,
            patch: self.patch,
            prerelease: self.prerelease,
            tag_name: self.tag_name.clone(),
            assets,
        }
    }

    /// Tests whether this release comes strictly before `other` in the
    /// order of releases.
    pub fn comes_before(&self, other: &Version) -> (r: bool)
        ensures
            r == precedes(self@, other@),
    {
        let a = (rank_of(self.major), rank_of(self.minor), rank_of(self.patch));
        let b = (rank_of(other.major), rank_of(other.minor), rank_of(other.patch));
        a.0 < b.0 || (a.0 == b.0 && a.1 < b.1) || (a.0 == b.0 && a.1 == b.1 && a.2 < b.2)
    }

    /// Tests whether this release is offered for installation on a platform.
    pub fn is_installable(&self, def: &SupportedDefinition) -> (r: bool)
        ensures
            r == installable(self@, def@),
    {
        if self.tag_name.as_str().unicode_len() == 0 || self.is_rc() {
            return false;
        }
        if rank_of(self.major) < def.major_version_required as i64 {
            return false;
        }
        filter_platform_assets(self, def).len() > 0
    }

    /// The listing of the releases that can be installed on a platform,
    /// oldest first, one line for each with its tag without the `v`. The
    /// listing is refused where a record of the feed could not be read.
    pub fn list_remote(records: Vec<Option<RawRelease>>, def: &SupportedDefinition) -> (r: Result<
        String,
        ErrorKind,
    >)
        ensures
            match r {
                Ok(text) => all_readable(records.deep_view()) && text@ == remote_listing(
                    installable_releases(catalog_releases(records.deep_view()), def@),
                ),
                Err(kind) => !all_readable(records.deep_view()) && kind == ErrorKind::ParseFailure,
            },
    {
        let mut i: usize = 0;
        while i < records.len()
            invariant
                i <= records.len(),
                forall|j: int| 0 <= j < i ==> (#[trigger] records.deep_view()[j]) is Some,
            decreases records.len() - i,
        {
            if records[i].is_none() {
                proof {
                    assert(records.deep_view()[i as int] is None);
                }
                return Err(ErrorKind::ParseFailure);
            }
            i = i + 1;
        }
        let catalog = get_releases(records);
        let listed = list_installable(catalog, def);
        Ok(render_remote(&listed))
    }
}

/// The releases of a list of records, in the order of the records. Records
/// that could not be read and records without a tag are left out.
pub fn get_releases(records: Vec<Option<RawRelease>>) -> (r: Vec<Version>)
    ensures
        r.deep_view() == catalog_releases(records.deep_view()),
{
    let ghost all = records.deep_view();
    let ghost items = records@;
    let ghost release = |record: Option<RawReleaseView>| record_release(record);
    let mut out: Vec<Version> = Vec::new();
    proof {
        assert(all.take(0) =~= Seq::<Option<RawReleaseView>>::empty());
        assert(out.deep_view() =~= all.take(0).filter_map(release));
    }
    for record in it: records
        invariant
            it.seq() == items,
            all.len() == items.len(),
            forall|j: int| 0 <= j < items.len() ==> all[j] == (#[trigger] items[j]).deep_view(),
            release == |record: Option<RawReleaseView>| record_release(record),
            out.deep_view() == all.take(it.index() as int).filter_map(release),
    {
        let ghost before = out.deep_view();
        proof {
            all.lemma_filter_map_take_succ(release, it.index() as int);
            assert(all[it.index() as int] == record.deep_view());
        }
        match record {
            Some(raw) => {
                match Version::from_raw_value(raw) {
                    Ok(version) => {
                        out.push(version);
                        proof {
                            assert(out.deep_view() =~= before + seq![version@]);
                        }
                    },
                    Err(_) => {},
                }
            },
            None => {},
        }
        proof {
            assert(before + Seq::<VersionView>::empty() =~= before);
        }
    }
    proof {
        assert(all.take(all.len() as int) =~= all);
    }
    out
}

/// Puts a list of releases in ascending order. Releases with the same
/// three numbers keep their order.
pub fn sort_releases(list: Vec<Version>) -> (r: Vec<Version>)
    ensures
        r.deep_view() == sorted_releases(list.deep_view()),
{
    let ghost all = list.deep_view();
    let ghost items = list@;
    let mut out: Vec<Version> = Vec::new();
    proof {
        assert(out.deep_view() =~= sorted_releases(all.take(0)));
    }
    for v in it: list
        invariant
            it.seq() == items,
            all.len() == items.len(),
            forall|j: int| 0 <= j < items.len() ==> all[j] == (#[trigger] items[j]).deep_view(),
            out.deep_view() == sorted_releases(all.take(it.index() as int)),
    {
        let ghost before = out.deep_view();
        let mut at: usize = out.len();
        while at > 0 && v.comes_before(&out[at - 1])
            invariant
                at <= out.len(),
                before == out.deep_view(),
                forall|j: int| at <= j < out.len() ==> precedes(v@, #[trigger] before[j]),
            decreases at,
        {
            at = at - 1;
        }
        proof {
            lemma_inserted_at(before, v@, at as int);
            let longer = all.take(it.index() + 1);
            assert(longer.drop_last() =~= all.take(it.index() as int));
            assert(longer.last() == v@);
        }
        out.insert(at, v);
        proof {
            assert(out.deep_view() =~= before.insert(at as int, v@));
        }
    }
    proof {
        assert(all.take(all.len() as int) =~= all);
    }
    out
}

/// The releases of a catalog that can be installed on a platform, oldest
/// first.
pub fn list_installable(catalog: Vec<Version>, def: &SupportedDefinition) -> (r: Vec<Version>)
    ensures
        r.deep_view() == installable_releases(catalog.deep_view(), def@),
{
    let ghost all = catalog.deep_view();
    let ghost items = catalog@;
    let ghost wanted = |v: VersionView| installable(v, def@);
    let mut kept: Vec<Version> = Vec::new();
    proof {
        reveal(Seq::filter);
        assert(kept.deep_view() =~= all.take(0).filter(wanted));
    }
    for v in it: catalog
        invariant
            it.seq() == items,
            all.len() == items.len(),
            forall|j: int| 0 <= j < items.len() ==> all[j] == (#[trigger] items[j]).deep_view(),
            wanted == |v: VersionView| installable(v, def@),
            kept.deep_view() == all.take(it.index() as int).filter(wanted),
    {
        let ghost before = kept.deep_view();
        proof {
            let seen = all.take(it.index() as int);
            assert(all.take(it.index() + 1) =~= seen.push(v@));
            seen.lemma_filter_push(v@, wanted);
        }
        if v.is_installable(def) {
            kept.push(v);
            proof {
                assert(kept.deep_view() =~= before.push(v@));
            }
        }
    }
    proof {
        assert(all.take(all.len() as int) =~= all);
    }
    sort_releases(kept)
}

/// The listing of remote releases for a list of releases.
pub fn render_remote(list: &Vec<Version>) -> (r: String)
    ensures
        r@ == remote_listing(list.deep_view()),
{
    let ghost line = |v: VersionView| remote_line(v);
    let mut lines: Vec<String> = Vec::new();
    let mut i: usize = 0;
    while i < list.len()
        invariant
            i <= list.len(),
            line == |v: VersionView| remote_line(v),
            lines.deep_view() == list.deep_view().take(i as int).map_values(line),
        decreases list.len() - i,
    {
        let ghost before = lines.deep_view();
        let mut text = "[cmvm] ".to_owned();
        let tag = list[i].get_tag_name();
        text.append(tag.as_str());
        lines.push(text);
        proof {
            assert(lines.deep_view() =~= before.push(remote_line(list[i as int]@)));
            assert(list.deep_view().take(i + 1).map_values(line) =~= before.push(
                remote_line(list[i as int]@),
            ));
        }
        i = i + 1;
    }
    proof {
        assert(list.deep_view().take(list.len() as int) =~= list.deep_view());
    }
    join(&lines, "\n")
}

/// An entry of the versions directory.
#[derive(Debug, Clone, PartialEq, Eq)]
pub struct InstalledEntry {
    /// The whole path of the entry.
    pub path: String,
    /// The last name of the path, where it has one.
    pub name: Option<String>,
    /// Whether the entry is a directory.
    pub is_dir: bool,
}

/// The mathematical content of an [`InstalledEntry`].
pub ghost struct InstalledEntryView {
    pub path: Seq<char>,
    pub name: Option<Seq<char>>,
    pub is_dir: bool,
}

impl DeepView for InstalledEntry {
    type V = InstalledEntryView;

    open spec fn deep_view(&self) -> InstalledEntryView {
        InstalledEntryView {
            path: self.path@,
            name: self.name.deep_view(),
            is_dir: self.is_dir,
        }
    }
}

impl View for InstalledEntry {
    type V = InstalledEntryView;

    open spec fn view(&self) -> InstalledEntryView {
        self.deep_view()
    }
}

/// The line that the listing of installed versions shows for an entry: a
/// star marks the entry that the current pointer names. Only a directory
/// with a name gets a line.
pub open spec fn installed_line(entry: InstalledEntryView, current: Option<Seq<char>>) -> Option<
    Seq<char>,
> {
    match entry.name {
        Some(name) => if entry.is_dir {
            Some(
                "[cmvm] "@ + (if current == Some(entry.path) {
                    "*"@
                } else {
                    " "@
                }) + " "@ + name,
            )
        } else {
            None
        },
        None => None,
    }
}

/// The listing of installed versions: the lines of the entries, in the
/// order of the entries.
pub open spec fn installed_listing(
    entries: Seq<InstalledEntryView>,
    current: Option<Seq<char>>,
) -> Seq<char> {
    joined(entries.filter_map(|entry: InstalledEntryView| installed_line(entry, current)), "\n"@)
}

impl Version {
    /// The listing of the installed versions, given the entries of the
    /// versions directory and the path that the current pointer names, if
    /// it names one.
    pub fn list(entries: &Vec<InstalledEntry>, current: &Option<String>) -> (r: String)
        ensures
            r@ == installed_listing(entries.deep_view(), current.deep_view()),
    {
        let ghost line = |entry: InstalledEntryView| installed_line(entry, current.deep_view());
        let ghost all = entries.deep_view();
        let mut lines: Vec<String> = Vec::new();
        let mut i: usize = 0;
        proof {
            assert(all.take(0) =~= Seq::<InstalledEntryView>::empty());
            assert(lines.deep_view() =~= all.take(0).filter_map(line));
        }
        while i < entries.len()
            invariant
                i <= entries.len(),
                all == entries.deep_view(),
                line == |entry: InstalledEntryView| installed_line(entry, current.deep_view()),
                lines.deep_view() == all.take(i as int).filter_map(line),
            decreases entries.len() - i,
        {
            let entry = &entries[i];
            let ghost before = lines.deep_view();
            proof {
                all.lemma_filter_map_take_succ(line, i as int);
                assert(all[i as int] == entry@);
                assert(before + Seq::<Seq<char>>::empty() =~= before);
            }
            if entry.is_dir {
                match &entry.name {
                    Some(name) => {
                        let marked = match current {
                            Some(path) => *path == entry.path,
                            None => false,
                        };
                        let mut text = "[cmvm] ".to_owned();
                        if marked {
                            text.append("*");
                        } else {
                            text.append(" ");
                        }
                        text.append(" ");
                        text.append(name.as_str());
                        lines.push(text);
                        proof {
                            assert(marked == (current.deep_view() == Some(entry@.path)));
                            assert(lines.deep_view() =~= before + seq![text@]);
                        }
                    },
                    None => {},
                }
            }
            i = i + 1;
        }
        proof {
            assert(all.take(all.len() as int) =~= all);
        }
        join(&lines, "\n")
    }
}

} // verus!
