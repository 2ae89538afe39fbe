//! Installing a release: which asset fits the platform, and the steps that
//! bring it from the feed into the versions directory.

use crate::error::ErrorKind;
use crate::platform::{SupportedDefinition, SupportedDefinitionView};
use crate::storage::{Location, LocationView, Root};
use crate::text::{contains, contains_text, remove_all, without};
use crate::versions::{normalized_tag, Asset, AssetView, Version, VersionView};
use vstd::prelude::*;

verus! {

/// Whether the definition accepts content of that type.
pub open spec fn content_type_accepted(content_type: Seq<char>, def: SupportedDefinitionView) -> bool {
    def.content_types.contains(content_type)
}

/// Whether the file name holds at least one of the fragments that the
/// definition asks for.
pub open spec fn name_accepted(name: Seq<char>, def: SupportedDefinitionView) -> bool {
    exists|k: int| 0 <= k < def.name_contains.len() && contains_text(name, #[trigger] def.name_contains[k])
}

/// Whether an asset is for the platform: its content type is accepted and
/// so is its file name.
pub open spec fn asset_matches(asset: AssetView, def: SupportedDefinitionView) -> bool {
    content_type_accepted(asset.content_type, def) && name_accepted(asset.name, def)
}

/// The assets that are for the platform, in their order.
pub open spec fn platform_assets(assets: Seq<AssetView>, def: SupportedDefinitionView) -> Seq<
    AssetView,
> {
    assets.filter(|asset: AssetView| asset_matches(asset, def))
}

/// Tests whether the definition accepts the asset's content type.
pub fn accepts_content_type(asset: &Asset, def: &SupportedDefinition) -> (r: bool)
    ensures
        r == content_type_accepted(asset@.content_type, def@),
{
    let mut k: usize = 0;
    while k < def.content_types.len()
        invariant
            k <= def.content_types.len(),
            forall|j: int| 0 <= j < k ==> def@.content_types[j] != asset@.content_type,
        decreases def.content_types.len() - k,
    {
        if def.content_types[k] == asset.content_type {
            proof {
                assert(def@.content_types[k as int] == asset@.content_type);
            }
            return true;
        }
        k = k + 1;
    }
    false
}

/// Tests whether the asset's file name holds one of the fragments that the
/// definition asks for.
pub fn accepts_name(asset: &Asset, def: &SupportedDefinition) -> (r: bool)
    ensures
        r == name_accepted(asset@.name, def@),
{
    let mut k: usize = 0;
    while k < def.name_contains.len()
        invariant
            k <= def.name_contains.len(),
            forall|j: int|
                0 <= j < k ==> !contains_text(asset@.name, #[trigger] def@.name_contains[j]),
        decreases def.name_contains.len() - k,
    {
        if contains(asset.name.as_str(), def.name_contains[k].as_str()) {
            proof {
                assert(contains_text(asset@.name, def@.name_contains[k as int]));
            }
            return true;
        }
        k = k + 1;
    }
    false
}

/// Tests whether an asset is for the platform.
pub fn asset_is_compatible(asset: &Asset, def: &SupportedDefinition) -> (r: bool)
    ensures
        r == asset_matches(asset@, def@),
{
    accepts_content_type(asset, def) && accepts_name(asset, def)
}

/// The assets of a release that are for the platform, in their order.
pub fn filter_platform_assets<'a>(version: &'a Version, def: &SupportedDefinition) -> (r: Vec<
    &'a Asset,
>)
    ensures
        r.deep_view() == platform_assets(version@.assets, def@),
{
    let ghost matches = |asset: AssetView| asset_matches(asset, def@);
    let mut out: Vec<&'a Asset> = Vec::new();
    let mut i: usize = 0;
    proof {
        assert(version@.assets.take(0) =~= Seq::<AssetView>::empty());
        reveal(Seq::filter);
        assert(out.deep_view() =~= version@.assets.take(0).filter(matches));
    }
    while i < version.assets.len()
        invariant
            i <= version.assets.len(),
            matches == |asset: AssetView| asset_matches(asset, def@),
            out.deep_view() == version@.assets.take(i as int).filter(matches),
        decreases version.assets.len() - i,
    {
        let asset = &version.assets[i];
        let ghost before = out.deep_view();
        proof {
            let seen = version@.assets.take(i as int);
            assert(version@.assets.take(i + 1) =~= seen.push(asset@));
            seen.lemma_filter_push(asset@, matches);
        }
        if asset_is_compatible(asset, def) {
            out.push(asset);
            proof {
                assert(out.deep_view() =~= before.push(asset@));
            }
        }
        i = i + 1;
    }
    proof {
        assert(version@.assets.take(version.assets.len() as int) =~= version@.assets);
    }
    out
}

/// An asset counts for the platform only where both its content type and
/// its file name are accepted: one that fails either test is in no
/// selection, whatever the other test says.
pub proof fn lemma_both_predicates_required(
    assets: Seq<AssetView>,
    def: SupportedDefinitionView,
    asset: AssetView,
)
    requires
        !content_type_accepted(asset.content_type, def) || !name_accepted(asset.name, def),
    ensures
        !platform_assets(assets, def).contains(asset),
{
    let matches = |a: AssetView| asset_matches(a, def);
    if assets.filter(matches).contains(asset) {
        let i = choose|i: int| 0 <= i < assets.filter(matches).len() && assets.filter(matches)[i] == asset;
        assets.lemma_filter_pred(matches, i);
    }
}

/// Every asset of the release that passes both tests is selected.
pub proof fn lemma_matching_asset_selected(
    assets: Seq<AssetView>,
    def: SupportedDefinitionView,
    i: int,
)
    requires
        0 <= i < assets.len(),
        asset_matches(assets[i], def),
    ensures
        platform_assets(assets, def).contains(assets[i]),
{
    let matches = |a: AssetView| asset_matches(a, def);
    assets.lemma_filter_contains(matches, i);
}

/// The states of an installation, in the order in which it passes them.
#[derive(Clone, Copy, Debug, PartialEq, Eq, Structural)]
pub enum InstallState {
    Selecting,
    Downloading,
    Extracting,
    Installing,
    CleaningUp,
    Done,
    Failed,
}

/// One of the four directory trees that make up an installed version.
#[derive(Clone, Copy, Debug, PartialEq, Eq, Structural)]
pub enum Tree {
    Bin,
    Doc,
    Man,
    Share,
}

/// A place that the installation of one version works with.
#[derive(Clone, Copy, Debug, PartialEq, Eq, Structural)]
pub enum Place {
    /// The directory of the version in the cache.
    Scratch,
    /// The downloaded archive in the scratch directory.
    Archive,
    /// The directory inside the unpacked archive under which an
    /// application bundle holds the trees.
    Bundle,
    /// A tree of the unpacked archive: under the bundle directory where
    /// `nested` is set, directly under the unpacked root where it is not.
    Source { nested: bool, tree: Tree },
    /// The directory of the version under the versions directory.
    Installed,
}

/// What the caller does next for an installation.
#[derive(Clone, Copy, Debug, PartialEq, Eq, Structural)]
pub enum Action {
    /// Tell whether the place exists.
    Probe(Place),
    /// Delete the place with all that is in it.
    Remove(Place),
    /// Create the directory.
    CreateDir(Place),
    /// Download the asset into the archive's place.
    Download,
    /// Decompress and unpack the archive into the scratch directory.
    Unpack,
    /// Copy the tree at `from` into the directory `into`.
    Copy { from: Place, into: Place },
    /// Nothing: the version is installed.
    Finish,
    /// Nothing: the installation has failed.
    Abort(ErrorKind),
}

/// How the action that was asked for ended.
#[derive(Clone, Copy, Debug, PartialEq, Eq, Structural)]
pub enum Outcome {
    /// The answer to a probe.
    Found(bool),
    /// The action was carried out.
    Succeeded,
    /// The action could not be carried out.
    Failed,
}

/// Where an installation stands: the action that it waits for.
#[derive(Clone, Copy, Debug, PartialEq, Eq, Structural)]
pub enum Step {
    ProbeScratch,
    ClearScratch,
    CreateScratch,
    Fetch,
    Unpack,
    ProbeBundle,
    ProbeInstalled { nested: bool },
    ClearInstalled { nested: bool },
    CreateInstalled { nested: bool },
    ProbeTree { nested: bool, tree: Tree },
    CopyTree { nested: bool, tree: Tree },
    Clean,
    /// The version is installed. `left_over` tells that the scratch
    /// directory could not be deleted, which harms no later installation.
    Done { left_over: bool },
    Failed(ErrorKind),
}

/// The state that a step belongs to.
pub open spec fn phase(step: Step) -> InstallState {
    match step {
        Step::ProbeScratch | Step::ClearScratch | Step::CreateScratch | Step::Fetch => InstallState::Downloading,
        Step::Unpack => InstallState::Extracting,
        Step::ProbeBundle
        | Step::ProbeInstalled { .. }
        | Step::ClearInstalled { .. }
        | Step::CreateInstalled { .. }
        | Step::ProbeTree { .. }
        | Step::CopyTree { .. } => InstallState::Installing,
        Step::Clean => InstallState::CleaningUp,
        Step::Done { .. } => InstallState::Done,
        Step::Failed(_) => InstallState::Failed,
    }
}

/// The action that a step waits for.
pub open spec fn pending(step: Step) -> Action {
    match step {
        Step::ProbeScratch => Action::Probe(Place::Scratch),
        Step::ClearScratch => Action::Remove(Place::Scratch),
        Step::CreateScratch => Action::CreateDir(Place::Scratch),
        Step::Fetch => Action::Download,
        Step::Unpack => Action::Unpack,
        Step::ProbeBundle => Action::Probe(Place::Bundle),
        Step::ProbeInstalled { nested } => Action::Probe(Place::Installed),
        Step::ClearInstalled { nested } => Action::Remove(Place::Installed),
        Step::CreateInstalled { nested } => Action::CreateDir(Place::Installed),
        Step::ProbeTree { nested, tree } => Action::Probe(Place::Source { nested, tree }),
        Step::CopyTree { nested, tree } => Action::Copy {
            from: Place::Source { nested, tree },
            into: Place::Installed,
        },
        Step::Clean => Action::Remove(Place::Scratch),
        Step::Done { left_over } => Action::Finish,
        Step::Failed(kind) => Action::Abort(kind),
    }
}

/// The step that follows the handling of one tree: the next tree, and after
/// the last one the cleaning.
pub open spec fn after_tree(nested: bool, tree: Tree) -> Step {
    match tree {
        Tree::Bin => Step::ProbeTree { nested, tree: Tree::Doc },
        Tree::Doc => Step::ProbeTree { nested, tree: Tree::Man },
        Tree::Man => Step::ProbeTree { nested, tree: Tree::Share },
        Tree::Share => Step::Clean,
    }
}

/// The step that follows where the pending action was carried out.
pub open spec fn succeeded(step: Step) -> Step {
    match step {
        Step::ClearScratch => Step::CreateScratch,
        Step::CreateScratch => Step::Fetch,
        Step::Fetch => Step::Unpack,
        Step::Unpack => Step::ProbeBundle,
        Step::ClearInstalled { nested } => Step::CreateInstalled { nested },
        Step::CreateInstalled { nested } => Step::ProbeTree { nested, tree: Tree::Bin },
        Step::CopyTree { nested, tree } => after_tree(nested, tree),
        Step::Clean => Step::Done { left_over: false },
        Step::Done { left_over } => step,
        Step::Failed(kind) => step,
        // a probe wants an answer
        _ => Step::Failed(ErrorKind::IoFailure),
    }
}

/// The step that follows the answer to a probe.
pub open spec fn answered(step: Step, found: bool) -> Step {
    match step {
        Step::ProbeScratch => if found {
            Step::ClearScratch
        } else {
            Step::CreateScratch
        },
        Step::ProbeBundle => Step::ProbeInstalled { nested: found },
        Step::ProbeInstalled { nested } => if found {
            Step::ClearInstalled { nested }
        } else {
            Step::CreateInstalled { nested }
        },
        Step::ProbeTree { nested, tree } => if found {
            Step::CopyTree { nested, tree }
        } else {
            after_tree(nested, tree)
        },
        // the scratch directory may still be there
        Step::Clean => Step::Done { left_over: true },
        Step::Done { left_over } => step,
        Step::Failed(kind) => step,
        // no answer was asked for
        _ => Step::Failed(ErrorKind::IoFailure),
    }
}

/// The step that follows where the pending action could not be carried
/// out. A download that fails is a failure of the network, a cleaning that
/// fails is none at all, and every other one is a failure of the file
/// system.
pub open spec fn failed(step: Step) -> Step {
    match step {
        Step::Fetch => Step::Failed(ErrorKind::NetworkFailure),
        Step::Clean => Step::Done { left_over: true },
        Step::Done { left_over } => step,
        Step::Failed(kind) => step,
        _ => Step::Failed(ErrorKind::IoFailure),
    }
}

/// The step that follows a step, given how its action ended.
pub open spec fn advance(step: Step, outcome: Outcome) -> Step {
    match outcome {
        Outcome::Found(found) => answered(step, found),
        Outcome::Succeeded => succeeded(step),
        Outcome::Failed => failed(step),
    }
}

/// The name of a tree's directory.
pub open spec fn tree_name(tree: Tree) -> Seq<char> {
    match tree {
        Tree::Bin => "bin"@,
        Tree::Doc => "doc"@,
        Tree::Man => "man"@,
        Tree::Share => "share"@,
    }
}

/// The name of the directory that the archive unpacks to: the asset's file
/// name without `.tar.gz`.
pub open spec fn unpacked_name(asset_name: Seq<char>) -> Seq<char> {
    without(asset_name, ".tar.gz"@)
}

/// Where a place of the installation of the version `tag` from the asset
/// `asset_name` lies.
pub open spec fn place_location(tag: Seq<char>, asset_name: Seq<char>, place: Place) -> LocationView {
    match place {
        Place::Scratch => LocationView { root: Root::Cache, parts: seq![tag] },
        Place::Archive => LocationView { root: Root::Cache, parts: seq![tag, asset_name] },
        Place::Bundle => LocationView {
            root: Root::Cache,
            parts: seq![tag, unpacked_name(asset_name), "CMake.app"@, "Contents"@],
        },
        Place::Source { nested, tree } => if nested {
            LocationView {
                root: Root::Cache,
                parts: seq![
                    tag,
                    unpacked_name(asset_name),
                    "CMake.app"@,
                    "Contents"@,
                    tree_name(tree),
                ],
            }
        } else {
            LocationView {
                root: Root::Cache,
                parts: seq![tag, unpacked_name(asset_name), tree_name(tree)],
            }
        },
        Place::Installed => LocationView { root: Root::Versions, parts: seq![tag] },
    }
}

/// The installation of one version from one asset.
#[derive(Debug, Clone)]
pub struct Installer {
    pub tag: String,
    pub asset: Asset,
    pub step: Step,
}

/// The mathematical content of an [`Installer`].
pub ghost struct InstallerView {
    pub tag: Seq<char>,
    pub asset: AssetView,
    pub step: Step,
}

impl DeepView for Installer {
    type V = InstallerView;

    open spec fn deep_view(&self) -> InstallerView {
        InstallerView { tag: self.tag@, asset: self.asset@, step: self.step }
    }
}

impl View for Installer {
    type V = InstallerView;

    open spec fn view(&self) -> InstallerView {
        self.deep_view()
    }
}

/// The installation that a release starts with on a platform: of the first
/// asset that is for the platform, under the release's normalized tag, at
/// the first step of the download. `None` where no asset is for the
/// platform.
pub open spec fn selected(version: VersionView, def: SupportedDefinitionView) -> Option<InstallerView> {
    if platform_assets(version.assets, def).len() > 0 {
        Some(
            InstallerView {
                tag: normalized_tag(version.tag_name),
                asset: platform_assets(version.assets, def)[0],
                step: Step::ProbeScratch,
            },
        )
    } else {
        None
    }
}

/// Selects the asset of a release for the platform and sets up its
/// installation. Where no asset is for the platform the installation
/// fails before anything is fetched.
pub fn get_cmake_release(version: &Version, def: &SupportedDefinition) -> (r: Result<
    Installer,
    ErrorKind,
>)
    ensures
        match r {
            Ok(installer) => selected(version@, def@) == Some(installer@),
            Err(kind) => selected(version@, def@) is None && kind == ErrorKind::PlatformUnsupported,
        },
{
    let assets = filter_platform_assets(version, def);
    if assets.len() == 0 {
        return Err(ErrorKind::PlatformUnsupported);
    }
    proof {
        assert(assets.deep_view()[0] == assets@[0]@);
    }
    Ok(Installer { tag: version.get_tag_name(), asset: assets[0].duplicate(), step: Step::ProbeScratch })
}

/// The name of a tree's directory.
pub fn tree_directory(tree: Tree) -> (r: String)
    ensures
        r@ == tree_name(tree),
{
    match tree {
        Tree::Bin => "bin".to_owned(),
        Tree::Doc => "doc".to_owned(),
        Tree::Man => "man".to_owned(),
        Tree::Share => "share".to_owned(),
    }
}

/// The action that a step waits for.
pub fn action_of(step: Step) -> (r: Action)
    ensures
        r == pending(step),
{
    match step {
        Step::ProbeScratch => Action::Probe(Place::Scratch),
        Step::ClearScratch => Action::Remove(Place::Scratch),
        Step::CreateScratch => Action::CreateDir(Place::Scratch),
        Step::Fetch => Action::Download,
        Step::Unpack => Action::Unpack,
        Step::ProbeBundle => Action::Probe(Place::Bundle),
        Step::ProbeInstalled { nested } => Action::Probe(Place::Installed),
        Step::ClearInstalled { nested } => Action::Remove(Place::Installed),
        Step::CreateInstalled { nested } => Action::CreateDir(Place::Installed),
        Step::ProbeTree { nested, tree } => Action::Probe(Place::Source { nested, tree }),
        Step::CopyTree { nested, tree } => Action::Copy {
            from: Place::Source { nested, tree },
            into: Place::Installed,
        },
        Step::Clean => Action::Remove(Place::Scratch),
        Step::Done { left_over } => Action::Finish,
        Step::Failed(kind) => Action::Abort(kind),
    }
}

/// The step that follows the handling of one tree.
fn next_tree(nested: bool, tree: Tree) -> (r: Step)
    ensures
        r == after_tree(nested, tree),
{
    match tree {
        Tree::Bin => Step::ProbeTree { nested, tree: Tree::Doc },
        Tree::Doc => Step::ProbeTree { nested, tree: Tree::Man },
        Tree::Man => Step::ProbeTree { nested, tree: Tree::Share },
        Tree::Share => Step::Clean,
    }
}

/// The step that follows a step, given how its action ended.
pub fn next_step(step: Step, outcome: Outcome) -> (r: Step)
    ensures
        r == advance(step, outcome),
{
    match step {
        Step::Done { left_over } => step,
        Step::Failed(kind) => step,
        Step::Clean => match outcome {
            Outcome::Succeeded => Step::Done { left_over: false },
            _ => Step::Done { left_over: true },
        },
        Step::ProbeScratch => match outcome {
            Outcome::Found(true) => Step::ClearScratch,
            Outcome::Found(false) => Step::CreateScratch,
            _ => Step::Failed(ErrorKind::IoFailure),
        },
        Step::ProbeBundle => match outcome {
            Outcome::Found(found) => Step::ProbeInstalled { nested: found },
            _ => Step::Failed(ErrorKind::IoFailure),
        },
        Step::ProbeInstalled { nested } => match outcome {
            Outcome::Found(true) => Step::ClearInstalled { nested },
            Outcome::Found(false) => Step::CreateInstalled { nested },
            _ => Step::Failed(ErrorKind::IoFailure),
        },
        Step::ProbeTree { nested, tree } => match outcome {
            Outcome::Found(true) => Step::CopyTree { nested, tree },
            Outcome::Found(false) => next_tree(nested, tree),
            _ => Step::Failed(ErrorKind::IoFailure),
        },
        Step::Fetch => match outcome {
            Outcome::Succeeded => Step::Unpack,
            Outcome::Failed => Step::Failed(ErrorKind::NetworkFailure),
            Outcome::Found(_) => Step::Failed(ErrorKind::IoFailure),
        },
        _ => match outcome {
            Outcome::Succeeded => match step {
                Step::ClearScratch => Step::CreateScratch,
                Step::CreateScratch => Step::Fetch,
                Step::Unpack => Step::ProbeBundle,
                Step::ClearInstalled { nested } => Step::CreateInstalled { nested },
                Step::CreateInstalled { nested } => Step::ProbeTree { nested, tree: Tree::Bin },
                Step::CopyTree { nested, tree } => next_tree(nested, tree),
                _ => Step::Failed(ErrorKind::IoFailure),
            },
            _ => Step::Failed(ErrorKind::IoFailure),
        },
    }
}

impl Installer {
    /// The state of the installation.
    pub fn state(&self) -> (r: InstallState)
        ensures
            r == phase(self.step),
    {
        match self.step {
            Step::ProbeScratch | Step::ClearScratch | Step::CreateScratch | Step::Fetch => InstallState::Downloading,
            Step::Unpack => InstallState::Extracting,
            Step::Clean => InstallState::CleaningUp,
            Step::Done { .. } => InstallState::Done,
            Step::Failed(_) => InstallState::Failed,
            _ => InstallState::Installing,
        }
    }

    /// The action that the installation waits for.
    pub fn action(&self) -> (r: Action)
        ensures
            r == pending(self.step),
    {
        action_of(self.step)
    }

    /// Takes in how the pending action ended, and tells the next action.
    /// The version and the asset stay as they are.
    pub fn step(&mut self, outcome: Outcome) -> (r: Action)
        ensures
            final(self).step == advance(old(self).step, outcome),
            final(self).tag == old(self).tag,
            final(self).asset == old(self).asset,
            r == pending(final(self).step),
    {
        self.step = next_step(self.step, outcome);
        action_of(self.step)
    }

    /// Where a place of this installation lies.
    pub fn locate(&self, place: Place) -> (r: Location)
        ensures
            r@ == place_location(self.tag@, self.asset@.name, place),
    {
        let mut parts: Vec<String> = Vec::new();
        parts.push(self.tag.clone());
        let root = match place {
            Place::Installed => Root::Versions,
            _ => Root::Cache,
        };
        match place {
            Place::Scratch => {},
            Place::Installed => {},
            Place::Archive => {
                parts.push(self.asset.name.clone());
            },
            Place::Bundle => {
                parts.push(remove_all(self.asset.name.as_str(), ".tar.gz"));
                parts.push("CMake.app".to_owned());
                parts.push("Contents".to_owned());
            },
            Place::Source { nested, tree } => {
                parts.push(remove_all(self.asset.name.as_str(), ".tar.gz"));
                if nested {
                    parts.push("CMake.app".to_owned());
                    parts.push("Contents".to_owned());
                }
                parts.push(tree_directory(tree));
            },
        }
        let r = Location { root, parts };
        proof {
            assert(r@.parts =~= place_location(self.tag@, self.asset@.name, place).parts);
        }
        r
    }
}

/// The place of a state in the order of the states.
pub open spec fn phase_rank(state: InstallState) -> int {
    match state {
        InstallState::Selecting => 0,
        InstallState::Downloading => 1,
        InstallState::Extracting => 2,
        InstallState::Installing => 3,
        InstallState::CleaningUp => 4,
        InstallState::Done => 5,
        InstallState::Failed => 6,
    }
}

/// Whether a step is one of the two ends of an installation.
pub open spec fn is_terminal(step: Step) -> bool {
    step is Done || step is Failed
}

/// How many actions an installation asks for at most from a step on.
pub open spec fn steps_left(step: Step) -> nat {
    match step {
        Step::ProbeScratch => 18,
        Step::ClearScratch => 17,
        Step::CreateScratch => 16,
        Step::Fetch => 15,
        Step::Unpack => 14,
        Step::ProbeBundle => 13,
        Step::ProbeInstalled { nested } => 12,
        Step::ClearInstalled { nested } => 11,
        Step::CreateInstalled { nested } => 10,
        Step::ProbeTree { nested, tree: Tree::Bin } => 9,
        Step::CopyTree { nested, tree: Tree::Bin } => 8,
        Step::ProbeTree { nested, tree: Tree::Doc } => 7,
        Step::CopyTree { nested, tree: Tree::Doc } => 6,
        Step::ProbeTree { nested, tree: Tree::Man } => 5,
        Step::CopyTree { nested, tree: Tree::Man } => 4,
        Step::ProbeTree { nested, tree: Tree::Share } => 3,
        Step::CopyTree { nested, tree: Tree::Share } => 2,
        Step::Clean => 1,
        Step::Done { left_over } => 0,
        Step::Failed(kind) => 0,
    }
}

/// An installation that is done or has failed stays so, whatever comes.
pub proof fn lemma_ends_are_absorbing(step: Step, outcome: Outcome)
    requires
        is_terminal(step),
    ensures
        advance(step, outcome) == step,
{
}

/// An installation never goes back to an earlier state.
pub proof fn lemma_states_in_order(step: Step, outcome: Outcome)
    ensures
        phase_rank(phase(step)) <= phase_rank(phase(advance(step, outcome))),
{
}

/// Every event brings an installation that is under way nearer to its end:
/// it asks for 18 actions at most.
pub proof fn lemma_installation_ends(step: Step, outcome: Outcome)
    requires
        !is_terminal(step),
    ensures
        steps_left(advance(step, outcome)) < steps_left(step),
        steps_left(step) <= 18,
{
}

/// An action that cannot be carried out makes the installation fail at
/// once, with one exception: a cleaning that fails leaves the version
/// installed.
pub proof fn lemma_failure_surfaces(step: Step)
    requires
        !is_terminal(step),
    ensures
        step != Step::Clean ==> advance(step, Outcome::Failed) is Failed,
        step == Step::Clean ==> advance(step, Outcome::Failed) == (Step::Done { left_over: true }),
        step == Step::Fetch ==> advance(step, Outcome::Failed) == Step::Failed(
            ErrorKind::NetworkFailure,
        ),
{
}

/// Only the download step asks for a download, and it belongs to the state
/// `Downloading`: an installation that was never set up fetches nothing.
pub proof fn lemma_download_only_when_downloading(step: Step)
    ensures
        pending(step) == Action::Download <==> step == Step::Fetch,
        step == Step::Fetch ==> phase(step) == InstallState::Downloading,
{
}

/// Which of the four trees a directory holds.
pub ghost struct Trees {
    pub bin: bool,
    pub doc: bool,
    pub man: bool,
    pub share: bool,
}

/// What the archive of an asset unpacks to: its trees, and whether they lie
/// under a bundle directory.
pub ghost struct Payload {
    pub nested: bool,
    pub trees: Trees,
}

/// The part of the disk that an installation touches: whether the scratch
/// directory is there, whether the archive has been unpacked into it, and
/// the trees of the installed version where its directory is there.
pub ghost struct Disk {
    pub scratch: bool,
    pub unpacked: bool,
    pub installed: Option<Trees>,
}

/// Whether the trees hold a tree.
pub open spec fn has_tree(trees: Trees, tree: Tree) -> bool {
    match tree {
        Tree::Bin => trees.bin,
        Tree::Doc => trees.doc,
        Tree::Man => trees.man,
        Tree::Share => trees.share,
    }
}

/// The trees with one more tree.
pub open spec fn with_tree(trees: Trees, tree: Tree) -> Trees {
    match tree {
        Tree::Bin => Trees { bin: true, ..trees },
        Tree::Doc => Trees { doc: true, ..trees },
        Tree::Man => Trees { man: true, ..trees },
        Tree::Share => Trees { share: true, ..trees },
    }
}

/// No tree at all.
pub open spec fn no_trees() -> Trees {
    Trees { bin: false, doc: false, man: false, share: false }
}

/// Whether a place exists on the disk, for an archive that unpacks to the
/// payload.
pub open spec fn exists_on(disk: Disk, payload: Payload, place: Place) -> bool {
    match place {
        Place::Scratch => disk.scratch,
        Place::Archive => disk.scratch,
        Place::Bundle => disk.unpacked && payload.nested,
        Place::Source { nested, tree } => disk.unpacked && nested == payload.nested && has_tree(
            payload.trees,
            tree,
        ),
        Place::Installed => disk.installed is Some,
    }
}

/// How an action ends on a disk that carries out whatever it is asked.
pub open spec fn carried_out(disk: Disk, payload: Payload, action: Action) -> Outcome {
    match action {
        Action::Probe(place) => Outcome::Found(exists_on(disk, payload, place)),
        _ => Outcome::Succeeded,
    }
}

/// The disk after an action was carried out on it.
pub open spec fn disk_after(disk: Disk, payload: Payload, action: Action) -> Disk {
    match action {
        Action::Remove(Place::Scratch) => Disk { scratch: false, unpacked: false, ..disk },
        Action::Remove(Place::Installed) => Disk { installed: None, ..disk },
        Action::CreateDir(Place::Scratch) => Disk { scratch: true, ..disk },
        Action::CreateDir(Place::Installed) => Disk { installed: Some(no_trees()), ..disk },
        Action::Unpack => Disk { unpacked: true, ..disk },
        Action::Copy { from: Place::Source { nested, tree }, into: Place::Installed } => match disk.installed {
            Some(trees) => Disk { installed: Some(with_tree(trees, tree)), ..disk },
            None => disk,
        },
        _ => disk,
    }
}

/// Where an installation and the disk stand after at most `fuel` actions,
/// each carried out as asked.
pub open spec fn run(step: Step, disk: Disk, payload: Payload, fuel: nat) -> (Step, Disk)
    decreases fuel,
{
    if fuel == 0 || is_terminal(step) {
        (step, disk)
    } else {
        run(
            advance(step, carried_out(disk, payload, pending(step))),
            disk_after(disk, payload, pending(step)),
            payload,
            (fuel - 1) as nat,
        )
    }
}

/// The disk that an installation leaves behind: no scratch directory, and
/// the installed version with the trees of the payload.
pub open spec fn installed_disk(payload: Payload) -> Disk {
    Disk { scratch: false, unpacked: false, installed: Some(payload.trees) }
}

/// Installing is idempotent. Whatever the disk holds before, be it nothing,
/// a stale scratch directory or the version itself from an earlier
/// installation, an installation whose actions are carried out ends done,
/// and leaves the version with exactly the trees of the payload and no
/// scratch directory. So a second installation of the same asset leaves
/// what the first one left.
pub proof fn lemma_install_is_idempotent(disk: Disk, payload: Payload)
    ensures
        run(Step::ProbeScratch, disk, payload, 18) == (
            Step::Done { left_over: false },
            installed_disk(payload),
        ),
        run(Step::ProbeScratch, installed_disk(payload), payload, 18) == run(
            Step::ProbeScratch,
            disk,
            payload,
            18,
        ),
{
    lemma_run_from_start(disk, payload);
    lemma_run_from_start(installed_disk(payload), payload);
}

/// More fuel than an installation needs changes nothing.
proof fn lemma_run_enough(step: Step, disk: Disk, payload: Payload, fuel: nat)
    requires
        fuel >= steps_left(step),
    ensures
        run(step, disk, payload, fuel) == run(step, disk, payload, steps_left(step)),
    decreases fuel,
{
    if !is_terminal(step) && fuel > 0 {
        let next = advance(step, carried_out(disk, payload, pending(step)));
        let after = disk_after(disk, payload, pending(step));
        lemma_run_enough(next, after, payload, (fuel - 1) as nat);
        lemma_run_enough(next, after, payload, (steps_left(step) - 1) as nat);
    }
}

/// The download and the extraction leave a fresh scratch directory with
/// the unpacked archive, and touch nothing else.
proof fn lemma_run_to_bundle(disk: Disk, payload: Payload)
    ensures
        run(Step::ProbeScratch, disk, payload, 18) == run(
            Step::ProbeBundle,
            Disk { scratch: true, unpacked: true, installed: disk.installed },
            payload,
            13,
        ),
{
    reveal_with_fuel(run, 6);
    let after = Disk { scratch: true, unpacked: true, installed: disk.installed };
    if disk.scratch {
        assert(run(Step::ProbeScratch, disk, payload, 18) == run(
            Step::ProbeBundle,
            after,
            payload,
            13,
        ));
    } else {
        assert(run(Step::ProbeScratch, disk, payload, 18) == run(
            Step::ProbeBundle,
            after,
            payload,
            14,
        ));
        lemma_run_enough(Step::ProbeBundle, after, payload, 14);
    }
}

/// From the probe of the bundle on, the installed directory is made anew
/// and is empty when the first tree is probed.
proof fn lemma_run_to_trees(installed: Option<Trees>, payload: Payload)
    ensures
        run(
            Step::ProbeBundle,
            Disk { scratch: true, unpacked: true, installed },
            payload,
            13,
        ) == run(
            Step::ProbeTree { nested: payload.nested, tree: Tree::Bin },
            Disk { scratch: true, unpacked: true, installed: Some(no_trees()) },
            payload,
            9,
        ),
{
    reveal_with_fuel(run, 5);
    let disk = Disk { scratch: true, unpacked: true, installed };
    let target = Disk { scratch: true, unpacked: true, installed: Some(no_trees()) };
    let first = Step::ProbeTree { nested: payload.nested, tree: Tree::Bin };
    if installed is Some {
        assert(run(Step::ProbeBundle, disk, payload, 13) == run(first, target, payload, 9));
    } else {
        assert(run(Step::ProbeBundle, disk, payload, 13) == run(first, target, payload, 10));
        lemma_run_enough(first, target, payload, 10);
    }
}

/// The trees that the installed version has after one tree was handled.
pub open spec fn trees_after(trees: Trees, payload: Payload, tree: Tree) -> Trees {
    if has_tree(payload.trees, tree) {
        with_tree(trees, tree)
    } else {
        trees
    }
}

/// The handling of one tree copies it exactly where the payload has it.
proof fn lemma_run_tree(trees: Trees, payload: Payload, tree: Tree)
    ensures
        run(
            Step::ProbeTree { nested: payload.nested, tree },
            Disk { scratch: true, unpacked: true, installed: Some(trees) },
            payload,
            steps_left(Step::ProbeTree { nested: payload.nested, tree }),
        ) == run(
            after_tree(payload.nested, tree),
            Disk { scratch: true, unpacked: true, installed: Some(trees_after(trees, payload, tree)) },
            payload,
            steps_left(after_tree(payload.nested, tree)),
        ),
{
    reveal_with_fuel(run, 3);
    let disk = Disk { scratch: true, unpacked: true, installed: Some(trees) };
    let start = Step::ProbeTree { nested: payload.nested, tree };
    let next = after_tree(payload.nested, tree);
    if has_tree(payload.trees, tree) {
        let copied = Disk { scratch: true, unpacked: true, installed: Some(with_tree(trees, tree)) };
        assert(run(start, disk, payload, steps_left(start)) == run(
            next,
            copied,
            payload,
            steps_left(next),
        ));
    } else {
        assert(run(start, disk, payload, steps_left(start)) == run(
            next,
            disk,
            payload,
            (steps_left(next) + 1) as nat,
        ));
        lemma_run_enough(next, disk, payload, (steps_left(next) + 1) as nat);
    }
}

/// An installation whose actions are carried out ends done and leaves the
/// version with exactly the trees of the payload.
proof fn lemma_run_from_start(disk: Disk, payload: Payload)
    ensures
        run(Step::ProbeScratch, disk, payload, 18) == (
            Step::Done { left_over: false },
            installed_disk(payload),
        ),
{
    lemma_run_to_bundle(disk, payload);
    lemma_run_to_trees(disk.installed, payload);
    let t0 = no_trees();
    let t1 = trees_after(t0, payload, Tree::Bin);
    let t2 = trees_after(t1, payload, Tree::Doc);
    let t3 = trees_after(t2, payload, Tree::Man);
    let t4 = trees_after(t3, payload, Tree::Share);
    lemma_run_tree(t0, payload, Tree::Bin);
    lemma_run_tree(t1, payload, Tree::Doc);
    lemma_run_tree(t2, payload, Tree::Man);
    lemma_run_tree(t3, payload, Tree::Share);
    reveal_with_fuel(run, 3);
    assert(t4 == payload.trees);
    let last = Disk { scratch: true, unpacked: true, installed: Some(t4) };
    assert(run(Step::Clean, last, payload, 1) == (
        Step::Done { left_over: false },
        installed_disk(payload),
    ));
}

} // verus!
