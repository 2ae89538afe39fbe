use cmvm::activation::{ActivationAction, ActivationStep};
use cmvm::error::ErrorKind;
use cmvm::package::{
    accepts_content_type, accepts_name, action_of, asset_is_compatible, filter_platform_assets,
    get_cmake_release, next_step, tree_directory, Action, InstallState, Installer, Outcome, Place,
    Step, Tree,
};
use cmvm::platform::{
    is_supported_platform, linux_supported_definition, macos_supported_definition,
    supported_definition,
};
use cmvm::storage::{bootstrap, catalog_file_name, feed_url, Location, Root};
use cmvm::versions::{Asset, RawRelease, Version};

fn asset(name: &str, content_type: &str) -> Asset {
    Asset {
        name: name.to_string(),
        content_type: content_type.to_string(),
        browser_download_url: format!("http://host/{}", name),
    }
}

fn version(tag: &str, assets: Vec<Asset>) -> Version {
    Version::from_raw_value(RawRelease { tag_name: tag.to_string(), prerelease: None, assets })
        .unwrap()
}

fn location(root: Root, parts: &[&str]) -> Location {
    Location { root, parts: parts.iter().map(|p| p.to_string()).collect() }
}

#[test]
fn both_asset_tests_must_hold() {
    let def = linux_supported_definition();
    let right = asset("cmake-3.22.3-linux-x86_64.tar.gz", "application/gzip");
    let wrong_name = asset("cmake-3.22.3-linux-aarch64.tar.gz", "application/gzip");
    let wrong_type = asset("cmake-3.22.3-linux-x86_64.sh", "application/x-sh");
    assert!(asset_is_compatible(&right, &def));
    assert!(accepts_content_type(&wrong_name, &def) && !accepts_name(&wrong_name, &def));
    assert!(!asset_is_compatible(&wrong_name, &def));
    assert!(!accepts_content_type(&wrong_type, &def) && accepts_name(&wrong_type, &def));
    assert!(!asset_is_compatible(&wrong_type, &def));
    let v = version("v3.22.3", vec![wrong_name, right.clone(), wrong_type, right.clone()]);
    let kept = filter_platform_assets(&v, &def);
    assert_eq!(kept, vec![&right, &right]);
}

#[test]
fn macos_accepts_each_of_its_fragments() {
    let def = macos_supported_definition();
    for name in [
        "cmake-3.22.3-macos-universal.tar.gz",
        "cmake-3.22.3-macos10.10-universal.tar.gz",
        "cmake-3.9.0-Darwin-x86_64.tar.gz",
    ] {
        assert!(asset_is_compatible(&asset(name, "application/gzip"), &def), "{}", name);
    }
    assert!(!asset_is_compatible(&asset("cmake-3.9.0-darwin.tar.gz", "application/gzip"), &def));
}

#[test]
fn definitions_by_operating_system() {
    assert_eq!(supported_definition("linux").name_contains, vec!["-linux-x86_64"]);
    assert_eq!(
        supported_definition("macos").name_contains,
        vec!["-macos-", "-macos10.10-", "-Darwin-"]
    );
    assert_eq!(supported_definition("windows").name_contains, supported_definition("macos").name_contains);
    assert_eq!(supported_definition("linux").content_types, vec!["application/gzip"]);
    assert_eq!(supported_definition("linux").major_version_required, 3);
    assert_eq!(supported_definition("macos").major_version_required, 3);
    assert!(is_supported_platform("linux") && is_supported_platform("macos"));
    assert!(!is_supported_platform("windows") && !is_supported_platform(""));
}

#[test]
fn no_compatible_asset_fails_before_anything_is_fetched() {
    let def = linux_supported_definition();
    let v = version("v3.22.3", vec![asset("cmake-3.22.3-windows.zip", "application/zip")]);
    assert_eq!(get_cmake_release(&v, &def).err(), Some(ErrorKind::PlatformUnsupported));
    assert_eq!(get_cmake_release(&version("v3.22.3", vec![]), &def).err(), Some(ErrorKind::PlatformUnsupported));
}

#[test]
fn the_first_compatible_asset_is_selected() {
    let def = linux_supported_definition();
    let v = version(
        "v3.22.3",
        vec![
            asset("cmake-3.22.3-linux-aarch64.tar.gz", "application/gzip"),
            asset("cmake-3.22.3-linux-x86_64.tar.gz", "application/gzip"),
            asset("cmake-3.22.3-linux-x86_64-b.tar.gz", "application/gzip"),
        ],
    );
    let installer = get_cmake_release(&v, &def).unwrap();
    assert_eq!(installer.tag, "3.22.3");
    assert_eq!(installer.asset.name, "cmake-3.22.3-linux-x86_64.tar.gz");
    assert_eq!(installer.step, Step::ProbeScratch);
    assert_eq!(installer.state(), InstallState::Downloading);
    assert_eq!(installer.action(), Action::Probe(Place::Scratch));
}

fn sample_installer() -> Installer {
    let def = linux_supported_definition();
    let v = version("v3.22.3", vec![asset("cmake-3.22.3-linux-x86_64.tar.gz", "application/gzip")]);
    get_cmake_release(&v, &def).unwrap()
}

#[test]
fn places_lie_where_the_layout_says() {
    let i = sample_installer();
    assert_eq!(i.locate(Place::Scratch), location(Root::Cache, &["3.22.3"]));
    assert_eq!(
        i.locate(Place::Archive),
        location(Root::Cache, &["3.22.3", "cmake-3.22.3-linux-x86_64.tar.gz"])
    );
    assert_eq!(
        i.locate(Place::Bundle),
        location(Root::Cache, &["3.22.3", "cmake-3.22.3-linux-x86_64", "CMake.app", "Contents"])
    );
    assert_eq!(
        i.locate(Place::Source { nested: false, tree: Tree::Bin }),
        location(Root::Cache, &["3.22.3", "cmake-3.22.3-linux-x86_64", "bin"])
    );
    assert_eq!(
        i.locate(Place::Source { nested: true, tree: Tree::Share }),
        location(
            Root::Cache,
            &["3.22.3", "cmake-3.22.3-linux-x86_64", "CMake.app", "Contents", "share"]
        )
    );
    assert_eq!(i.locate(Place::Installed), location(Root::Versions, &["3.22.3"]));
    assert_eq!(tree_directory(Tree::Doc), "doc");
    assert_eq!(tree_directory(Tree::Man), "man");
}

/// A disk as the installer sees it, in memory.
struct Disk {
    scratch: bool,
    unpacked: bool,
    installed: Option<Vec<Tree>>,
    nested: bool,
    trees: Vec<Tree>,
    log: Vec<Action>,
}

impl Disk {
    fn carry_out(&mut self, action: Action) -> Outcome {
        self.log.push(action);
        match action {
            Action::Probe(Place::Scratch) | Action::Probe(Place::Archive) => Outcome::Found(self.scratch),
            Action::Probe(Place::Bundle) => Outcome::Found(self.unpacked && self.nested),
            Action::Probe(Place::Installed) => Outcome::Found(self.installed.is_some()),
            Action::Probe(Place::Source { nested, tree }) => {
                Outcome::Found(self.unpacked && nested == self.nested && self.trees.contains(&tree))
            }
            Action::Remove(Place::Scratch) => {
                self.scratch = false;
                self.unpacked = false;
                Outcome::Succeeded
            }
            Action::Remove(Place::Installed) => {
                self.installed = None;
                Outcome::Succeeded
            }
            Action::CreateDir(Place::Scratch) => {
                self.scratch = true;
                Outcome::Succeeded
            }
            Action::CreateDir(Place::Installed) => {
                self.installed = Some(vec![]);
                Outcome::Succeeded
            }
            Action::Unpack => {
                self.unpacked = true;
                Outcome::Succeeded
            }
            Action::Copy { from: Place::Source { tree, .. }, into: Place::Installed } => {
                self.installed.as_mut().unwrap().push(tree);
                Outcome::Succeeded
            }
            Action::Download => Outcome::Succeeded,
            other => panic!("unexpected action {:?}", other),
        }
    }
}

fn install(disk: &mut Disk) -> Installer {
    let mut installer = sample_installer();
    let mut action = installer.action();
    let mut rounds = 0;
    while action != Action::Finish {
        rounds += 1;
        assert!(rounds <= 18);
        let outcome = disk.carry_out(action);
        action = installer.step(outcome);
    }
    installer
}

#[test]
fn installing_twice_leaves_the_same_version() {
    let mut disk = Disk {
        scratch: true,
        unpacked: false,
        installed: None,
        nested: false,
        trees: vec![Tree::Bin, Tree::Share],
        log: vec![],
    };
    let first = install(&mut disk);
    assert_eq!(first.step, Step::Done { left_over: false });
    assert_eq!(first.state(), InstallState::Done);
    assert_eq!(disk.installed, Some(vec![Tree::Bin, Tree::Share]));
    assert!(!disk.scratch);
    assert_eq!(disk.log[1], Action::Remove(Place::Scratch));
    let after_first = disk.installed.clone();
    disk.scratch = true;
    disk.log.clear();
    install(&mut disk);
    assert_eq!(disk.installed, after_first);
    assert!(disk.log.contains(&Action::Remove(Place::Installed)));
    assert!(!disk.scratch);
}

#[test]
fn a_bundle_is_installed_from_its_contents() {
    let mut disk = Disk {
        scratch: false,
        unpacked: false,
        installed: None,
        nested: true,
        trees: vec![Tree::Bin, Tree::Doc, Tree::Man, Tree::Share],
        log: vec![],
    };
    install(&mut disk);
    assert_eq!(disk.installed, Some(vec![Tree::Bin, Tree::Doc, Tree::Man, Tree::Share]));
    assert_eq!(
        disk.log,
        vec![
            Action::Probe(Place::Scratch),
            Action::CreateDir(Place::Scratch),
            Action::Download,
            Action::Unpack,
            Action::Probe(Place::Bundle),
            Action::Probe(Place::Installed),
            Action::CreateDir(Place::Installed),
            Action::Probe(Place::Source { nested: true, tree: Tree::Bin }),
            Action::Copy { from: Place::Source { nested: true, tree: Tree::Bin }, into: Place::Installed },
            Action::Probe(Place::Source { nested: true, tree: Tree::Doc }),
            Action::Copy { from: Place::Source { nested: true, tree: Tree::Doc }, into: Place::Installed },
            Action::Probe(Place::Source { nested: true, tree: Tree::Man }),
            Action::Copy { from: Place::Source { nested: true, tree: Tree::Man }, into: Place::Installed },
            Action::Probe(Place::Source { nested: true, tree: Tree::Share }),
            Action::Copy { from: Place::Source { nested: true, tree: Tree::Share }, into: Place::Installed },
            Action::Remove(Place::Scratch),
        ]
    );
}

#[test]
fn a_failed_download_is_a_network_failure() {
    let mut installer = sample_installer();
    assert_eq!(installer.step(Outcome::Found(false)), Action::CreateDir(Place::Scratch));
    assert_eq!(installer.step(Outcome::Succeeded), Action::Download);
    assert_eq!(installer.step(Outcome::Failed), Action::Abort(ErrorKind::NetworkFailure));
    assert_eq!(installer.state(), InstallState::Failed);
    assert_eq!(installer.step(Outcome::Succeeded), Action::Abort(ErrorKind::NetworkFailure));
    assert_eq!(installer.tag, "3.22.3");
}

#[test]
fn every_other_failure_is_a_failure_of_the_file_system() {
    for step in [
        Step::ProbeScratch,
        Step::ClearScratch,
        Step::CreateScratch,
        Step::Unpack,
        Step::ProbeBundle,
        Step::ProbeInstalled { nested: false },
        Step::ClearInstalled { nested: true },
        Step::CreateInstalled { nested: false },
        Step::ProbeTree { nested: false, tree: Tree::Man },
        Step::CopyTree { nested: true, tree: Tree::Bin },
    ] {
        assert_eq!(next_step(step, Outcome::Failed), Step::Failed(ErrorKind::IoFailure), "{:?}", step);
    }
}

#[test]
fn a_failed_cleaning_is_not_fatal() {
    assert_eq!(next_step(Step::Clean, Outcome::Failed), Step::Done { left_over: true });
    assert_eq!(next_step(Step::Clean, Outcome::Succeeded), Step::Done { left_over: false });
    assert_eq!(action_of(Step::Done { left_over: true }), Action::Finish);
}

#[test]
fn an_event_that_answers_nothing_fails_the_installation() {
    assert_eq!(next_step(Step::ProbeScratch, Outcome::Succeeded), Step::Failed(ErrorKind::IoFailure));
    assert_eq!(next_step(Step::Unpack, Outcome::Found(true)), Step::Failed(ErrorKind::IoFailure));
    assert_eq!(next_step(Step::Fetch, Outcome::Found(false)), Step::Failed(ErrorKind::IoFailure));
}

#[test]
fn a_missing_tree_is_passed_over() {
    assert_eq!(
        next_step(Step::ProbeTree { nested: false, tree: Tree::Doc }, Outcome::Found(false)),
        Step::ProbeTree { nested: false, tree: Tree::Man }
    );
    assert_eq!(
        next_step(Step::ProbeTree { nested: false, tree: Tree::Share }, Outcome::Found(false)),
        Step::Clean
    );
    assert_eq!(
        next_step(Step::CopyTree { nested: true, tree: Tree::Share }, Outcome::Succeeded),
        Step::Clean
    );
}

#[test]
fn activation_removes_an_old_pointer_first() {
    let v = version("v3.22.3", vec![]);
    let mut activation = v.activate();
    assert_eq!(activation.tag, "3.22.3");
    assert_eq!(activation.action(), ActivationAction::Probe);
    assert_eq!(activation.step(Outcome::Found(true)), ActivationAction::Remove);
    assert_eq!(activation.step(Outcome::Succeeded), ActivationAction::Link);
    assert_eq!(activation.step(Outcome::Succeeded), ActivationAction::Finish);
    assert_eq!(activation.step, ActivationStep::Done);
    assert_eq!(activation.target(), location(Root::Versions, &["3.22.3"]));
    assert_eq!(activation.pointer(), location(Root::Current, &[]));
}

fn activate(pointer: &mut Option<String>, tag: &str) {
    let mut activation = version(tag, vec![]).activate();
    let mut action = activation.action();
    while action != ActivationAction::Finish {
        let outcome = match action {
            ActivationAction::Probe => Outcome::Found(pointer.is_some()),
            ActivationAction::Remove => {
                *pointer = None;
                Outcome::Succeeded
            }
            ActivationAction::Link => {
                assert!(pointer.is_none());
                *pointer = Some(activation.target().parts[0].clone());
                Outcome::Succeeded
            }
            other => panic!("unexpected action {:?}", other),
        };
        action = activation.step(outcome);
    }
}

#[test]
fn the_pointer_names_the_version_activated_last() {
    let mut pointer = None;
    activate(&mut pointer, "v3.22.3");
    assert_eq!(pointer, Some("3.22.3".to_string()));
    activate(&mut pointer, "3.20.0");
    assert_eq!(pointer, Some("3.20.0".to_string()));
}

#[test]
fn activation_fails_where_an_action_fails() {
    let v = version("v3.22.3", vec![]);
    let mut a = v.activate();
    assert_eq!(a.step(Outcome::Failed), ActivationAction::Abort(ErrorKind::IoFailure));
    let mut b = v.activate();
    b.step(Outcome::Found(true));
    assert_eq!(b.step(Outcome::Failed), ActivationAction::Abort(ErrorKind::IoFailure));
    let mut c = v.activate();
    assert_eq!(c.step(Outcome::Found(false)), ActivationAction::Link);
    assert_eq!(c.step(Outcome::Failed), ActivationAction::Abort(ErrorKind::IoFailure));
    assert_eq!(c.step(Outcome::Succeeded), ActivationAction::Abort(ErrorKind::IoFailure));
}

#[test]
fn bootstrap_creates_what_is_missing() {
    assert_eq!(bootstrap(false, false, false), vec![Root::Data, Root::Versions, Root::Cache]);
    assert_eq!(bootstrap(true, false, true), vec![Root::Versions]);
    assert_eq!(bootstrap(true, true, true), vec![]);
    assert_eq!(catalog_file_name(), "releases.json");
    assert_eq!(feed_url(), "https://api.github.com/repos/Kitware/CMake/releases");
}
