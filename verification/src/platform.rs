//! Which release assets fit the platform that the tool runs on.

use crate::text::same_text;
use vstd::prelude::*;

verus! {

/// What a platform accepts of a release: the content types and file-name
/// fragments of a usable asset, and the oldest major version that runs on it.
#[derive(Debug)]
pub struct SupportedDefinition {
    pub content_types: Vec<String>,
    pub name_contains: Vec<String>,
    pub major_version_required: i32,
}

/// The mathematical content of a [`SupportedDefinition`].
pub ghost struct SupportedDefinitionView {
    pub content_types: Seq<Seq<char>>,
    pub name_contains: Seq<Seq<char>>,
    pub major_version_required: i32,
}

impl DeepView for SupportedDefinition {
    type V = SupportedDefinitionView;

    open spec fn deep_view(&self) -> SupportedDefinitionView {
        SupportedDefinitionView {
            content_types: self.content_types.deep_view(),
            name_contains: self.name_contains.deep_view(),
            major_version_required: self.major_version_required,
        }
    }
}

impl View for SupportedDefinition {
    type V = SupportedDefinitionView;

    open spec fn view(&self) -> SupportedDefinitionView {
        self.deep_view()
    }
}

/// An operating system and its version.
#[derive(Debug)]
pub struct PlatformInfo {
    pub version: OperatingSystemVersion,
    pub name: String,
}

/// The three numbers of an operating system's version.
#[derive(Debug)]
pub struct OperatingSystemVersion {
    pub major: i32,
    pub minor: i32,
    pub patch: i32,
}

/// Whether releases can be installed on the operating system of that name.
pub open spec fn supported_os(os: Seq<char>) -> bool {
    os == "macos"@ || os == "linux"@
}

/// What macOS accepts.
pub open spec fn macos_definition() -> SupportedDefinitionView {
    SupportedDefinitionView {
        content_types: seq!["application/gzip"@],
        name_contains: seq!["-macos-"@, "-macos10.10-"@, "-Darwin-"@],
        major_version_required: 3,
    }
}

/// What Linux accepts.
pub open spec fn linux_definition() -> SupportedDefinitionView {
    SupportedDefinitionView {
        content_types: seq!["application/gzip"@],
        name_contains: seq!["-linux-x86_64"@],
        major_version_required: 3,
    }
}

/// What the operating system of that name accepts. Every name but
/// `linux` gets the definition of macOS.
pub open spec fn definition_for(os: Seq<char>) -> SupportedDefinitionView {
    if os == "linux"@ {
        linux_definition()
    } else {
        macos_definition()
    }
}

/// Tests whether releases can be installed on the operating system `os`,
/// named as `std::env::consts::OS` names it.
pub fn is_supported_platform(os: &str) -> (r: bool)
    ensures
        r == supported_os(os@),
{
    same_text(os, "macos") || same_text(os, "linux")
}

/// The definition for the operating system `os`.
pub fn supported_definition(os: &str) -> (r: SupportedDefinition)
    ensures
        r@ == definition_for(os@),
{
    if same_text(os, "linux") {
        linux_supported_definition()
    } else {
        macos_supported_definition()
    }
}

/// The definition for macOS.
pub fn macos_supported_definition() -> (r: SupportedDefinition)
    ensures
        r@ == macos_definition(),
{
    let mut name_contains: Vec<String> = Vec::new();
    name_contains.push("-macos-".to_owned());
    name_contains.push("-macos10.10-".to_owned());
    name_contains.push("-Darwin-".to_owned());
    let mut content_types: Vec<String> = Vec::new();
    content_types.push("application/gzip".to_owned());
    let r = SupportedDefinition { content_types, name_contains, major_version_required: 3 };
    proof {
        assert(r@.content_types =~= macos_definition().content_types);
        assert(r@.name_contains =~= macos_definition().name_contains);
    }
    r
}

/// The definition for Linux.
pub fn linux_supported_definition() -> (r: SupportedDefinition)
    ensures
        r@ == linux_definition(),
{
    let mut name_contains: Vec<String> = Vec::new();
    name_contains.push("-linux-x86_64".to_owned());
    let mut content_types: Vec<String> = Vec::new();
    content_types.push("application/gzip".to_owned());
    let r = SupportedDefinition { content_types, name_contains, major_version_required: 3 };
    proof {
        assert(r@.content_types =~= linux_definition().content_types);
        assert(r@.name_contains =~= linux_definition().name_contains);
    }
    r
}

} // verus!
