//! What each command of the tool decides and says. The caller fetches,
//! probes and prints; the decisions and the texts are made here.

use crate::error::ErrorKind;
use crate::platform::{is_supported_platform, supported_os};
use vstd::prelude::*;

verus! {

/// The commands of the tool.
pub struct Commands {}

/// What `install` does for the version that the user asked for.
#[derive(Clone, Copy, Debug, PartialEq, Eq, Structural)]
pub enum InstallPlan {
    /// The catalog has no such release: nothing is done.
    NotFound,
    /// The version is installed already: it is only made the current one.
    AlreadyInstalled,
    /// Nothing can be installed on this operating system.
    Unsupported,
    /// The version is installed and then made the current one.
    Install,
}

/// What `install` does, given whether the release was found, whether the
/// version is installed, and whether the operating system is supported.
pub open spec fn install_plan(found: bool, installed: bool, supported: bool) -> InstallPlan {
    if !found {
        InstallPlan::NotFound
    } else if installed {
        InstallPlan::AlreadyInstalled
    } else if !supported {
        InstallPlan::Unsupported
    } else {
        InstallPlan::Install
    }
}

/// What `install` says before it acts: nothing where it installs.
pub open spec fn install_notice_text(plan: InstallPlan, word: Seq<char>) -> Option<Seq<char>> {
    match plan {
        InstallPlan::NotFound => Some("[cmvm] Version "@ + word + " not found."@),
        InstallPlan::AlreadyInstalled => Some("[cmvm] Version "@ + word + " already installed."@),
        InstallPlan::Unsupported => Some("Platform not supported."@),
        InstallPlan::Install => None,
    }
}

/// What `install` says of the installation of the version `tag`.
pub open spec fn install_result_text(tag: Seq<char>, result: Result<(), ErrorKind>) -> Seq<char> {
    match result {
        Ok(_) => "[cmvm] Version "@ + tag + " installed successfully."@,
        Err(kind) => "[cmvm] Error while installing version "@ + tag + ": "@ + kind.spec_message(),
    }
}

/// What `use` says: `tag` is the version that the word names, if any, and
/// `result` tells how its activation ended.
pub open spec fn use_text(
    word: Seq<char>,
    tag: Option<Seq<char>>,
    result: Result<(), ErrorKind>,
) -> Seq<char> {
    match tag {
        None => "[cmvm] Version "@ + word + " not found."@,
        Some(name) => match result {
            Ok(_) => "[cmvm] Version "@ + name + " set as default."@,
            Err(kind) => "[cmvm] Error when trying to set version "@ + name + ": "@
                + kind.spec_message(),
        },
    }
}

/// What `uninstall` says.
pub open spec fn uninstall_text(word: Seq<char>, result: Result<(), ErrorKind>) -> Seq<char> {
    match result {
        Ok(_) => "[cmvm] Version "@ + word + " uninstalled successfully."@,
        Err(kind) => "[cmvm] Version "@ + word + " is not installed. "@ + kind.spec_message(),
    }
}

/// What `list-remote` says, given the listing or why there is none.
pub open spec fn list_remote_text(listing: Result<Seq<char>, ErrorKind>) -> Seq<char> {
    "[cmvm] List of available versions to install:\n"@ + (match listing {
        Ok(text) => text,
        Err(_) => "[cmvm] There is no versions installed yet."@,
    })
}

/// What `list` says, given the listing or why there is none.
pub open spec fn list_text(listing: Result<Seq<char>, ErrorKind>) -> Seq<char> {
    match listing {
        Ok(text) => if text.len() > 0 {
            "[cmvm] Installed versions:\n"@ + text
        } else {
            "[cmvm] No cmake versions installed yet. Use `cmvm install <version>` to install your first cmake version.\n[cmvm] Type `cmvm help` for more information."@
        },
        Err(_) => "[cmvm] There is no versions installed yet."@,
    }
}

/// What `shell` says, given the path of the current pointer.
pub open spec fn shell_text(current: Seq<char>) -> Seq<char> {
    "[cmvm] When `cmvm use <version>` is invoked, it changes the `current` symbolic link to the right cmake binary path. As cmvm doesn't manage the `current` path in the system, it requires to manually add it to the $PATH:\n\n export PATH=\""@
        + current + "/bin:$PATH\""@
}

/// `before`, `middle` and `after` in a row.
fn phrase(before: &str, middle: &str, after: &str) -> (r: String)
    ensures
        r@ == before@ + middle@ + after@,
{
    let mut out = before.to_owned();
    out.append(middle);
    out.append(after);
    out
}

impl Commands {
    /// Decides what `install` does. `found` tells whether the catalog has
    /// the release, `installed` whether its directory is there, and `os`
    /// names the operating system.
    pub fn install_version(found: bool, installed: bool, os: &str) -> (r: InstallPlan)
        ensures
            r == install_plan(found, installed, supported_os(os@)),
    {
        if !found {
            InstallPlan::NotFound
        } else if installed {
            InstallPlan::AlreadyInstalled
        } else if !is_supported_platform(os) {
            InstallPlan::Unsupported
        } else {
            InstallPlan::Install
        }
    }

    /// Whether `install` makes the version the current one after its
    /// installation: only where that has succeeded.
    pub fn activate_after(result: Result<(), ErrorKind>) -> (r: bool)
        ensures
            r == (result is Ok),
    {
        match result {
            Ok(_) => true,
            Err(_) => false,
        }
    }

    /// What `install` says before it acts on its plan.
    pub fn install_notice(plan: InstallPlan, word: &str) -> (r: Option<String>)
        ensures
            r.deep_view() == install_notice_text(plan, word@),
    {
        match plan {
            InstallPlan::NotFound => Some(phrase("[cmvm] Version ", word, " not found.")),
            InstallPlan::AlreadyInstalled => Some(
                phrase("[cmvm] Version ", word, " already installed."),
            ),
            InstallPlan::Unsupported => Some("Platform not supported.".to_owned()),
            InstallPlan::Install => None,
        }
    }

    /// What `install` says of the installation of the version `tag`.
    pub fn install_result(tag: &str, result: Result<(), ErrorKind>) -> (r: String)
        ensures
            r@ == install_result_text(tag@, result),
    {
        match result {
            Ok(_) => phrase("[cmvm] Version ", tag, " installed successfully."),
            Err(kind) => {
                let mut out = phrase("[cmvm] Error while installing version ", tag, ": ");
                out.append(kind.message().as_str());
                out
            },
        }
    }

    /// What `use` says.
    pub fn use_version(word: &str, tag: Option<&str>, result: Result<(), ErrorKind>) -> (r: String)
        ensures
            r@ == use_text(word@, tag.deep_view(), result),
    {
        match tag {
            None => phrase("[cmvm] Version ", word, " not found."),
            Some(name) => match result {
                Ok(_) => phrase("[cmvm] Version ", name, " set as default."),
                Err(kind) => {
                    let mut out = phrase("[cmvm] Error when trying to set version ", name, ": ");
                    out.append(kind.message().as_str());
                    out
                },
            },
        }
    }

    /// What `uninstall` says.
    pub fn uninstall_version(word: &str, result: Result<(), ErrorKind>) -> (r: String)
        ensures
            r@ == uninstall_text(word@, result),
    {
        match result {
            Ok(_) => phrase("[cmvm] Version ", word, " uninstalled successfully."),
            Err(kind) => {
                let mut out = phrase("[cmvm] Version ", word, " is not installed. ");
                out.append(kind.message().as_str());
                out
            },
        }
    }

    /// What `list-remote` says.
    pub fn list_remote_versions(listing: &Result<String, ErrorKind>) -> (r: String)
        ensures
            r@ == list_remote_text(
                match listing {
                    Ok(text) => Ok(text@),
                    Err(kind) => Err(*kind),
                },
            ),
    {
        let mut out = "[cmvm] List of available versions to install:\n".to_owned();
        match listing {
            Ok(text) => out.append(text.as_str()),
            Err(_) => out.append("[cmvm] There is no versions installed yet."),
        }
        out
    }

    /// What `list` says.
    pub fn list_versions(listing: &Result<String, ErrorKind>) -> (r: String)
        ensures
            r@ == list_text(
                match listing {
                    Ok(text) => Ok(text@),
                    Err(kind) => Err(*kind),
                },
            ),
    {
        match listing {
            Ok(text) => if text.as_str().unicode_len() > 0 {
                let mut out = "[cmvm] Installed versions:\n".to_owned();
                out.append(text.as_str());
                out
            } else {
                "[cmvm] No cmake versions installed yet. Use `cmvm install <version>` to install your first cmake version.\n[cmvm] Type `cmvm help` for more information.".to_owned()
            },
            Err(_) => "[cmvm] There is no versions installed yet.".to_owned(),
        }
    }

    /// What `shell` says, given the path of the current pointer.
    pub fn display_shell_instructions(current: &str) -> (r: String)
        ensures
            r@ == shell_text(current@),
    {
        phrase(
            "[cmvm] When `cmvm use <version>` is invoked, it changes the `current` symbolic link to the right cmake binary path. As cmvm doesn't manage the `current` path in the system, it requires to manually add it to the $PATH:\n\n export PATH=\"",
            current,
            "/bin:$PATH\"",
        )
    }
}

} // verus!
