//! The outcomes of the external commands the overlay manager leans on:
//! given what a command reported, these decide what the run does next.
//! Spawning and capturing the commands is the driver's work.

use crate::error::DtMgrError;
use crate::strings::str_join;
use crate::strings::str_trim;
use crate::strings::join_with;
use crate::strings::trimmed;
use vstd::prelude::*;
use vstd::string::StringExecFns;

verus! {

/// The global root as the lookup-path resolver reports it: its trimmed
/// standard output on success, the command's failure otherwise.
pub fn get_texlive_root(success: bool, code: Option<i32>, stdout: &str) -> (r: Result<
    String,
    DtMgrError,
>)
    ensures
        success ==> (r matches Ok(root) && root@ == trimmed(stdout@)),
        !success ==> (r matches Err(e) && (e matches DtMgrError::CommandStatus {
            command,
            code: c,
        } && command@ == "kpsewhich -var-value=TEXMFROOT"@ && c == code)),
{
    if success {
        Ok(str_trim(stdout))
    } else {
        Err(
            DtMgrError::CommandStatus {
                command: String::from_str("kpsewhich -var-value=TEXMFROOT"),
                code,
            },
        )
    }
}

/// The platform identifier as the package manager reports it: its
/// trimmed standard output on success, the command's failure otherwise.
pub fn get_texlive_platform(success: bool, code: Option<i32>, stdout: &str) -> (r: Result<
    String,
    DtMgrError,
>)
    ensures
        success ==> (r matches Ok(platform) && platform@ == trimmed(stdout@)),
        !success ==> (r matches Err(e) && (e matches DtMgrError::CommandStatus {
            command,
            code: c,
        } && command@ == "tlmgr print-platform"@ && c == code)),
{
    if success {
        Ok(str_trim(stdout))
    } else {
        Err(
            DtMgrError::CommandStatus {
                command: String::from_str("tlmgr print-platform"),
                code,
            },
        )
    }
}

/// The outcome of the batched metadata query for the given names:
/// nothing on success — the driver then decodes the records — otherwise
/// the failure, described by the full command line that was run.
pub fn info_about_packages(packages: &Vec<String>, success: bool, code: Option<i32>) -> (r:
    Result<(), DtMgrError>)
    ensures
        success ==> r is Ok,
        !success ==> (r matches Err(e) && (e matches DtMgrError::CommandStatus {
            command,
            code: c,
        } && command@ == "tlmgr info --json "@ + join_with(packages.deep_view(), ' ')
            && c == code)),
{
    if success {
        Ok(())
    } else {
        let mut command = String::from_str("tlmgr info --json ");
        command.append(str_join(packages, ' ').as_str());
        Err(DtMgrError::CommandStatus { command, code })
    }
}

/// The outcome of installing the declared packages into the global root:
/// nothing on success, otherwise the failure, described by the full
/// command line that was run.
pub fn install_packages_globally(packages: &Vec<String>, success: bool, code: Option<i32>) -> (r:
    Result<(), DtMgrError>)
    ensures
        success ==> r is Ok,
        !success ==> (r matches Err(e) && (e matches DtMgrError::CommandStatus {
            command,
            code: c,
        } && command@ == "tlmgr install "@ + join_with(packages.deep_view(), ' ') && c
            == code)),
{
    if success {
        Ok(())
    } else {
        let mut command = String::from_str("tlmgr install ");
        command.append(str_join(packages, ' ').as_str());
        Err(DtMgrError::CommandStatus { command, code })
    }
}

} // verus!
