//! Install and uninstall bookkeeping. The long-running work — fetching a
//! release over the network and unpacking the archive into the version's
//! directory — is an outside collaborator; this module decides what to
//! fetch, and what the registry records for each possible outcome.

use crate::config::Config;
use crate::store::{spec_add, spec_remove, VersionStore};
use crate::text::{str_eq, strip_v, strip_v_str, valid_id};
use crate::Error;
use vstd::prelude::*;

verus! {

/// The artifact name for an operating system, when a release exists for it.
pub open spec fn os_artifact(os: Seq<char>) -> Option<Seq<char>> {
    if os == "linux"@ {
        Some("linux"@)
    } else if os == "macos"@ {
        Some("darwin"@)
    } else {
        None
    }
}

/// The artifact name for a machine architecture, when a release exists for
/// it.
pub open spec fn arch_artifact(arch: Seq<char>) -> Option<Seq<char>> {
    if arch == "x86_64"@ {
        Some("amd64"@)
    } else if arch == "aarch64"@ {
        Some("arm64"@)
    } else {
        None
    }
}

/// The release archive's file name for an artifact's system, architecture
/// and version.
pub open spec fn artifact_filename(os: Seq<char>, arch: Seq<char>, v: Seq<char>) -> Seq<char> {
    "buildkite-agent-"@ + os + "-"@ + arch + "-"@ + v + ".tar.gz"@
}

/// The release archive's download address for a version and file name.
pub open spec fn artifact_url(v: Seq<char>, filename: Seq<char>) -> Seq<char> {
    "https://github.com/buildkite/agent/releases/download/v"@ + v + "/"@ + filename
}

/// Map the running system's name to the artifact's.
pub fn agent_os_name(os: &str) -> (r: Result<String, Error>)
    ensures
        os_artifact(os@) matches Some(a) ==> (r matches Ok(v) && v@ == a),
        os_artifact(os@) is None ==> (r matches Err(Error::UnsupportedOs(o)) && o@ == os@),
{
    if str_eq(os, "linux") {
        Ok("linux".to_owned())
    } else if str_eq(os, "macos") {
        Ok("darwin".to_owned())
    } else {
        Err(Error::UnsupportedOs(os.to_owned()))
    }
}

/// Map the running machine's architecture name to the artifact's.
pub fn agent_arch_name(arch: &str) -> (r: Result<String, Error>)
    ensures
        arch_artifact(arch@) matches Some(a) ==> (r matches Ok(v) && v@ == a),
        arch_artifact(arch@) is None ==> (r matches Err(Error::UnsupportedArch(x)) && x@ == arch@),
{
    if str_eq(arch, "x86_64") {
        Ok("amd64".to_owned())
    } else if str_eq(arch, "aarch64") {
        Ok("arm64".to_owned())
    } else {
        Err(Error::UnsupportedArch(arch.to_owned()))
    }
}

/// What one install attempt will fetch: the normalized version, the archive
/// name and the address to fetch it from.
pub struct InstallPlan {
    pub version: String,
    pub filename: String,
    pub url: String,
}

/// Decide an install: normalize the requested version (drop any leading
/// 'v'), map system and architecture to their artifact names, and name the
/// archive and its address. The system is mapped before the architecture,
/// so an unsupported system is reported first.
pub fn plan_install(version: &str, os: &str, arch: &str) -> (r: Result<InstallPlan, Error>)
    ensures
        os_artifact(os@) is None ==> (r matches Err(Error::UnsupportedOs(o)) && o@ == os@),
        os_artifact(os@) is Some && arch_artifact(arch@) is None ==> (r matches Err(
            Error::UnsupportedArch(x),
        ) && x@ == arch@),
        os_artifact(os@) is Some && arch_artifact(arch@) is Some ==> (r matches Ok(p) && {
            &&& p.version@ == strip_v(version@)
            &&& p.filename@ == artifact_filename(
                os_artifact(os@)->Some_0,
                arch_artifact(arch@)->Some_0,
                strip_v(version@),
            )
            &&& p.url@ == artifact_url(strip_v(version@), p.filename@)
        }),
{
    let v = strip_v_str(version);
    let os_name = match agent_os_name(os) {
        Ok(o) => o,
        Err(e) => {
            return Err(e);
        },
    };
    let arch_name = match agent_arch_name(arch) {
        Ok(a) => a,
        Err(e) => {
            return Err(e);
        },
    };
    let mut filename = "buildkite-agent-".to_owned();
    filename.append(os_name.as_str());
    filename.append("-");
    filename.append(arch_name.as_str());
    filename.append("-");
    filename.append(v.as_str());
    filename.append(".tar.gz");
    let mut url = "https://github.com/buildkite/agent/releases/download/v".to_owned();
    url.append(v.as_str());
    url.append("/");
    url.append(filename.as_str());
    Ok(InstallPlan { version: v, filename, url })
}

/// Whether the store records `version`, compared after normalization, so a
/// leading 'v' on the asked-for version does not hide a match.
pub fn is_version_installed(store: &VersionStore, version: &str) -> (r: bool)
    ensures
        r == store@.contains(strip_v(version@)),
{
    let v = strip_v_str(version);
    store.contains(v.as_str())
}

/// What the fetch-and-unpack collaborator reported for one install attempt.
pub enum FetchOutcome {
    /// The archive was fetched and unpacked into the version's directory.
    Fetched,
    /// The transport reported a non-success response.
    TransportFailure,
    /// The archive was corrupt or unreadable.
    CorruptArchive,
}

/// Record the result of one install attempt. Only a fetched version is
/// registered; a failed fetch changes nothing, so a partly populated
/// directory stays unregistered and is safe to remove and retry.
/// Re-installing a registered version is allowed repair: the fetch
/// overwrites the directory and the registry keeps its single entry.
pub fn finish_install(store: &mut VersionStore, id: &str, outcome: FetchOutcome) -> (r: Result<
    (),
    Error,
>)
    requires
        old(store).wf(),
        valid_id(id@),
    ensures
        final(store).wf(),
        outcome is Fetched ==> r is Ok && final(store)@ == spec_add(old(store)@, id@),
        outcome is TransportFailure ==> (r matches Err(e) && e is Download) && final(store)@
            == old(store)@,
        outcome is CorruptArchive ==> (r matches Err(e) && e is Archive) && final(store)@ == old(
            store)@,
{
    match outcome {
        FetchOutcome::Fetched => {
            store.add(id);
            Ok(())
        },
        FetchOutcome::TransportFailure => Err(Error::Download),
        FetchOutcome::CorruptArchive => Err(Error::Archive),
    }
}

/// How to pick the version to run when the command names none.
pub enum RunChoice {
    /// Run the resolved preference.
    Use(String),
    /// Nothing is installed: offer to install a version first.
    OfferInstall,
    /// No preference is set: choose among the installed versions.
    SelectInstalled,
}

/// The run flow's decision: the resolved preference when there is one;
/// otherwise, with nothing installed, an offer to install, and with
/// installed versions a choice among them.
pub fn choose_run_version(resolved: Option<String>, installed_count: usize) -> (r: RunChoice)
    ensures
        resolved matches Some(v) ==> r == RunChoice::Use(v),
        resolved is None && installed_count == 0 ==> r == RunChoice::OfferInstall,
        resolved is None && installed_count > 0 ==> r == RunChoice::SelectInstalled,
{
    match resolved {
        Some(v) => RunChoice::Use(v),
        None => {
            if installed_count == 0 {
                RunChoice::OfferInstall
            } else {
                RunChoice::SelectInstalled
            }
        },
    }
}

/// Record the result of one uninstall. The installed directory is the
/// ground truth: a version without one is not installed, and asking to
/// uninstall it is a hard failure that changes nothing. The caller removes
/// the directory first; only when that removal succeeded is the registry
/// touched — the entry leaves the store and a default naming the version is
/// cleared — so a failed removal leaves every record unchanged.
pub fn uninstall(
    store: &mut VersionStore,
    config: &mut Config,
    id: &str,
    dir: &str,
    dir_exists: bool,
    dir_removed: bool,
) -> (r: Result<(), Error>)
    requires
        old(store).wf(),
    ensures
        final(store).wf(),
        !dir_exists ==> (r matches Err(e) && e is NotInstalled) && final(store)@ == old(store)@
            && final(config)@ == old(config)@,
        dir_exists && !dir_removed ==> (r matches Err(Error::Io(p)) && p@ == dir@) && final(
            store)@ == old(store)@ && final(config)@ == old(config)@,
        dir_exists && dir_removed ==> r is Ok && final(store)@ == spec_remove(old(store)@, id@)
            && final(config)@ == (if old(config)@ == Some(id@) {
            Option::<Seq<char>>::None
        } else {
            old(config)@
        }),
{
    if !dir_exists {
        return Err(Error::NotInstalled);
    }
    if !dir_removed {
        return Err(Error::Io(dir.to_owned()));
    }
    store.remove(id);
    config.clear_default_if(id);
    Ok(())
}

} // verus!
