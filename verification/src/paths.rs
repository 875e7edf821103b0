//! Locations of the registry's files under its root directory, and the
//! setup plan that creates the missing parts of that layout.

use vstd::prelude::*;

verus! {

/// The directory holding the registry file, under the root.
pub fn versions_dir(root: &str) -> (r: String)
    ensures
        r@ == root@ + "/versions"@,
{
    let mut out = root.to_owned();
    out.append("/versions");
    out
}

/// The directory holding one subdirectory per installed version.
pub fn bin_dir(root: &str) -> (r: String)
    ensures
        r@ == root@ + "/bin"@,
{
    let mut out = root.to_owned();
    out.append("/bin");
    out
}

/// The flat registry file, one installed identifier per line.
pub fn versions_file(root: &str) -> (r: String)
    ensures
        r@ == root@ + "/versions"@ + "/versions"@,
{
    let mut out = versions_dir(root);
    out.append("/versions");
    out
}

/// The global configuration record's file.
pub fn config_file_path(root: &str) -> (r: String)
    ensures
        r@ == root@ + "/config.json"@,
{
    let mut out = root.to_owned();
    out.append("/config.json");
    out
}

/// The installed directory of one version; its existence is the ground
/// truth for "this version is installed".
pub fn version_dir(root: &str, version: &str) -> (r: String)
    ensures
        r@ == root@ + "/bin"@ + "/"@ + version@,
{
    let mut out = bin_dir(root);
    out.append("/");
    out.append(version);
    out
}

/// The installed executable of one version.
pub fn agent_binary_path(root: &str, version: &str) -> (r: String)
    ensures
        r@ == root@ + "/bin"@ + "/"@ + version@ + "/buildkite-agent"@,
{
    let mut out = version_dir(root, version);
    out.append("/buildkite-agent");
    out
}

/// The per-version agent configuration file that holds its token.
pub fn get_config_path(root: &str, version: &str) -> (r: String)
    ensures
        r@ == root@ + "/bin"@ + "/"@ + version@ + "/buildkite-agent.cfg"@,
{
    let mut out = version_dir(root, version);
    out.append("/buildkite-agent.cfg");
    out
}

/// The directories the layout needs, among root, versions and bin, that do
/// not exist yet, in creation order.
pub open spec fn setup_dirs(
    root: Seq<char>,
    root_exists: bool,
    versions_exists: bool,
    bin_exists: bool,
) -> Seq<Seq<char>> {
    (if !root_exists {
        seq![root]
    } else {
        Seq::<Seq<char>>::empty()
    }) + (if !versions_exists {
        seq![root + "/versions"@]
    } else {
        Seq::<Seq<char>>::empty()
    }) + (if !bin_exists {
        seq![root + "/bin"@]
    } else {
        Seq::<Seq<char>>::empty()
    })
}

/// The setup plan for the layout: the directories to create, in order, and
/// the registry file to create empty when it is missing. The caller reports
/// what exists; the filesystem work stays outside.
pub fn ensure_bap_directories(
    root: &str,
    root_exists: bool,
    versions_exists: bool,
    bin_exists: bool,
    versions_file_exists: bool,
) -> (r: (Vec<String>, Option<String>))
    ensures
        r.0.deep_view() == setup_dirs(root@, root_exists, versions_exists, bin_exists),
        !versions_file_exists ==> (r.1 matches Some(p) && p@ == root@ + "/versions"@
            + "/versions"@),
        versions_file_exists ==> r.1 is None,
{
    let mut dirs: Vec<String> = Vec::new();
    if !root_exists {
        dirs.push(root.to_owned());
    }
    if !versions_exists {
        dirs.push(versions_dir(root));
    }
    if !bin_exists {
        dirs.push(bin_dir(root));
    }
    proof {
        assert(dirs.deep_view() =~= setup_dirs(root@, root_exists, versions_exists, bin_exists));
    }
    let file = if !versions_file_exists {
        Some(versions_file(root))
    } else {
        None
    };
    (dirs, file)
}

} // verus!
