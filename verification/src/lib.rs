//! Registry and resolution core of a version manager for an external agent
//! binary: the durable record of installed versions, the precedence rules
//! that select the active version, and the lifecycle bookkeeping that keeps
//! the record consistent.

pub mod auth;
pub mod config;
pub mod lifecycle;
pub mod paths;
pub mod remote;
pub mod store;
pub mod text;

use crate::text::{trim, trim_str};
use vstd::prelude::*;

verus! {

/// What can go wrong in a registry or lifecycle operation.
#[derive(Debug)]
pub enum Error {
    /// A filesystem read or write failed; carries the path concerned.
    Io(String),
    /// The config file exists but is not a valid configuration record.
    ConfigParse,
    /// The operation targets a version with no installed directory.
    NotInstalled,
    /// The fetch collaborator reported a transport failure.
    Download,
    /// The fetch collaborator reported a corrupt or unreadable archive.
    Archive,
    /// No release artifact exists for this operating system.
    UnsupportedOs(String),
    /// No release artifact exists for this machine architecture.
    UnsupportedArch(String),
}

/// Which version applies here: a per-directory override wins over the
/// global default; with neither set, no version applies.
///
/// Resolution is a pure preference lookup: it performs no check that the
/// winning identifier is actually installed. The caller verifies
/// availability before use.
pub fn resolve(local: Option<String>, global: Option<String>) -> (r: Option<String>)
    ensures
        local is Some ==> r == local,
        local is None ==> r == global,
{
    match local {
        Some(v) => Some(v),
        None => global,
    }
}

/// The version pinned by the marker file's text: its trimmed content, when
/// any is left; blank content pins nothing. The marker is read in the
/// working directory itself, never searched for in a parent directory:
/// the override is scoped to the exact directory by design.
pub fn local_override_of(content: &str) -> (r: Option<String>)
    ensures
        trim(content@).len() > 0 ==> (r matches Some(t) && t@ == trim(content@)),
        trim(content@).len() == 0 ==> r is None,
{
    let t = trim_str(content);
    if t.as_str().unicode_len() > 0 {
        Some(t)
    } else {
        None
    }
}

/// The listing line for one installed version: starred when it is the
/// version that currently applies here, and tagged when it is the global
/// default.
pub fn format_version_line(version: &str, is_current: bool, is_default: bool) -> (r: String)
    ensures
        r@ == (if is_current {
            "* "@
        } else {
            "  "@
        }) + version@ + (if is_default {
            " (default)"@
        } else {
            Seq::<char>::empty()
        }),
{
    let mut out = if is_current {
        "* ".to_owned()
    } else {
        "  ".to_owned()
    };
    out.append(version);
    if is_default {
        out.append(" (default)");
    }
    proof {
        if !is_default {
            assert(out@ =~= (if is_current {
                "* "@
            } else {
                "  "@
            }) + version@ + Seq::<char>::empty());
        }
    }
    out
}

} // verus!
