//! XDG directory lookup: resolves a directory name such as `config` or
//! `state` to the corresponding base directory of the current user, and
//! builds the configuration root inside it.
//!
//! The directories themselves come from the environment through the
//! `etcetera` crate; everything around those calls — name classification,
//! error taxonomy, path joining — is verified.

use etcetera::base_strategy::BaseStrategy;
use vstd::prelude::*;

use crate::render::dec_str;
use crate::render::format_u64;
use crate::strutil::push_char;
use crate::strutil::str_eq;

verus! {

/// The recognized XDG directory names, and a marker for everything else.
#[derive(Clone, Copy, Debug, PartialEq, Eq, Structural)]
pub enum XdgDirKind {
    Config,
    Data,
    Cache,
    State,
    Runtime,
    Unknown,
}

/// Why an XDG directory lookup failed.
#[derive(Clone, Copy, Debug, PartialEq, Eq, Structural)]
pub enum XdgError {
    /// The base directories cannot be determined: no home directory.
    NoBaseDirectory,
    /// The directory is not available on this system (state and runtime
    /// directories are optional).
    Unavailable,
    /// The name is not a recognized XDG directory name.
    InvalidName,
}

/// What `str::to_lowercase` returns: the lowercase equivalent of the text,
/// a function of its characters alone.
pub uninterp spec fn lower_of(s: Seq<char>) -> Seq<char>;

/// Relies on str::to_lowercase: returns the lowercase equivalent of the
/// string, which depends on the characters alone.
#[verifier::external_body]
fn to_lowercase(s: &str) -> (r: String)
    ensures
        r@ == lower_of(s@),
{
    s.to_lowercase()
}

/// The kind a directory name falls under once lowercased.
pub open spec fn xdg_dir_kind(lowered: Seq<char>) -> XdgDirKind {
    if lowered == "config"@ {
        XdgDirKind::Config
    } else if lowered == "data"@ {
        XdgDirKind::Data
    } else if lowered == "cache"@ {
        XdgDirKind::Cache
    } else if lowered == "state"@ {
        XdgDirKind::State
    } else if lowered == "runtime"@ {
        XdgDirKind::Runtime
    } else {
        XdgDirKind::Unknown
    }
}

/// Classifies an XDG directory name, ignoring the letters' case.
pub fn classify_xdg_dir(name: &str) -> (k: XdgDirKind)
    ensures
        k == xdg_dir_kind(lower_of(name@)),
{
    let low = to_lowercase(name);
    let l = low.as_str();
    if str_eq(l, "config") {
        XdgDirKind::Config
    } else if str_eq(l, "data") {
        XdgDirKind::Data
    } else if str_eq(l, "cache") {
        XdgDirKind::Cache
    } else if str_eq(l, "state") {
        XdgDirKind::State
    } else if str_eq(l, "runtime") {
        XdgDirKind::Runtime
    } else {
        XdgDirKind::Unknown
    }
}

/// Declares etcetera's Xdg base-strategy type, carried opaquely between
/// the calls below.
#[verifier::external_type_specification]
#[verifier::external_body]
pub struct ExXdg(etcetera::base_strategy::Xdg);

/// Declares etcetera's error for a home directory that cannot be located.
#[verifier::external_type_specification]
#[verifier::external_body]
pub struct ExHomeDirError(etcetera::HomeDirError);

/// Relies on etcetera::choose_base_strategy: reads the XDG base directories
/// from the environment, and fails exactly when no home directory can be
/// located. The result depends on the environment, so nothing is promised
/// of it.
#[verifier::external_body]
fn choose_base() -> (r: Result<etcetera::base_strategy::Xdg, etcetera::HomeDirError>) {
    etcetera::choose_base_strategy()
}

/// Relies on BaseStrategy::config_dir of etcetera's Xdg strategy: the
/// user's configuration directory, read from the environment when the
/// strategy was built; converted to text lossily.
#[verifier::external_body]
fn xdg_config_dir(x: &etcetera::base_strategy::Xdg) -> (r: String) {
    x.config_dir().to_string_lossy().into_owned()
}

/// Relies on BaseStrategy::data_dir of etcetera's Xdg strategy: the user's
/// data directory; converted to text lossily.
#[verifier::external_body]
fn xdg_data_dir(x: &etcetera::base_strategy::Xdg) -> (r: String) {
    x.data_dir().to_string_lossy().into_owned()
}

/// Relies on BaseStrategy::cache_dir of etcetera's Xdg strategy: the user's
/// cache directory; converted to text lossily.
#[verifier::external_body]
fn xdg_cache_dir(x: &etcetera::base_strategy::Xdg) -> (r: String) {
    x.cache_dir().to_string_lossy().into_owned()
}

/// Relies on BaseStrategy::state_dir of etcetera's Xdg strategy: the user's
/// state directory when the system has one; converted to text lossily.
#[verifier::external_body]
fn xdg_state_dir(x: &etcetera::base_strategy::Xdg) -> (r: Option<String>) {
    match x.state_dir() {
        Some(p) => Some(p.to_string_lossy().into_owned()),
        None => None,
    }
}

/// Relies on BaseStrategy::runtime_dir of etcetera's Xdg strategy: the
/// user's runtime directory when the system has one; converted to text
/// lossily.
#[verifier::external_body]
fn xdg_runtime_dir(x: &etcetera::base_strategy::Xdg) -> (r: Option<String>) {
    match x.runtime_dir() {
        Some(p) => Some(p.to_string_lossy().into_owned()),
        None => None,
    }
}

/// Resolves an XDG directory name, matched without regard to case, to the
/// corresponding base directory of the current user.
///
/// An unrecognized name is rejected with `InvalidName`, and only such a
/// name is. A recognized name fails only when the environment provides no
/// home directory, or, for the state and runtime directories, when the
/// system has none.
pub fn get_xdg_dir_path(xdg_dir: &str) -> (r: Result<String, XdgError>)
    ensures
        (r is Err && r->Err_0 == XdgError::InvalidName) <==> xdg_dir_kind(lower_of(xdg_dir@))
            == XdgDirKind::Unknown,
        (r is Err && r->Err_0 == XdgError::Unavailable) ==> (xdg_dir_kind(lower_of(xdg_dir@))
            == XdgDirKind::State || xdg_dir_kind(lower_of(xdg_dir@)) == XdgDirKind::Runtime),
{
    let kind = classify_xdg_dir(xdg_dir);
    match kind {
        XdgDirKind::Config => match choose_base() {
            Ok(x) => Ok(xdg_config_dir(&x)),
            Err(_) => Err(XdgError::NoBaseDirectory),
        },
        XdgDirKind::Data => match choose_base() {
            Ok(x) => Ok(xdg_data_dir(&x)),
            Err(_) => Err(XdgError::NoBaseDirectory),
        },
        XdgDirKind::Cache => match choose_base() {
            Ok(x) => Ok(xdg_cache_dir(&x)),
            Err(_) => Err(XdgError::NoBaseDirectory),
        },
        XdgDirKind::State => match choose_base() {
            Ok(x) => match xdg_state_dir(&x) {
                Some(p) => Ok(p),
                None => Err(XdgError::Unavailable),
            },
            Err(_) => Err(XdgError::NoBaseDirectory),
        },
        XdgDirKind::Runtime => match choose_base() {
            Ok(x) => match xdg_runtime_dir(&x) {
                Some(p) => Ok(p),
                None => Err(XdgError::Unavailable),
            },
            Err(_) => Err(XdgError::NoBaseDirectory),
        },
        XdgDirKind::Unknown => Err(XdgError::InvalidName),
    }
}

/// A directory path extended by one component: a separator is inserted
/// unless the directory is empty or already ends with one.
pub open spec fn join_path(dir: Seq<char>, name: Seq<char>) -> Seq<char> {
    if dir.len() == 0 {
        name
    } else if dir.last() == '/' {
        dir + name
    } else {
        dir + "/"@ + name
    }
}

/// Appends one path component to a directory path.
pub fn join_component(dir: &str, name: &str) -> (r: String)
    ensures
        r@ == join_path(dir@, name@),
{
    let n = dir.unicode_len();
    if n == 0 {
        return String::from_str(name);
    }
    let mut out = String::from_str(dir);
    if dir.get_char(n - 1) != '/' {
        out.append("/");
    }
    out.append(name);
    out
}

/// The root under which the desktop environment keeps its configuration,
/// inside the given XDG directory: that directory's path extended by the
/// `cosmic` component.
pub fn get_cosmic_configurations(xdg_dir: &str) -> (r: Result<String, XdgError>)
    ensures
        (r is Err && r->Err_0 == XdgError::InvalidName) <==> xdg_dir_kind(lower_of(xdg_dir@))
            == XdgDirKind::Unknown,
        (r is Err && r->Err_0 == XdgError::Unavailable) ==> (xdg_dir_kind(lower_of(xdg_dir@))
            == XdgDirKind::State || xdg_dir_kind(lower_of(xdg_dir@)) == XdgDirKind::Runtime),
        r is Ok ==> exists|d: Seq<char>| r->Ok_0@ == join_path(d, "cosmic"@),
{
    match get_xdg_dir_path(xdg_dir) {
        Ok(dir) => {
            let joined = join_component(dir.as_str(), "cosmic");
            proof {
                assert(joined@ == join_path(dir@, "cosmic"@));
            }
            Ok(joined)
        },
        Err(e) => Err(e),
    }
}

/// The version directory's name: `v` followed by the version in decimal.
pub open spec fn version_component(version: u64) -> Seq<char> {
    "v"@ + dec_str(version as nat)
}

/// The path of one configuration entry inside the given XDG directory:
/// the configuration root extended by the component's name, the version
/// directory, and the entry's name.
pub fn get_configuration_path(component: &str, version: &u64, entry: &str, xdg_dir: &str) -> (r:
    Result<String, XdgError>)
    ensures
        (r is Err && r->Err_0 == XdgError::InvalidName) <==> xdg_dir_kind(lower_of(xdg_dir@))
            == XdgDirKind::Unknown,
        r is Ok ==> exists|root: Seq<char>|
            r->Ok_0@ == join_path(
                join_path(join_path(root, component@), version_component(*version)),
                entry@,
            ),
{
    match get_cosmic_configurations(xdg_dir) {
        Ok(root) => {
            let mut vdir = String::new();
            push_char(&mut vdir, 'v');
            let digits = format_u64(*version);
            vdir.append(digits.as_str());
            proof {
                reveal_strlit("v");
                assert(vdir@ =~= version_component(*version));
            }
            let with_component = join_component(root.as_str(), component);
            let with_version = join_component(with_component.as_str(), vdir.as_str());
            let full = join_component(with_version.as_str(), entry);
            proof {
                assert(full@ == join_path(
                    join_path(join_path(root@, component@), version_component(*version)),
                    entry@,
                ));
            }
            Ok(full)
        },
        Err(e) => Err(e),
    }
}

} // verus!
