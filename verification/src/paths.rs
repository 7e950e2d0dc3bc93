//! Resolution of configuration-file and mount-point paths.
//!
//! A user-supplied path may begin with the home-directory shorthand `~`,
//! which stands for the home directory when it is the whole first path
//! component (the path is `~` itself or starts with `~/`). When no path is
//! supplied at all, the platform default configuration location under the
//! home directory is used.

use crate::errors::CoreError;
use vstd::prelude::*;

verus! {

/// The tilde shorthand calls for the home directory exactly when it is the
/// whole first path component: the path is `~` alone or begins with `~/`.
pub open spec fn needs_home(path: Seq<char>) -> bool {
    path.len() >= 1 && path[0] == '~' && (path.len() == 1 || path[1] == '/')
}

/// The expansion of a path: the home directory replaces the leading `~`
/// of a path whose first component is the shorthand; any other path is
/// returned unchanged.
pub open spec fn expanded_path(path: Seq<char>, home: Seq<char>) -> Seq<char> {
    if needs_home(path) {
        home + path.skip(1)
    } else {
        path
    }
}

/// The platform default configuration location under a home directory.
pub open spec fn default_config_path_spec(home: Seq<char>) -> Seq<char> {
    home + "/.config/rclone/rclone.conf"@
}

/// The mount point assigned to a remote: `<home>/mnt/<name>`.
pub open spec fn mount_dir_spec(home: Seq<char>, name: Seq<char>) -> Seq<char> {
    home + "/mnt/"@ + name
}

/// Expands the home-directory shorthand at the front of `path`.
pub fn expand_tilde(path: &str, home: &str) -> (r: String)
    ensures
        r@ == expanded_path(path@, home@),
{
    let n = path.unicode_len();
    if n >= 1 && path.get_char(0) == '~' && (n == 1 || path.get_char(1) == '/') {
        let rest = path.substring_char(1, n);
        let mut out = String::from_str(home);
        out.append(rest);
        out
    } else {
        path.to_owned()
    }
}

/// The default configuration location for a given home directory.
pub fn default_config_path(home: &str) -> (r: String)
    ensures
        r@ == default_config_path_spec(home@),
{
    let mut out = String::from_str(home);
    out.append("/.config/rclone/rclone.conf");
    out
}

/// Resolves the configuration-file location the host should read: a
/// supplied path with its home shorthand expanded, or the platform
/// default under the home directory when none is supplied. Fails
/// exactly when the home directory is called for but unavailable.
pub fn resolve_config_path(path: Option<&str>, home: Option<&str>) -> (r: Result<
    String,
    CoreError,
>)
    ensures
        match r {
            Ok(p) => match (path, home) {
                (Some(q), Some(h)) => p@ == expanded_path(q@, h@),
                (Some(q), None) => !needs_home(q@) && p@ == q@,
                (None, Some(h)) => p@ == default_config_path_spec(h@),
                (None, None) => false,
            },
            Err(e) => {
                &&& e is Environment
                &&& home is None
                &&& match path {
                    Some(q) => needs_home(q@),
                    None => true,
                }
            },
        },
{
    match path {
        Some(q) => {
            let n = q.unicode_len();
            if n >= 1 && q.get_char(0) == '~' && (n == 1 || q.get_char(1) == '/') {
                match home {
                    Some(h) => Ok(expand_tilde(q, h)),
                    None => Err(CoreError::Environment),
                }
            } else {
                Ok(q.to_owned())
            }
        },
        None => match home {
            Some(h) => Ok(default_config_path(h)),
            None => Err(CoreError::Environment),
        },
    }
}

/// The mount point for a remote of the given name.
pub fn mount_dir(home: &str, name: &str) -> (r: String)
    ensures
        r@ == mount_dir_spec(home@, name@),
{
    let mut out = String::from_str(home);
    out.append("/mnt/");
    out.append(name);
    out
}

} // verus!
