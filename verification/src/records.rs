//! The records handed to the host when it lists remotes.
//!
//! A record is a read-time projection: the section name and type read
//! from the configuration file, the mount point derived from the remote
//! name and the home directory, and the two live status flags the host's
//! probes report. Nothing here is persisted.

use crate::parser::RemoteSection;
use crate::paths::{mount_dir, mount_dir_spec};
use vstd::prelude::*;

verus! {

/// One remote as shown to the user: configuration plus live status.
pub struct RemoteRecord {
    pub name: String,
    pub kind: String,
    pub mount_point: String,
    pub mounted: bool,
    pub scheduled: bool,
}

/// Builds the record for a parsed section: the mount point is derived
/// from the remote's name and the home directory, and the two status
/// flags are taken as the host's probes reported them.
pub fn build_record(section: RemoteSection, home: &str, mounted: bool, scheduled: bool) -> (r:
    RemoteRecord)
    ensures
        r.name@ == section@.0,
        r.kind@ == section@.1,
        r.mount_point@ == mount_dir_spec(home@, section@.0),
        r.mounted == mounted,
        r.scheduled == scheduled,
{
    let mount_point = mount_dir(home, section.name.as_str());
    RemoteRecord { name: section.name, kind: section.kind, mount_point, mounted, scheduled }
}

} // verus!
