use vstd::prelude::*;

verus! {

/// How a local profile relates to its last synchronized state.
#[derive(Debug, PartialEq, Eq, Structural)]
pub enum SyncStatus {
    Synced,
    LocalChanged,
    CloudChanged,
    Conflict,
    NotSynced,
}

/// The synchronization decision: with no recorded metadata nothing was ever
/// synchronized; otherwise the local side changed exactly when the local
/// checksum left the recorded one, and the cloud side changed exactly when
/// the cloud version grew past the recorded one.
pub open spec fn sync_status_spec(
    recorded: Option<(Seq<char>, i32)>,
    local_checksum: Seq<char>,
    cloud_version: Option<i32>,
) -> SyncStatus {
    match recorded {
        None => SyncStatus::NotSynced,
        Some((recorded_sum, recorded_version)) => {
            let local_changed = local_checksum != recorded_sum;
            let cloud_changed = match cloud_version {
                Some(v) => v > recorded_version,
                None => false,
            };
            if local_changed && cloud_changed {
                SyncStatus::Conflict
            } else if local_changed {
                SyncStatus::LocalChanged
            } else if cloud_changed {
                SyncStatus::CloudChanged
            } else {
                SyncStatus::Synced
            }
        },
    }
}

/// Decides a profile's synchronization status from the recorded metadata
/// (checksum and cloud version at last sync), the current local checksum,
/// and the current cloud version.
pub fn get_sync_status(
    recorded: Option<(String, i32)>,
    local_checksum: &str,
    cloud_version: Option<i32>,
) -> (r: SyncStatus)
    ensures
        r == sync_status_spec(
            match recorded {
                Some(m) => Some((m.0@, m.1)),
                None => None,
            },
            local_checksum@,
            cloud_version,
        ),
{
    match recorded {
        None => SyncStatus::NotSynced,
        Some((recorded_sum, recorded_version)) => {
            let local_changed = !crate::strutil::str_eq(local_checksum, recorded_sum.as_str());
            let cloud_changed = match cloud_version {
                Some(v) => v > recorded_version,
                None => false,
            };
            if local_changed && cloud_changed {
                SyncStatus::Conflict
            } else if local_changed {
                SyncStatus::LocalChanged
            } else if cloud_changed {
                SyncStatus::CloudChanged
            } else {
                SyncStatus::Synced
            }
        },
    }
}

} // verus!
