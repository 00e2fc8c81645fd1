//! The rules of a whole run: what must hold before each phase begins, and
//! what the run comes to at its end.

use vstd::prelude::*;
use vstd::string::*;
use crate::artifact::{ArtifactError, BackupArtifact, BuildAction};
use crate::discovery::{DiscoveryError, Listing};
use crate::order::{build_order, build_order_of, uuid_at};
use crate::replicate::{
    all_succeeded, failed_destinations, failed_positions, lemma_failed_positions_empty, plan_for,
    replication_plan, views, Destination, DestinationText, ReplicationOutcome, ReplicationStep,
};
use crate::volume::{EncryptedVolume, VolumeMap};

verus! {

/// Why a run did not succeed.
#[derive(Debug)]
pub enum RunError {
    /// The caller lacks the right to read raw device headers.
    NotPrivileged,
    /// No destination was given, neither a directory nor an endpoint.
    NoDestinations,
    /// The encrypted volumes could not be listed.
    Discovery(DiscoveryError),
    /// The machine has no encrypted volume.
    NoVolumes,
    /// A volume's artifact could not be built.
    Artifact(ArtifactError),
    /// Not every volume has its artifact.
    IncompleteArtifacts,
    /// These destinations failed, by position.
    DestinationsFailed(Vec<usize>),
}

/// A run goes on only for a caller who may read raw device headers.
pub fn check_privilege(is_root: bool) -> (r: Result<(), RunError>)
    ensures
        is_root ==> r is Ok,
        !is_root ==> r matches Err(RunError::NotPrivileged),
{
    if is_root {
        Ok(())
    } else {
        Err(RunError::NotPrivileged)
    }
}

/// The destinations that `directories` and `endpoints` name: the
/// directories first, then the endpoints, each group in its order.
pub open spec fn destinations_of(directories: Seq<String>, endpoints: Seq<String>) -> Seq<
    DestinationText,
> {
    Seq::new(
        directories.len() + endpoints.len(),
        |i: int|
            if i < directories.len() {
                DestinationText::Local(directories[i]@)
            } else {
                DestinationText::Remote(endpoints[i - directories.len()]@)
            },
    )
}

/// The destinations of a run. At least one is needed.
pub fn destinations_from(directories: Vec<String>, endpoints: Vec<String>) -> (r: Result<
    Vec<Destination>,
    RunError,
>)
    ensures
        match r {
            Ok(destinations) => directories@.len() + endpoints@.len() > 0 && views(destinations@)
                == destinations_of(directories@, endpoints@),
            Err(e) => directories@.len() + endpoints@.len() == 0 && e is NoDestinations,
        },
{
    if directories.len() == 0 && endpoints.len() == 0 {
        return Err(RunError::NoDestinations);
    }
    let mut destinations: Vec<Destination> = Vec::new();
    let mut i: usize = 0;
    while i < directories.len()
        invariant
            i <= directories@.len(),
            destinations@.len() == i,
            forall|k: int|
                0 <= k < i ==> (#[trigger] destinations@[k])@ == DestinationText::Local(
                    directories@[k]@,
                ),
        decreases directories@.len() - i,
    {
        destinations.push(Destination::Local(directories[i].clone()));
        i += 1;
    }
    let mut j: usize = 0;
    while j < endpoints.len()
        invariant
            j <= endpoints@.len(),
            destinations@.len() == directories@.len() + j,
            forall|k: int|
                0 <= k < directories@.len() ==> (#[trigger] destinations@[k])@
                    == DestinationText::Local(directories@[k]@),
            forall|k: int|
                directories@.len() <= k < directories@.len() + j ==> (#[trigger] destinations@[k])@
                    == DestinationText::Remote(endpoints@[k - directories@.len()]@),
        decreases endpoints@.len() - j,
    {
        destinations.push(Destination::Remote(endpoints[j].clone()));
        j += 1;
    }
    proof {
        assert(views(destinations@) =~= destinations_of(directories@, endpoints@));
    }
    Ok(destinations)
}

/// The volumes to back up, from what discovery gave. A run without an
/// encrypted volume fails here, before any artifact is built and before
/// anything is replicated.
pub fn require_volumes(found: Result<Listing, DiscoveryError>) -> (r: Result<
    VolumeMap,
    RunError,
>)
    ensures
        match found {
            Ok(listing) => if listing.volumes.entries@.len() == 0 {
                r matches Err(RunError::NoVolumes)
            } else {
                r == Ok::<VolumeMap, RunError>(listing.volumes)
            },
            Err(e) => r == Err::<VolumeMap, RunError>(RunError::Discovery(e)),
        },
{
    match found {
        Ok(listing) => {
            if listing.volumes.is_empty() {
                Err(RunError::NoVolumes)
            } else {
                Ok(listing.volumes)
            }
        },
        Err(e) => Err(RunError::Discovery(e)),
    }
}

/// How far the build of one artifact has come.
#[derive(Debug)]
pub enum BuildProgress {
    /// The artifact is built.
    Built(BackupArtifact),
    /// The build has failed, and with it the run: no artifact of the run is
    /// replicated.
    Abandoned(RunError),
    /// The build goes on with this action.
    Pending(BuildAction),
}

/// What an action of a build means for the run. A build that is given up
/// ends the run with the build's error; a finished one hands out its
/// artifact; any other action is still to be carried out.
pub fn progress_of(action: BuildAction) -> (r: BuildProgress)
    ensures
        match action {
            BuildAction::Finish(artifact) => r == BuildProgress::Built(artifact),
            BuildAction::Abort(e) => r == BuildProgress::Abandoned(RunError::Artifact(e)),
            _ => r == BuildProgress::Pending(action),
        },
{
    match action {
        BuildAction::Finish(artifact) => BuildProgress::Built(artifact),
        BuildAction::Abort(e) => BuildProgress::Abandoned(RunError::Artifact(e)),
        other => BuildProgress::Pending(other),
    }
}

/// Whether `artifacts` holds one artifact for each of `volumes`, in the
/// order in which the volumes are backed up.
pub open spec fn artifacts_complete(
    volumes: Seq<EncryptedVolume>,
    artifacts: Seq<BackupArtifact>,
) -> bool {
    &&& artifacts.len() == volumes.len()
    &&& forall|i: int|
        0 <= i < volumes.len() ==> (#[trigger] artifacts[i]).uuid@ == uuid_at(
            volumes,
            build_order_of(volumes)[i] as int,
        )
}

/// Computes `artifacts_complete`.
pub fn has_all_artifacts(volumes: &VolumeMap, artifacts: &Vec<BackupArtifact>) -> (r: bool)
    ensures
        r == artifacts_complete(volumes.entries@, artifacts@),
{
    if artifacts.len() != volumes.entries.len() {
        return false;
    }
    let order = build_order(&volumes.entries);
    let mut i: usize = 0;
    while i < artifacts.len()
        invariant
            artifacts@.len() == volumes.entries@.len(),
            order@ == build_order_of(volumes.entries@),
            order@.len() == volumes.entries@.len(),
            forall|k: int| 0 <= k < order@.len() ==> #[trigger] order@[k] < volumes.entries@.len(),
            i <= artifacts@.len(),
            forall|k: int|
                0 <= k < i ==> (#[trigger] artifacts@[k]).uuid@ == uuid_at(
                    volumes.entries@,
                    order@[k] as int,
                ),
        decreases artifacts@.len() - i,
    {
        if artifacts[i].uuid != volumes.entries[order[i]].uuid {
            return false;
        }
        i += 1;
    }
    true
}

/// The steps of the replication, if it may begin. It may not where no
/// volume was found, where a volume lacks its artifact (an incomplete set
/// is not replicated), or where there is no destination; then there is no
/// step to carry out. The artifacts stand in the order in which the volumes
/// are backed up, which `build_order` gives.
pub fn begin_replication(
    volumes: &VolumeMap,
    artifacts: &Vec<BackupArtifact>,
    destinations: &Vec<Destination>,
) -> (r: Result<Vec<ReplicationStep>, RunError>)
    ensures
        match r {
            Ok(plan) => {
                &&& volumes.entries@.len() > 0
                &&& artifacts_complete(volumes.entries@, artifacts@)
                &&& destinations@.len() > 0
                &&& views(plan@) == plan_for(views(destinations@), views(artifacts@))
            },
            Err(e) => if volumes.entries@.len() == 0 {
                e is NoVolumes
            } else if !artifacts_complete(volumes.entries@, artifacts@) {
                e is IncompleteArtifacts
            } else {
                destinations@.len() == 0 && e is NoDestinations
            },
        },
{
    if volumes.is_empty() {
        Err(RunError::NoVolumes)
    } else if !has_all_artifacts(volumes, artifacts) {
        Err(RunError::IncompleteArtifacts)
    } else if destinations.len() == 0 {
        Err(RunError::NoDestinations)
    } else {
        Ok(replication_plan(artifacts, destinations))
    }
}

/// What the run comes to: it succeeds exactly if every destination
/// succeeded, and otherwise names the destinations that failed.
pub fn conclude(outcomes: &Vec<ReplicationOutcome>) -> (r: Result<(), RunError>)
    ensures
        match r {
            Ok(_) => all_succeeded(outcomes@),
            Err(e) => {
                &&& !all_succeeded(outcomes@)
                &&& e matches RunError::DestinationsFailed(failed)
                &&& failed@ == failed_positions(outcomes@)
            },
        },
{
    let failed = failed_destinations(outcomes);
    proof {
        lemma_failed_positions_empty(outcomes@);
    }
    if failed.len() == 0 {
        Ok(())
    } else {
        Err(RunError::DestinationsFailed(failed))
    }
}

} // verus!
