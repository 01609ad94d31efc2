//! Bucket lifecycle decisions: provisioning, ownership verification, bulk
//! deletion, and the ordered teardown state machine.
//!
//! The remote calls themselves happen outside the library; these functions
//! turn each backend response into the next decision, so the branching logic
//! is verified while the driver merely performs the actions it is handed.

use vstd::prelude::*;

verus! {

/// Why provisioning or teardown failed for good.
pub enum FatalReason {
    /// The bucket already exists under the caller's identity, but the
    /// configuration forbids reusing it.
    ReuseDenied,
    /// The backend reported an error; the raw detail is attached.
    Backend(Vec<u8>),
}

/// The backend's answer to a create-bucket call, reduced to the cases the
/// decision logic branches on.
pub enum CreateBucketResponse {
    /// The bucket was created.
    Created,
    /// The bucket already exists and the caller owns it.
    AlreadyOwnedByYou,
    /// The bucket already exists under someone else's identity.
    AlreadyOwnedByOther,
    /// Any other backend failure, with the raw detail.
    Failed(Vec<u8>),
}

/// The outcome of a provisioning attempt.
pub enum ProvisionOutcome {
    /// The bucket is ready: created now, or reused as configured.
    Provisioned,
    /// The bucket exists under another identity.
    AlreadyOwnedBySomeoneElse,
    /// The bucket cannot be provisioned.
    Fatal(FatalReason),
}

/// Decides the outcome of a provisioning attempt from the backend's answer
/// to the create-bucket call.  Reuse of a self-owned bucket is success
/// exactly when `reuse_existing` allows it; with reuse denied the same
/// answer is fatal rather than silently accepted.
pub fn ensure_bucket_outcome(reuse_existing: bool, response: CreateBucketResponse) -> (r:
    ProvisionOutcome)
    ensures
        (r is Provisioned) <==> (response is Created || (response is AlreadyOwnedByYou
            && reuse_existing)),
        response is AlreadyOwnedByYou && !reuse_existing ==> r == ProvisionOutcome::Fatal(
            FatalReason::ReuseDenied,
        ),
        response is AlreadyOwnedByOther ==> r is AlreadyOwnedBySomeoneElse,
        response matches CreateBucketResponse::Failed(d) ==> r == ProvisionOutcome::Fatal(
            FatalReason::Backend(d),
        ),
{
    match response {
        CreateBucketResponse::Created => ProvisionOutcome::Provisioned,
        CreateBucketResponse::AlreadyOwnedByYou => {
            if reuse_existing {
                ProvisionOutcome::Provisioned
            } else {
                ProvisionOutcome::Fatal(FatalReason::ReuseDenied)
            }
        },
        CreateBucketResponse::AlreadyOwnedByOther => ProvisionOutcome::AlreadyOwnedBySomeoneElse,
        CreateBucketResponse::Failed(d) => ProvisionOutcome::Fatal(FatalReason::Backend(d)),
    }
}

/// The backend's answer to an ownership check.
pub enum OwnershipResponse {
    /// The bucket exists and the expected owner holds it.
    Owned,
    /// The backend refused access: the bucket is held by another account.
    Forbidden,
    /// Any other backend failure, with the raw detail.
    Failed(Vec<u8>),
}

/// The outcome of an ownership verification.
pub enum OwnershipOutcome {
    /// The bucket is owned as expected.
    Owned,
    /// The bucket is owned by another account: distinguished from generic
    /// transport failures so the caller can react to the conflict.
    OwnedByOther,
    /// The check itself failed.
    Fatal(Vec<u8>),
}

/// Translates the backend's answer to an ownership check; a forbidden
/// response specifically becomes the owned-by-other conflict.
pub fn ownership_outcome(response: OwnershipResponse) -> (r: OwnershipOutcome)
    ensures
        response is Owned <==> r is Owned,
        response is Forbidden <==> r is OwnedByOther,
        response matches OwnershipResponse::Failed(d) ==> r == OwnershipOutcome::Fatal(d),
{
    match response {
        OwnershipResponse::Owned => OwnershipOutcome::Owned,
        OwnershipResponse::Forbidden => OwnershipOutcome::OwnedByOther,
        OwnershipResponse::Failed(d) => OwnershipOutcome::Fatal(d),
    }
}

/// The plan for a bulk deletion: an empty key set never reaches the
/// backend, because its bulk-delete call is invalid on an empty set.
pub enum BulkDeletePlan {
    /// Nothing to delete: trivially successful, no backend call.
    NoCall,
    /// Issue one bulk-delete call for exactly these keys.
    Call(Vec<Vec<u8>>),
}

/// Plans a bulk deletion: the empty key set short-circuits to a successful
/// no-op without a backend call; a non-empty set is passed through whole.
pub fn bulk_delete_plan(keys: Vec<Vec<u8>>) -> (r: BulkDeletePlan)
    ensures
        keys@.len() == 0 <==> r is NoCall,
        keys@.len() > 0 ==> r == BulkDeletePlan::Call(keys),
{
    if keys.len() == 0 {
        BulkDeletePlan::NoCall
    } else {
        BulkDeletePlan::Call(keys)
    }
}

/// Where a teardown stands between remote calls.
pub enum TeardownState {
    /// The listing of all objects has been requested.
    AwaitingListing,
    /// The bulk deletion of the listed keys has been requested.
    AwaitingObjectDeletion,
    /// Every object is gone; the bucket deletion has been requested.
    AwaitingBucketDeletion,
    /// The bucket and all its objects are gone.
    Complete,
    /// A step failed; the remaining steps were abandoned.
    Failed,
}

/// What the backend answered to the teardown's outstanding call.
pub enum TeardownEvent {
    /// The listing returned these object keys.
    ListingOk(Vec<Vec<u8>>),
    /// The listing failed, with the raw detail.
    ListingFailed(Vec<u8>),
    /// The bulk deletion succeeded.
    ObjectsDeleted,
    /// The bulk deletion failed, with the raw detail.
    ObjectDeletionFailed(Vec<u8>),
    /// The bucket deletion succeeded.
    BucketDeleted,
    /// The bucket deletion failed, with the raw detail.
    BucketDeletionFailed(Vec<u8>),
}

/// What the driver must do next.
pub enum TeardownAction {
    /// List all objects in the bucket.
    IssueListing,
    /// Bulk-delete exactly these keys.
    IssueBulkDelete(Vec<Vec<u8>>),
    /// Delete the now-empty bucket.
    IssueBucketDelete,
    /// The teardown finished successfully.
    ReportSuccess,
    /// The teardown failed for good, with the raw detail.
    ReportFatal(Vec<u8>),
}

/// The pairings of state and event that belong to a run of the protocol.
pub open spec fn teardown_step_fits(state: TeardownState, event: TeardownEvent) -> bool {
    match state {
        TeardownState::AwaitingListing => event is ListingOk || event is ListingFailed,
        TeardownState::AwaitingObjectDeletion => event is ObjectsDeleted
            || event is ObjectDeletionFailed,
        TeardownState::AwaitingBucketDeletion => event is BucketDeleted
            || event is BucketDeletionFailed,
        TeardownState::Complete => false,
        TeardownState::Failed => false,
    }
}

/// Starts a teardown: the first step is always the listing.
pub fn teardown_start() -> (r: (TeardownState, TeardownAction))
    ensures
        r.0 is AwaitingListing,
        r.1 is IssueListing,
{
    (TeardownState::AwaitingListing, TeardownAction::IssueListing)
}

/// Advances a teardown by one backend answer, deciding the next state and
/// action.  The order is fixed: listing, then bulk deletion of everything
/// listed, then bucket deletion; any failure abandons the remaining steps.
/// The bucket deletion is issued only once no object is left: after a
/// successful bulk deletion, or after a listing that found the bucket
/// already empty (the empty bulk deletion being a no-op).
pub fn teardown_step(state: TeardownState, event: TeardownEvent) -> (r: (
    TeardownState,
    TeardownAction,
))
    ensures
        state is AwaitingListing ==> (event matches TeardownEvent::ListingOk(keys) ==> ((
        keys@.len() == 0 ==> r.0 is AwaitingBucketDeletion && r.1 is IssueBucketDelete) && (
        keys@.len() > 0 ==> r.0 is AwaitingObjectDeletion && r.1
            == TeardownAction::IssueBulkDelete(keys)))),
        state is AwaitingListing ==> (event matches TeardownEvent::ListingFailed(d) ==> r.0
            is Failed && r.1 == TeardownAction::ReportFatal(d)),
        state is AwaitingObjectDeletion && event is ObjectsDeleted ==> r.0
            is AwaitingBucketDeletion && r.1 is IssueBucketDelete,
        state is AwaitingObjectDeletion ==> (event matches TeardownEvent::ObjectDeletionFailed(d)
            ==> r.0 is Failed && r.1 == TeardownAction::ReportFatal(d)),
        state is AwaitingBucketDeletion && event is BucketDeleted ==> r.0 is Complete && r.1
            is ReportSuccess,
        state is AwaitingBucketDeletion ==> (event matches TeardownEvent::BucketDeletionFailed(d)
            ==> r.0 is Failed && r.1 == TeardownAction::ReportFatal(d)),
        !teardown_step_fits(state, event) ==> r.0 is Failed && (r.1 matches
            TeardownAction::ReportFatal(d) && d@.len() == 0),
        r.1 is IssueBucketDelete ==> (state is AwaitingObjectDeletion && event is ObjectsDeleted)
            || (state is AwaitingListing && (event matches TeardownEvent::ListingOk(keys)
            && keys@.len() == 0)),
        r.1 matches TeardownAction::IssueBulkDelete(ks) ==> state is AwaitingListing && (
        event matches TeardownEvent::ListingOk(keys) && ks == keys && keys@.len() > 0),
        r.1 is ReportSuccess ==> state is AwaitingBucketDeletion && event is BucketDeleted,
{
    match (state, event) {
        (TeardownState::AwaitingListing, TeardownEvent::ListingOk(keys)) => {
            if keys.len() == 0 {
                (TeardownState::AwaitingBucketDeletion, TeardownAction::IssueBucketDelete)
            } else {
                (TeardownState::AwaitingObjectDeletion, TeardownAction::IssueBulkDelete(keys))
            }
        },
        (TeardownState::AwaitingListing, TeardownEvent::ListingFailed(d)) => (
            TeardownState::Failed,
            TeardownAction::ReportFatal(d),
        ),
        (TeardownState::AwaitingObjectDeletion, TeardownEvent::ObjectsDeleted) => (
            TeardownState::AwaitingBucketDeletion,
            TeardownAction::IssueBucketDelete,
        ),
        (TeardownState::AwaitingObjectDeletion, TeardownEvent::ObjectDeletionFailed(d)) => (
            TeardownState::Failed,
            TeardownAction::ReportFatal(d),
        ),
        (TeardownState::AwaitingBucketDeletion, TeardownEvent::BucketDeleted) => (
            TeardownState::Complete,
            TeardownAction::ReportSuccess,
        ),
        (TeardownState::AwaitingBucketDeletion, TeardownEvent::BucketDeletionFailed(d)) => (
            TeardownState::Failed,
            TeardownAction::ReportFatal(d),
        ),
        (_, _) => (TeardownState::Failed, TeardownAction::ReportFatal(Vec::new())),
    }
}

} // verus!
