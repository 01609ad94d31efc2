use s3_adapter::lifecycle::bulk_delete_plan;
use s3_adapter::lifecycle::ensure_bucket_outcome;
use s3_adapter::lifecycle::ownership_outcome;
use s3_adapter::lifecycle::teardown_start;
use s3_adapter::lifecycle::teardown_step;
use s3_adapter::lifecycle::BulkDeletePlan;
use s3_adapter::lifecycle::CreateBucketResponse;
use s3_adapter::lifecycle::FatalReason;
use s3_adapter::lifecycle::OwnershipOutcome;
use s3_adapter::lifecycle::OwnershipResponse;
use s3_adapter::lifecycle::ProvisionOutcome;
use s3_adapter::lifecycle::TeardownAction;
use s3_adapter::lifecycle::TeardownEvent;
use s3_adapter::lifecycle::TeardownState;

#[test]
fn empty_bulk_delete_is_a_no_op() {
    assert!(matches!(bulk_delete_plan(vec![]), BulkDeletePlan::NoCall));
}

#[test]
fn non_empty_bulk_delete_passes_all_keys() {
    let keys = vec![b"a/1".to_vec(), b"a/2".to_vec()];
    match bulk_delete_plan(keys.clone()) {
        BulkDeletePlan::Call(ks) => assert_eq!(ks, keys),
        BulkDeletePlan::NoCall => panic!("a non-empty set must reach the backend"),
    }
}

#[test]
fn provisioning_reuse_is_idempotent() {
    // First attempt: the bucket is created.
    let first = ensure_bucket_outcome(true, CreateBucketResponse::Created);
    assert!(matches!(first, ProvisionOutcome::Provisioned));
    // Second attempt: the bucket already exists under this identity, and
    // reuse is allowed, so the outcome is again success.
    let second = ensure_bucket_outcome(true, CreateBucketResponse::AlreadyOwnedByYou);
    assert!(matches!(second, ProvisionOutcome::Provisioned));
}

#[test]
fn provisioning_reuse_denied_is_fatal() {
    let r = ensure_bucket_outcome(false, CreateBucketResponse::AlreadyOwnedByYou);
    assert!(matches!(r, ProvisionOutcome::Fatal(FatalReason::ReuseDenied)));
}

#[test]
fn provisioning_foreign_owner_and_failures() {
    let r = ensure_bucket_outcome(true, CreateBucketResponse::AlreadyOwnedByOther);
    assert!(matches!(r, ProvisionOutcome::AlreadyOwnedBySomeoneElse));
    let r = ensure_bucket_outcome(true, CreateBucketResponse::Failed(b"boom".to_vec()));
    match r {
        ProvisionOutcome::Fatal(FatalReason::Backend(d)) => assert_eq!(d, b"boom".to_vec()),
        _ => panic!("a backend failure must surface as fatal with its detail"),
    }
}

#[test]
fn ownership_translation() {
    assert!(matches!(
        ownership_outcome(OwnershipResponse::Owned),
        OwnershipOutcome::Owned
    ));
    assert!(matches!(
        ownership_outcome(OwnershipResponse::Forbidden),
        OwnershipOutcome::OwnedByOther
    ));
    match ownership_outcome(OwnershipResponse::Failed(b"down".to_vec())) {
        OwnershipOutcome::Fatal(d) => assert_eq!(d, b"down".to_vec()),
        _ => panic!("a check failure must surface as fatal"),
    }
}

#[test]
fn teardown_deletes_objects_before_the_bucket() {
    let keys = vec![b"a/1".to_vec(), b"a/2".to_vec(), b"a/3".to_vec()];
    let mut calls: Vec<&str> = Vec::new();

    let (state, action) = teardown_start();
    assert!(matches!(action, TeardownAction::IssueListing));
    calls.push("list");

    let (state, action) = teardown_step(state, TeardownEvent::ListingOk(keys.clone()));
    match &action {
        TeardownAction::IssueBulkDelete(ks) => {
            assert_eq!(*ks, keys);
            calls.push("delete_objects");
        }
        _ => panic!("after a non-empty listing the objects must be deleted first"),
    }

    let (state, action) = teardown_step(state, TeardownEvent::ObjectsDeleted);
    assert!(matches!(action, TeardownAction::IssueBucketDelete));
    calls.push("delete_bucket");

    let (state, action) = teardown_step(state, TeardownEvent::BucketDeleted);
    assert!(matches!(state, TeardownState::Complete));
    assert!(matches!(action, TeardownAction::ReportSuccess));

    // The bucket deletion was issued only after every object was gone.
    assert_eq!(calls, vec!["list", "delete_objects", "delete_bucket"]);
}

#[test]
fn teardown_of_an_empty_bucket_skips_the_bulk_delete() {
    let (state, _) = teardown_start();
    let (state, action) = teardown_step(state, TeardownEvent::ListingOk(vec![]));
    assert!(matches!(action, TeardownAction::IssueBucketDelete));
    let (state, action) = teardown_step(state, TeardownEvent::BucketDeleted);
    assert!(matches!(state, TeardownState::Complete));
    assert!(matches!(action, TeardownAction::ReportSuccess));
}

#[test]
fn teardown_failure_abandons_the_rest() {
    let (state, _) = teardown_start();
    let (state, action) = teardown_step(state, TeardownEvent::ListingFailed(b"nope".to_vec()));
    assert!(matches!(state, TeardownState::Failed));
    match action {
        TeardownAction::ReportFatal(d) => assert_eq!(d, b"nope".to_vec()),
        _ => panic!("a failed step must surface as fatal"),
    }

    let (state2, _) = teardown_start();
    let (state2, _) = teardown_step(state2, TeardownEvent::ListingOk(vec![b"k".to_vec()]));
    let (state2, action) =
        teardown_step(state2, TeardownEvent::ObjectDeletionFailed(b"half".to_vec()));
    assert!(matches!(state2, TeardownState::Failed));
    assert!(matches!(action, TeardownAction::ReportFatal(_)));

    // Events that do not belong to the current state fail the teardown too.
    let (s, a) = teardown_step(state, TeardownEvent::BucketDeleted);
    assert!(matches!(s, TeardownState::Failed));
    assert!(matches!(a, TeardownAction::ReportFatal(_)));
}
