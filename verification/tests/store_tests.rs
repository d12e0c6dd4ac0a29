use iloveu::store::{plan_migration, IloveuTransactionsStore, MigrationPlan, UnknownVersion,
    LATEST_VERSION};
use iloveu::types::MediaType;

#[test]
fn migration_plan_covers_every_version() {
    assert_eq!(plan_migration(0), Ok(MigrationPlan::CreateEmptyLog));
    assert_eq!(plan_migration(LATEST_VERSION), Ok(MigrationPlan::AlreadyCurrent));
    assert_eq!(plan_migration(2), Err(UnknownVersion { found: 2 }));
    assert_eq!(plan_migration(u64::MAX), Err(UnknownVersion { found: u64::MAX }));
}

#[test]
fn the_blob_reference_points_at_the_payload() {
    let mut store = IloveuTransactionsStore::open(Vec::new());
    store.add_tag("family");
    let payload = vec![0xCDu8; 37];
    let reference = store.add_media(
        "title",
        "description",
        &vec![0],
        0.0f64.to_bits(),
        MediaType::Picture,
        "p.png",
        &payload,
    );
    assert_eq!(reference.size, 37);
    let log = store.get_transactions_raw();
    let start = reference.offset as usize;
    assert_eq!(&log[start..start + 37], payload.as_slice());
}

#[test]
fn appends_only_ever_extend_the_log() {
    let mut store = IloveuTransactionsStore::open(Vec::new());
    store.add_tag("a");
    let first = store.get_transactions_raw().clone();
    store.add_tag("b");
    let second = store.get_transactions_raw().clone();
    assert_eq!(&second[..first.len()], first.as_slice());
    assert!(second.len() > first.len());
}
