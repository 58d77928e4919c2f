use drink_images::errors::ReconcileError;
use drink_images::reconcile::choose_action;
use drink_images::reconcile::make_reference;
use drink_images::reconcile::plan_item;
use drink_images::reconcile::process_batch;
use drink_images::reconcile::process_item;
use drink_images::reconcile::reconcile_item;
use drink_images::reconcile::NotificationItem;
use drink_images::reconcile::StoreAction;
use drink_images::store::str_eq;
use drink_images::store::MemoryStore;

fn item(bucket: &str, key: &str) -> NotificationItem {
    NotificationItem { bucket: bucket.to_string(), key: key.to_string() }
}

#[test]
fn reference_is_bucket_url_plus_key() {
    assert_eq!(
        make_reference("bar-bucket", "mojito-bar/margarita.png"),
        "https://bar-bucket.s3.amazonaws.com/mojito-bar/margarita.png"
    );
}

#[test]
fn plan_derives_identity_and_reference() {
    let plan = plan_item("bar-bucket", "mojito-bar/margarita.png").unwrap();
    assert_eq!(plan.parent_name, "mojito-bar");
    assert_eq!(plan.child_name, "margarita");
    assert_eq!(plan.reference, "https://bar-bucket.s3.amazonaws.com/mojito-bar/margarita.png");
}

#[test]
fn plan_rejects_malformed_key() {
    assert!(matches!(plan_item("bar-bucket", "margarita"), Err(ReconcileError::MalformedPath)));
}

#[test]
fn action_follows_existence_check() {
    assert_eq!(choose_action(false), StoreAction::Insert);
    assert_eq!(choose_action(true), StoreAction::Update);
}

#[test]
fn store_find_absent_is_none() {
    let store = MemoryStore::new();
    assert_eq!(store.find("mojito-bar", "margarita"), None);
}

#[test]
fn store_insert_then_find() {
    let mut store = MemoryStore::new();
    store.insert("mojito-bar", "margarita", "url-one");
    assert_eq!(store.find("mojito-bar", "margarita"), Some("url-one".to_string()));
    assert_eq!(store.find("mojito-bar", "daiquiri"), None);
    assert_eq!(store.find("tiki-bar", "margarita"), None);
    assert_eq!(store.len(), 1);
}

#[test]
fn store_insert_overwrites_duplicate_key() {
    let mut store = MemoryStore::new();
    store.insert("mojito-bar", "margarita", "url-one");
    store.insert("mojito-bar", "margarita", "url-two");
    assert_eq!(store.find("mojito-bar", "margarita"), Some("url-two".to_string()));
    assert_eq!(store.len(), 1);
}

#[test]
fn store_update_missing_key_is_a_no_op() {
    let mut store = MemoryStore::new();
    store.update("mojito-bar", "margarita", "url-one");
    assert_eq!(store.find("mojito-bar", "margarita"), None);
    assert_eq!(store.len(), 0);
}

#[test]
fn first_sighting_inserts_one_record() {
    let mut store = MemoryStore::new();
    let result = process_item(&mut store, &item("bar-bucket", "mojito-bar/margarita.png"));
    assert!(result.is_ok());
    assert_eq!(store.len(), 1);
    assert_eq!(
        store.find("mojito-bar", "margarita"),
        Some("https://bar-bucket.s3.amazonaws.com/mojito-bar/margarita.png".to_string())
    );
}

#[test]
fn repeated_item_leaves_state_of_a_single_run() {
    let mut once = MemoryStore::new();
    let mut twice = MemoryStore::new();
    let notification = item("bar-bucket", "mojito-bar/margarita.png");
    process_item(&mut once, &notification).unwrap();
    process_item(&mut twice, &notification).unwrap();
    process_item(&mut twice, &notification).unwrap();
    assert_eq!(once.len(), twice.len());
    assert_eq!(once.find("mojito-bar", "margarita"), twice.find("mojito-bar", "margarita"));
}

#[test]
fn new_reference_overwrites_existing_record() {
    let mut store = MemoryStore::new();
    store.insert("mojito-bar", "margarita", "https://old-bucket.s3.amazonaws.com/stale.png");
    let result = process_item(&mut store, &item("bar-bucket", "mojito-bar/margarita.png"));
    assert!(result.is_ok());
    assert_eq!(store.len(), 1);
    assert_eq!(
        store.find("mojito-bar", "margarita"),
        Some("https://bar-bucket.s3.amazonaws.com/mojito-bar/margarita.png".to_string())
    );
}

#[test]
fn reconcile_item_writes_planned_reference() {
    let mut store = MemoryStore::new();
    let plan = plan_item("bar-bucket", "tiki-bar/mai-tai.jpg").unwrap();
    reconcile_item(&mut store, &plan);
    assert_eq!(
        store.find("tiki-bar", "mai-tai"),
        Some("https://bar-bucket.s3.amazonaws.com/tiki-bar/mai-tai.jpg".to_string())
    );
}

#[test]
fn malformed_item_does_not_stop_the_batch() {
    let mut store = MemoryStore::new();
    let batch = vec![
        item("bar-bucket", "no-extension"),
        item("bar-bucket", "mojito-bar/margarita.png"),
    ];
    let outcome = process_batch(&mut store, &batch);
    assert_eq!(outcome.succeeded, 1);
    assert_eq!(outcome.failures, vec![ReconcileError::MalformedPath]);
    assert_eq!(store.len(), 1);
    assert_eq!(
        store.find("mojito-bar", "margarita"),
        Some("https://bar-bucket.s3.amazonaws.com/mojito-bar/margarita.png".to_string())
    );
}

#[test]
fn batch_reconciles_every_well_formed_item() {
    let mut store = MemoryStore::new();
    let batch = vec![
        item("bar-bucket", "mojito-bar/margarita.png"),
        item("bar-bucket", "mojito-bar/daiquiri.png"),
        item("bar-bucket", "tiki-bar/margarita.png"),
        item("bar-bucket", "mojito-bar/margarita.jpg"),
    ];
    let outcome = process_batch(&mut store, &batch);
    assert_eq!(outcome.succeeded, 4);
    assert_eq!(outcome.failures, vec![]);
    assert_eq!(store.len(), 3);
    assert_eq!(
        store.find("mojito-bar", "margarita"),
        Some("https://bar-bucket.s3.amazonaws.com/mojito-bar/margarita.jpg".to_string())
    );
}

#[test]
fn empty_batch_succeeds_with_nothing_done() {
    let mut store = MemoryStore::new();
    let outcome = process_batch(&mut store, &vec![]);
    assert_eq!(outcome.succeeded, 0);
    assert_eq!(outcome.failures, vec![]);
    assert_eq!(store.len(), 0);
}

#[test]
fn str_eq_compares_contents() {
    assert!(str_eq("margarita", "margarita"));
    assert!(!str_eq("margarita", "margarit"));
    assert!(!str_eq("margarita", "daiquiri"));
    assert!(str_eq("", ""));
}
