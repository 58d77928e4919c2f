use vstd::prelude::*;

use crate::errors::ReconcileError;
use crate::path;
use crate::store::MemoryStore;

verus! {

use vstd::string::StringExecFns;

/// The canonical reference locator for a stored object: the bucket's public
/// URL followed by the object key.
pub open spec fn reference_of(bucket: Seq<char>, key: Seq<char>) -> Seq<char> {
    "https://"@ + bucket + ".s3.amazonaws.com/"@ + key
}

/// Builds the canonical reference locator string for an object.
pub fn make_reference(bucket: &str, key: &str) -> (reference: String)
    ensures
        reference@ == reference_of(bucket@, key@),
{
    let mut reference = String::from_str("https://");
    reference.append(bucket);
    reference.append(".s3.amazonaws.com/");
    reference.append(key);
    proof {
        assert(reference@ =~= reference_of(bucket@, key@));
    }
    reference
}

/// One file-creation notification: the bucket holding the object and the
/// object's slash-delimited key.
pub struct NotificationItem {
    pub bucket: String,
    pub key: String,
}

/// The derived work for one well-formed item: the record identity and the
/// reference to write.
pub struct ItemPlan {
    pub parent_name: String,
    pub child_name: String,
    pub reference: String,
}

/// Derives the record identity and the reference for one notification item;
/// an item whose key is malformed is rejected without any derived work.
pub fn plan_item(bucket: &str, key: &str) -> (result: Result<ItemPlan, ReconcileError>)
    ensures
        match result {
            Ok(plan) => path::path_well_formed(key@) && plan.parent_name@ == path::parent_of(key@)
                && plan.child_name@ == path::child_of(key@) && plan.reference@ == reference_of(
                bucket@,
                key@,
            ),
            Err(e) => !path::path_well_formed(key@) && e == ReconcileError::MalformedPath,
        },
{
    let names = match path::extract_names(key) {
        Ok(names) => names,
        Err(e) => {
            return Err(e);
        },
    };
    let reference = make_reference(bucket, key);
    Ok(ItemPlan { parent_name: names.0, child_name: names.1, reference })
}

/// The write chosen for one item: a per-item two-state machine whose sole
/// discriminator is the existence check.
#[derive(Clone, Copy, Debug, PartialEq, Eq, Structural)]
pub enum StoreAction {
    /// No record carries the identity yet: create one.
    Insert,
    /// A record already carries the identity: overwrite its reference.
    Update,
}

/// Chooses the write from the existence check alone: an identity already
/// seen is updated, one not yet seen is inserted.
pub fn choose_action(seen: bool) -> (action: StoreAction)
    ensures
        action == if seen {
            StoreAction::Update
        } else {
            StoreAction::Insert
        },
{
    if seen {
        StoreAction::Update
    } else {
        StoreAction::Insert
    }
}

/// The store contents after one identity is reconciled: whether the identity
/// was present or absent, it afterwards maps to `reference`, and no other
/// identity changes.
pub open spec fn reconciled(
    contents: Map<(Seq<char>, Seq<char>), Seq<char>>,
    parent_name: Seq<char>,
    child_name: Seq<char>,
    reference: Seq<char>,
) -> Map<(Seq<char>, Seq<char>), Seq<char>> {
    contents.insert((parent_name, child_name), reference)
}

/// Runs the existence check and the chosen write for one planned item.
pub fn reconcile_item(store: &mut MemoryStore, plan: &ItemPlan)
    requires
        old(store).wf(),
    ensures
        final(store).wf(),
        final(store)@ == reconciled(
            old(store)@,
            plan.parent_name@,
            plan.child_name@,
            plan.reference@,
        ),
{
    let found = store.find(plan.parent_name.as_str(), plan.child_name.as_str());
    match choose_action(found.is_some()) {
        StoreAction::Update => store.update(
            plan.parent_name.as_str(),
            plan.child_name.as_str(),
            plan.reference.as_str(),
        ),
        StoreAction::Insert => store.insert(
            plan.parent_name.as_str(),
            plan.child_name.as_str(),
            plan.reference.as_str(),
        ),
    }
}

/// The store contents after one notification item: a well-formed key maps
/// its derived identity to the derived reference; a malformed key changes
/// nothing.
pub open spec fn item_reconciled(
    contents: Map<(Seq<char>, Seq<char>), Seq<char>>,
    item: NotificationItem,
) -> Map<(Seq<char>, Seq<char>), Seq<char>> {
    if path::path_well_formed(item.key@) {
        reconciled(
            contents,
            path::parent_of(item.key@),
            path::child_of(item.key@),
            reference_of(item.bucket@, item.key@),
        )
    } else {
        contents
    }
}

/// Reconciles one notification item end to end: derive the identity, build
/// the reference, then insert or update. A malformed key leaves the store
/// unchanged and reports the failure for this item alone.
pub fn process_item(store: &mut MemoryStore, item: &NotificationItem) -> (result: Result<
    (),
    ReconcileError,
>)
    requires
        old(store).wf(),
    ensures
        final(store).wf(),
        final(store)@ == item_reconciled(old(store)@, *item),
        result is Ok <==> path::path_well_formed(item.key@),
        result is Err ==> result == Err::<(), ReconcileError>(ReconcileError::MalformedPath),
{
    match plan_item(item.bucket.as_str(), item.key.as_str()) {
        Ok(plan) => {
            reconcile_item(store, &plan);
            Ok(())
        },
        Err(e) => Err(e),
    }
}

/// The store contents after a batch of notification items is drained in
/// order.
pub open spec fn batch_reconciled(
    contents: Map<(Seq<char>, Seq<char>), Seq<char>>,
    items: Seq<NotificationItem>,
) -> Map<(Seq<char>, Seq<char>), Seq<char>>
    decreases items.len(),
{
    if items.len() == 0 {
        contents
    } else {
        item_reconciled(batch_reconciled(contents, items.drop_last()), items.last())
    }
}

/// The contained per-item failures of a batch, in item order.
pub open spec fn batch_failures(items: Seq<NotificationItem>) -> Seq<ReconcileError>
    decreases items.len(),
{
    if items.len() == 0 {
        Seq::empty()
    } else {
        let prev = batch_failures(items.drop_last());
        if path::path_well_formed(items.last().key@) {
            prev
        } else {
            prev.push(ReconcileError::MalformedPath)
        }
    }
}

/// The aggregated result of one batch: how many items were reconciled, and
/// the failures that were contained item by item.
pub struct BatchOutcome {
    pub succeeded: usize,
    pub failures: Vec<ReconcileError>,
}

/// Drains a batch of notification items in order. Every item is attempted:
/// a failing item is reported in the outcome and never stops the rest of
/// the batch.
pub fn process_batch(store: &mut MemoryStore, items: &Vec<NotificationItem>) -> (outcome:
    BatchOutcome)
    requires
        old(store).wf(),
    ensures
        final(store).wf(),
        final(store)@ == batch_reconciled(old(store)@, items@),
        outcome.failures@ == batch_failures(items@),
        outcome.succeeded + outcome.failures@.len() == items@.len(),
{
    let mut succeeded: usize = 0;
    let mut failures: Vec<ReconcileError> = Vec::new();
    let n = items.len();
    let mut i: usize = 0;
    while i < n
        invariant
            i <= n,
            n == items@.len(),
            store.wf(),
            store@ == batch_reconciled(old(store)@, items@.subrange(0, i as int)),
            failures@ == batch_failures(items@.subrange(0, i as int)),
            succeeded + failures@.len() == i,
        decreases n - i,
    {
        let ghost prefix = items@.subrange(0, i as int);
        match process_item(store, &items[i]) {
            Ok(()) => {
                succeeded = succeeded + 1;
            },
            Err(e) => {
                failures.push(e);
            },
        }
        i = i + 1;
        proof {
            assert(items@.subrange(0, i as int).drop_last() =~= prefix);
            assert(items@.subrange(0, i as int).last() == items@[i - 1]);
        }
    }
    proof {
        assert(items@.subrange(0, n as int) =~= items@);
    }
    BatchOutcome { succeeded, failures }
}

/// Idempotence of one reconciliation: writing the same identity and
/// reference twice leaves the same store contents as writing them once.
pub proof fn lemma_reconcile_idempotent(
    contents: Map<(Seq<char>, Seq<char>), Seq<char>>,
    parent_name: Seq<char>,
    child_name: Seq<char>,
    reference: Seq<char>,
)
    ensures
        reconciled(
            reconciled(contents, parent_name, child_name, reference),
            parent_name,
            child_name,
            reference,
        ) == reconciled(contents, parent_name, child_name, reference),
{
    assert(reconciled(
        reconciled(contents, parent_name, child_name, reference),
        parent_name,
        child_name,
        reference,
    ) =~= reconciled(contents, parent_name, child_name, reference));
}

/// Idempotence of one notification item: processing the same item twice
/// yields store contents identical to processing it once.
pub proof fn lemma_item_idempotent(
    contents: Map<(Seq<char>, Seq<char>), Seq<char>>,
    item: NotificationItem,
)
    ensures
        item_reconciled(item_reconciled(contents, item), item) == item_reconciled(contents, item),
{
    if path::path_well_formed(item.key@) {
        lemma_reconcile_idempotent(
            contents,
            path::parent_of(item.key@),
            path::child_of(item.key@),
            reference_of(item.bucket@, item.key@),
        );
    }
}

/// First sighting: with no prior record for the identity, one
/// reconciliation leaves exactly one new record, whose reference is the
/// derived locator, and every other identity untouched.
pub proof fn lemma_first_sighting(
    contents: Map<(Seq<char>, Seq<char>), Seq<char>>,
    parent_name: Seq<char>,
    child_name: Seq<char>,
    reference: Seq<char>,
)
    requires
        !contents.contains_key((parent_name, child_name)),
    ensures
        reconciled(contents, parent_name, child_name, reference).contains_key(
            (parent_name, child_name),
        ),
        reconciled(contents, parent_name, child_name, reference)[(parent_name, child_name)]
            == reference,
        reconciled(contents, parent_name, child_name, reference).dom() == contents.dom().insert(
            (parent_name, child_name),
        ),
        contents.dom().finite() ==> reconciled(
            contents,
            parent_name,
            child_name,
            reference,
        ).dom().len() == contents.dom().len() + 1,
{
    assert(reconciled(contents, parent_name, child_name, reference).dom()
        =~= contents.dom().insert((parent_name, child_name)));
}

/// Update: reconciling an identity that already has a record overwrites its
/// reference and leaves the set of identities unchanged.
pub proof fn lemma_update_overwrites(
    contents: Map<(Seq<char>, Seq<char>), Seq<char>>,
    parent_name: Seq<char>,
    child_name: Seq<char>,
    reference: Seq<char>,
)
    requires
        contents.contains_key((parent_name, child_name)),
    ensures
        reconciled(contents, parent_name, child_name, reference)[(parent_name, child_name)]
            == reference,
        reconciled(contents, parent_name, child_name, reference).dom() == contents.dom(),
{
    assert(reconciled(contents, parent_name, child_name, reference).dom() =~= contents.dom());
}

/// Partial-failure isolation: a batch of one malformed item and one
/// well-formed item reconciles the well-formed item exactly as if it stood
/// alone, and reports one contained failure for the malformed one.
pub proof fn lemma_partial_failure_isolation(
    contents: Map<(Seq<char>, Seq<char>), Seq<char>>,
    bad: NotificationItem,
    good: NotificationItem,
)
    requires
        !path::path_well_formed(bad.key@),
        path::path_well_formed(good.key@),
    ensures
        batch_reconciled(contents, seq![bad, good]) == item_reconciled(contents, good),
        batch_failures(seq![bad, good]) == seq![ReconcileError::MalformedPath],
{
    reveal_with_fuel(batch_reconciled, 3);
    reveal_with_fuel(batch_failures, 3);
    let items = seq![bad, good];
    assert(items.drop_last() =~= seq![bad]);
    assert(items.last() == good);
    assert(seq![bad].drop_last() =~= Seq::<NotificationItem>::empty());
    assert(seq![bad].last() == bad);
    assert(batch_reconciled(contents, seq![bad]) == contents);
    assert(batch_failures(seq![bad]) =~= seq![ReconcileError::MalformedPath]);
    assert(batch_failures(items) =~= seq![ReconcileError::MalformedPath]);
}

} // verus!
