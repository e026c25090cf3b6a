//! Bulk delivery of export documents and the report of what was committed.
//!
//! A batch of documents becomes one bulk call of upserts, one per document,
//! keyed by the document's key. The engine answers with one status per
//! operation. A bulk call can fail in part: the report keeps the outcome of
//! every item, and a retry holds exactly the items that failed.

use crate::json::{
    array_elements, elements_of, member_of, object_member, whole_number, whole_number_of,
};
use crate::product_index::{Document, ProductExportData};
use crate::text::{decimal, i32_to_string};
use vstd::prelude::*;
use vstd::string::*;

verus! {

/// One operation of a bulk call, as contracts see it.
pub struct Upsert {
    pub id: Seq<char>,
    pub document: Document,
    pub doc_as_upsert: bool,
}

/// An update of the document stored under `id` that inserts the document
/// where none is stored yet.
#[derive(Debug)]
pub struct BulkOperation {
    pub id: String,
    pub document: ProductExportData,
    pub doc_as_upsert: bool,
}

impl DeepView for BulkOperation {
    type V = Upsert;

    open spec fn deep_view(&self) -> Upsert {
        Upsert { id: self.id@, document: self.document@, doc_as_upsert: self.doc_as_upsert }
    }
}

impl Clone for BulkOperation {
    fn clone(&self) -> (copy: Self)
        ensures
            copy.deep_view() == self.deep_view(),
    {
        BulkOperation {
            id: self.id.clone(),
            document: self.document.clone(),
            doc_as_upsert: self.doc_as_upsert,
        }
    }
}

/// One bulk call, as contracts see it.
pub struct BulkCall {
    pub target: Seq<char>,
    pub operations: Seq<Upsert>,
}

/// The operations of one bulk call and the index or alias that they go to.
#[derive(Debug)]
pub struct BulkRequest {
    pub target: String,
    pub operations: Vec<BulkOperation>,
}

impl DeepView for BulkRequest {
    type V = BulkCall;

    open spec fn deep_view(&self) -> BulkCall {
        BulkCall { target: self.target@, operations: self.operations.deep_view() }
    }
}

/// The upsert of one document: its id is the decimal text of the key.
pub open spec fn upsert_of(document: Document) -> Upsert {
    Upsert { id: decimal(document.id), document, doc_as_upsert: true }
}

/// The upserts of a batch, one per document, in the batch's order.
pub open spec fn upserts_of(documents: Seq<Document>) -> Seq<Upsert> {
    Seq::new(documents.len(), |i: int| upsert_of(documents[i]))
}

/// The bulk call for a batch; none for an empty batch.
pub open spec fn bulk_call(target: Seq<char>, documents: Seq<Document>) -> Option<BulkCall> {
    if documents.len() == 0 {
        None
    } else {
        Some(BulkCall { target, operations: upserts_of(documents) })
    }
}

/// Whether a status code of the engine stands for success.
pub open spec fn status_is_success(status: u16) -> bool {
    200 <= status < 300
}

/// Whether the operation at `position` was committed according to the
/// statuses that came back. An operation without a status was not.
pub open spec fn committed(statuses: Seq<u16>, position: int) -> bool {
    0 <= position < statuses.len() && status_is_success(statuses[position])
}

/// The operations that were not committed, in their order.
pub open spec fn failed_operations(operations: Seq<Upsert>, statuses: Seq<u16>) -> Seq<Upsert>
    decreases operations.len(),
{
    if operations.len() == 0 {
        Seq::empty()
    } else if committed(statuses, operations.len() - 1) {
        failed_operations(operations.drop_last(), statuses)
    } else {
        failed_operations(operations.drop_last(), statuses).push(operations.last())
    }
}

/// The call that tries the failed operations of `call` again; none where all
/// were committed.
pub open spec fn retry_call(call: BulkCall, statuses: Seq<u16>) -> Option<BulkCall> {
    let failed = failed_operations(call.operations, statuses);
    if failed.len() == 0 {
        None
    } else {
        Some(BulkCall { target: call.target, operations: failed })
    }
}

/// The outcome of one operation: the key of its document and whether it was
/// committed.
#[derive(Debug, Clone, Copy, PartialEq, Eq, Structural)]
pub struct ItemOutcome {
    pub key: i32,
    pub succeeded: bool,
}

/// The outcomes of a call's operations, in the call's order.
pub open spec fn outcomes_of(operations: Seq<Upsert>, statuses: Seq<u16>) -> Seq<ItemOutcome> {
    Seq::new(
        operations.len(),
        |i: int|
            ItemOutcome { key: operations[i].document.id as i32, succeeded: committed(statuses, i) },
    )
}

/// The keys of the outcomes that have the given result, in their order.
pub open spec fn keys_with(items: Seq<ItemOutcome>, succeeded: bool) -> Seq<i32>
    decreases items.len(),
{
    if items.len() == 0 {
        Seq::empty()
    } else if items.last().succeeded == succeeded {
        keys_with(items.drop_last(), succeeded).push(items.last().key)
    } else {
        keys_with(items.drop_last(), succeeded)
    }
}

/// What a bulk call achieved, item by item.
#[derive(Debug)]
pub struct WriteReport {
    pub items: Vec<ItemOutcome>,
}

impl View for WriteReport {
    type V = Seq<ItemOutcome>;

    open spec fn view(&self) -> Seq<ItemOutcome> {
        self.items@
    }
}

/// Whether a status code of the engine stands for success: the codes from 200
/// to 299 do.
pub fn is_success(status: u16) -> (success: bool)
    ensures
        success == status_is_success(status),
{
    200 <= status && status < 300
}

/// Builds the bulk call that upserts `documents` into `target`. An empty
/// batch needs no call: the result is `None`, which is no error.
pub fn write(target: &str, documents: &Vec<ProductExportData>) -> (request: Option<BulkRequest>)
    ensures
        request.deep_view() == bulk_call(target@, documents.deep_view()),
{
    if documents.len() == 0 {
        return None;
    }
    let mut operations: Vec<BulkOperation> = Vec::new();
    let mut i: usize = 0;
    while i < documents.len()
        invariant
            i <= documents.len(),
            operations@.len() == i,
            forall|j: int|
                0 <= j < i ==> (#[trigger] operations@[j]).deep_view() == upsert_of(
                    documents@[j]@,
                ),
        decreases documents.len() - i,
    {
        let document = documents[i].clone();
        operations.push(
            BulkOperation { id: i32_to_string(document.id), document, doc_as_upsert: true },
        );
        i = i + 1;
    }
    assert(operations.deep_view() =~= upserts_of(documents.deep_view()));
    Some(BulkRequest { target: target.to_owned(), operations })
}

impl WriteReport {
    /// The report of a call from the statuses that the engine returned, one
    /// for each operation and in the order of the operations. An operation
    /// whose status is missing counts as failed, so the report of a call that
    /// got no answer at all has every item failed.
    pub fn new(request: &BulkRequest, statuses: &Vec<u16>) -> (report: Self)
        ensures
            report@ == outcomes_of(request.deep_view().operations, statuses@),
    {
        let mut items: Vec<ItemOutcome> = Vec::new();
        let mut i: usize = 0;
        while i < request.operations.len()
            invariant
                i <= request.operations.len(),
                items@.len() == i,
                forall|j: int|
                    0 <= j < i ==> #[trigger] items@[j] == (ItemOutcome {
                        key: request.operations@[j].document.id,
                        succeeded: committed(statuses@, j),
                    }),
            decreases request.operations.len() - i,
        {
            let succeeded = i < statuses.len() && is_success(statuses[i]);
            items.push(ItemOutcome { key: request.operations[i].document.id, succeeded });
            i = i + 1;
        }
        assert(items@ =~= outcomes_of(request.deep_view().operations, statuses@));
        WriteReport { items }
    }

    /// Whether every item was committed.
    pub fn is_fully_committed(&self) -> (full: bool)
        ensures
            full == (keys_with(self@, false).len() == 0),
    {
        let failed = self.failed_keys();
        failed.len() == 0
    }

    /// The keys of the documents that were not committed.
    pub fn failed_keys(&self) -> (keys: Vec<i32>)
        ensures
            keys@ == keys_with(self@, false),
    {
        self.keys_where(false)
    }

    /// The keys of the documents that were committed.
    pub fn succeeded_keys(&self) -> (keys: Vec<i32>)
        ensures
            keys@ == keys_with(self@, true),
    {
        self.keys_where(true)
    }

    fn keys_where(&self, succeeded: bool) -> (keys: Vec<i32>)
        ensures
            keys@ == keys_with(self@, succeeded),
    {
        let mut keys: Vec<i32> = Vec::new();
        let mut i: usize = 0;
        while i < self.items.len()
            invariant
                i <= self.items.len(),
                keys@ == keys_with(self@.take(i as int), succeeded),
            decreases self.items.len() - i,
        {
            assert(self@.take(i as int + 1).drop_last() =~= self@.take(i as int));
            if self.items[i].succeeded == succeeded {
                keys.push(self.items[i].key);
            }
            i = i + 1;
        }
        assert(self@.take(i as int) =~= self@);
        keys
    }
}

/// The call that tries again what `request` did not get committed: the failed
/// operations, unchanged and in their order, for the same target. `None`
/// where every operation was committed.
pub fn retry(request: &BulkRequest, statuses: &Vec<u16>) -> (again: Option<BulkRequest>)
    ensures
        again.deep_view() == retry_call(request.deep_view(), statuses@),
{
    let ghost all = request.deep_view().operations;
    let mut operations: Vec<BulkOperation> = Vec::new();
    let mut i: usize = 0;
    while i < request.operations.len()
        invariant
            i <= request.operations.len(),
            all == request.operations.deep_view(),
            operations.deep_view() == failed_operations(all.take(i as int), statuses@),
        decreases request.operations.len() - i,
    {
        assert(all.take(i as int + 1).drop_last() =~= all.take(i as int));
        assert(all.take(i as int + 1).last() == request.operations@[i as int].deep_view());
        let succeeded = i < statuses.len() && is_success(statuses[i]);
        if !succeeded {
            let ghost before = operations.deep_view();
            operations.push(request.operations[i].clone());
            assert(operations.deep_view() =~= before.push(
                request.operations@[i as int].deep_view(),
            ));
        }
        i = i + 1;
    }
    assert(all.take(i as int) =~= all);
    if operations.len() == 0 {
        None
    } else {
        Some(BulkRequest { target: request.target.clone(), operations })
    }
}


impl Clone for BulkRequest {
    fn clone(&self) -> (copy: Self)
        ensures
            copy.deep_view() == self.deep_view(),
    {
        let mut operations: Vec<BulkOperation> = Vec::new();
        let mut i: usize = 0;
        while i < self.operations.len()
            invariant
                i <= self.operations.len(),
                operations@.len() == i,
                forall|j: int|
                    0 <= j < i ==> (#[trigger] operations@[j]).deep_view()
                        == self.operations@[j].deep_view(),
            decreases self.operations.len() - i,
        {
            operations.push(self.operations[i].clone());
            i = i + 1;
        }
        assert(operations.deep_view() =~= self.operations.deep_view());
        BulkRequest { target: self.target.clone(), operations }
    }
}

/// A partial failure is reported item by item, and a retry holds the failed
/// items only. Of the operations of a call, those without a success status
/// are exactly the ones that the retry holds, in their order; their keys are
/// the failed keys of the report; and every operation is reported once, as
/// failed or as succeeded.
pub proof fn lemma_retry_holds_exactly_the_failed(operations: Seq<Upsert>, statuses: Seq<u16>)
    ensures
        forall|operation: Upsert|
            failed_operations(operations, statuses).contains(operation) <==> exists|i: int|
                0 <= i < operations.len() && #[trigger] operations[i] == operation && !committed(
                    statuses,
                    i,
                ),
        keys_with(outcomes_of(operations, statuses), false).len() == failed_operations(
            operations,
            statuses,
        ).len(),
        forall|k: int|
            0 <= k < failed_operations(operations, statuses).len() ==> keys_with(
                outcomes_of(operations, statuses),
                false,
            )[k] == (#[trigger] failed_operations(operations, statuses)[k]).document.id as i32,
        keys_with(outcomes_of(operations, statuses), false).len() + keys_with(
            outcomes_of(operations, statuses),
            true,
        ).len() == operations.len(),
    decreases operations.len(),
{
    let failed = failed_operations(operations, statuses);
    let outcomes = outcomes_of(operations, statuses);
    if operations.len() > 0 {
        let front = operations.drop_last();
        let earlier = failed_operations(front, statuses);
        let last = operations.len() - 1;
        lemma_retry_holds_exactly_the_failed(front, statuses);
        assert(outcomes.drop_last() =~= outcomes_of(front, statuses));
        assert(outcomes.last().succeeded == committed(statuses, last));
        assert forall|operation: Upsert| failed.contains(operation) implies exists|i: int|
            0 <= i < operations.len() && #[trigger] operations[i] == operation && !committed(
                statuses,
                i,
            ) by {
            if earlier.contains(operation) {
                let i = choose|i: int|
                    0 <= i < front.len() && #[trigger] front[i] == operation && !committed(
                        statuses,
                        i,
                    );
                assert(operations[i] == operation);
            } else {
                let k = choose|k: int| 0 <= k < failed.len() && failed[k] == operation;
                if k < earlier.len() {
                    assert(earlier[k] == operation);
                }
                assert(operations[last] == operation);
            }
        }
        assert forall|operation: Upsert|
            (exists|i: int|
                0 <= i < operations.len() && #[trigger] operations[i] == operation && !committed(
                    statuses,
                    i,
                )) implies failed.contains(operation) by {
            let i = choose|i: int|
                0 <= i < operations.len() && #[trigger] operations[i] == operation && !committed(
                    statuses,
                    i,
                );
            if i < last {
                assert(front[i] == operation);
                assert(earlier.contains(operation));
                let k = choose|k: int| 0 <= k < earlier.len() && earlier[k] == operation;
                assert(failed[k] == operation);
            } else {
                assert(failed[failed.len() - 1] == operation);
            }
        }
    }
}


/// The status that the engine's answer gives for one operation: the whole
/// number under `status` in the object under `update`, and 0, which is no
/// success, where the item is not of that shape or the number is no status
/// code.
pub open spec fn answered_status(item: serde_json::Value) -> u16 {
    match member_of(item, "update"@) {
        Some(outcome) => match member_of(outcome, "status"@) {
            Some(status) => match whole_number_of(status) {
                Some(code) => if code <= 0xffff {
                    code as u16
                } else {
                    0
                },
                None => 0,
            },
            None => 0,
        },
        None => 0,
    }
}

/// The statuses of the operations of a bulk call according to the engine's
/// answer: one for each element of the array under `items`, in their order,
/// and none where the answer is not of that shape.
pub open spec fn answered_statuses(answer: serde_json::Value) -> Seq<u16> {
    match member_of(answer, "items"@) {
        Some(items) => match elements_of(items) {
            Some(elements) => Seq::new(elements.len(), |i: int| answered_status(elements[i])),
            None => Seq::empty(),
        },
        None => Seq::empty(),
    }
}

fn status_of_item(item: &serde_json::Value) -> (status: u16)
    ensures
        status == answered_status(*item),
{
    match object_member(item, "update") {
        Some(outcome) => match object_member(outcome, "status") {
            Some(status) => match whole_number(status) {
                Some(code) => if code <= 0xffff {
                    code as u16
                } else {
                    0
                },
                None => 0,
            },
            None => 0,
        },
        None => 0,
    }
}

/// Reads the statuses of the operations out of the engine's answer to a bulk
/// call.
pub fn statuses_of_answer(answer: &serde_json::Value) -> (statuses: Vec<u16>)
    ensures
        statuses@ == answered_statuses(*answer),
{
    let mut statuses: Vec<u16> = Vec::new();
    let elements = match object_member(answer, "items") {
        Some(items) => match array_elements(items) {
            Some(elements) => elements,
            None => {
                return statuses;
            },
        },
        None => {
            return statuses;
        },
    };
    let mut i: usize = 0;
    while i < elements.len()
        invariant
            i <= elements.len(),
            statuses@.len() == i,
            forall|j: int| 0 <= j < i ==> statuses@[j] == answered_status(elements@[j]),
        decreases elements.len() - i,
    {
        statuses.push(status_of_item(&elements[i]));
        i = i + 1;
    }
    assert(statuses@ =~= answered_statuses(*answer));
    statuses
}

} // verus!
