//! What upserts do to the documents of an index.
//!
//! An index holds at most one document under each key. An upsert stores a
//! document under its key, whether or not one is stored there already. So a
//! bulk call that is repeated, or batches that arrive in another order, leave
//! the same documents behind.

use crate::bulk::{BulkCall, BulkRequest, Upsert};
use crate::product_index::{Document, ProductExportData};
use vstd::prelude::*;

verus! {

/// The documents of an index after `documents` were upserted one after the
/// other.
pub open spec fn upsert_all(contents: Map<int, Document>, documents: Seq<Document>) -> Map<
    int,
    Document,
>
    decreases documents.len(),
{
    if documents.len() == 0 {
        contents
    } else {
        upsert_all(contents, documents.drop_last()).insert(documents.last().id, documents.last())
    }
}

/// The last of `documents` that has the key, if any has.
pub open spec fn last_with_key(documents: Seq<Document>, key: int) -> Option<Document>
    decreases documents.len(),
{
    if documents.len() == 0 {
        None
    } else if documents.last().id == key {
        Some(documents.last())
    } else {
        last_with_key(documents.drop_last(), key)
    }
}

/// The documents that the operations of a call carry.
pub open spec fn documents_of(operations: Seq<Upsert>) -> Seq<Document> {
    Seq::new(operations.len(), |i: int| operations[i].document)
}

/// Whether documents with the same key are the same document, as they are
/// when all of them were built from one state of the source.
pub open spec fn keyed(documents: Seq<Document>) -> bool {
    forall|i: int, j: int|
        0 <= i < documents.len() && 0 <= j < documents.len() && (#[trigger] documents[i]).id == (
        #[trigger] documents[j]).id ==> documents[i] == documents[j]
}

/// After a series of upserts a key holds the last document that was upserted
/// under it, and what it held before where none was.
pub proof fn lemma_upsert_all_lookup(
    contents: Map<int, Document>,
    documents: Seq<Document>,
    key: int,
)
    ensures
        upsert_all(contents, documents).dom().contains(key) <==> (contents.dom().contains(key)
            || last_with_key(documents, key) is Some),
        upsert_all(contents, documents)[key] == match last_with_key(documents, key) {
            Some(document) => document,
            None => contents[key],
        },
    decreases documents.len(),
{
    if documents.len() > 0 {
        lemma_upsert_all_lookup(contents, documents.drop_last(), key);
    }
}

/// The last document with a key is one of the documents and has that key;
/// where there is none, no document has the key.
pub proof fn lemma_last_with_key(documents: Seq<Document>, key: int)
    ensures
        match last_with_key(documents, key) {
            Some(document) => exists|i: int|
                0 <= i < documents.len() && #[trigger] documents[i] == document && document.id
                    == key,
            None => forall|i: int| 0 <= i < documents.len() ==> (#[trigger] documents[i]).id != key,
        },
    decreases documents.len(),
{
    if documents.len() > 0 {
        let front = documents.drop_last();
        lemma_last_with_key(front, key);
        if documents.last().id == key {
            assert(documents[documents.len() - 1] == documents.last());
        } else {
            match last_with_key(front, key) {
                Some(document) => {
                    let i = choose|i: int|
                        0 <= i < front.len() && #[trigger] front[i] == document && document.id
                            == key;
                    assert(documents[i] == document);
                },
                None => {
                    assert forall|i: int| 0 <= i < documents.len() implies (
                    #[trigger] documents[i]).id != key by {
                        if i < front.len() {
                            assert(front[i].id != key);
                        }
                    }
                },
            }
        }
    }
}

/// Upserting one series after another is upserting the two laid end to end.
pub proof fn lemma_upsert_all_concat(
    contents: Map<int, Document>,
    first: Seq<Document>,
    second: Seq<Document>,
)
    ensures
        upsert_all(contents, first + second) == upsert_all(upsert_all(contents, first), second),
    decreases second.len(),
{
    if second.len() == 0 {
        assert(first + second =~= first);
    } else {
        assert((first + second).drop_last() =~= first + second.drop_last());
        assert((first + second).last() == second.last());
        lemma_upsert_all_concat(contents, first, second.drop_last());
    }
}

/// Upserts are repetition-safe: a series of upserts that is applied a second
/// time changes nothing.
pub proof fn lemma_upsert_repetition_safe(contents: Map<int, Document>, documents: Seq<Document>)
    ensures
        upsert_all(upsert_all(contents, documents), documents) == upsert_all(contents, documents),
{
    let once = upsert_all(contents, documents);
    let twice = upsert_all(once, documents);
    assert forall|key: int| #[trigger] twice.dom().contains(key) == once.dom().contains(key) by {
        lemma_upsert_all_lookup(contents, documents, key);
        lemma_upsert_all_lookup(once, documents, key);
    }
    assert forall|key: int| #[trigger] twice[key] == once[key] by {
        lemma_upsert_all_lookup(contents, documents, key);
        lemma_upsert_all_lookup(once, documents, key);
    }
    assert(twice =~= once);
}

/// Upserts are order-independent: two batches whose documents agree wherever
/// they share a key leave the same documents behind in either order.
pub proof fn lemma_upsert_order_independent(
    contents: Map<int, Document>,
    first: Seq<Document>,
    second: Seq<Document>,
)
    requires
        keyed(first + second),
    ensures
        upsert_all(upsert_all(contents, first), second) == upsert_all(
            upsert_all(contents, second),
            first,
        ),
{
    let forth = first + second;
    let back = second + first;
    lemma_upsert_all_concat(contents, first, second);
    lemma_upsert_all_concat(contents, second, first);
    assert forall|key: int| #[trigger] last_with_key(forth, key) == last_with_key(back, key) by {
        lemma_last_with_key(forth, key);
        lemma_last_with_key(back, key);
        match last_with_key(forth, key) {
            Some(document) => {
                let i = choose|i: int|
                    0 <= i < forth.len() && #[trigger] forth[i] == document && document.id == key;
                let at = if i < first.len() {
                    i + second.len()
                } else {
                    i - first.len()
                };
                assert(back[at] == forth[i]);
                match last_with_key(back, key) {
                    Some(other) => {
                        let j = choose|j: int|
                            0 <= j < back.len() && #[trigger] back[j] == other && other.id == key;
                        let from = if j < second.len() {
                            j + first.len()
                        } else {
                            j - second.len()
                        };
                        assert(forth[from] == back[j]);
                        assert(forth[i] == forth[from]);
                    },
                    None => {
                        assert(back[at].id != key);
                    },
                }
            },
            None => {
                match last_with_key(back, key) {
                    Some(other) => {
                        let j = choose|j: int|
                            0 <= j < back.len() && #[trigger] back[j] == other && other.id == key;
                        let from = if j < second.len() {
                            j + first.len()
                        } else {
                            j - second.len()
                        };
                        assert(forth[from] == back[j]);
                        assert(forth[from].id != key);
                    },
                    None => {},
                }
            },
        }
    }
    let there = upsert_all(contents, forth);
    let here = upsert_all(contents, back);
    assert forall|key: int| #[trigger] there.dom().contains(key) == here.dom().contains(key) by {
        assert(last_with_key(forth, key) == last_with_key(back, key));
        lemma_upsert_all_lookup(contents, forth, key);
        lemma_upsert_all_lookup(contents, back, key);
    }
    assert forall|key: int| #[trigger] there[key] == here[key] by {
        assert(last_with_key(forth, key) == last_with_key(back, key));
        lemma_upsert_all_lookup(contents, forth, key);
        lemma_upsert_all_lookup(contents, back, key);
    }
    assert(there =~= here);
}

/// A backfill can be run again. Whatever an index held before, after the
/// batches of a run were upserted twice, the second time in any split into two
/// parts and with the parts in either order, it holds the same documents as
/// after they were upserted once. In particular two runs into fresh indices
/// leave identical documents.
pub proof fn lemma_backfill_rerun_is_idempotent(
    contents: Map<int, Document>,
    first: Seq<Document>,
    second: Seq<Document>,
)
    requires
        keyed(first + second),
    ensures
        upsert_all(upsert_all(contents, first + second), first + second) == upsert_all(
            contents,
            first + second,
        ),
        upsert_all(upsert_all(contents, first + second), second + first) == upsert_all(
            contents,
            first + second,
        ),
        upsert_all(Map::empty(), first + second) == upsert_all(Map::empty(), second + first),
{
    let once = upsert_all(contents, first + second);
    lemma_upsert_repetition_safe(contents, first + second);
    lemma_upsert_all_concat(once, first, second);
    lemma_upsert_all_concat(once, second, first);
    lemma_upsert_order_independent(once, first, second);
    lemma_upsert_all_concat(Map::empty(), first, second);
    lemma_upsert_all_concat(Map::empty(), second, first);
    lemma_upsert_order_independent(Map::empty(), first, second);
}

/// Documents whose keys grow strictly from each one to the next, as those of
/// a run do, agree wherever they share a key: no two share one.
pub proof fn lemma_ascending_documents_are_keyed(documents: Seq<Document>)
    requires
        forall|i: int, j: int|
            0 <= i < j < documents.len() ==> (#[trigger] documents[i]).id < (
            #[trigger] documents[j]).id,
    ensures
        keyed(documents),
{
    assert forall|i: int, j: int|
        0 <= i < documents.len() && 0 <= j < documents.len() && (#[trigger] documents[i]).id == (
        #[trigger] documents[j]).id implies documents[i] == documents[j] by {
        if i < j {
            assert(documents[i].id < documents[j].id);
        } else if j < i {
            assert(documents[j].id < documents[i].id);
        }
    }
}

/// A physical index held in memory. It records every document that was
/// upserted and answers with the last one stored under a key.
#[derive(Debug)]
pub struct DocumentStore {
    pub documents: Vec<ProductExportData>,
}

impl View for DocumentStore {
    type V = Map<int, Document>;

    open spec fn view(&self) -> Map<int, Document> {
        upsert_all(Map::empty(), self.documents.deep_view())
    }
}

impl DocumentStore {
    /// An index without documents.
    pub fn new() -> (store: Self)
        ensures
            store@ == Map::<int, Document>::empty(),
    {
        let store = DocumentStore { documents: Vec::new() };
        assert(store.documents.deep_view() =~= Seq::<Document>::empty());
        store
    }

    /// Carries out the upserts of a bulk call, all of them.
    pub fn apply(&mut self, request: &BulkRequest)
        ensures
            final(self)@ == upsert_all(
                old(self)@,
                documents_of(request.deep_view().operations),
            ),
    {
        let ghost before = self.documents.deep_view();
        let ghost added = documents_of(request.deep_view().operations);
        let mut i: usize = 0;
        while i < request.operations.len()
            invariant
                i <= request.operations.len(),
                added == documents_of(request.deep_view().operations),
                self.documents.deep_view() == before + added.take(i as int),
            decreases request.operations.len() - i,
        {
            let ghost stored = self.documents.deep_view();
            self.documents.push(request.operations[i].document.clone());
            assert(self.documents.deep_view() =~= stored.push(added[i as int]));
            i = i + 1;
            assert(before + added.take(i as int) =~= (before + added.take(i - 1)).push(
                added[i - 1],
            ));
        }
        proof {
            assert(added.take(i as int) =~= added);
            lemma_upsert_all_concat(Map::empty(), before, added);
        }
    }

    /// The document stored under a key.
    pub fn get(&self, key: i32) -> (document: Option<ProductExportData>)
        ensures
            document.deep_view() == if self@.dom().contains(key as int) {
                Some(self@[key as int])
            } else {
                None
            },
    {
        let ghost all = self.documents.deep_view();
        proof {
            lemma_upsert_all_lookup(Map::empty(), all, key as int);
            assert(all.take(all.len() as int) =~= all);
        }
        let mut i: usize = self.documents.len();
        while i > 0
            invariant
                i <= self.documents.len(),
                all == self.documents.deep_view(),
                last_with_key(all, key as int) == last_with_key(all.take(i as int), key as int),
            decreases i,
        {
            assert(all.take(i as int).drop_last() =~= all.take(i - 1));
            assert(all.take(i as int).last() == self.documents@[i - 1]@);
            if self.documents[i - 1].id == key {
                let found = self.documents[i - 1].clone();
                proof {
                    assert(last_with_key(all, key as int) == Some(found@));
                    lemma_upsert_all_lookup(Map::empty(), all, key as int);
                }
                return Some(found);
            }
            i = i - 1;
        }
        assert(all.take(0).len() == 0);
        None
    }
}

} // verus!
