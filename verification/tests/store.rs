use index_sync::bulk::BulkRequest;
use index_sync::product_index::ProductExportData;
use index_sync::store::DocumentStore;

fn document(id: i32, name: &str) -> ProductExportData {
    ProductExportData {
        id,
        catnum: format!("CAT-{}", id),
        partno: String::new(),
        ean: String::new(),
        name: name.to_string(),
        fullname: format!(" {} ", name),
        description: String::new(),
        short_description: String::new(),
        brand: String::new(),
        flags: Vec::new(),
        categories: vec![id],
    }
}

fn batch(ids: &[i32]) -> BulkRequest {
    let documents: Vec<ProductExportData> =
        ids.iter().map(|id| document(*id, &format!("Produkt {}", id))).collect();
    index_sync::bulk::write("product_1_x", &documents).unwrap()
}

fn names(store: &DocumentStore, keys: std::ops::RangeInclusive<i32>) -> Vec<Option<String>> {
    keys.map(|key| store.get(key).map(|d| d.name)).collect()
}

#[test]
fn fresh_store_holds_nothing() {
    let store = DocumentStore::new();
    assert!(store.get(1).is_none());
    assert!(store.documents.is_empty());
}

#[test]
fn upsert_inserts_and_replaces() {
    let mut store = DocumentStore::new();
    store.apply(&batch(&[1, 2]));
    assert_eq!(store.get(1).unwrap().name, "Produkt 1");
    assert_eq!(store.get(2).unwrap().categories, vec![2]);
    assert!(store.get(3).is_none());
    let newer = index_sync::bulk::write("product_1_x", &vec![document(2, "renamed")]).unwrap();
    store.apply(&newer);
    assert_eq!(store.get(2).unwrap().name, "renamed");
    assert_eq!(store.get(1).unwrap().name, "Produkt 1");
}

#[test]
fn backfill_run_twice_leaves_identical_documents() {
    let batches = vec![batch(&[1, 2]), batch(&[3, 4]), batch(&[5])];
    let mut once = DocumentStore::new();
    for request in &batches {
        once.apply(request);
    }
    let mut twice = DocumentStore::new();
    for request in &batches {
        twice.apply(request);
    }
    for request in &batches {
        twice.apply(request);
    }
    assert_eq!(names(&once, 0..=6), names(&twice, 0..=6));
    assert_eq!(
        names(&once, 0..=6),
        vec![
            None,
            Some("Produkt 1".to_string()),
            Some("Produkt 2".to_string()),
            Some("Produkt 3".to_string()),
            Some("Produkt 4".to_string()),
            Some("Produkt 5".to_string()),
            None
        ]
    );
}

#[test]
fn batches_in_another_order_leave_identical_documents() {
    let mut forth = DocumentStore::new();
    forth.apply(&batch(&[1, 2]));
    forth.apply(&batch(&[3, 4]));
    forth.apply(&batch(&[5]));
    let mut back = DocumentStore::new();
    back.apply(&batch(&[5]));
    back.apply(&batch(&[3, 4]));
    back.apply(&batch(&[1, 2]));
    assert_eq!(names(&forth, 0..=6), names(&back, 0..=6));
}

#[test]
fn overlapping_windows_of_a_wave_are_harmless() {
    let mut disjoint = DocumentStore::new();
    disjoint.apply(&batch(&[1, 2, 3, 4]));
    let mut overlapping = DocumentStore::new();
    overlapping.apply(&batch(&[3, 4]));
    overlapping.apply(&batch(&[1, 2, 3]));
    assert_eq!(names(&disjoint, 0..=5), names(&overlapping, 0..=5));
}
