use index_sync::bulk::{is_success, retry, BulkRequest, ItemOutcome, WriteReport};
use index_sync::index_definition_loader::IndexDefinitionLoader;
use index_sync::index_repository::IndexRepository;
use index_sync::product_index::ProductExportData;

fn document(id: i32) -> ProductExportData {
    ProductExportData {
        id,
        catnum: format!("CAT-{}", id),
        partno: String::new(),
        ean: String::new(),
        name: format!("Produkt {}", id),
        fullname: format!(" Produkt {} ", id),
        description: String::new(),
        short_description: String::new(),
        brand: String::new(),
        flags: vec![id, 1],
        categories: vec![2],
    }
}

fn request_of(ids: &[i32]) -> BulkRequest {
    let documents: Vec<ProductExportData> = ids.iter().map(|id| document(*id)).collect();
    index_sync::bulk::write("emos_product_1", &documents).unwrap()
}

fn ids_of(request: &BulkRequest) -> Vec<String> {
    request.operations.iter().map(|op| op.id.clone()).collect()
}

#[test]
fn empty_batch_needs_no_call() {
    assert!(index_sync::bulk::write("emos_product_1", &Vec::new()).is_none());
}

#[test]
fn one_upsert_per_document_keyed_by_the_entity_key() {
    let request = request_of(&[3, 14, 159]);
    assert_eq!(request.target, "emos_product_1");
    assert_eq!(ids_of(&request), vec!["3", "14", "159"]);
    for (operation, id) in request.operations.iter().zip([3, 14, 159]) {
        assert!(operation.doc_as_upsert);
        assert_eq!(operation.document.id, id);
        assert_eq!(operation.document.name, format!("Produkt {}", id));
        assert_eq!(operation.document.flags, vec![id, 1]);
    }
}

#[test]
fn bulk_update_writes_through_the_alias() {
    let definition = IndexDefinitionLoader::new("dir".to_string(), "emos".to_string())
        .get_definition("product".to_string(), 1);
    let repository = IndexRepository::new(Vec::new());
    let request = repository.bulk_update(&definition, &vec![document(1), document(2)]).unwrap();
    assert_eq!(request.target, "emos_product_1");
    assert_eq!(ids_of(&request), vec!["1", "2"]);
    assert!(repository.bulk_update(&definition, &Vec::new()).is_none());
}

#[test]
fn status_codes_from_200_to_299_are_success() {
    assert!(is_success(200));
    assert!(is_success(201));
    assert!(is_success(299));
    assert!(!is_success(199));
    assert!(!is_success(300));
    assert!(!is_success(404));
    assert!(!is_success(409));
    assert!(!is_success(500));
    assert!(!is_success(0));
}

#[test]
fn two_of_five_failed_are_reported_and_retried() {
    let request = request_of(&[1, 2, 3, 4, 5]);
    let statuses = vec![200, 429, 201, 500, 200];
    let report = WriteReport::new(&request, &statuses);
    assert_eq!(
        report.items,
        vec![
            ItemOutcome { key: 1, succeeded: true },
            ItemOutcome { key: 2, succeeded: false },
            ItemOutcome { key: 3, succeeded: true },
            ItemOutcome { key: 4, succeeded: false },
            ItemOutcome { key: 5, succeeded: true },
        ]
    );
    assert_eq!(report.failed_keys(), vec![2, 4]);
    assert_eq!(report.succeeded_keys(), vec![1, 3, 5]);
    assert!(!report.is_fully_committed());
    let again = retry(&request, &statuses).unwrap();
    assert_eq!(again.target, "emos_product_1");
    assert_eq!(ids_of(&again), vec!["2", "4"]);
    assert_eq!(again.operations[0].document.name, "Produkt 2");
    assert_eq!(again.operations[1].document.flags, vec![4, 1]);
    assert!(again.operations.iter().all(|op| op.doc_as_upsert));
}

#[test]
fn fully_committed_call_needs_no_retry() {
    let request = request_of(&[1, 2, 3]);
    let statuses = vec![200, 201, 200];
    let report = WriteReport::new(&request, &statuses);
    assert!(report.is_fully_committed());
    assert!(report.failed_keys().is_empty());
    assert_eq!(report.succeeded_keys(), vec![1, 2, 3]);
    assert!(retry(&request, &statuses).is_none());
}

#[test]
fn missing_statuses_count_as_failed() {
    let request = request_of(&[1, 2, 3]);
    let report = WriteReport::new(&request, &vec![200]);
    assert_eq!(report.failed_keys(), vec![2, 3]);
    assert_eq!(report.succeeded_keys(), vec![1]);
    let unanswered = WriteReport::new(&request, &Vec::new());
    assert_eq!(unanswered.failed_keys(), vec![1, 2, 3]);
    assert_eq!(ids_of(&retry(&request, &Vec::new()).unwrap()), vec!["1", "2", "3"]);
}

#[test]
fn surplus_statuses_are_ignored() {
    let request = request_of(&[1]);
    let report = WriteReport::new(&request, &vec![200, 500, 500]);
    assert!(report.is_fully_committed());
    assert!(retry(&request, &vec![200, 500]).is_none());
}

#[test]
fn request_clone_keeps_target_and_operations() {
    let request = request_of(&[8, 9]);
    let copy = request.clone();
    assert_eq!(copy.target, request.target);
    assert_eq!(ids_of(&copy), ids_of(&request));
    assert_eq!(copy.operations[1].document.catnum, "CAT-9");
}

fn parse(text: &str) -> serde_json::Value {
    serde_json::from_str(text).unwrap()
}

#[test]
fn statuses_are_read_from_the_answer_in_order() {
    let answer = parse(
        r#"{"took": 3, "errors": true, "items": [
            {"update": {"_index": "p", "_id": "1", "status": 200}},
            {"update": {"_index": "p", "_id": "2", "status": 429, "error": {"type": "x"}}},
            {"update": {"_index": "p", "_id": "3", "status": 201}}
        ]}"#,
    );
    assert_eq!(index_sync::bulk::statuses_of_answer(&answer), vec![200, 429, 201]);
}

#[test]
fn answer_of_another_shape_has_no_statuses() {
    assert!(index_sync::bulk::statuses_of_answer(&parse("{}")).is_empty());
    assert!(index_sync::bulk::statuses_of_answer(&parse("[]")).is_empty());
    assert!(index_sync::bulk::statuses_of_answer(&parse(r#"{"items": {"a": 1}}"#)).is_empty());
    assert!(index_sync::bulk::statuses_of_answer(&parse(r#"{"items": []}"#)).is_empty());
}

#[test]
fn items_of_another_shape_count_as_failed() {
    let answer = parse(
        r#"{"items": [
            {"index": {"status": 201}},
            {"update": {"status": "200"}},
            {"update": {"status": -1}},
            {"update": {"status": 200.5}},
            {"update": {"status": 70000}},
            {"update": {}},
            7,
            {"update": {"status": 204}}
        ]}"#,
    );
    let statuses = index_sync::bulk::statuses_of_answer(&answer);
    assert_eq!(statuses, vec![0, 0, 0, 0, 0, 0, 0, 204]);
    let request = request_of(&[1, 2, 3, 4, 5, 6, 7, 8]);
    assert_eq!(WriteReport::new(&request, &statuses).succeeded_keys(), vec![8]);
}

#[test]
fn answer_with_two_failures_leads_to_a_retry_of_those_two() {
    let request = request_of(&[1, 2, 3, 4, 5]);
    let answer = parse(
        r#"{"errors": true, "items": [
            {"update": {"_id": "1", "status": 200}},
            {"update": {"_id": "2", "status": 503}},
            {"update": {"_id": "3", "status": 200}},
            {"update": {"_id": "4", "status": 409}},
            {"update": {"_id": "5", "status": 201}}
        ]}"#,
    );
    let statuses = index_sync::bulk::statuses_of_answer(&answer);
    let report = WriteReport::new(&request, &statuses);
    assert_eq!(report.failed_keys(), vec![2, 4]);
    assert_eq!(report.succeeded_keys(), vec![1, 3, 5]);
    assert_eq!(ids_of(&retry(&request, &statuses).unwrap()), vec!["2", "4"]);
}
