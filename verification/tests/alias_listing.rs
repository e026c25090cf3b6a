use index_sync::error::ElasticError;
use index_sync::index_repository::IndexRepository;

fn parse(text: &str) -> serde_json::Value {
    serde_json::from_str(text).unwrap()
}

const LISTING: &str = r#"{
    "emos_product_10_8125c598e02572a44ac644251e00b25d": {
        "aliases": { "emos_product_10": {} }
    },
    "emos_product_11_fba62cdfa70e680a5449b2b7eef7bb0c": {
        "aliases": { "emos_product_11": {}, "emos_product_11_b": {} }
    },
    "scratch": { "aliases": {} }
}"#;

#[test]
fn listing_becomes_a_catalogue() {
    let repository = IndexRepository::from_alias_listing(&parse(LISTING)).unwrap();
    assert_eq!(repository.indices.len(), 3);
    let mut names = repository.index_names();
    names.sort();
    assert_eq!(
        names,
        vec![
            "emos_product_10_8125c598e02572a44ac644251e00b25d",
            "emos_product_11_fba62cdfa70e680a5449b2b7eef7bb0c",
            "scratch"
        ]
    );
    let eleven = repository
        .indices
        .iter()
        .find(|e| e.index.starts_with("emos_product_11"))
        .unwrap();
    let mut aliases = eleven.aliases.clone();
    aliases.sort();
    assert_eq!(aliases, vec!["emos_product_11", "emos_product_11_b"]);
    let scratch = repository.indices.iter().find(|e| e.index == "scratch").unwrap();
    assert!(scratch.aliases.is_empty());
}

#[test]
fn listing_resolves_aliases() {
    let repository = IndexRepository::from_alias_listing(&parse(LISTING)).unwrap();
    assert_eq!(
        repository.find_current_index_name_for_alias("emos_product_10"),
        Ok("emos_product_10_8125c598e02572a44ac644251e00b25d".to_string())
    );
    assert_eq!(
        repository.find_current_index_name_for_alias("emos_product_12"),
        Err(ElasticError::NoAlias)
    );
}

#[test]
fn listing_with_a_shared_alias_is_ambiguous() {
    let listing = parse(
        r#"{"p_1_old": {"aliases": {"p_1": {}}}, "p_1_new": {"aliases": {"p_1": {}}}}"#,
    );
    let repository = IndexRepository::from_alias_listing(&listing).unwrap();
    assert_eq!(
        repository.find_current_index_name_for_alias("p_1"),
        Err(ElasticError::MoreThanOneIndexFoundForAlias)
    );
}

#[test]
fn listing_that_is_no_object_gives_no_catalogue() {
    assert!(IndexRepository::from_alias_listing(&parse("[]")).is_none());
    assert!(IndexRepository::from_alias_listing(&parse("null")).is_none());
    assert!(IndexRepository::from_alias_listing(&parse("\"text\"")).is_none());
    assert!(IndexRepository::from_alias_listing(&parse("42")).is_none());
}

#[test]
fn empty_listing_gives_an_empty_catalogue() {
    let repository = IndexRepository::from_alias_listing(&parse("{}")).unwrap();
    assert!(repository.indices.is_empty());
}

#[test]
fn entries_of_another_shape_carry_no_alias() {
    let listing = parse(
        r#"{"a": {"aliases": ["x"]}, "b": {"settings": {}}, "c": 5, "d": {"aliases": {"x": {}}}}"#,
    );
    let repository = IndexRepository::from_alias_listing(&listing).unwrap();
    assert_eq!(repository.indices.len(), 4);
    assert_eq!(repository.find_index_names_for_alias("x"), Ok(vec!["d".to_string()]));
    for entry in &repository.indices {
        if entry.index != "d" {
            assert!(entry.aliases.is_empty());
        }
    }
}

#[test]
fn table_of_indices_gives_the_names_in_order() {
    let table = parse(
        r#"[
            {"health": "green", "index": "emos_product_11_fba6", "docs.count": "7"},
            {"health": "green", "index": "emos_product_10_8125"},
            {"health": "red"},
            {"index": 5},
            "text",
            {"index": "scratch"}
        ]"#,
    );
    assert_eq!(
        index_sync::alias_listing::index_names_of_table(&table),
        vec!["emos_product_11_fba6", "emos_product_10_8125", "scratch"]
    );
}

#[test]
fn table_of_another_shape_gives_no_name() {
    assert!(index_sync::alias_listing::index_names_of_table(&parse("{}")).is_empty());
    assert!(index_sync::alias_listing::index_names_of_table(&parse("[]")).is_empty());
    assert!(index_sync::alias_listing::index_names_of_table(&parse("null")).is_empty());
}
