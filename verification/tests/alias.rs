use index_sync::index_definition::IndexDefinition;
use index_sync::index_definition_loader::IndexDefinitionLoader;

fn definition(prefix: &str, name: &str, domain_id: u8) -> IndexDefinition {
    let loader = IndexDefinitionLoader::new("./definitions/".to_string(), prefix.to_string());
    loader.get_definition(name.to_string(), domain_id)
}

#[test]
fn alias_without_prefix() {
    assert_eq!(definition("", "product", 1).get_index_alias(), "product_1");
}

#[test]
fn alias_with_prefix() {
    assert_eq!(definition("emos", "product", 10).get_index_alias(), "emos_product_10");
}

#[test]
fn alias_with_three_digit_domain() {
    assert_eq!(definition("lunzo", "product", 255).get_index_alias(), "lunzo_product_255");
    assert_eq!(definition("", "product", 0).get_index_alias(), "product_0");
}

#[test]
fn alias_is_the_same_on_every_call() {
    let definition = definition("emos", "product", 11);
    assert_eq!(definition.get_index_alias(), definition.get_index_alias());
}

#[test]
fn loader_fills_every_field() {
    let definition = definition("emos", "product", 7);
    assert_eq!(definition.index_name, "product");
    assert_eq!(definition.definitions_directory, "./definitions/");
    assert_eq!(definition.index_prefix, "emos");
    assert_eq!(definition.domain_id, 7);
}

#[test]
fn clone_keeps_the_identity() {
    let definition = definition("emos", "product", 7);
    let copy = definition.clone();
    assert_eq!(copy.get_index_alias(), "emos_product_7");
    assert_eq!(copy.definitions_directory, definition.definitions_directory);
}

#[test]
fn physical_name_is_alias_and_suffix() {
    let definition = definition("emos", "product", 10);
    assert_eq!(
        definition.physical_index_name("8125c598e02572a44ac644251e00b25d"),
        "emos_product_10_8125c598e02572a44ac644251e00b25d"
    );
    assert_ne!(definition.physical_index_name(""), definition.get_index_alias());
}
