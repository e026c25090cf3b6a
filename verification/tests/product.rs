use index_sync::product::{join_name_parts, Product, ProductDomain, ProductTranslation};

fn bare(id: i32) -> Product {
    Product {
        id,
        catnum: "C-1".to_string(),
        partno: None,
        ean: None,
        translation: None,
        domain: None,
    }
}

fn translated() -> Product {
    let mut product = bare(3);
    product.translation = Some(ProductTranslation {
        name: Some("Produkt 1".to_string()),
        name_prefix: Some("Super".to_string()),
        name_sufix: Some("XL".to_string()),
    });
    product.domain = Some(ProductDomain {
        domain_id: 1,
        description: Some("Description 1".to_string()),
    });
    product
}

#[test]
fn getters_of_a_bare_product_are_empty() {
    let product = bare(1);
    assert_eq!(product.name(), "");
    assert_eq!(product.name_prefix(), "");
    assert_eq!(product.name_sufix(), "");
    assert_eq!(product.description(), "");
}

#[test]
fn fullname_of_a_bare_product_is_two_spaces() {
    assert_eq!(bare(1).fullname(), "  ");
}

#[test]
fn getters_read_the_attached_rows() {
    let product = translated();
    assert_eq!(product.name(), "Produkt 1");
    assert_eq!(product.name_prefix(), "Super");
    assert_eq!(product.name_sufix(), "XL");
    assert_eq!(product.fullname(), "Super Produkt 1 XL");
    assert_eq!(product.description(), "Description 1");
}

#[test]
fn missing_parts_leave_their_spaces() {
    let mut product = bare(1);
    product.translation = Some(ProductTranslation {
        name: Some("Produkt 2".to_string()),
        name_prefix: None,
        name_sufix: None,
    });
    assert_eq!(product.fullname(), " Produkt 2 ");
    assert_eq!(product.name_prefix(), "");
    product.domain = Some(ProductDomain { domain_id: 1, description: None });
    assert_eq!(product.description(), "");
}

#[test]
fn join_name_parts_uses_single_spaces() {
    assert_eq!(join_name_parts("a", "b", "c"), "a b c");
    assert_eq!(join_name_parts("", "", ""), "  ");
    assert_eq!(join_name_parts("a ", " b", ""), "a   b ");
}

#[test]
fn with_translation_attaches_the_fetched_row() {
    let mut product = bare(1);
    product.with_translation(Some(ProductTranslation {
        name: Some("Produkt 3".to_string()),
        name_prefix: None,
        name_sufix: None,
    }));
    assert_eq!(product.name(), "Produkt 3");
    assert_eq!(product.id, 1);
    assert_eq!(product.catnum, "C-1");
}

#[test]
fn with_translation_defaults_when_nothing_was_found() {
    let mut product = bare(1);
    product.with_translation(None);
    assert!(product.translation.is_some());
    assert_eq!(product.name(), "");
    assert_eq!(product.fullname(), "  ");
}

#[test]
fn with_translation_keeps_what_is_attached() {
    let mut product = translated();
    product.with_translation(Some(ProductTranslation {
        name: Some("other".to_string()),
        name_prefix: None,
        name_sufix: None,
    }));
    assert_eq!(product.name(), "Produkt 1");
    product.with_translation(None);
    assert_eq!(product.name(), "Produkt 1");
}

#[test]
fn with_domain_attaches_defaults_and_keeps() {
    let mut product = bare(1);
    product.with_domain(None);
    assert_eq!(product.domain.as_ref().map(|d| d.domain_id), Some(0));
    assert_eq!(product.description(), "");
    product.with_domain(Some(ProductDomain {
        domain_id: 1,
        description: Some("late".to_string()),
    }));
    assert_eq!(product.description(), "");

    let mut other = bare(2);
    other.with_domain(Some(ProductDomain {
        domain_id: 1,
        description: Some("Description 2".to_string()),
    }));
    assert_eq!(other.description(), "Description 2");
}

#[test]
fn default_product_is_empty() {
    let product = Product::default();
    assert_eq!(product.id, 0);
    assert_eq!(product.catnum, "");
    assert!(product.translation.is_none() && product.domain.is_none());
    assert_eq!(ProductDomain::default().domain_id, 0);
    assert!(ProductTranslation::default().name.is_none());
}
