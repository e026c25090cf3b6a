use index_sync::text::{
    chars_of, clone_or_empty, contains_text, i32_to_string, push_decimal, same_text,
    text_contains, u8_to_string,
};

#[test]
fn decimal_of_signed_numbers() {
    assert_eq!(i32_to_string(0), "0");
    assert_eq!(i32_to_string(7), "7");
    assert_eq!(i32_to_string(10), "10");
    assert_eq!(i32_to_string(349625), "349625");
    assert_eq!(i32_to_string(-12), "-12");
    assert_eq!(i32_to_string(i32::MAX), "2147483647");
    assert_eq!(i32_to_string(i32::MIN), "-2147483648");
}

#[test]
fn decimal_agrees_with_the_standard_rendering() {
    for n in [-1000, -999, -101, -1, 0, 1, 9, 10, 11, 99, 100, 101, 65535, 1_000_000] {
        assert_eq!(i32_to_string(n), format!("{}", n));
    }
    for n in 0..=255u8 {
        assert_eq!(u8_to_string(n), format!("{}", n));
    }
}

#[test]
fn push_decimal_appends() {
    let mut out = String::from("id-");
    push_decimal(&mut out, 1204);
    assert_eq!(out, "id-1204");
    push_decimal(&mut out, 0);
    assert_eq!(out, "id-12040");
    let mut big = String::new();
    push_decimal(&mut big, u64::MAX);
    assert_eq!(big, "18446744073709551615");
}

#[test]
fn absent_text_is_empty() {
    assert_eq!(clone_or_empty(&None), "");
    assert_eq!(clone_or_empty(&Some("Produkt 1".to_string())), "Produkt 1");
}

#[test]
fn same_text_compares_characters() {
    assert!(same_text("product_1", "product_1"));
    assert!(same_text("", ""));
    assert!(!same_text("product_1", "product_2"));
    assert!(!same_text("product_1", "product_10"));
    assert!(same_text("babička", "babička"));
    assert!(!same_text("babička", "babicka"));
}

#[test]
fn contains_text_finds_whole_entries_only() {
    let texts = vec!["emos_product_10".to_string(), "emos_product_11".to_string()];
    assert!(contains_text(&texts, "emos_product_11"));
    assert!(!contains_text(&texts, "emos_product_1"));
    assert!(!contains_text(&Vec::new(), "emos_product_1"));
}

#[test]
fn text_contains_finds_runs() {
    assert!(text_contains("emos_product_10", "product_1"));
    assert!(text_contains("emos_product_10", "emos_product_10"));
    assert!(text_contains("emos_product_10", ""));
    assert!(text_contains("", ""));
    assert!(!text_contains("emos_product_10", "product_2"));
    assert!(!text_contains("product", "emos_product"));
    assert!(text_contains("liška šla", "a š"));
    assert!(text_contains("aab", "ab"));
}

#[test]
fn chars_of_lists_characters_not_bytes() {
    assert_eq!(chars_of("šla"), vec!['š', 'l', 'a']);
    assert_eq!(chars_of(""), Vec::<char>::new());
}
