use index_sync::utils::{
    split_string, split_string2, split_words, translation_data_provider, width_of,
};

const SENTENCE: &str = "babička šla pro chleba a potkala lišku";

#[test]
fn words_are_runs_without_white_space() {
    assert_eq!(
        split_words(SENTENCE),
        vec!["babička", "šla", "pro", "chleba", "a", "potkala", "lišku"]
    );
    assert_eq!(split_words("  two\t\twords \n"), vec!["two", "words"]);
    assert_eq!(split_words("a\u{00A0}b\u{3000}c"), vec!["a", "b", "c"]);
    assert_eq!(split_words("one"), vec!["one"]);
    assert!(split_words("").is_empty());
    assert!(split_words(" \t\n ").is_empty());
}

#[test]
fn words_agree_with_the_standard_split() {
    for text in [SENTENCE, " a  b ", "", "x", "x ", " x", "\u{2003}wide\u{2003}space", "č š ž"] {
        let expected: Vec<String> = text.split_whitespace().map(|w| w.to_string()).collect();
        assert_eq!(split_words(text), expected);
    }
}

#[test]
fn chunks_of_whole_words() {
    assert_eq!(
        split_string2(SENTENCE, 10),
        vec!["babička šla", "pro chleba", "a potkala lišku"]
    );
}

#[test]
fn words_that_do_not_fill_a_chunk_are_left_out() {
    assert_eq!(split_string2("one two three", 7), vec!["one two"]);
    assert!(split_string2("one two", 100).is_empty());
    assert!(split_string2("", 0).is_empty());
}

#[test]
fn every_word_is_a_chunk_for_length_zero() {
    assert_eq!(split_string2("a bb  ccc", 0), vec!["a", "bb", "ccc"]);
    assert_eq!(split_string2("a bb ccc", 2), vec!["a bb", "ccc"]);
}

#[test]
fn count_is_in_characters() {
    assert_eq!(split_string2("čššč x", 4), vec!["čššč"]);
    assert_eq!(split_string2("čššč x", 5), vec!["čššč x"]);
    assert!(split_string2("čššč x", 7).is_empty());
}

#[test]
fn cuts_at_white_space_after_enough_bytes() {
    assert_eq!(
        split_string(SENTENCE, 10),
        Some(vec![
            "babička šla".to_string(),
            "pro chleba a".to_string(),
            "potkala lišku".to_string()
        ])
    );
}

#[test]
fn text_without_a_cut_is_one_chunk() {
    assert_eq!(split_string("short text", 100), Some(vec!["short text".to_string()]));
    assert_eq!(split_string("", 0), Some(vec!["".to_string()]));
    assert_eq!(split_string("nowhitespaceatall", 3), Some(vec!["nowhitespaceatall".to_string()]));
}

#[test]
fn cut_leaves_the_white_space_out_and_may_end_on_an_empty_chunk() {
    assert_eq!(
        split_string("aaaa bbbb cccc", 3),
        Some(vec!["aaaa".to_string(), "bbbb".to_string(), "cccc".to_string()])
    );
    assert_eq!(split_string("aaaa ", 3), Some(vec!["aaaa".to_string(), "".to_string()]));
    assert_eq!(
        split_string("aaaa  bb", 3),
        Some(vec!["aaaa".to_string(), " bb".to_string()])
    );
    assert_eq!(split_string("aaa bbb", 3), Some(vec!["aaa bbb".to_string()]));
}

#[test]
fn length_counts_bytes() {
    assert_eq!(split_string("čč x", 3), Some(vec!["čč".to_string(), "x".to_string()]));
    assert_eq!(split_string("cc x", 3), Some(vec!["cc x".to_string()]));
}

#[test]
fn cut_on_a_wide_white_space_gives_nothing() {
    assert_eq!(split_string("aaaa\u{00A0}bbbb", 2), None);
    assert_eq!(split_string("aaaa\u{3000}bbbb cc", 2), None);
    assert_eq!(
        split_string("aaaa\u{00A0}bbbb", 20),
        Some(vec!["aaaa\u{00A0}bbbb".to_string()])
    );
}

#[test]
fn widths_of_characters() {
    assert_eq!(width_of('a'), 1);
    assert_eq!(width_of('\u{7f}'), 1);
    assert_eq!(width_of('č'), 2);
    assert_eq!(width_of('\u{7ff}'), 2);
    assert_eq!(width_of('\u{800}'), 3);
    assert_eq!(width_of('\u{ffff}'), 3);
    assert_eq!(width_of('\u{10000}'), 4);
    for c in ['a', 'č', '€', '𝄞', '\u{00A0}', '\u{3000}'] {
        assert_eq!(width_of(c), c.len_utf8());
    }
}

#[test]
fn sample_translations() {
    let data = translation_data_provider();
    assert_eq!(
        data,
        vec![
            ("names", vec!["Produkt 1", "Produkt 2", "Produkt 3"]),
            ("descriptions", vec!["Description 1", "Description 2", "Description 3"]),
            (
                "long_descriptions",
                vec!["Long descriptions 1", "Long descriptions 2", "Long descriptions 3"]
            ),
        ]
    );
}
