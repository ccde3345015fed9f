use rspy_rsi::{
    create_statement, escape_char, link_rows, link_statement, lookup_statement, push_decimal,
    push_quoted, text_list, text_rows,
};

fn strings(ws: &[&str]) -> Vec<String> {
    ws.iter().map(|w| w.to_string()).collect()
}

#[test]
fn quoted_plain_word() {
    let mut s = String::from("x");
    push_quoted(&mut s, "cat");
    assert_eq!(s, "x'cat'");
}

#[test]
fn quoted_word_doubles_each_quote() {
    let mut s = String::new();
    push_quoted(&mut s, "o'brien's");
    assert_eq!(s, "'o''brien''s'");
}

#[test]
fn quoted_empty_word() {
    let mut s = String::new();
    push_quoted(&mut s, "");
    assert_eq!(s, "''");
}

#[test]
fn quoted_keeps_other_delimiters() {
    let mut s = String::new();
    push_quoted(&mut s, "a, (b); \"c\" é");
    assert_eq!(s, "'a, (b); \"c\" é'");
}

#[test]
fn escape_of_one_character() {
    let mut s = String::new();
    escape_char(&mut s, '\'');
    escape_char(&mut s, 'a');
    assert_eq!(s, "''a");
}

#[test]
fn decimal_numerals() {
    let mut s = String::new();
    push_decimal(&mut s, 0);
    s.push(' ');
    push_decimal(&mut s, 7);
    s.push(' ');
    push_decimal(&mut s, 1234567890);
    s.push(' ');
    push_decimal(&mut s, u64::MAX);
    assert_eq!(s, "0 7 1234567890 18446744073709551615");
}

#[test]
fn text_list_of_no_words_is_none() {
    assert_eq!(text_list(&Vec::new()), None);
    assert_eq!(text_rows(&Vec::new()), None);
    assert_eq!(link_rows(&Vec::new(), 7), None);
}

#[test]
fn text_list_of_one_word_has_no_separator() {
    assert_eq!(text_list(&strings(&["cat"])), Some("'cat'".to_string()));
    assert_eq!(text_rows(&strings(&["cat"])), Some("('cat')".to_string()));
    assert_eq!(link_rows(&vec![3], 9), Some("(3, 9)".to_string()));
}

#[test]
fn text_list_of_several_words() {
    assert_eq!(
        text_list(&strings(&["a", "it's", "c"])),
        Some("'a', 'it''s', 'c'".to_string())
    );
    assert_eq!(
        text_rows(&strings(&["a", "it's"])),
        Some("('a'), ('it''s')".to_string())
    );
    assert_eq!(
        link_rows(&vec![1, 22, 333], 7),
        Some("(1, 7), (22, 7), (333, 7)".to_string())
    );
}

#[test]
fn statements_of_words() {
    let ws = strings(&["alpha", "beta"]);
    assert_eq!(
        lookup_statement(&ws),
        Some("SELECT id, text FROM dictionary WHERE text IN ('alpha', 'beta')".to_string())
    );
    assert_eq!(
        create_statement(&ws),
        Some("INSERT INTO dictionary (text) VALUES ('alpha'), ('beta')".to_string())
    );
    assert_eq!(
        link_statement(&vec![1, 2], 7),
        Some("INSERT INTO link (word_id, item_id) VALUES (1, 7), (2, 7)".to_string())
    );
}

#[test]
fn statements_of_no_words_are_none() {
    assert_eq!(lookup_statement(&Vec::new()), None);
    assert_eq!(create_statement(&Vec::new()), None);
    assert_eq!(link_statement(&Vec::new(), 7), None);
}

#[test]
fn statement_with_quoted_word_stays_one_literal() {
    assert_eq!(
        create_statement(&strings(&["'); DROP TABLE link; --"])),
        Some("INSERT INTO dictionary (text) VALUES ('''); DROP TABLE link; --')".to_string())
    );
}
