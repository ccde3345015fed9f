use rspy_rsi::{link_ids, missing_words, Word};

fn strings(ws: &[&str]) -> Vec<String> {
    ws.iter().map(|w| w.to_string()).collect()
}

fn word(id: u64, text: &str) -> Word {
    Word::new(id, text.to_string())
}

#[test]
fn word_as_string() {
    let w = word(4, "eel");
    assert_eq!(w.as_string(), "eel");
    assert_eq!(w.id, 4);
}

#[test]
fn missing_words_skips_found_and_repeated() {
    let raw = strings(&["cat", "dog", "cat", "eel", "dog"]);
    let found = vec![word(1, "dog")];
    assert_eq!(missing_words(&raw, &found), strings(&["cat", "eel"]));
}

#[test]
fn missing_words_none_when_all_found() {
    let raw = strings(&["cat", "dog"]);
    let found = vec![word(2, "dog"), word(1, "cat")];
    assert_eq!(missing_words(&raw, &found), Vec::<String>::new());
}

#[test]
fn missing_words_all_when_none_found() {
    let raw = strings(&["b", "a", "b"]);
    assert_eq!(missing_words(&raw, &Vec::new()), strings(&["b", "a"]));
}

#[test]
fn missing_words_match_case_exactly() {
    let raw = strings(&["Cat", "cat"]);
    let found = vec![word(1, "cat")];
    assert_eq!(missing_words(&raw, &found), strings(&["Cat"]));
}

#[test]
fn missing_words_of_empty_list() {
    assert_eq!(missing_words(&Vec::new(), &vec![word(1, "x")]), Vec::<String>::new());
}

#[test]
fn link_ids_resolved_then_created() {
    let resolved = vec![word(5, "a"), word(3, "b")];
    let created = vec![word(9, "c")];
    assert_eq!(link_ids(&resolved, &created), vec![5, 3, 9]);
    assert_eq!(link_ids(&Vec::new(), &Vec::new()), Vec::<u64>::new());
}
