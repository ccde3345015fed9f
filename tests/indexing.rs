use rspy_rsi::{Command, ErrorKind, IndexBuild, IndexError, Phase, Reply, Word};

fn strings(ws: &[&str]) -> Vec<String> {
    ws.iter().map(|w| w.to_string()).collect()
}

fn word(id: u64, text: &str) -> Word {
    Word::new(id, text.to_string())
}

fn query(s: &str) -> Command {
    Command::Query(s.to_string())
}

fn execute(s: &str) -> Command {
    Command::Execute(s.to_string())
}

fn failure(kind: ErrorKind, msg: &str) -> IndexError {
    IndexError::new(kind, msg.to_string())
}

#[test]
fn build_of_new_words_creates_and_links_them() {
    let mut b = IndexBuild::new(strings(&["alpha", "beta"]), 7);
    assert_eq!(b.start(), Command::Begin);
    assert_eq!(
        b.step(Reply::Done),
        query("SELECT id, text FROM dictionary WHERE text IN ('alpha', 'beta')")
    );
    assert_eq!(
        b.step(Reply::Rows(Vec::new())),
        execute("INSERT INTO dictionary (text) VALUES ('alpha'), ('beta')")
    );
    assert_eq!(
        b.step(Reply::Done),
        query("SELECT id, text FROM dictionary WHERE text IN ('alpha', 'beta')")
    );
    assert_eq!(
        b.step(Reply::Rows(vec![word(1, "alpha"), word(2, "beta")])),
        execute("INSERT INTO link (word_id, item_id) VALUES (1, 7), (2, 7)")
    );
    assert_eq!(b.step(Reply::Done), Command::Commit);
    assert!(!b.is_finished());
    assert_eq!(b.step(Reply::Done), Command::Finish(Ok(())));
    assert!(b.is_finished());
}

#[test]
fn build_links_found_and_created_words() {
    let mut b = IndexBuild::new(strings(&["a", "b", "c"]), 4);
    assert_eq!(b.start(), Command::Begin);
    b.step(Reply::Done);
    assert_eq!(
        b.step(Reply::Rows(vec![word(10, "b")])),
        execute("INSERT INTO dictionary (text) VALUES ('a'), ('c')")
    );
    assert_eq!(b.missing, strings(&["a", "c"]));
    assert_eq!(
        b.step(Reply::Done),
        query("SELECT id, text FROM dictionary WHERE text IN ('a', 'c')")
    );
    assert_eq!(
        b.step(Reply::Rows(vec![word(11, "a"), word(12, "c")])),
        execute("INSERT INTO link (word_id, item_id) VALUES (10, 4), (11, 4), (12, 4)")
    );
}

#[test]
fn build_of_known_words_creates_nothing() {
    let mut b = IndexBuild::new(strings(&["alpha", "beta"]), 7);
    b.start();
    b.step(Reply::Done);
    assert_eq!(
        b.step(Reply::Rows(vec![word(2, "beta"), word(1, "alpha")])),
        execute("INSERT INTO link (word_id, item_id) VALUES (2, 7), (1, 7)")
    );
    assert_eq!(b.phase, Phase::Linking);
    assert_eq!(b.step(Reply::Done), Command::Commit);
    assert_eq!(b.step(Reply::Done), Command::Finish(Ok(())));
}

#[test]
fn build_of_no_words_asks_nothing() {
    let mut b = IndexBuild::new(Vec::new(), 7);
    assert_eq!(b.start(), Command::Finish(Ok(())));
    assert!(b.is_finished());
}

#[test]
fn repeated_word_is_created_and_linked_once() {
    let mut b = IndexBuild::new(strings(&["cat", "cat"]), 3);
    b.start();
    assert_eq!(
        b.step(Reply::Done),
        query("SELECT id, text FROM dictionary WHERE text IN ('cat', 'cat')")
    );
    assert_eq!(
        b.step(Reply::Rows(Vec::new())),
        execute("INSERT INTO dictionary (text) VALUES ('cat')")
    );
    assert_eq!(
        b.step(Reply::Done),
        query("SELECT id, text FROM dictionary WHERE text IN ('cat')")
    );
    assert_eq!(
        b.step(Reply::Rows(vec![word(8, "cat")])),
        execute("INSERT INTO link (word_id, item_id) VALUES (8, 3)")
    );
}

#[test]
fn word_with_quote_is_stored_as_one_literal() {
    let mut b = IndexBuild::new(strings(&["don't"]), 1);
    b.start();
    assert_eq!(
        b.step(Reply::Done),
        query("SELECT id, text FROM dictionary WHERE text IN ('don''t')")
    );
    assert_eq!(
        b.step(Reply::Rows(Vec::new())),
        execute("INSERT INTO dictionary (text) VALUES ('don''t')")
    );
}

#[test]
fn failure_while_linking_rolls_back() {
    let mut b = IndexBuild::new(strings(&["alpha"]), 7);
    b.start();
    b.step(Reply::Done);
    b.step(Reply::Rows(vec![word(1, "alpha")]));
    let e = failure(ErrorKind::Connection, "store unreachable");
    assert_eq!(b.step(Reply::Failed(e.clone())), Command::Rollback);
    assert_eq!(b.phase, Phase::RollingBack);
    assert_eq!(b.step(Reply::Done), Command::Finish(Err(e)));
}

#[test]
fn failure_while_creating_rolls_back() {
    let mut b = IndexBuild::new(strings(&["alpha"]), 7);
    b.start();
    b.step(Reply::Done);
    b.step(Reply::Rows(Vec::new()));
    let e = failure(ErrorKind::Execution, "UNIQUE constraint failed");
    assert_eq!(b.step(Reply::Failed(e.clone())), Command::Rollback);
    let other = failure(ErrorKind::Connection, "rollback failed too");
    assert_eq!(b.step(Reply::Failed(other)), Command::Finish(Err(e)));
}

#[test]
fn failure_of_commit_rolls_back() {
    let mut b = IndexBuild::new(strings(&["alpha"]), 7);
    b.start();
    b.step(Reply::Done);
    b.step(Reply::Rows(vec![word(1, "alpha")]));
    b.step(Reply::Done);
    let e = failure(ErrorKind::Execution, "database is locked");
    assert_eq!(b.step(Reply::Failed(e.clone())), Command::Rollback);
    assert_eq!(b.step(Reply::Done), Command::Finish(Err(e)));
}

#[test]
fn failure_to_begin_ends_the_build() {
    let mut b = IndexBuild::new(strings(&["alpha"]), 7);
    b.start();
    let e = failure(ErrorKind::Connection, "no such file");
    assert_eq!(b.step(Reply::Failed(e.clone())), Command::Finish(Err(e)));
    assert!(b.is_finished());
}

#[test]
fn unexpected_reply_rolls_back() {
    let mut b = IndexBuild::new(strings(&["alpha"]), 7);
    b.start();
    b.step(Reply::Done);
    assert_eq!(b.step(Reply::Done), Command::Rollback);
    match b.step(Reply::Done) {
        Command::Finish(Err(e)) => assert_eq!(e.kind, ErrorKind::Execution),
        other => panic!("unexpected command {:?}", other),
    }
}

#[test]
fn created_words_not_read_back_roll_back() {
    let mut b = IndexBuild::new(strings(&["alpha"]), 7);
    b.start();
    b.step(Reply::Done);
    b.step(Reply::Rows(Vec::new()));
    b.step(Reply::Done);
    assert_eq!(b.step(Reply::Rows(Vec::new())), Command::Rollback);
    match b.step(Reply::Done) {
        Command::Finish(Err(e)) => assert_eq!(e.kind, ErrorKind::Execution),
        other => panic!("unexpected command {:?}", other),
    }
}

#[test]
fn step_after_finish_reports_an_error() {
    let mut b = IndexBuild::new(Vec::new(), 7);
    b.start();
    match b.step(Reply::Done) {
        Command::Finish(Err(e)) => assert_eq!(e.kind, ErrorKind::Execution),
        other => panic!("unexpected command {:?}", other),
    }
}
