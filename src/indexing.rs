//! The index build as a sequence of commands for the store.
//!
//! A build of a word list for an item runs in one transaction: it reads the
//! dictionary rows of the words, adds the missing words, reads their rows
//! back, links every word to the item, and commits. The caller carries out
//! each command and hands the store's reply to `step`; any failure after the
//! transaction began is followed by a rollback, so that a failed build leaves
//! both relations as they were.

use vstd::prelude::*;

use crate::reconcile::{
    lemma_missing_of, link_ids, missing_of, missing_words, row_texts, rows_of, Word,
};
use crate::sql::{
    create_sql, create_statement, link_sql, link_statement, lookup_sql, lookup_statement, texts,
};
use crate::store::linked_ids;

verus! {

/// What went wrong with the store.
#[derive(Clone, Copy, Debug, PartialEq, Eq)]
pub enum ErrorKind {
    /// The store could not be reached, or its handle is invalid.
    Connection,
    /// A statement could not be built or prepared.
    Statement,
    /// The store refused or failed a statement.
    Execution,
}

/// A failure of the store, with a message for diagnostics.
#[derive(Clone, Debug, PartialEq, Eq)]
pub struct IndexError {
    pub kind: ErrorKind,
    pub message: String,
}

impl IndexError {
    pub fn new(kind: ErrorKind, message: String) -> (r: IndexError)
        ensures
            r.kind == kind,
            r.message@ == message@,
    {
        IndexError { kind, message }
    }
}

/// What the store is asked to do next.
#[derive(Debug, PartialEq, Eq)]
pub enum Command {
    /// Open a transaction.
    Begin,
    /// Run a query that yields dictionary rows `(id, text)`.
    Query(String),
    /// Run a statement that changes the store.
    Execute(String),
    /// Commit the transaction.
    Commit,
    /// Roll the transaction back.
    Rollback,
    /// The build is over, with this outcome.
    Finish(Result<(), IndexError>),
}

/// What the store answered to the last command.
#[derive(Debug, PartialEq, Eq)]
pub enum Reply {
    /// The command succeeded and yielded no rows.
    Done,
    /// The query succeeded and yielded these rows.
    Rows(Vec<Word>),
    /// The command failed.
    Failed(IndexError),
}

/// How far a build has gone.
#[derive(Clone, Copy, Debug, PartialEq, Eq)]
pub enum Phase {
    Idle,
    Beginning,
    Resolving,
    Creating,
    Rereading,
    Linking,
    Committing,
    RollingBack,
    Finished,
}

/// `c` runs the query `sql`.
pub open spec fn queries(c: Command, sql: Seq<char>) -> bool {
    match c {
        Command::Query(s) => s@ == sql,
        _ => false,
    }
}

/// `c` runs the statement `sql`.
pub open spec fn executes(c: Command, sql: Seq<char>) -> bool {
    match c {
        Command::Execute(s) => s@ == sql,
        _ => false,
    }
}

/// `c` ends the build with the error `e`.
pub open spec fn fails_with(c: Command, e: IndexError) -> bool {
    c == Command::Finish(Err(e))
}

/// The error that a reply means in a phase that expected another reply.
pub open spec fn failure_of(reply: Reply, e: IndexError) -> bool {
    match reply {
        Reply::Failed(f) => e == f,
        _ => e.kind == ErrorKind::Execution,
    }
}

/// One build of a word list for an item.
pub struct IndexBuild {
    pub words: Vec<String>,
    pub item: u64,
    pub phase: Phase,
    /// The rows that the first lookup read.
    pub resolved: Vec<Word>,
    /// The words that the first lookup did not find.
    pub missing: Vec<String>,
    /// The rows of the created words, as read back.
    pub created: Vec<Word>,
    /// The failure that a rollback under way will report.
    pub error: Option<IndexError>,
}

fn unexpected_reply() -> (e: IndexError)
    ensures
        e.kind == ErrorKind::Execution,
{
    IndexError::new(ErrorKind::Execution, String::from_str("the store gave an unexpected reply"))
}

fn error_of(reply: Reply) -> (e: IndexError)
    ensures
        failure_of(reply, e),
{
    match reply {
        Reply::Failed(e) => e,
        _ => unexpected_reply(),
    }
}

/// Where every word of a non-empty list was found, something was found.
proof fn lemma_all_found(words: Seq<Seq<char>>, known: Seq<Seq<char>>)
    requires
        words.len() > 0,
        missing_of(words, known).len() == 0,
    ensures
        known.len() > 0,
{
    lemma_missing_of(words, known);
    assert(words.contains(words[0]));
    if !known.contains(words[0]) {
        assert(missing_of(words, known).contains(words[0]));
    }
}

impl IndexBuild {
    /// What holds of a build in every phase.
    pub open spec fn wf(&self) -> bool {
        &&& (self.phase is Idle || self.phase is Finished || self.words@.len() > 0)
        &&& (self.phase is Creating || self.phase is Rereading ==> self.missing@.len() > 0)
        &&& (self.phase is RollingBack ==> self.error is Some)
    }

    /// A build of `words` for `item` that has not started.
    pub fn new(words: Vec<String>, item: u64) -> (r: IndexBuild)
        ensures
            r.wf(),
            r.phase is Idle,
            r.words@ == words@,
            r.item == item,
            r.resolved@.len() == 0,
            r.missing@.len() == 0,
            r.created@.len() == 0,
            r.error is None,
    {
        IndexBuild {
            words,
            item,
            phase: Phase::Idle,
            resolved: Vec::new(),
            missing: Vec::new(),
            created: Vec::new(),
            error: None,
        }
    }

    /// Whether the build is over.
    pub fn is_finished(&self) -> (r: bool)
        ensures
            r == self.phase is Finished,
    {
        matches!(self.phase, Phase::Finished)
    }

    /// The first command. A build of no words is over at once, with success,
    /// and asks nothing of the store.
    pub fn start(&mut self) -> (c: Command)
        requires
            old(self).wf(),
            old(self).phase is Idle,
        ensures
            final(self).wf(),
            final(self).words == old(self).words,
            final(self).item == old(self).item,
            old(self).words@.len() == 0 ==> final(self).phase is Finished && c == Command::Finish(
                Ok(()),
            ),
            old(self).words@.len() > 0 ==> final(self).phase is Beginning && c == Command::Begin,
    {
        if self.words.len() == 0 {
            self.phase = Phase::Finished;
            Command::Finish(Ok(()))
        } else {
            self.phase = Phase::Beginning;
            Command::Begin
        }
    }

    fn roll_back(&mut self, reply: Reply) -> (c: Command)
        requires
            old(self).wf(),
            !(old(self).phase is Idle),
            !(old(self).phase is Finished),
        ensures
            final(self).phase is RollingBack,
            final(self).wf(),
            final(self).words == old(self).words,
            final(self).item == old(self).item,
            final(self).resolved == old(self).resolved,
            final(self).missing == old(self).missing,
            final(self).created == old(self).created,
            failure_of(reply, final(self).error->0),
            c == Command::Rollback,
    {
        self.error = Some(error_of(reply));
        self.phase = Phase::RollingBack;
        Command::Rollback
    }

    /// The command that follows the store's reply to the last one.
    ///
    /// A reply other than the one the phase waits for counts as a failure:
    /// before the transaction began it ends the build, after that it rolls
    /// the transaction back, and the build then ends with that failure
    /// whatever the rollback's reply. A build that found every word links the
    /// rows it read; one that did not adds the missing words, reads their rows
    /// back and links both lists. One link per row read: a word that occurs
    /// twice in the list is linked once.
    pub fn step(&mut self, reply: Reply) -> (c: Command)
        requires
            old(self).wf(),
        ensures
            final(self).wf(),
            final(self).words == old(self).words,
            final(self).item == old(self).item,
            ({
                let words = texts(old(self).words@);
                let item = old(self).item;
                match old(self).phase {
                    Phase::Idle | Phase::Finished => final(self).phase is Finished && (c matches Command::Finish(
                        Err(e),
                    ) && e.kind == ErrorKind::Execution),
                    Phase::Beginning => match reply {
                        Reply::Done => final(self).phase is Resolving && queries(c, lookup_sql(words)),
                        _ => final(self).phase is Finished && (c matches Command::Finish(Err(e))
                            && failure_of(reply, e)),
                    },
                    Phase::Resolving => match reply {
                        Reply::Rows(rows) => {
                            let m = missing_of(words, row_texts(rows_of(rows@)));
                            &&& final(self).resolved@ == rows@
                            &&& texts(final(self).missing@) == m
                            &&& m.len() == 0 ==> final(self).phase is Linking && executes(
                                c,
                                link_sql(linked_ids(rows_of(rows@), Seq::empty()), item),
                            )
                            &&& m.len() > 0 ==> final(self).phase is Creating && executes(
                                c,
                                create_sql(m),
                            )
                        },
                        _ => final(self).phase is RollingBack && c == Command::Rollback
                            && failure_of(reply, final(self).error->0),
                    },
                    Phase::Creating => match reply {
                        Reply::Done => final(self).phase is Rereading && queries(
                            c,
                            lookup_sql(texts(old(self).missing@)),
                        ) && final(self).missing == old(self).missing,
                        _ => final(self).phase is RollingBack && c == Command::Rollback
                            && failure_of(reply, final(self).error->0),
                    },
                    Phase::Rereading => match reply {
                        Reply::Rows(rows) => {
                            let ids = linked_ids(rows_of(old(self).resolved@), rows_of(rows@));
                            &&& final(self).created@ == rows@
                            &&& ids.len() > 0 ==> final(self).phase is Linking && executes(
                                c,
                                link_sql(ids, item),
                            )
                            &&& ids.len() == 0 ==> final(self).phase is RollingBack && c
                                == Command::Rollback && final(self).error->0.kind
                                == ErrorKind::Execution
                        },
                        _ => final(self).phase is RollingBack && c == Command::Rollback
                            && failure_of(reply, final(self).error->0),
                    },
                    Phase::Linking => match reply {
                        Reply::Done => final(self).phase is Committing && c == Command::Commit,
                        _ => final(self).phase is RollingBack && c == Command::Rollback
                            && failure_of(reply, final(self).error->0),
                    },
                    Phase::Committing => match reply {
                        Reply::Done => final(self).phase is Finished && c == Command::Finish(Ok(())),
                        _ => final(self).phase is RollingBack && c == Command::Rollback
                            && failure_of(reply, final(self).error->0),
                    },
                    Phase::RollingBack => final(self).phase is Finished && c == Command::Finish(
                        Err(old(self).error->0),
                    ),
                }
            }),
    {
        match self.phase {
            Phase::Idle | Phase::Finished => {
                self.phase = Phase::Finished;
                Command::Finish(Err(unexpected_reply()))
            },
            Phase::Beginning => match reply {
                Reply::Done => match lookup_statement(&self.words) {
                    Some(s) => {
                        self.phase = Phase::Resolving;
                        Command::Query(s)
                    },
                    None => {
                        self.phase = Phase::Finished;
                        Command::Finish(Err(unexpected_reply()))
                    },
                },
                _ => {
                    self.phase = Phase::Finished;
                    Command::Finish(Err(error_of(reply)))
                },
            },
            Phase::Resolving => match reply {
                Reply::Rows(rows) => {
                    let missing = missing_words(&self.words, &rows);
                    self.resolved = rows;
                    if missing.len() == 0 {
                        let none: Vec<Word> = Vec::new();
                        let ids = link_ids(&self.resolved, &none);
                        proof {
                            lemma_all_found(texts(self.words@), row_texts(rows_of(self.resolved@)));
                            assert(rows_of(none@) =~= Seq::empty());
                        }
                        self.missing = missing;
                        match link_statement(&ids, self.item) {
                            Some(s) => {
                                self.phase = Phase::Linking;
                                Command::Execute(s)
                            },
                            None => self.roll_back(Reply::Done),
                        }
                    } else {
                        let c = match create_statement(&missing) {
                            Some(s) => Command::Execute(s),
                            None => Command::Rollback,
                        };
                        self.missing = missing;
                        self.phase = Phase::Creating;
                        c
                    }
                },
                _ => self.roll_back(reply),
            },
            Phase::Creating => match reply {
                Reply::Done => {
                    let c = match lookup_statement(&self.missing) {
                        Some(s) => Command::Query(s),
                        None => Command::Rollback,
                    };
                    self.phase = Phase::Rereading;
                    c
                },
                _ => self.roll_back(reply),
            },
            Phase::Rereading => match reply {
                Reply::Rows(rows) => {
                    let ids = link_ids(&self.resolved, &rows);
                    self.created = rows;
                    match link_statement(&ids, self.item) {
                        Some(s) => {
                            self.phase = Phase::Linking;
                            Command::Execute(s)
                        },
                        None => self.roll_back(Reply::Done),
                    }
                },
                _ => self.roll_back(reply),
            },
            Phase::Linking => match reply {
                Reply::Done => {
                    self.phase = Phase::Committing;
                    Command::Commit
                },
                _ => self.roll_back(reply),
            },
            Phase::Committing => match reply {
                Reply::Done => {
                    self.phase = Phase::Finished;
                    Command::Finish(Ok(()))
                },
                _ => self.roll_back(reply),
            },
            Phase::RollingBack => {
                self.phase = Phase::Finished;
                match self.error.take() {
                    Some(e) => Command::Finish(Err(e)),
                    None => Command::Finish(Err(unexpected_reply())),
                }
            },
        }
    }
}

} // verus!
