//! Reconciliation of a requested word list with the dictionary rows found.

use vstd::prelude::*;

use crate::sql::texts;

verus! {

/// A dictionary row: a word text and the id the store gave it.
#[derive(Clone, Debug, PartialEq, Eq)]
pub struct Word {
    pub word: String,
    pub id: u64,
}

impl View for Word {
    type V = (u64, Seq<char>);

    open spec fn view(&self) -> (u64, Seq<char>) {
        (self.id, self.word@)
    }
}

impl Word {
    pub fn new(id: u64, word: String) -> (r: Word)
        ensures
            r@ == (id, word@),
    {
        Word { word, id }
    }

    /// The text of the word.
    pub fn as_string(&self) -> (r: String)
        ensures
            r@ == self.word@,
    {
        self.word.clone()
    }
}

/// The rows of a list of words.
pub open spec fn rows_of(v: Seq<Word>) -> Seq<(u64, Seq<char>)> {
    v.map_values(|w: Word| w@)
}

/// The texts of a list of rows.
pub open spec fn row_texts(rows: Seq<(u64, Seq<char>)>) -> Seq<Seq<char>> {
    rows.map_values(|r: (u64, Seq<char>)| r.1)
}

/// The ids of a list of rows.
pub open spec fn row_ids(rows: Seq<(u64, Seq<char>)>) -> Seq<u64> {
    rows.map_values(|r: (u64, Seq<char>)| r.0)
}

/// The texts of `raw` that `known` lacks, each once, in the order of their
/// first occurrence.
pub open spec fn missing_of(raw: Seq<Seq<char>>, known: Seq<Seq<char>>) -> Seq<Seq<char>>
    decreases raw.len(),
{
    if raw.len() == 0 {
        Seq::empty()
    } else {
        let rest = missing_of(raw.drop_last(), known);
        let t = raw.last();
        if known.contains(t) || raw.drop_last().contains(t) {
            rest
        } else {
            rest.push(t)
        }
    }
}

/// A text is missing exactly when it was asked for and not found; none is
/// missing twice.
pub proof fn lemma_missing_of(raw: Seq<Seq<char>>, known: Seq<Seq<char>>)
    ensures
        missing_of(raw, known).no_duplicates(),
        forall|t: Seq<char>|
            #[trigger] missing_of(raw, known).contains(t) <==> (raw.contains(t) && !known.contains(t)),
    decreases raw.len(),
{
    if raw.len() > 0 {
        let init = raw.drop_last();
        lemma_missing_of(init, known);
        assert forall|t: Seq<char>| raw.contains(t) <==> (init.contains(t) || t == raw.last()) by {
            if raw.contains(t) {
                let k = choose|k: int| 0 <= k < raw.len() && raw[k] == t;
                if k < raw.len() - 1 {
                    assert(init[k] == t);
                }
            }
            if init.contains(t) {
                let k = choose|k: int| 0 <= k < init.len() && init[k] == t;
                assert(raw[k] == t);
            }
            if t == raw.last() {
                assert(raw[raw.len() - 1] == t);
            }
        }
        let rest = missing_of(init, known);
        let last = raw.last();
        if !(known.contains(last) || init.contains(last)) {
            let m = rest.push(last);
            assert(m == missing_of(raw, known));
            assert forall|t: Seq<char>| m.contains(t) <==> (rest.contains(t) || t == last) by {
                if m.contains(t) {
                    let k = choose|k: int| 0 <= k < m.len() && m[k] == t;
                    if k < rest.len() {
                        assert(rest[k] == t);
                    }
                }
                if rest.contains(t) {
                    let k = choose|k: int| 0 <= k < rest.len() && rest[k] == t;
                    assert(m[k] == t);
                }
                if t == last {
                    assert(m[m.len() - 1] == t);
                }
            }
            assert forall|a: int, b: int| 0 <= a < m.len() && 0 <= b < m.len() && a != b implies m[a]
                != m[b] by {
                if a == m.len() - 1 {
                    assert(rest.contains(m[b]));
                } else if b == m.len() - 1 {
                    assert(rest.contains(m[a]));
                }
            }
        }
    }
}

/// Whether some row has the text `t`.
fn known_text(rows: &Vec<Word>, t: &String) -> (r: bool)
    ensures
        r == row_texts(rows_of(rows@)).contains(t@),
{
    let ghost ts = row_texts(rows_of(rows@));
    let mut i: usize = 0;
    while i < rows.len()
        invariant
            i <= rows@.len(),
            ts == row_texts(rows_of(rows@)),
            ts.len() == rows@.len(),
            forall|k: int| 0 <= k < rows@.len() ==> ts[k] == (#[trigger] rows@[k]).word@,
            forall|k: int| 0 <= k < i ==> ts[k] != t@,
        decreases rows@.len() - i,
    {
        if rows[i].word == *t {
            assert(ts[i as int] == t@);
            return true;
        }
        i = i + 1;
    }
    false
}

/// Whether `t` occurs among the first `end` strings of `list`.
fn occurs_before(list: &Vec<String>, end: usize, t: &String) -> (r: bool)
    requires
        end <= list@.len(),
    ensures
        r == texts(list@).subrange(0, end as int).contains(t@),
{
    let ghost ts = texts(list@).subrange(0, end as int);
    let mut i: usize = 0;
    while i < end
        invariant
            i <= end <= list@.len(),
            ts == texts(list@).subrange(0, end as int),
            ts.len() == end,
            forall|k: int| 0 <= k < end ==> ts[k] == (#[trigger] list@[k])@,
            forall|k: int| 0 <= k < i ==> ts[k] != t@,
        decreases end - i,
    {
        if list[i] == *t {
            assert(ts[i as int] == t@);
            return true;
        }
        i = i + 1;
    }
    false
}

/// The words of `raw` that no resolved row holds, each once, in the order of
/// their first occurrence.
pub fn missing_words(raw: &Vec<String>, resolved: &Vec<Word>) -> (r: Vec<String>)
    ensures
        texts(r@) == missing_of(texts(raw@), row_texts(rows_of(resolved@))),
{
    let ghost known = row_texts(rows_of(resolved@));
    let ghost all = texts(raw@);
    let mut out: Vec<String> = Vec::new();
    let mut i: usize = 0;
    while i < raw.len()
        invariant
            i <= raw@.len(),
            all == texts(raw@),
            known == row_texts(rows_of(resolved@)),
            texts(out@) == missing_of(all.subrange(0, i as int), known),
        decreases raw@.len() - i,
    {
        let ghost pre = all.subrange(0, i as int);
        let t = &raw[i];
        let fresh = !known_text(resolved, t) && !occurs_before(raw, i, t);
        proof {
            let next = all.subrange(0, i + 1);
            assert(next.drop_last() =~= pre);
            assert(next.last() == t@);
        }
        if fresh {
            out.push(t.clone());
            assert(texts(out@) =~= missing_of(all.subrange(0, i + 1), known));
        }
        i = i + 1;
    }
    assert(all.subrange(0, i as int) =~= all);
    out
}

/// The ids of the resolved rows followed by those of the created rows.
pub fn link_ids(resolved: &Vec<Word>, created: &Vec<Word>) -> (r: Vec<u64>)
    ensures
        r@ == row_ids(rows_of(resolved@)) + row_ids(rows_of(created@)),
{
    let mut out: Vec<u64> = Vec::new();
    let mut i: usize = 0;
    while i < resolved.len()
        invariant
            i <= resolved@.len(),
            out@ == row_ids(rows_of(resolved@)).subrange(0, i as int),
        decreases resolved@.len() - i,
    {
        out.push(resolved[i].id);
        assert(out@ =~= row_ids(rows_of(resolved@)).subrange(0, i + 1));
        i = i + 1;
    }
    let mut j: usize = 0;
    while j < created.len()
        invariant
            j <= created@.len(),
            out@ == row_ids(rows_of(resolved@)) + row_ids(rows_of(created@)).subrange(0, j as int),
        decreases created@.len() - j,
    {
        out.push(created[j].id);
        assert(out@ =~= row_ids(rows_of(resolved@)) + row_ids(rows_of(created@)).subrange(0, j + 1));
        j = j + 1;
    }
    assert(row_ids(rows_of(created@)).subrange(0, j as int) =~= row_ids(rows_of(created@)));
    out
}

} // verus!
