//! A model of the dictionary relation, and what one index build does to it.
//!
//! A dictionary is a sequence of rows `(id, text)`. The store's schema keeps
//! ids and texts unique; a lookup reads every row whose text was asked for;
//! a batched insert appends one row per text, with ids the store chooses.

use vstd::prelude::*;

use crate::reconcile::{lemma_missing_of, missing_of, row_ids, row_texts};

verus! {

/// No two rows share an id or a text.
pub open spec fn dict_well_formed(dict: Seq<(u64, Seq<char>)>) -> bool {
    forall|i: int, j: int|
        0 <= i < dict.len() && 0 <= j < dict.len() && i != j ==> dict[i].0 != dict[j].0
            && dict[i].1 != dict[j].1
}

/// `rows` is what a lookup of the texts `ws` reads from `dict`: each row whose
/// text was asked for, once.
pub open spec fn answers(
    dict: Seq<(u64, Seq<char>)>,
    ws: Seq<Seq<char>>,
    rows: Seq<(u64, Seq<char>)>,
) -> bool {
    &&& rows.no_duplicates()
    &&& forall|r: (u64, Seq<char>)| #[trigger]
        rows.contains(r) <==> (dict.contains(r) && ws.contains(r.1))
}

/// The ids are distinct and unused in `dict`.
pub open spec fn fresh_ids(dict: Seq<(u64, Seq<char>)>, ids: Seq<u64>) -> bool {
    &&& ids.no_duplicates()
    &&& forall|k: int| 0 <= k < ids.len() ==> !row_ids(dict).contains(#[trigger] ids[k])
}

/// The rows that a batched insert of `ws` adds, with the ids `ids`.
pub open spec fn created_rows(ws: Seq<Seq<char>>, ids: Seq<u64>) -> Seq<(u64, Seq<char>)> {
    Seq::new(ws.len(), |k: int| (ids[k], ws[k]))
}

/// The dictionary after one build of `words`, where the first lookup read
/// `rows` and the store gave the created words the ids `ids`.
pub open spec fn grown(
    dict: Seq<(u64, Seq<char>)>,
    words: Seq<Seq<char>>,
    rows: Seq<(u64, Seq<char>)>,
    ids: Seq<u64>,
) -> Seq<(u64, Seq<char>)> {
    dict + created_rows(missing_of(words, row_texts(rows)), ids)
}

/// Exactly one row of `dict` has the text `t`.
pub open spec fn held_once(dict: Seq<(u64, Seq<char>)>, t: Seq<char>) -> bool {
    exists|i: int|
        0 <= i < dict.len() && dict[i].1 == t && forall|j: int|
            0 <= j < dict.len() && #[trigger] dict[j].1 == t ==> j == i
}

proof fn lemma_row_in_maps(rows: Seq<(u64, Seq<char>)>, r: (u64, Seq<char>))
    requires
        rows.contains(r),
    ensures
        row_texts(rows).contains(r.1),
        row_ids(rows).contains(r.0),
{
    let k = choose|k: int| 0 <= k < rows.len() && rows[k] == r;
    assert(row_texts(rows)[k] == r.1);
    assert(row_ids(rows)[k] == r.0);
}

proof fn lemma_text_in_rows(rows: Seq<(u64, Seq<char>)>, t: Seq<char>) -> (r: (u64, Seq<char>))
    requires
        row_texts(rows).contains(t),
    ensures
        rows.contains(r),
        r.1 == t,
{
    let k = choose|k: int| 0 <= k < row_texts(rows).len() && row_texts(rows)[k] == t;
    assert(rows.contains(rows[k]));
    rows[k]
}

/// Rows drawn without repetition from a well-formed dictionary have distinct
/// ids.
proof fn lemma_distinct_ids(dict: Seq<(u64, Seq<char>)>, rows: Seq<(u64, Seq<char>)>)
    requires
        dict_well_formed(dict),
        rows.no_duplicates(),
        forall|r: (u64, Seq<char>)| #[trigger] rows.contains(r) ==> dict.contains(r),
    ensures
        row_ids(rows).no_duplicates(),
{
    assert forall|a: int, b: int|
        0 <= a < rows.len() && 0 <= b < rows.len() && a != b implies row_ids(rows)[a]
        != row_ids(rows)[b] by {
        assert(rows.contains(rows[a]));
        assert(rows.contains(rows[b]));
        let i = choose|i: int| 0 <= i < dict.len() && dict[i] == rows[a];
        let j = choose|j: int| 0 <= j < dict.len() && dict[j] == rows[b];
    }
}

/// The created rows lie past the end of the old dictionary, and every row
/// there holds a missing text and one of the given ids.
proof fn lemma_grown_parts(
    dict: Seq<(u64, Seq<char>)>,
    words: Seq<Seq<char>>,
    rows: Seq<(u64, Seq<char>)>,
    ids: Seq<u64>,
)
    requires
        dict_well_formed(dict),
        answers(dict, words, rows),
        ids.len() == missing_of(words, row_texts(rows)).len(),
        fresh_ids(dict, ids),
    ensures
        ({
            let m = missing_of(words, row_texts(rows));
            let d = grown(dict, words, rows, ids);
            &&& d.len() == dict.len() + m.len()
            &&& forall|k: int| 0 <= k < dict.len() ==> d[k] == dict[k]
            &&& forall|k: int|
                0 <= k < m.len() ==> d[dict.len() + k] == (ids[k], m[k]) && !row_ids(dict).contains(
                    ids[k],
                ) && !row_texts(dict).contains(#[trigger] m[k]) && words.contains(m[k])
        }),
{
    let m = missing_of(words, row_texts(rows));
    lemma_missing_of(words, row_texts(rows));
    assert forall|k: int| 0 <= k < m.len() implies !row_texts(dict).contains(#[trigger] m[k])
        && words.contains(m[k]) by {
        assert(m.contains(m[k]));
        if row_texts(dict).contains(m[k]) {
            let r = lemma_text_in_rows(dict, m[k]);
            assert(rows.contains(r));
            lemma_row_in_maps(rows, r);
        }
    }
}

/// After a build of a word list, each of its texts is held by exactly one
/// row of the dictionary, the dictionary keeps ids and texts unique, and the
/// only rows it gained hold texts of the list.
pub proof fn lemma_build_holds_each_word_once(
    dict: Seq<(u64, Seq<char>)>,
    words: Seq<Seq<char>>,
    rows: Seq<(u64, Seq<char>)>,
    ids: Seq<u64>,
)
    requires
        dict_well_formed(dict),
        answers(dict, words, rows),
        ids.len() == missing_of(words, row_texts(rows)).len(),
        fresh_ids(dict, ids),
    ensures
        dict_well_formed(grown(dict, words, rows, ids)),
        forall|t: Seq<char>| #[trigger] words.contains(t) ==> held_once(grown(dict, words, rows, ids), t),
        forall|k: int|
            dict.len() <= k < grown(dict, words, rows, ids).len() ==> words.contains(
                #[trigger] grown(dict, words, rows, ids)[k].1,
            ),
{
    let m = missing_of(words, row_texts(rows));
    let d = grown(dict, words, rows, ids);
    let n = dict.len() as int;
    lemma_missing_of(words, row_texts(rows));
    lemma_grown_parts(dict, words, rows, ids);
    assert forall|i: int, j: int| 0 <= i < d.len() && 0 <= j < d.len() && i != j implies d[i].0
        != d[j].0 && d[i].1 != d[j].1 by {
        if i >= n && j < n {
            assert(row_ids(dict)[j] == dict[j].0);
            assert(row_texts(dict)[j] == dict[j].1);
            assert(m[i - n] == d[i].1);
        } else if i < n && j >= n {
            assert(row_ids(dict)[i] == dict[i].0);
            assert(row_texts(dict)[i] == dict[i].1);
            assert(m[j - n] == d[j].1);
        }
    }
    assert forall|k: int| n <= k < d.len() implies words.contains(#[trigger] d[k].1) by {
        assert(m[k - n] == d[k].1);
    }
    assert forall|t: Seq<char>| #[trigger] words.contains(t) implies held_once(d, t) by {
        let i = if row_texts(rows).contains(t) {
            let r = lemma_text_in_rows(rows, t);
            let i = choose|i: int| 0 <= i < dict.len() && dict[i] == r;
            assert(d[i] == r);
            i
        } else {
            assert(m.contains(t));
            let k = choose|k: int| 0 <= k < m.len() && m[k] == t;
            assert(d[n + k].1 == t);
            n + k
        };
        assert(0 <= i < d.len() && d[i].1 == t);
    }
}

/// A second build of the same word list creates no word: the first lookup
/// of the second build finds them all.
pub proof fn lemma_second_build_creates_nothing(
    dict: Seq<(u64, Seq<char>)>,
    words: Seq<Seq<char>>,
    rows: Seq<(u64, Seq<char>)>,
    ids: Seq<u64>,
    rows2: Seq<(u64, Seq<char>)>,
)
    requires
        dict_well_formed(dict),
        answers(dict, words, rows),
        ids.len() == missing_of(words, row_texts(rows)).len(),
        fresh_ids(dict, ids),
        answers(grown(dict, words, rows, ids), words, rows2),
    ensures
        missing_of(words, row_texts(rows2)).len() == 0,
        grown(grown(dict, words, rows, ids), words, rows2, Seq::empty()) == grown(dict, words, rows, ids),
{
    let d = grown(dict, words, rows, ids);
    let m2 = missing_of(words, row_texts(rows2));
    lemma_build_holds_each_word_once(dict, words, rows, ids);
    lemma_missing_of(words, row_texts(rows2));
    if m2.len() > 0 {
        let t = m2[0];
        assert(m2.contains(t));
        assert(held_once(d, t));
        let i = choose|i: int| 0 <= i < d.len() && d[i].1 == t && forall|j: int|
            0 <= j < d.len() && #[trigger] d[j].1 == t ==> j == i;
        assert(d.contains(d[i]));
        assert(rows2.contains(d[i]));
        lemma_row_in_maps(rows2, d[i]);
    }
    assert(created_rows(m2, Seq::empty()) =~= Seq::<(u64, Seq<char>)>::empty());
    assert(d + created_rows(m2, Seq::empty()) =~= d);
}

/// The ids that a build links to its item: those of the rows its first
/// lookup read, then those of the rows its second lookup read.
pub open spec fn linked_ids(rows: Seq<(u64, Seq<char>)>, created: Seq<(u64, Seq<char>)>) -> Seq<
    u64,
> {
    row_ids(rows) + row_ids(created)
}

/// A build links the ids of the rows its first lookup read, then those of
/// the rows its second lookup read. That list names each word of the list
/// exactly once, whether it was in the dictionary before or created by the
/// build, and names no other row of the dictionary.
pub proof fn lemma_build_links_each_word_once(
    dict: Seq<(u64, Seq<char>)>,
    words: Seq<Seq<char>>,
    rows: Seq<(u64, Seq<char>)>,
    ids: Seq<u64>,
    created: Seq<(u64, Seq<char>)>,
)
    requires
        dict_well_formed(dict),
        answers(dict, words, rows),
        ids.len() == missing_of(words, row_texts(rows)).len(),
        fresh_ids(dict, ids),
        answers(grown(dict, words, rows, ids), missing_of(words, row_texts(rows)), created),
    ensures
        linked_ids(rows, created).no_duplicates(),
        forall|r: (u64, Seq<char>)| #[trigger]
            grown(dict, words, rows, ids).contains(r) ==> (linked_ids(rows, created).contains(r.0)
                <==> words.contains(r.1)),
        forall|k: int|
            0 <= k < linked_ids(rows, created).len() ==> row_ids(
                grown(dict, words, rows, ids),
            ).contains(#[trigger] linked_ids(rows, created)[k]),
{
    let m = missing_of(words, row_texts(rows));
    let d = grown(dict, words, rows, ids);
    let n = dict.len() as int;
    let ls = linked_ids(rows, created);
    let la = row_ids(rows);
    let lb = row_ids(created);
    lemma_missing_of(words, row_texts(rows));
    lemma_grown_parts(dict, words, rows, ids);
    lemma_build_holds_each_word_once(dict, words, rows, ids);
    assert forall|r: (u64, Seq<char>)| #[trigger] dict.contains(r) implies d.contains(r) by {
        let i = choose|i: int| 0 <= i < dict.len() && dict[i] == r;
        assert(d[i] == r);
    }
    lemma_distinct_ids(dict, rows);
    lemma_distinct_ids(d, created);
    // A created row lies in the new part of the dictionary, under a fresh id.
    assert forall|b: int| 0 <= b < created.len() implies !row_ids(dict).contains(
        #[trigger] lb[b],
    ) by {
        assert(created.contains(created[b]));
        let j = choose|j: int| 0 <= j < d.len() && d[j] == created[b];
        assert(m.contains(created[b].1));
        if j < n {
            let k = choose|k: int| 0 <= k < m.len() && m[k] == created[b].1;
            assert(row_texts(dict)[j] == created[b].1);
            assert(!row_texts(dict).contains(m[k]));
        } else {
            assert(d[j] == (ids[j - n], m[j - n]));
        }
    }
    assert forall|a: int| 0 <= a < rows.len() implies row_ids(dict).contains(#[trigger] la[a]) by {
        assert(rows.contains(rows[a]));
        lemma_row_in_maps(dict, rows[a]);
    }
    assert forall|a: int, b: int| 0 <= a < ls.len() && 0 <= b < ls.len() && a != b implies ls[a]
        != ls[b] by {
        if a < la.len() && b >= la.len() {
            assert(ls[a] == la[a]);
            assert(ls[b] == lb[b - la.len()]);
        } else if a >= la.len() && b < la.len() {
            assert(ls[b] == la[b]);
            assert(ls[a] == lb[a - la.len()]);
        } else if a < la.len() {
            assert(ls[a] == la[a] && ls[b] == la[b]);
        } else {
            assert(ls[a] == lb[a - la.len()] && ls[b] == lb[b - la.len()]);
        }
    }
    // Every id in the list is that of a row read by one of the lookups.
    assert forall|k: int| 0 <= k < ls.len() implies exists|r: (u64, Seq<char>)|
        (rows.contains(r) || created.contains(r)) && r.0 == #[trigger] ls[k] by {
        if k < la.len() {
            assert(rows.contains(rows[k]) && rows[k].0 == ls[k]);
        } else {
            let b = k - la.len();
            assert(created.contains(created[b]) && created[b].0 == ls[k]);
        }
    }
    assert forall|r: (u64, Seq<char>)| #[trigger] d.contains(r) implies (ls.contains(r.0)
        <==> words.contains(r.1)) by {
        let i = choose|i: int| 0 <= i < d.len() && d[i] == r;
        if words.contains(r.1) {
            if i < n {
                assert(dict.contains(r));
                assert(rows.contains(r));
                let a = choose|a: int| 0 <= a < rows.len() && rows[a] == r;
                assert(ls[a] == r.0);
            } else {
                assert(m.contains(m[i - n]));
                assert(created.contains(r));
                let b = choose|b: int| 0 <= b < created.len() && created[b] == r;
                assert(ls[la.len() + b] == r.0);
            }
        }
        if ls.contains(r.0) {
            let k = choose|k: int| 0 <= k < ls.len() && ls[k] == r.0;
            let r2 = choose|r2: (u64, Seq<char>)|
                (rows.contains(r2) || created.contains(r2)) && r2.0 == ls[k];
            assert(d.contains(r2));
            let j = choose|j: int| 0 <= j < d.len() && d[j] == r2;
            assert(i == j);
        }
    }
    assert forall|k: int| 0 <= k < ls.len() implies row_ids(d).contains(#[trigger] ls[k]) by {
        let r2 = choose|r2: (u64, Seq<char>)|
            (rows.contains(r2) || created.contains(r2)) && r2.0 == ls[k];
        assert(d.contains(r2));
        lemma_row_in_maps(d, r2);
    }
}

} // verus!
