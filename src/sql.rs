//! Rendering of literal values and batched value lists into statement text.

use vstd::prelude::*;

verus! {

/// The text of one character inside a quoted literal: a quote is doubled.
pub open spec fn escaped_char(c: char) -> Seq<char> {
    if c == '\'' {
        seq!['\'', '\'']
    } else {
        seq![c]
    }
}

/// The body of a quoted literal holding `s`.
pub open spec fn escaped(s: Seq<char>) -> Seq<char>
    decreases s.len(),
{
    if s.len() == 0 {
        Seq::empty()
    } else {
        escaped_char(s[0]) + escaped(s.drop_first())
    }
}

/// `s` as a quoted literal.
pub open spec fn quoted(s: Seq<char>) -> Seq<char> {
    seq!['\''] + escaped(s) + seq!['\'']
}

/// What a literal body stands for, or `None` where it holds a lone quote.
pub open spec fn unescaped(b: Seq<char>) -> Option<Seq<char>>
    decreases b.len(),
{
    if b.len() == 0 {
        Some(Seq::empty())
    } else if b[0] == '\'' {
        if b.len() >= 2 && b[1] == '\'' {
            match unescaped(b.skip(2)) {
                Some(r) => Some(seq!['\''] + r),
                None => None,
            }
        } else {
            None
        }
    } else {
        match unescaped(b.skip(1)) {
            Some(r) => Some(seq![b[0]] + r),
            None => None,
        }
    }
}

/// The value of a quoted literal, or `None` where `q` is not one.
pub open spec fn literal_value(q: Seq<char>) -> Option<Seq<char>> {
    if q.len() >= 2 && q[0] == '\'' && q[q.len() - 1] == '\'' {
        unescaped(q.subrange(1, q.len() - 1))
    } else {
        None
    }
}

proof fn lemma_escaped_push(s: Seq<char>, c: char)
    ensures
        escaped(s.push(c)) == escaped(s) + escaped_char(c),
    decreases s.len(),
{
    if s.len() == 0 {
        assert(s.push(c).drop_first() =~= Seq::<char>::empty());
        assert(s.push(c)[0] == c);
        assert(escaped(s.push(c).drop_first()) =~= Seq::<char>::empty());
        assert(escaped(s) =~= Seq::<char>::empty());
        assert(escaped(s.push(c)) =~= escaped(s) + escaped_char(c));
    } else {
        lemma_escaped_push(s.drop_first(), c);
        assert(s.push(c).drop_first() =~= s.drop_first().push(c));
        assert(s.push(c)[0] == s[0]);
        assert(escaped(s.push(c)) =~= escaped(s) + escaped_char(c));
    }
}

proof fn lemma_unescape_escaped(s: Seq<char>)
    ensures
        unescaped(escaped(s)) == Some(s),
    decreases s.len(),
{
    if s.len() > 0 {
        lemma_unescape_escaped(s.drop_first());
        let e = escaped(s);
        let head = escaped_char(s[0]);
        assert(e == head + escaped(s.drop_first()));
        assert(e.skip(head.len() as int) =~= escaped(s.drop_first()));
        assert(seq![s[0]] + s.drop_first() =~= s);
    } else {
        assert(escaped(s) =~= Seq::<char>::empty());
        assert(s =~= Seq::<char>::empty());
    }
}

/// A quoted literal reads back as exactly the text it was made from, however
/// many quotes or separators that text holds.
pub proof fn lemma_literal_round_trip(s: Seq<char>)
    ensures
        literal_value(quoted(s)) == Some(s),
{
    let q = quoted(s);
    assert(q.subrange(1, q.len() - 1) =~= escaped(s));
    lemma_unescape_escaped(s);
}

/// Relies on String::push: the character is appended at the end.
#[verifier::external_body]
fn push_char(s: &mut String, c: char)
    ensures
        final(s)@ == old(s)@.push(c),
{
    s.push(c)
}

/// Appends the escaped form of one character.
pub fn escape_char(out: &mut String, c: char)
    ensures
        final(out)@ == old(out)@ + escaped_char(c),
{
    if c == '\'' {
        push_char(out, '\'');
        push_char(out, '\'');
        assert(final(out)@ =~= old(out)@ + escaped_char(c));
    } else {
        push_char(out, c);
        assert(final(out)@ =~= old(out)@ + escaped_char(c));
    }
}

/// Appends `s` as a quoted literal.
pub fn push_quoted(out: &mut String, s: &str)
    ensures
        final(out)@ == old(out)@ + quoted(s@),
{
    let ghost start = out@;
    push_char(out, '\'');
    let n = s.unicode_len();
    let mut i: usize = 0;
    while i < n
        invariant
            n == s@.len(),
            i <= n,
            out@ == start + seq!['\''] + escaped(s@.subrange(0, i as int)),
        decreases n - i,
    {
        let c = s.get_char(i);
        escape_char(out, c);
        proof {
            lemma_escaped_push(s@.subrange(0, i as int), c);
            assert(s@.subrange(0, i as int).push(c) =~= s@.subrange(0, i + 1));
        }
        i = i + 1;
    }
    push_char(out, '\'');
    assert(s@.subrange(0, n as int) =~= s@);
    assert(out@ =~= start + quoted(s@));
}

/// The character of a decimal digit.
pub open spec fn digit_char(d: nat) -> char {
    if d == 0 { '0' }
    else if d == 1 { '1' }
    else if d == 2 { '2' }
    else if d == 3 { '3' }
    else if d == 4 { '4' }
    else if d == 5 { '5' }
    else if d == 6 { '6' }
    else if d == 7 { '7' }
    else if d == 8 { '8' }
    else { '9' }
}

/// The decimal numeral of `n`, without leading zeros.
pub open spec fn decimal(n: nat) -> Seq<char>
    decreases n,
{
    if n < 10 {
        seq![digit_char(n)]
    } else {
        decimal(n / 10).push(digit_char(n % 10))
    }
}

fn digit(d: u64) -> (c: char)
    requires
        d < 10,
    ensures
        c == digit_char(d as nat),
{
    if d == 0 { '0' }
    else if d == 1 { '1' }
    else if d == 2 { '2' }
    else if d == 3 { '3' }
    else if d == 4 { '4' }
    else if d == 5 { '5' }
    else if d == 6 { '6' }
    else if d == 7 { '7' }
    else if d == 8 { '8' }
    else { '9' }
}

/// Appends the decimal numeral of `n`.
pub fn push_decimal(out: &mut String, n: u64)
    ensures
        final(out)@ == old(out)@ + decimal(n as nat),
    decreases n,
{
    if n >= 10 {
        push_decimal(out, n / 10);
    }
    push_char(out, digit(n % 10));
    assert(final(out)@ =~= old(out)@ + decimal(n as nat));
}

/// The views of a list of strings.
pub open spec fn texts(v: Seq<String>) -> Seq<Seq<char>> {
    v.map_values(|s: String| s@)
}

/// Parts joined by a comma and a space, with no separator before the first
/// part or after the last.
pub open spec fn joined(parts: Seq<Seq<char>>) -> Seq<char>
    decreases parts.len(),
{
    if parts.len() == 0 {
        Seq::empty()
    } else if parts.len() == 1 {
        parts[0]
    } else {
        joined(parts.drop_last()) + seq![',', ' '] + parts.last()
    }
}

/// One row of a batched insert of word texts.
pub open spec fn text_row(w: Seq<char>) -> Seq<char> {
    seq!['('] + quoted(w) + seq![')']
}

/// One row of a batched insert of links.
pub open spec fn link_row(id: u64, item: u64) -> Seq<char> {
    seq!['('] + decimal(id as nat) + seq![',', ' '] + decimal(item as nat) + seq![')']
}

/// The membership list of the words: `'a', 'b'`.
pub open spec fn text_list_of(ws: Seq<Seq<char>>) -> Seq<char> {
    joined(ws.map_values(|w: Seq<char>| quoted(w)))
}

/// The value list that inserts the words: `('a'), ('b')`.
pub open spec fn text_rows_of(ws: Seq<Seq<char>>) -> Seq<char> {
    joined(ws.map_values(|w: Seq<char>| text_row(w)))
}

/// The value list that links each word id to the item: `(1, 7), (2, 7)`.
pub open spec fn link_rows_of(ids: Seq<u64>, item: u64) -> Seq<char> {
    joined(ids.map_values(|id: u64| link_row(id, item)))
}

proof fn lemma_joined_step(parts: Seq<Seq<char>>, i: int)
    requires
        0 <= i < parts.len(),
    ensures
        joined(parts.subrange(0, i + 1)) == joined(parts.subrange(0, i)) + (if i == 0 {
            Seq::<char>::empty()
        } else {
            seq![',', ' ']
        }) + parts[i],
{
    let p = parts.subrange(0, i + 1);
    assert(p.drop_last() =~= parts.subrange(0, i));
    if i == 0 {
        assert(joined(parts.subrange(0, 0)) =~= Seq::<char>::empty());
        assert(joined(p) =~= Seq::<char>::empty() + Seq::<char>::empty() + parts[0]);
    }
}

fn push_separator(out: &mut String, i: usize)
    ensures
        final(out)@ == old(out)@ + (if i == 0 {
            Seq::<char>::empty()
        } else {
            seq![',', ' ']
        }),
{
    if i > 0 {
        push_char(out, ',');
        push_char(out, ' ');
        assert(final(out)@ =~= old(out)@ + seq![',', ' ']);
    } else {
        assert(final(out)@ =~= old(out)@ + Seq::<char>::empty());
    }
}

fn push_text_list(out: &mut String, words: &Vec<String>)
    ensures
        final(out)@ == old(out)@ + text_list_of(texts(words@)),
{
    let ghost start = out@;
    let ghost parts = texts(words@).map_values(|w: Seq<char>| quoted(w));
    let mut i: usize = 0;
    while i < words.len()
        invariant
            i <= words@.len(),
            parts.len() == words@.len(),
            forall|k: int| 0 <= k < words@.len() ==> parts[k] == quoted(#[trigger] words@[k]@),
            out@ == start + joined(parts.subrange(0, i as int)),
        decreases words@.len() - i,
    {
        proof {
            lemma_joined_step(parts, i as int);
        }
        push_separator(out, i);
        push_quoted(out, words[i].as_str());
        assert(out@ =~= start + joined(parts.subrange(0, i + 1)));
        i = i + 1;
    }
    assert(parts.subrange(0, i as int) =~= parts);
}

fn push_text_rows(out: &mut String, words: &Vec<String>)
    ensures
        final(out)@ == old(out)@ + text_rows_of(texts(words@)),
{
    let ghost start = out@;
    let ghost parts = texts(words@).map_values(|w: Seq<char>| text_row(w));
    let mut i: usize = 0;
    while i < words.len()
        invariant
            i <= words@.len(),
            parts.len() == words@.len(),
            forall|k: int| 0 <= k < words@.len() ==> parts[k] == text_row(#[trigger] words@[k]@),
            out@ == start + joined(parts.subrange(0, i as int)),
        decreases words@.len() - i,
    {
        proof {
            lemma_joined_step(parts, i as int);
        }
        push_separator(out, i);
        push_char(out, '(');
        push_quoted(out, words[i].as_str());
        push_char(out, ')');
        assert(out@ =~= start + joined(parts.subrange(0, i + 1)));
        i = i + 1;
    }
    assert(parts.subrange(0, i as int) =~= parts);
}

fn push_link_rows(out: &mut String, ids: &Vec<u64>, item: u64)
    ensures
        final(out)@ == old(out)@ + link_rows_of(ids@, item),
{
    let ghost start = out@;
    let ghost parts = ids@.map_values(|id: u64| link_row(id, item));
    let mut i: usize = 0;
    while i < ids.len()
        invariant
            i <= ids@.len(),
            parts.len() == ids@.len(),
            forall|k: int| 0 <= k < ids@.len() ==> parts[k] == link_row(#[trigger] ids@[k], item),
            out@ == start + joined(parts.subrange(0, i as int)),
        decreases ids@.len() - i,
    {
        proof {
            lemma_joined_step(parts, i as int);
        }
        push_separator(out, i);
        push_char(out, '(');
        push_decimal(out, ids[i]);
        push_char(out, ',');
        push_char(out, ' ');
        push_decimal(out, item);
        push_char(out, ')');
        assert(out@ =~= start + joined(parts.subrange(0, i + 1)));
        i = i + 1;
    }
    assert(parts.subrange(0, i as int) =~= parts);
}

/// The membership list of the words, or `None` for no words: an empty list
/// makes no valid clause.
pub fn text_list(words: &Vec<String>) -> (r: Option<String>)
    ensures
        match r {
            None => words@.len() == 0,
            Some(s) => words@.len() > 0 && s@ == text_list_of(texts(words@)),
        },
{
    if words.len() == 0 {
        return None;
    }
    let mut s = String::new();
    push_text_list(&mut s, words);
    Some(s)
}

/// The value list that inserts the words, or `None` for no words.
pub fn text_rows(words: &Vec<String>) -> (r: Option<String>)
    ensures
        match r {
            None => words@.len() == 0,
            Some(s) => words@.len() > 0 && s@ == text_rows_of(texts(words@)),
        },
{
    if words.len() == 0 {
        return None;
    }
    let mut s = String::new();
    push_text_rows(&mut s, words);
    Some(s)
}

/// The value list that links each id to the item, or `None` for no ids.
pub fn link_rows(ids: &Vec<u64>, item: u64) -> (r: Option<String>)
    ensures
        match r {
            None => ids@.len() == 0,
            Some(s) => ids@.len() > 0 && s@ == link_rows_of(ids@, item),
        },
{
    if ids.len() == 0 {
        return None;
    }
    let mut s = String::new();
    push_link_rows(&mut s, ids, item);
    Some(s)
}

/// The query that reads the dictionary rows of the given texts.
pub open spec fn lookup_sql(ws: Seq<Seq<char>>) -> Seq<char> {
    "SELECT id, text FROM dictionary WHERE text IN ("@ + text_list_of(ws) + seq![')']
}

/// The statement that adds the given texts to the dictionary.
pub open spec fn create_sql(ws: Seq<Seq<char>>) -> Seq<char> {
    "INSERT INTO dictionary (text) VALUES "@ + text_rows_of(ws)
}

/// The statement that links each id to the item.
pub open spec fn link_sql(ids: Seq<u64>, item: u64) -> Seq<char> {
    "INSERT INTO link (word_id, item_id) VALUES "@ + link_rows_of(ids, item)
}

/// The query that reads the dictionary rows of the words, or `None` for no
/// words.
pub fn lookup_statement(words: &Vec<String>) -> (r: Option<String>)
    ensures
        match r {
            None => words@.len() == 0,
            Some(s) => words@.len() > 0 && s@ == lookup_sql(texts(words@)),
        },
{
    if words.len() == 0 {
        return None;
    }
    let mut s = String::from_str("SELECT id, text FROM dictionary WHERE text IN (");
    push_text_list(&mut s, words);
    push_char(&mut s, ')');
    Some(s)
}

/// The statement that adds the words to the dictionary, or `None` for no
/// words.
pub fn create_statement(words: &Vec<String>) -> (r: Option<String>)
    ensures
        match r {
            None => words@.len() == 0,
            Some(s) => words@.len() > 0 && s@ == create_sql(texts(words@)),
        },
{
    if words.len() == 0 {
        return None;
    }
    let mut s = String::from_str("INSERT INTO dictionary (text) VALUES ");
    push_text_rows(&mut s, words);
    Some(s)
}

/// The statement that links each id to the item, or `None` for no ids.
pub fn link_statement(ids: &Vec<u64>, item: u64) -> (r: Option<String>)
    ensures
        match r {
            None => ids@.len() == 0,
            Some(s) => ids@.len() > 0 && s@ == link_sql(ids@, item),
        },
{
    if ids.len() == 0 {
        return None;
    }
    let mut s = String::from_str("INSERT INTO link (word_id, item_id) VALUES ");
    push_link_rows(&mut s, ids, item);
    Some(s)
}

} // verus!
