//! Best-effort extraction of the table names that a SQL text reads from.
//!
//! This is no SQL parser: the text is cut into white-space separated words,
//! and the word after each `from` or `join` is taken as a table name.
use vstd::prelude::*;
use crate::text::{
    CharClass, after_last, split_on, skip_back, skip_both, skip_after_last, views, words, nonempty,
    strip_back, strip_both, trim, same_text, lowercase, lower_of,
};

verus! {

/// A word that a table name follows.
pub open spec fn is_keyword(w: Seq<char>) -> bool {
    w == "from"@ || w == "join"@
}

/// The table name that the word `w` gives: closing `,`, `;` and `)` dropped,
/// then any schema qualifier, then surrounding quotes.
pub open spec fn clean_name(w: Seq<char>) -> Seq<char> {
    let base = after_last(trim(strip_back(w, CharClass::NameEnd)), '.');
    strip_both(strip_both(base, CharClass::Is('"')), CharClass::Is('\''))
}

/// The table names among the first `n` words, in order, repeats included.
pub open spec fn refs_upto(ws: Seq<Seq<char>>, n: int) -> Seq<Seq<char>>
    decreases n,
{
    if n <= 1 || n > ws.len() {
        Seq::empty()
    } else {
        let r = refs_upto(ws, n - 1);
        let name = clean_name(ws[n - 1]);
        if is_keyword(ws[n - 2]) && name.len() > 0 {
            r.push(name)
        } else {
            r
        }
    }
}

/// The table names of a (lower-case) SQL text, in order, repeats included.
pub open spec fn table_refs(s: Seq<char>) -> Seq<Seq<char>> {
    refs_upto(words(s), words(s).len() as int)
}

/// `s` with every repeat of an earlier element left out.
pub open spec fn dedup(s: Seq<Seq<char>>) -> Seq<Seq<char>>
    decreases s.len(),
{
    if s.len() == 0 {
        s
    } else {
        let d = dedup(s.drop_last());
        if d.contains(s.last()) {
            d
        } else {
            d.push(s.last())
        }
    }
}

/// The distinct tables that a lower-case SQL text reads from, in order of first mention.
pub open spec fn tables_of(sql_lc: Seq<char>) -> Seq<Seq<char>> {
    dedup(table_refs(sql_lc))
}

/// The distinct tables that a SQL text reads from, case folded.
pub open spec fn sql_tables(sql: Seq<char>) -> Seq<Seq<char>> {
    tables_of(lower_of(sql))
}

pub proof fn lemma_dedup(s: Seq<Seq<char>>)
    ensures
        dedup(s).no_duplicates(),
        forall|x: Seq<char>| dedup(s).contains(x) <==> s.contains(x),
    decreases s.len(),
{
    if s.len() > 0 {
        lemma_dedup(s.drop_last());
        let d = dedup(s.drop_last());
        assert forall|x: Seq<char>| s.contains(x) <==> (s.drop_last().contains(x) || x == s.last()) by {
            if s.contains(x) {
                let i = choose|i: int| 0 <= i < s.len() && s[i] == x;
                if i < s.len() - 1 {
                    assert(s.drop_last()[i] == x);
                }
            }
            if x == s.last() {
                assert(s[s.len() - 1] == x);
            }
            if s.drop_last().contains(x) {
                let i = choose|i: int| 0 <= i < s.len() - 1 && s.drop_last()[i] == x;
                assert(s[i] == x);
            }
        }
        if !d.contains(s.last()) {
            assert forall|x: Seq<char>| d.push(s.last()).contains(x) <==> (d.contains(x) || x
                == s.last()) by {
                if d.push(s.last()).contains(x) {
                    let i = choose|i: int| 0 <= i < d.len() + 1 && d.push(s.last())[i] == x;
                    if i < d.len() {
                        assert(d[i] == x);
                    }
                }
                if d.contains(x) {
                    let i = choose|i: int| 0 <= i < d.len() && d[i] == x;
                    assert(d.push(s.last())[i] == x);
                }
                if x == s.last() {
                    assert(d.push(s.last())[d.len() as int] == x);
                }
            }
        }
    }
}

/// The table name that a word gives (see `clean_name`).
fn name_of_word(w: &str) -> (r: String)
    ensures
        r@ == clean_name(w@),
{
    let n = w.unicode_len();
    assert(w@.subrange(0, n as int) =~= w@);
    let hi = skip_back(w, 0, n, CharClass::NameEnd);
    let (a, b) = skip_both(w, 0, hi, CharClass::Space);
    let c = skip_after_last(w, a, b, '.');
    let (d, e) = skip_both(w, c, b, CharClass::Is('"'));
    let (f, g) = skip_both(w, d, e, CharClass::Is('\''));
    String::from_str(w.substring_char(f, g))
}

/// Whether `v` holds a string equal to `s`.
pub fn contains_text(v: &Vec<String>, s: &str) -> (r: bool)
    ensures
        r == views(v@).contains(s@),
{
    let mut i: usize = 0;
    while i < v.len()
        invariant
            0 <= i <= v@.len(),
            forall|j: int| 0 <= j < i ==> v@[j]@ != s@,
        decreases v@.len() - i,
    {
        if same_text(v[i].as_str(), s) {
            assert(views(v@)[i as int] == s@);
            return true;
        }
        i = i + 1;
    }
    assert forall|j: int| 0 <= j < views(v@).len() implies views(v@)[j] != s@ by {
        assert(views(v@)[j] == v@[j]@);
    }
    false
}

/// The white-space separated words of `s`, as `str::split_whitespace`.
pub fn split_words(s: &str) -> (r: Vec<String>)
    ensures
        views(r@) == words(s@),
{
    let parts = split_on(s, CharClass::Space);
    let ghost pv = views(parts@);
    let mut out: Vec<String> = Vec::new();
    let mut i: usize = 0;
    assert(pv.take(0) =~= Seq::<Seq<char>>::empty());
    assert(views(out@) =~= pv.take(0).filter(nonempty()));
    while i < parts.len()
        invariant
            0 <= i <= parts@.len(),
            pv == views(parts@),
            views(out@) == pv.take(i as int).filter(nonempty()),
        decreases parts@.len() - i,
    {
        let ghost prev = out@;
        assert(pv.take(i + 1) =~= pv.take(i as int).push(pv[i as int]));
        proof {
            pv.take(i as int).lemma_filter_push(pv[i as int], nonempty());
        }
        assert(pv[i as int] == parts@[i as int]@);
        assert(nonempty()(pv[i as int]) == (pv[i as int].len() > 0));
        if parts[i].unicode_len() > 0 {
            out.push(parts[i].clone());
            assert(views(out@) =~= views(prev).push(parts@[i as int]@));
        }
        i = i + 1;
    }
    assert(pv.take(parts@.len() as int) =~= pv);
    out
}

/// The distinct tables that a lower-case SQL text reads from, in order of
/// first mention.
pub fn tables_in_lowered(sql_lc: &str) -> (r: Vec<String>)
    ensures
        views(r@) == tables_of(sql_lc@),
        views(r@).no_duplicates(),
        forall|t: Seq<char>| views(r@).contains(t) <==> table_refs(sql_lc@).contains(t),
{
    let ws = split_words(sql_lc);
    let ghost wv = views(ws@);
    let mut out: Vec<String> = Vec::new();
    let mut i: usize = 1;
    assert(views(out@) =~= dedup(refs_upto(wv, 1)));
    while i < ws.len()
        invariant
            1 <= i,
            i <= ws@.len() || ws@.len() == 0,
            wv == views(ws@),
            wv == words(sql_lc@),
            views(out@) == dedup(refs_upto(wv, i as int)),
        decreases ws@.len() - i,
    {
        let ghost prev = out@;
        let prior = ws[i - 1].as_str();
        let kw = same_text(prior, "from") || same_text(prior, "join");
        assert(wv[i - 1] == ws@[i - 1]@);
        assert(wv[i as int] == ws@[i as int]@);
        let name = name_of_word(ws[i].as_str());
        if kw && name.unicode_len() > 0 {
            if !contains_text(&out, name.as_str()) {
                out.push(name);
                assert(views(out@) =~= views(prev).push(clean_name(wv[i as int])));
            }
        }
        let ghost r0 = refs_upto(wv, i as int);
        assert(r0.push(clean_name(wv[i as int])).drop_last() =~= r0);
        i = i + 1;
    }
    proof {
        if ws@.len() == 0 {
            assert(refs_upto(wv, 0) =~= refs_upto(wv, 1));
        }
        lemma_dedup(refs_upto(wv, wv.len() as int));
    }
    out
}

/// The distinct tables that a SQL text reads from: the words after `FROM` and
/// `JOIN` (in any case), each without closing punctuation, schema qualifier and
/// quotes, case folded, in order of first mention.
pub fn extract_tables_from_sql(sql: &str) -> (r: Vec<String>)
    ensures
        views(r@) == sql_tables(sql@),
        views(r@).no_duplicates(),
{
    let sql_lc = lowercase(sql);
    tables_in_lowered(sql_lc.as_str())
}

} // verus!
