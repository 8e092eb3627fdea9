//! The schema oracle's side of the protocol: which request a text makes, and
//! how the catalog's answers are written out as text.
use vstd::prelude::*;
use crate::text::{
    CharClass, eq_ascii_nocase, eq_ignore_ascii_case, split_by, split_on, trim, skip_both, views,
    words, nonempty, strip_both, strip_front,
};
use crate::sql::split_words;

verus! {

/// The request that enumerates the tables.
pub const LIST_TABLES: &'static str = "list all available tables";

/// The text of piece `j` of `parts`, trimmed.
pub open spec fn trimmed(parts: Seq<Seq<char>>, j: int) -> Seq<char> {
    trim(parts[j])
}

/// The non-empty trimmed pieces at odd positions among the first `n` of `parts`:
/// the texts that stand between a pair of quotes.
pub open spec fn odd_names(parts: Seq<Seq<char>>, n: int) -> Seq<Seq<char>>
    decreases n,
{
    if n <= 0 || n > parts.len() {
        Seq::empty()
    } else {
        let r = odd_names(parts, n - 1);
        if (n - 1) % 2 == 1 && trimmed(parts, n - 1).len() > 0 {
            r.push(trimmed(parts, n - 1))
        } else {
            r
        }
    }
}

/// Every single-quoted text of `s`, trimmed, the empty ones left out.
pub open spec fn quoted_names(s: Seq<char>) -> Seq<Seq<char>> {
    let parts = split_by(s, CharClass::Is('\''));
    odd_names(parts, parts.len() as int)
}

/// The table that a clarification names: the text after its first quote, up
/// to the next quote, trimmed, where that is not empty.
pub open spec fn clarified_table(s: Seq<char>) -> Option<Seq<char>> {
    let parts = split_by(s, CharClass::Is('\''));
    if parts.len() >= 2 && trim(parts[1]).len() > 0 {
        Some(trim(parts[1]))
    } else {
        None
    }
}

/// What a clarification asks of the schema oracle.
pub enum OracleRequest {
    /// The names of all tables.
    ListTables,
    /// The columns of each of these tables.
    ColumnsFor(Vec<String>),
    /// Anything else: the oracle cannot answer it.
    Unrecognized(String),
}

/// `items` with `sep` between each two.
pub open spec fn join_with(items: Seq<Seq<char>>, sep: Seq<char>) -> Seq<char>
    decreases items.len(),
{
    if items.len() == 0 {
        Seq::empty()
    } else if items.len() == 1 {
        items[0]
    } else {
        join_with(items.drop_last(), sep) + sep + items.last()
    }
}

/// A name for what `<str as Debug>::fmt` writes for a text: the text quoted,
/// with its special characters escaped.
pub uninterp spec fn debug_text(s: Seq<char>) -> Seq<char>;

/// The debug form of a list of texts, as `<Vec<String> as Debug>::fmt` writes it.
pub open spec fn debug_list(items: Seq<Seq<char>>) -> Seq<char> {
    "["@ + join_with(items.map_values(|x: Seq<char>| debug_text(x)), ", "@) + "]"@
}

/// The oracle's answer that lists the tables.
pub open spec fn table_list_text(tables: Seq<Seq<char>>) -> Seq<char> {
    "Available tables: "@ + debug_list(tables)
}

/// How one column is named in the oracle's answer: its name and its declared type.
pub open spec fn column_text(col: (Seq<char>, Seq<char>)) -> Seq<char> {
    col.0 + ":"@ + col.1
}

/// The oracle's answer for one table.
pub open spec fn table_columns_text(table: Seq<char>, cols: Seq<(Seq<char>, Seq<char>)>) -> Seq<char> {
    "Table "@ + table + " has columns: "@ + debug_list(cols.map_values(|c: (Seq<char>, Seq<char>)| column_text(c)))
}

/// Relies on `<str as Debug>::fmt`, which quotes and escapes a text.
#[verifier::external_body]
fn debug_quote(s: &str) -> (r: String)
    ensures
        r@ == debug_text(s@),
{
    format!("{:?}", s)
}

/// The pieces of `parts` trimmed, the empty ones left out, at odd positions.
fn odd_pieces(parts: &Vec<String>) -> (r: Vec<String>)
    ensures
        views(r@) == odd_names(views(parts@), parts@.len() as int),
{
    let ghost pv = views(parts@);
    let mut out: Vec<String> = Vec::new();
    let mut i: usize = 0;
    while i < parts.len()
        invariant
            0 <= i <= parts@.len(),
            pv == views(parts@),
            views(out@) == odd_names(pv, i as int),
        decreases parts@.len() - i,
    {
        let ghost prev = out@;
        let p = parts[i].as_str();
        assert(pv[i as int] == p@);
        if i % 2 == 1 {
            let n = p.unicode_len();
            assert(p@.subrange(0, n as int) =~= p@);
            let (a, b) = skip_both(p, 0, n, CharClass::Space);
            if a < b {
                out.push(String::from_str(p.substring_char(a, b)));
                assert(views(out@) =~= views(prev).push(trimmed(pv, i as int)));
            }
        }
        i = i + 1;
    }
    out
}

/// The single-quoted texts of `s`, trimmed, the empty ones left out.
pub fn extract_quoted_names(s: &str) -> (r: Vec<String>)
    ensures
        views(r@) == quoted_names(s@),
{
    let parts = split_on(s, CharClass::Is('\''));
    odd_pieces(&parts)
}

/// The table that a clarification such as "What are the columns in 'orders'?"
/// names: the text between its first two quotes, trimmed, unless that is empty.
pub fn extract_table_from_clarification(clar: &str) -> (r: Option<String>)
    ensures
        r matches Some(t) ==> clarified_table(clar@) == Some(t@),
        r is None ==> clarified_table(clar@) is None,
{
    let parts = split_on(clar, CharClass::Is('\''));
    if parts.len() >= 2 {
        let p = parts[1].as_str();
        assert(views(parts@)[1] == p@);
        let n = p.unicode_len();
        assert(p@.subrange(0, n as int) =~= p@);
        let (a, b) = skip_both(p, 0, n, CharClass::Space);
        if a < b {
            return Some(String::from_str(p.substring_char(a, b)));
        }
    }
    None
}

/// Reads the request that a clarification makes: the table list (the exact
/// text, in any case), the columns of every quoted table, or nothing the
/// oracle knows.
pub fn parse_request(text: &str) -> (r: OracleRequest)
    ensures
        r is ListTables <==> eq_ascii_nocase(text@, LIST_TABLES@),
        r matches OracleRequest::ColumnsFor(v) ==> !eq_ascii_nocase(text@, LIST_TABLES@)
            && quoted_names(text@).len() > 0 && views(v@) == quoted_names(text@),
        r matches OracleRequest::Unrecognized(t) ==> !eq_ascii_nocase(text@, LIST_TABLES@)
            && quoted_names(text@).len() == 0 && t@ == text@,
{
    if eq_ignore_ascii_case(text, LIST_TABLES) {
        return OracleRequest::ListTables;
    }
    let names = extract_quoted_names(text);
    if names.len() > 0 {
        OracleRequest::ColumnsFor(names)
    } else {
        OracleRequest::Unrecognized(String::from_str(text))
    }
}

/// `items` with `sep` between each two.
pub fn join(items: &Vec<String>, sep: &str) -> (r: String)
    ensures
        r@ == join_with(views(items@), sep@),
{
    let mut out = String::new();
    let ghost iv = views(items@);
    if items.len() == 0 {
        return out;
    }
    out.append(items[0].as_str());
    assert(iv.take(1) =~= seq![iv[0]]);
    let mut i: usize = 1;
    while i < items.len()
        invariant
            1 <= i <= items@.len(),
            iv == views(items@),
            out@ == join_with(iv.take(i as int), sep@),
        decreases items@.len() - i,
    {
        out.append(sep);
        out.append(items[i].as_str());
        assert(iv.take(i + 1).drop_last() =~= iv.take(i as int));
        assert(iv.take(i + 1).last() == items@[i as int]@);
        i = i + 1;
    }
    assert(iv.take(items@.len() as int) =~= iv);
    out
}

/// The debug form of a list of texts: each quoted, comma separated, in brackets.
pub fn debug_join(items: &Vec<String>) -> (r: String)
    ensures
        r@ == debug_list(views(items@)),
{
    let mut quoted: Vec<String> = Vec::new();
    let mut i: usize = 0;
    while i < items.len()
        invariant
            0 <= i <= items@.len(),
            views(quoted@) == views(items@).take(i as int).map_values(|x: Seq<char>| debug_text(x)),
        decreases items@.len() - i,
    {
        let ghost prev = quoted@;
        quoted.push(debug_quote(items[i].as_str()));
        assert(views(quoted@) =~= views(prev).push(debug_text(items@[i as int]@)));
        assert(views(items@).take(i + 1) =~= views(items@).take(i as int).push(items@[i as int]@));
        assert(views(items@).take(i + 1).map_values(|x: Seq<char>| debug_text(x)) =~= views(items@).take(
            i as int,
        ).map_values(|x: Seq<char>| debug_text(x)).push(debug_text(items@[i as int]@)));
        i = i + 1;
    }
    assert(views(items@).take(items@.len() as int) =~= views(items@));
    let mut out = String::from_str("[");
    let inner = join(&quoted, ", ");
    out.append(inner.as_str());
    out.append("]");
    out
}

/// The oracle's answer that lists the tables.
pub fn format_table_list(tables: &Vec<String>) -> (r: String)
    ensures
        r@ == table_list_text(views(tables@)),
{
    let mut out = String::from_str("Available tables: ");
    let list = debug_join(tables);
    out.append(list.as_str());
    out
}

/// The oracle's answer for one table, from its (column, declared type) rows.
pub fn format_table_columns(table: &str, cols: &Vec<(String, String)>) -> (r: String)
    ensures
        r@ == table_columns_text(
            table@,
            cols@.map_values(|c: (String, String)| (c.0@, c.1@)),
        ),
{
    let ghost cv = cols@.map_values(|c: (String, String)| (c.0@, c.1@));
    let mut named: Vec<String> = Vec::new();
    let mut i: usize = 0;
    while i < cols.len()
        invariant
            0 <= i <= cols@.len(),
            cv == cols@.map_values(|c: (String, String)| (c.0@, c.1@)),
            views(named@) == cv.take(i as int).map_values(|c: (Seq<char>, Seq<char>)| column_text(c)),
        decreases cols@.len() - i,
    {
        let ghost prev = named@;
        let mut s = String::from_str(cols[i].0.as_str());
        s.append(":");
        s.append(cols[i].1.as_str());
        named.push(s);
        assert(cv[i as int] == (cols@[i as int].0@, cols@[i as int].1@));
        assert(views(named@) =~= views(prev).push(column_text(cv[i as int])));
        assert(cv.take(i + 1) =~= cv.take(i as int).push(cv[i as int]));
        assert(cv.take(i + 1).map_values(|c: (Seq<char>, Seq<char>)| column_text(c)) =~= cv.take(
            i as int,
        ).map_values(|c: (Seq<char>, Seq<char>)| column_text(c)).push(column_text(cv[i as int])));
        i = i + 1;
    }
    assert(cv.take(cols@.len() as int) =~= cv);
    let mut out = String::from_str("Table ");
    out.append(table);
    out.append(" has columns: ");
    let list = debug_join(&named);
    out.append(list.as_str());
    out
}

/// The first index at or after `i` where `c` stands in `s`, or -1.
pub open spec fn first_from(s: Seq<char>, c: char, i: int) -> int
    decreases s.len() - i,
{
    if i < 0 || i >= s.len() {
        -1
    } else if s[i] == c {
        i
    } else {
        first_from(s, c, i + 1)
    }
}

/// The first index where `c` stands in `s`, or -1.
pub open spec fn first_of(s: Seq<char>, c: char) -> int {
    first_from(s, c, 0)
}

/// The first word of `p`, or nothing.
pub open spec fn first_word(p: Seq<char>) -> Seq<char> {
    if words(p).len() > 0 {
        words(p)[0]
    } else {
        Seq::empty()
    }
}

/// A column name read from one comma-separated piece: inside brackets the
/// trimmed piece, after a colon its first word; either without quotes.
pub open spec fn column_item(p: Seq<char>, bracketed: bool) -> Seq<char> {
    let core = if bracketed {
        trim(p)
    } else {
        first_word(p)
    };
    strip_both(strip_both(core, CharClass::Is('"')), CharClass::Is('\''))
}

/// The column names of a comma-separated list, the empty ones left out.
pub open spec fn column_items(list: Seq<char>, bracketed: bool) -> Seq<Seq<char>> {
    split_by(list, CharClass::Is(',')).map_values(|p: Seq<char>| column_item(p, bracketed)).filter(
        nonempty(),
    )
}

/// The column names that an answer of the oracle lists: the items of its first
/// bracketed list, or else the comma-separated words after its first colon.
pub open spec fn columns_in_text(resp: Seq<char>) -> Seq<Seq<char>> {
    let o = first_of(resp, '[');
    let rest = resp.subrange(o + 1, resp.len() as int);
    let c = first_of(resp, ':');
    if o >= 0 && first_of(rest, ']') >= 0 {
        column_items(rest.subrange(0, first_of(rest, ']')), true)
    } else if c >= 0 {
        column_items(resp.subrange(c + 1, resp.len() as int), false)
    } else {
        Seq::empty()
    }
}

/// The first index where `c` stands in `s`.
pub fn find_char(s: &str, c: char) -> (r: Option<usize>)
    ensures
        r matches Some(i) ==> first_of(s@, c) == i && i < s@.len(),
        r is None ==> first_of(s@, c) == -1,
{
    let n = s.unicode_len();
    let mut i: usize = 0;
    while i < n
        invariant
            0 <= i <= n,
            n == s@.len(),
            first_of(s@, c) == first_from(s@, c, i as int),
        decreases n - i,
    {
        if s.get_char(i) == c {
            return Some(i);
        }
        i = i + 1;
    }
    None
}

/// The column name that one piece of a list gives (see `column_item`).
fn column_of_piece(p: &str, bracketed: bool) -> (r: String)
    ensures
        r@ == column_item(p@, bracketed),
{
    let n = p.unicode_len();
    assert(p@.subrange(0, n as int) =~= p@);
    if bracketed {
        let (a, b) = skip_both(p, 0, n, CharClass::Space);
        let (c, d) = skip_both(p, a, b, CharClass::Is('"'));
        let (e, f) = skip_both(p, c, d, CharClass::Is('\''));
        String::from_str(p.substring_char(e, f))
    } else {
        let ws = split_words(p);
        if ws.len() == 0 {
            proof {
                assert(strip_front(Seq::<char>::empty(), CharClass::Is('"')) == Seq::<char>::empty());
            }
            return String::new();
        }
        let w = ws[0].as_str();
        assert(views(ws@)[0] == w@);
        let m = w.unicode_len();
        assert(w@.subrange(0, m as int) =~= w@);
        let (c, d) = skip_both(w, 0, m, CharClass::Is('"'));
        let (e, f) = skip_both(w, c, d, CharClass::Is('\''));
        String::from_str(w.substring_char(e, f))
    }
}

/// The column names of the comma-separated `list`, the empty ones left out.
fn columns_of_list(list: &str, bracketed: bool) -> (r: Vec<String>)
    ensures
        views(r@) == column_items(list@, bracketed),
{
    let parts = split_on(list, CharClass::Is(','));
    let ghost pv = views(parts@).map_values(|p: Seq<char>| column_item(p, bracketed));
    let mut out: Vec<String> = Vec::new();
    let mut i: usize = 0;
    assert(pv.take(0) =~= Seq::<Seq<char>>::empty());
    assert(views(out@) =~= pv.take(0).filter(nonempty()));
    while i < parts.len()
        invariant
            0 <= i <= parts@.len(),
            pv == views(parts@).map_values(|p: Seq<char>| column_item(p, bracketed)),
            views(out@) == pv.take(i as int).filter(nonempty()),
        decreases parts@.len() - i,
    {
        let ghost prev = out@;
        let item = column_of_piece(parts[i].as_str(), bracketed);
        assert(pv[i as int] == item@);
        assert(pv.take(i + 1) =~= pv.take(i as int).push(pv[i as int]));
        proof {
            pv.take(i as int).lemma_filter_push(pv[i as int], nonempty());
        }
        assert(nonempty()(pv[i as int]) == (pv[i as int].len() > 0));
        if item.unicode_len() > 0 {
            out.push(item);
            assert(views(out@) =~= views(prev).push(pv[i as int]));
        }
        i = i + 1;
    }
    assert(pv.take(parts@.len() as int) =~= pv);
    out
}

/// Reads column names back out of an answer of the oracle: the items of its
/// first bracketed list, each trimmed and unquoted; where there is none, the
/// first word of each comma-separated piece after its first colon, unquoted;
/// else nothing. Empty names are left out.
pub fn parse_columns_from_db_response(resp: &str) -> (r: Vec<String>)
    ensures
        views(r@) == columns_in_text(resp@),
{
    let n = resp.unicode_len();
    if let Some(o) = find_char(resp, '[') {
        let rest = resp.substring_char(o + 1, n);
        if let Some(e) = find_char(rest, ']') {
            let inside = rest.substring_char(0, e);
            return columns_of_list(inside, true);
        }
    }
    match find_char(resp, ':') {
        Some(c) => {
            let tail = resp.substring_char(c + 1, n);
            columns_of_list(tail, false)
        },
        None => Vec::new(),
    }
}

} // verus!
