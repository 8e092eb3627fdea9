//! The schema snapshot: the catalog's (table, column, declared type) rows,
//! grouped by table in name order, written as one line per table.
use vstd::prelude::*;
use crate::oracle::{join, join_with};
use crate::text::views;

verus! {

/// One catalog row: table, column and declared type.
pub type CatalogRow = (String, String, String);

/// The view of a catalog row.
pub open spec fn row_view(r: CatalogRow) -> (Seq<char>, Seq<char>, Seq<char>) {
    (r.0@, r.1@, r.2@)
}

/// Code-point order of texts, which is the byte order of their UTF-8
/// encodings and so the order of `String`.
pub open spec fn text_lt(a: Seq<char>, b: Seq<char>) -> bool
    decreases a.len(),
{
    if a.len() == 0 {
        b.len() > 0
    } else if b.len() == 0 {
        false
    } else if a[0] != b[0] {
        a[0] < b[0]
    } else {
        text_lt(a.drop_first(), b.drop_first())
    }
}

pub proof fn lemma_text_lt_total(a: Seq<char>, b: Seq<char>)
    ensures
        a == b || text_lt(a, b) || text_lt(b, a),
        !(text_lt(a, b) && text_lt(b, a)),
        !text_lt(a, a),
    decreases a.len(),
{
    if a.len() > 0 && b.len() > 0 {
        lemma_text_lt_total(a.drop_first(), b.drop_first());
        if a[0] == b[0] && a.drop_first() == b.drop_first() {
            assert(a =~= seq![a[0]] + a.drop_first());
            assert(b =~= seq![b[0]] + b.drop_first());
        }
    }
    if a.len() > 0 {
        lemma_text_lt_total(a.drop_first(), a.drop_first());
    }
    if a.len() == 0 && b.len() == 0 {
        assert(a =~= b);
    }
}

/// The (column, type) pairs of `table` among `rows`, in row order.
pub open spec fn columns_of_table(rows: Seq<(Seq<char>, Seq<char>, Seq<char>)>, table: Seq<char>) -> Seq<
    (Seq<char>, Seq<char>),
>
    decreases rows.len(),
{
    if rows.len() == 0 {
        Seq::empty()
    } else {
        let before = columns_of_table(rows.drop_last(), table);
        if rows.last().0 == table {
            before.push((rows.last().1, rows.last().2))
        } else {
            before
        }
    }
}

/// Whether some row belongs to `table`.
pub open spec fn has_table(rows: Seq<(Seq<char>, Seq<char>, Seq<char>)>, table: Seq<char>) -> bool {
    exists|i: int| 0 <= i < rows.len() && #[trigger] rows[i].0 == table
}

/// The tables of `groups`, with their columns, in strictly increasing name
/// order: exactly the tables of `rows`, each with its columns in row order.
pub open spec fn groups_rows(
    groups: Seq<(Seq<char>, Seq<(Seq<char>, Seq<char>)>)>,
    rows: Seq<(Seq<char>, Seq<char>, Seq<char>)>,
) -> bool {
    &&& forall|i: int| 0 <= i < groups.len() - 1 ==> text_lt(#[trigger] groups[i].0, groups[i + 1].0)
    &&& forall|i: int|
        0 <= i < groups.len() ==> #[trigger] groups[i].1 == columns_of_table(rows, groups[i].0)
    &&& forall|t: Seq<char>|
        has_table(rows, t) <==> exists|i: int| 0 <= i < groups.len() && #[trigger] groups[i].0 == t
}

/// One line of the snapshot: the table, then its columns with their types.
pub open spec fn group_line(g: (Seq<char>, Seq<(Seq<char>, Seq<char>)>)) -> Seq<char> {
    g.0 + "("@ + join_with(g.1.map_values(|c: (Seq<char>, Seq<char>)| c.0 + " "@ + c.1), ", "@)
        + ")\n"@
}

/// The snapshot text: the line of each group, in order.
pub open spec fn summary_text(groups: Seq<(Seq<char>, Seq<(Seq<char>, Seq<char>)>)>) -> Seq<char>
    decreases groups.len(),
{
    if groups.len() == 0 {
        Seq::empty()
    } else {
        summary_text(groups.drop_last()) + group_line(groups.last())
    }
}

/// One table of the snapshot with its (column, type) pairs.
pub struct TableGroup {
    pub table: String,
    pub columns: Vec<(String, String)>,
}

impl View for TableGroup {
    type V = (Seq<char>, Seq<(Seq<char>, Seq<char>)>);

    open spec fn view(&self) -> (Seq<char>, Seq<(Seq<char>, Seq<char>)>) {
        (self.table@, self.columns@.map_values(|c: (String, String)| (c.0@, c.1@)))
    }
}

/// The views of the groups.
pub open spec fn group_views(g: Seq<TableGroup>) -> Seq<(Seq<char>, Seq<(Seq<char>, Seq<char>)>)> {
    g.map_values(|x: TableGroup| x@)
}

/// The views of the rows.
pub open spec fn row_views(rows: Seq<CatalogRow>) -> Seq<(Seq<char>, Seq<char>, Seq<char>)> {
    rows.map_values(|r: CatalogRow| row_view(r))
}

/// Whether `a` comes before `b` in code-point order.
pub fn text_less(a: &str, b: &str) -> (r: bool)
    ensures
        r == text_lt(a@, b@),
{
    let n = a.unicode_len();
    let m = b.unicode_len();
    let mut i: usize = 0;
    assert(a@.skip(0) =~= a@);
    assert(b@.skip(0) =~= b@);
    while i < n && i < m
        invariant
            0 <= i <= n,
            i <= m,
            n == a@.len(),
            m == b@.len(),
            text_lt(a@, b@) == text_lt(a@.skip(i as int), b@.skip(i as int)),
        decreases n - i,
    {
        let x = a.get_char(i);
        let y = b.get_char(i);
        assert(a@.skip(i as int)[0] == x);
        assert(b@.skip(i as int)[0] == y);
        if x != y {
            return x < y;
        }
        assert(a@.skip(i as int).drop_first() =~= a@.skip(i + 1));
        assert(b@.skip(i as int).drop_first() =~= b@.skip(i + 1));
        i = i + 1;
    }
    i == n && i < m
}

/// Appends `pair` to the columns of group `i`.
fn push_column(groups: &mut Vec<TableGroup>, i: usize, pair: (String, String))
    requires
        i < old(groups)@.len(),
    ensures
        group_views(final(groups)@) == group_views(old(groups)@).update(
            i as int,
            (old(groups)@[i as int]@.0, old(groups)@[i as int]@.1.push((pair.0@, pair.1@))),
        ),
{
    let ghost before = groups@;
    let mut g = groups.remove(i);
    let ghost gv = g@;
    g.columns.push(pair);
    assert(g@ =~= (gv.0, gv.1.push((pair.0@, pair.1@))));
    groups.insert(i, g);
    assert(groups@ =~= before.update(i as int, g));
    assert(group_views(groups@) =~= group_views(before).update(i as int, g@));
}

/// Groups catalog rows by table: the tables in name order, each with its
/// (column, type) pairs in row order.
pub fn group_rows(rows: &Vec<CatalogRow>) -> (r: Vec<TableGroup>)
    ensures
        groups_rows(group_views(r@), row_views(rows@)),
{
    let ghost rv = row_views(rows@);
    let mut groups: Vec<TableGroup> = Vec::new();
    let mut k: usize = 0;
    assert(rv.take(0) =~= Seq::<(Seq<char>, Seq<char>, Seq<char>)>::empty());
    assert(group_views(groups@) =~= Seq::<(Seq<char>, Seq<(Seq<char>, Seq<char>)>)>::empty());
    while k < rows.len()
        invariant
            0 <= k <= rows@.len(),
            rv == row_views(rows@),
            groups_rows(group_views(groups@), rv.take(k as int)),
        decreases rows@.len() - k,
    {
        let ghost pre = rv.take(k as int);
        let ghost gv = group_views(groups@);
        let ghost row = rv[k as int];
        assert(rv.take(k + 1) =~= pre.push(row));
        assert(row == row_view(rows@[k as int]));
        let table = &rows[k].0;
        let mut i: usize = 0;
        let mut found = false;
        let mut stop = false;
        while i < groups.len() && !stop
            invariant
                0 <= i <= groups@.len(),
                gv == group_views(groups@),
                found ==> stop,
                stop ==> i < groups@.len(),
                found ==> gv[i as int].0 == table@,
                stop && !found ==> text_lt(table@, gv[i as int].0),
                forall|j: int| 0 <= j < i ==> gv[j].0 != table@ && !text_lt(table@, gv[j].0),
            decreases (groups@.len() - i) * 2 + if stop {
                0int
            } else {
                1int
            },
        {
            assert(gv[i as int] == groups@[i as int]@);
            if groups[i].table == *table {
                found = true;
                stop = true;
            } else if text_less(table.as_str(), groups[i].table.as_str()) {
                stop = true;
            } else {
                i = i + 1;
            }
        }
        let pair = (rows[k].1.clone(), rows[k].2.clone());
        if found {
            push_column(&mut groups, i, pair);
            proof {
                lemma_group_extend(gv, pre, row, i as int);
            }
        } else {
            let g = TableGroup { table: table.clone(), columns: vec![pair] };
            assert(g@ =~= (row.0, seq![(row.1, row.2)]));
            groups.insert(i, g);
            proof {
                assert(group_views(groups@) =~= gv.insert(i as int, (row.0, seq![(row.1, row.2)])));
                lemma_group_insert(gv, pre, row, i as int);
            }
        }
        k = k + 1;
    }
    assert(rv.take(rows@.len() as int) =~= rv);
    groups
}

/// The line of one group: `table(col type, col type, ...)` and a line break.
fn group_text(g: &TableGroup) -> (r: String)
    ensures
        r@ == group_line(g@),
{
    let ghost cv = g@.1;
    let mut cols: Vec<String> = Vec::new();
    let mut i: usize = 0;
    while i < g.columns.len()
        invariant
            0 <= i <= g.columns@.len(),
            cv == g@.1,
            views(cols@) == cv.take(i as int).map_values(|c: (Seq<char>, Seq<char>)| c.0 + " "@ + c.1),
        decreases g.columns@.len() - i,
    {
        let ghost prev = cols@;
        let mut s = String::from_str(g.columns[i].0.as_str());
        s.append(" ");
        s.append(g.columns[i].1.as_str());
        cols.push(s);
        assert(cv[i as int] == (g.columns@[i as int].0@, g.columns@[i as int].1@));
        assert(views(cols@) =~= views(prev).push(cv[i as int].0 + " "@ + cv[i as int].1));
        assert(cv.take(i + 1).map_values(|c: (Seq<char>, Seq<char>)| c.0 + " "@ + c.1) =~= cv.take(
            i as int,
        ).map_values(|c: (Seq<char>, Seq<char>)| c.0 + " "@ + c.1).push(cv[i as int].0 + " "@ + cv[i as int].1));
        i = i + 1;
    }
    assert(cv.take(g.columns@.len() as int) =~= cv);
    let mut out = String::from_str(g.table.as_str());
    out.append("(");
    let listed = join(&cols, ", ");
    out.append(listed.as_str());
    out.append(")\n");
    out
}

/// The schema snapshot of catalog rows: for each table, in name order, one
/// line `table(col type, col type, ...)` with its columns in row order.
pub fn schema_summary(rows: &Vec<CatalogRow>) -> (r: String)
    ensures
        exists|g: Seq<(Seq<char>, Seq<(Seq<char>, Seq<char>)>)>|
            groups_rows(g, row_views(rows@)) && r@ == summary_text(g),
{
    let groups = group_rows(rows);
    let ghost gv = group_views(groups@);
    let mut out = String::new();
    let mut i: usize = 0;
    assert(gv.take(0) =~= Seq::<(Seq<char>, Seq<(Seq<char>, Seq<char>)>)>::empty());
    while i < groups.len()
        invariant
            0 <= i <= groups@.len(),
            gv == group_views(groups@),
            out@ == summary_text(gv.take(i as int)),
        decreases groups@.len() - i,
    {
        let line = group_text(&groups[i]);
        out.append(line.as_str());
        assert(gv.take(i + 1).drop_last() =~= gv.take(i as int));
        assert(gv.take(i + 1).last() == groups@[i as int]@);
        i = i + 1;
    }
    assert(gv.take(groups@.len() as int) =~= gv);
    out
}

proof fn lemma_has_table_push(
    pre: Seq<(Seq<char>, Seq<char>, Seq<char>)>,
    row: (Seq<char>, Seq<char>, Seq<char>),
)
    ensures
        forall|t: Seq<char>| #[trigger] has_table(pre.push(row), t) <==> (has_table(pre, t) || t == row.0),
{
    let post = pre.push(row);
    assert forall|t: Seq<char>| #[trigger] has_table(post, t) <==> (has_table(pre, t) || t == row.0) by {
        if has_table(post, t) {
            let j = choose|j: int| 0 <= j < post.len() && #[trigger] post[j].0 == t;
            if j < pre.len() {
                assert(pre[j].0 == t);
            }
        }
        if has_table(pre, t) {
            let j = choose|j: int| 0 <= j < pre.len() && #[trigger] pre[j].0 == t;
            assert(post[j].0 == t);
        }
        if t == row.0 {
            assert(post[pre.len() as int].0 == t);
        }
    }
}

proof fn lemma_group_extend(
    gv: Seq<(Seq<char>, Seq<(Seq<char>, Seq<char>)>)>,
    pre: Seq<(Seq<char>, Seq<char>, Seq<char>)>,
    row: (Seq<char>, Seq<char>, Seq<char>),
    i: int,
)
    requires
        groups_rows(gv, pre),
        0 <= i < gv.len(),
        gv[i].0 == row.0,
    ensures
        groups_rows(gv.update(i, (gv[i].0, gv[i].1.push((row.1, row.2)))), pre.push(row)),
{
    let post = pre.push(row);
    let ngv = gv.update(i, (gv[i].0, gv[i].1.push((row.1, row.2))));
    assert(post.drop_last() =~= pre);
    lemma_has_table_push(pre, row);
    assert forall|j: int| 0 <= j < ngv.len() - 1 implies text_lt(#[trigger] ngv[j].0, ngv[j + 1].0) by {
        assert(ngv[j].0 == gv[j].0 && ngv[j + 1].0 == gv[j + 1].0);
    }
    assert forall|j: int| 0 <= j < ngv.len() implies #[trigger] ngv[j].1 == columns_of_table(post, ngv[j].0) by {
        assert(gv[j].1 == columns_of_table(pre, gv[j].0));
        if j != i {
            if j < i {
                lemma_sorted_distinct(gv, j, i);
            } else {
                lemma_sorted_distinct(gv, i, j);
            }
        }
    }
    assert forall|t: Seq<char>| has_table(post, t) <==> exists|j: int| 0 <= j < ngv.len() && #[trigger] ngv[j].0 == t by {
        if has_table(post, t) {
            if t == row.0 {
                assert(ngv[i].0 == t);
            } else {
                let j = choose|j: int| 0 <= j < gv.len() && #[trigger] gv[j].0 == t;
                assert(ngv[j].0 == t);
            }
        }
        if exists|j: int| 0 <= j < ngv.len() && #[trigger] ngv[j].0 == t {
            let j = choose|j: int| 0 <= j < ngv.len() && #[trigger] ngv[j].0 == t;
            assert(gv[j].0 == t);
        }
    }
}

proof fn lemma_group_insert(
    gv: Seq<(Seq<char>, Seq<(Seq<char>, Seq<char>)>)>,
    pre: Seq<(Seq<char>, Seq<char>, Seq<char>)>,
    row: (Seq<char>, Seq<char>, Seq<char>),
    i: int,
)
    requires
        groups_rows(gv, pre),
        0 <= i <= gv.len(),
        forall|j: int| 0 <= j < i ==> gv[j].0 != row.0 && !text_lt(row.0, gv[j].0),
        i < gv.len() ==> text_lt(row.0, gv[i].0),
    ensures
        groups_rows(gv.insert(i, (row.0, seq![(row.1, row.2)])), pre.push(row)),
{
    let post = pre.push(row);
    let ngv = gv.insert(i, (row.0, seq![(row.1, row.2)]));
    assert(post.drop_last() =~= pre);
    lemma_has_table_push(pre, row);
    assert forall|j: int| 0 <= j < gv.len() implies #[trigger] gv[j].0 != row.0 by {
        if j >= i {
            if j > i {
                lemma_sorted_lt(gv, i, j);
                lemma_text_lt_trans(row.0, gv[i].0, gv[j].0);
            }
            lemma_text_lt_total(row.0, row.0);
        }
    }
    assert(!has_table(pre, row.0));
    lemma_absent_no_columns(pre, row.0);
    assert(columns_of_table(post, row.0) =~= seq![(row.1, row.2)]);
    if i > 0 {
        lemma_text_lt_total(row.0, gv[i - 1].0);
    }
    assert forall|j: int| 0 <= j < ngv.len() - 1 implies text_lt(#[trigger] ngv[j].0, ngv[j + 1].0) by {
        if j < i - 1 {
            assert(ngv[j] == gv[j] && ngv[j + 1] == gv[j + 1]);
        } else if j == i - 1 {
            assert(ngv[j] == gv[i - 1]);
        } else if j == i {
            assert(ngv[j + 1] == gv[i]);
        } else {
            assert(ngv[j] == gv[j - 1] && ngv[j + 1] == gv[j]);
        }
    }
    assert forall|j: int| 0 <= j < ngv.len() implies #[trigger] ngv[j].1 == columns_of_table(post, ngv[j].0) by {
        if j < i {
            assert(ngv[j] == gv[j]);
            assert(gv[j].1 == columns_of_table(pre, gv[j].0));
        } else if j > i {
            assert(ngv[j] == gv[j - 1]);
            assert(gv[j - 1].1 == columns_of_table(pre, gv[j - 1].0));
        }
    }
    assert forall|t: Seq<char>| has_table(post, t) <==> exists|j: int| 0 <= j < ngv.len() && #[trigger] ngv[j].0 == t by {
        if has_table(post, t) {
            if t == row.0 {
                assert(ngv[i].0 == t);
            } else {
                let j = choose|j: int| 0 <= j < gv.len() && #[trigger] gv[j].0 == t;
                if j < i {
                    assert(ngv[j].0 == t);
                } else {
                    assert(ngv[j + 1].0 == t);
                }
            }
        }
        if exists|j: int| 0 <= j < ngv.len() && #[trigger] ngv[j].0 == t {
            let j = choose|j: int| 0 <= j < ngv.len() && #[trigger] ngv[j].0 == t;
            if j < i {
                assert(gv[j].0 == t);
            } else if j > i {
                assert(gv[j - 1].0 == t);
            }
        }
    }
}

proof fn lemma_absent_no_columns(rows: Seq<(Seq<char>, Seq<char>, Seq<char>)>, table: Seq<char>)
    requires
        !has_table(rows, table),
    ensures
        columns_of_table(rows, table) == Seq::<(Seq<char>, Seq<char>)>::empty(),
    decreases rows.len(),
{
    if rows.len() > 0 {
        assert(!has_table(rows.drop_last(), table)) by {
            if has_table(rows.drop_last(), table) {
                let j = choose|j: int| 0 <= j < rows.len() - 1 && #[trigger] rows.drop_last()[j].0 == table;
                assert(rows[j].0 == table);
            }
        }
        lemma_absent_no_columns(rows.drop_last(), table);
        assert(rows[rows.len() - 1].0 != table);
    }
}

proof fn lemma_sorted_distinct(g: Seq<(Seq<char>, Seq<(Seq<char>, Seq<char>)>)>, i: int, j: int)
    requires
        0 <= i < j < g.len(),
        forall|k: int| 0 <= k < g.len() - 1 ==> text_lt(#[trigger] g[k].0, g[k + 1].0),
    ensures
        g[i].0 != g[j].0,
{
    lemma_sorted_lt(g, i, j);
    lemma_text_lt_total(g[i].0, g[j].0);
}

proof fn lemma_sorted_lt(g: Seq<(Seq<char>, Seq<(Seq<char>, Seq<char>)>)>, i: int, j: int)
    requires
        0 <= i < j < g.len(),
        forall|k: int| 0 <= k < g.len() - 1 ==> text_lt(#[trigger] g[k].0, g[k + 1].0),
    ensures
        text_lt(g[i].0, g[j].0),
    decreases j - i,
{
    if j > i + 1 {
        lemma_sorted_lt(g, i, j - 1);
        assert(text_lt(g[j - 1].0, g[j].0));
        lemma_text_lt_trans(g[i].0, g[j - 1].0, g[j].0);
    }
}

proof fn lemma_text_lt_trans(a: Seq<char>, b: Seq<char>, c: Seq<char>)
    requires
        text_lt(a, b),
        text_lt(b, c),
    ensures
        text_lt(a, c),
    decreases a.len(),
{
    if a.len() > 0 && b.len() > 0 && c.len() > 0 && a[0] == b[0] && b[0] == c[0] {
        lemma_text_lt_trans(a.drop_first(), b.drop_first(), c.drop_first());
    }
}

} // verus!
