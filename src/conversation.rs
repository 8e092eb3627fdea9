//! The conversation of one session: the ordered message log, and what has been
//! learned so far of the database's tables.
use vstd::prelude::*;
use crate::text::{views, same_text};
use crate::sql::contains_text;

verus! {

pub const ROLE_SYSTEM: &'static str = "system";

pub const ROLE_USER: &'static str = "user";

pub const ROLE_ASSISTANT: &'static str = "assistant";

/// One turn of the conversation.
pub struct ChatMessage {
    pub role: String,
    pub content: String,
}

impl View for ChatMessage {
    type V = (Seq<char>, Seq<char>);

    open spec fn view(&self) -> (Seq<char>, Seq<char>) {
        (self.role@, self.content@)
    }
}

impl ChatMessage {
    pub fn copy(&self) -> (r: ChatMessage)
        ensures
            r@ == self@,
    {
        ChatMessage { role: self.role.clone(), content: self.content.clone() }
    }
}

/// What the responder answers: SQL, or a question about the schema, and why.
/// A field that the answer leaves out is empty.
pub struct LlmResponse {
    pub clarification: String,
    pub sql: String,
    pub explanation: String,
}

/// The columns confirmed for one table.
pub struct KnownTable {
    pub table: String,
    pub columns: Vec<String>,
}

/// The message log, and the confirmed tables with their columns.
pub struct Conversation {
    pub messages: Vec<ChatMessage>,
    pub known_tables: Vec<KnownTable>,
    /// The confirmed columns of each confirmed table.
    pub known: Ghost<Map<Seq<char>, Set<Seq<char>>>>,
}

/// The columns confirmed for `table` in `m` (none where the table is unknown).
pub open spec fn columns_in(m: Map<Seq<char>, Set<Seq<char>>>, table: Seq<char>) -> Set<Seq<char>> {
    if m.contains_key(table) {
        m[table]
    } else {
        Set::empty()
    }
}

/// Nothing confirmed in `a` is missing from `b`.
pub open spec fn grows(a: Map<Seq<char>, Set<Seq<char>>>, b: Map<Seq<char>, Set<Seq<char>>>) -> bool {
    forall|t: Seq<char>| #[trigger]
        a.contains_key(t) ==> b.contains_key(t) && a[t].subset_of(b[t])
}

/// `m` once `columns` are confirmed for `table`.
pub open spec fn with_columns(
    m: Map<Seq<char>, Set<Seq<char>>>,
    table: Seq<char>,
    columns: Seq<Seq<char>>,
) -> Map<Seq<char>, Set<Seq<char>>> {
    m.insert(table, columns_in(m, table).union(columns.to_set()))
}

/// Knowledge that is extended by a union is never lost.
pub proof fn lemma_union_grows(
    m: Map<Seq<char>, Set<Seq<char>>>,
    table: Seq<char>,
    columns: Seq<Seq<char>>,
)
    ensures
        grows(m, with_columns(m, table, columns)),
{
}

/// Knowledge that grows step by step grows over the whole session.
pub proof fn lemma_grows_trans(
    a: Map<Seq<char>, Set<Seq<char>>>,
    b: Map<Seq<char>, Set<Seq<char>>>,
    c: Map<Seq<char>, Set<Seq<char>>>,
)
    requires
        grows(a, b),
        grows(b, c),
    ensures
        grows(a, c),
{
    assert forall|t: Seq<char>| #[trigger] a.contains_key(t) implies c.contains_key(t) && a[t].subset_of(c[t]) by {
        assert(b.contains_key(t));
    }
}

/// Confirming columns for a table is a union: twice in a row it gives the
/// table every column of either call, and confirming the same columns again
/// changes nothing.
pub proof fn lemma_columns_union(
    m: Map<Seq<char>, Set<Seq<char>>>,
    table: Seq<char>,
    first: Seq<Seq<char>>,
    second: Seq<Seq<char>>,
)
    ensures
        with_columns(with_columns(m, table, first), table, second)[table] == columns_in(m, table).union(
            first.to_set(),
        ).union(second.to_set()),
        with_columns(with_columns(m, table, first), table, first) == with_columns(m, table, first),
{
    let once = with_columns(m, table, first);
    assert(columns_in(once, table).union(first.to_set()) =~= columns_in(once, table));
    assert(once.insert(table, columns_in(once, table)) =~= once);
}

impl Default for Conversation {
    fn default() -> (r: Conversation)
        ensures
            r.wf(),
            r.log() == Seq::<(Seq<char>, Seq<char>)>::empty(),
            r.known() == Map::<Seq<char>, Set<Seq<char>>>::empty(),
    {
        Conversation::new()
    }
}

impl Conversation {
    /// The message log as (role, content) pairs.
    pub open spec fn log(&self) -> Seq<(Seq<char>, Seq<char>)> {
        self.messages@.map_values(|m: ChatMessage| m@)
    }

    /// The confirmed tables, each with its confirmed columns.
    pub open spec fn known(&self) -> Map<Seq<char>, Set<Seq<char>>> {
        self.known@
    }

    pub open spec fn wf(&self) -> bool {
        &&& forall|i: int, j: int|
            0 <= i < j < self.known_tables@.len() ==> self.known_tables@[i].table@
                != self.known_tables@[j].table@
        &&& forall|i: int|
            #![trigger self.known_tables@[i]]
            0 <= i < self.known_tables@.len() ==> {
                &&& views(self.known_tables@[i].columns@).no_duplicates()
                &&& self.known@.contains_key(self.known_tables@[i].table@)
                &&& self.known@[self.known_tables@[i].table@] == views(
                    self.known_tables@[i].columns@,
                ).to_set()
            }
        &&& forall|t: Seq<char>|
            #[trigger] self.known@.contains_key(t) ==> exists|i: int|
                0 <= i < self.known_tables@.len() && self.known_tables@[i].table@ == t
    }

    pub fn new() -> (r: Conversation)
        ensures
            r.wf(),
            r.log() == Seq::<(Seq<char>, Seq<char>)>::empty(),
            r.known() == Map::<Seq<char>, Set<Seq<char>>>::empty(),
    {
        let r = Conversation { messages: Vec::new(), known_tables: Vec::new(), known: Ghost(Map::empty()) };
        assert(r.log() =~= Seq::<(Seq<char>, Seq<char>)>::empty());
        r
    }

    fn add(&mut self, role: &str, content: &str)
        requires
            old(self).wf(),
        ensures
            final(self).wf(),
            final(self).known() == old(self).known(),
            final(self).log() == old(self).log().push((role@, content@)),
    {
        let ghost before = self.messages@;
        self.messages.push(ChatMessage { role: String::from_str(role), content: String::from_str(content) });
        assert(self.log() =~= before.map_values(|m: ChatMessage| m@).push((role@, content@)));
        assert(self.known_tables@ == old(self).known_tables@);
        assert(self.known@ == old(self).known@);
    }

    /// Appends a message of the user.
    pub fn add_user(&mut self, content: &str)
        requires
            old(self).wf(),
        ensures
            final(self).wf(),
            final(self).known() == old(self).known(),
            final(self).log() == old(self).log().push((ROLE_USER@, content@)),
    {
        self.add(ROLE_USER, content)
    }

    /// Appends the system's instructions.
    pub fn add_system(&mut self, content: &str)
        requires
            old(self).wf(),
        ensures
            final(self).wf(),
            final(self).known() == old(self).known(),
            final(self).log() == old(self).log().push((ROLE_SYSTEM@, content@)),
    {
        self.add(ROLE_SYSTEM, content)
    }

    /// Appends a message of the responder.
    pub fn add_assistant(&mut self, content: &str)
        requires
            old(self).wf(),
        ensures
            final(self).wf(),
            final(self).known() == old(self).known(),
            final(self).log() == old(self).log().push((ROLE_ASSISTANT@, content@)),
    {
        self.add(ROLE_ASSISTANT, content)
    }

    /// A copy of the message log, to send away.
    pub fn snapshot(&self) -> (r: Vec<ChatMessage>)
        ensures
            r@.map_values(|m: ChatMessage| m@) == self.log(),
    {
        let mut r: Vec<ChatMessage> = Vec::new();
        let mut i: usize = 0;
        while i < self.messages.len()
            invariant
                0 <= i <= self.messages@.len(),
                r@.map_values(|m: ChatMessage| m@) == self.log().take(i as int),
            decreases self.messages@.len() - i,
        {
            let ghost prev = r@;
            r.push(self.messages[i].copy());
            assert(r@.map_values(|m: ChatMessage| m@) =~= prev.map_values(|m: ChatMessage| m@).push(
                self.log()[i as int],
            ));
            assert(self.log().take(i + 1) =~= self.log().take(i as int).push(self.log()[i as int]));
            i = i + 1;
        }
        assert(self.log().take(self.messages@.len() as int) =~= self.log());
        r
    }

    /// The position of `table` among the confirmed tables.
    fn find_table(&self, table: &str) -> (r: Option<usize>)
        requires
            self.wf(),
        ensures
            r is Some <==> self.known().contains_key(table@),
            r matches Some(i) ==> i < self.known_tables@.len() && self.known_tables@[i as int].table@
                == table@,
    {
        let mut i: usize = 0;
        while i < self.known_tables.len()
            invariant
                self.wf(),
                0 <= i <= self.known_tables@.len(),
                forall|j: int| 0 <= j < i ==> self.known_tables@[j].table@ != table@,
            decreases self.known_tables@.len() - i,
        {
            if same_text(self.known_tables[i].table.as_str(), table) {
                return Some(i);
            }
            i = i + 1;
        }
        None
    }

    /// Whether columns of `table` have been confirmed.
    pub fn knows_table(&self, table: &str) -> (r: bool)
        requires
            self.wf(),
        ensures
            r == self.known().contains_key(table@),
    {
        self.find_table(table).is_some()
    }

    /// The confirmed columns of `table`, in the order they were confirmed.
    pub fn columns_of(&self, table: &str) -> (r: Option<Vec<String>>)
        requires
            self.wf(),
        ensures
            r is Some <==> self.known().contains_key(table@),
            r matches Some(v) ==> views(v@).to_set() == self.known()[table@] && views(
                v@,
            ).no_duplicates(),
    {
        match self.find_table(table) {
            Some(i) => {
                let cols = &self.known_tables[i].columns;
                let mut v: Vec<String> = Vec::new();
                let mut j: usize = 0;
                while j < cols.len()
                    invariant
                        0 <= j <= cols@.len(),
                        views(v@) == views(cols@).take(j as int),
                    decreases cols@.len() - j,
                {
                    let ghost prev = v@;
                    v.push(cols[j].clone());
                    assert(views(v@) =~= views(prev).push(cols@[j as int]@));
                    assert(views(cols@).take(j + 1) =~= views(cols@).take(j as int).push(
                        cols@[j as int]@,
                    ));
                    j = j + 1;
                }
                assert(views(cols@).take(cols@.len() as int) =~= views(cols@));
                Some(v)
            },
            None => None,
        }
    }

    /// Confirms `columns` for `table`: they join the columns already known for
    /// it, each column once.
    pub fn remember_table_columns(&mut self, table: &str, columns: Vec<String>)
        requires
            old(self).wf(),
        ensures
            final(self).wf(),
            final(self).log() == old(self).log(),
            final(self).known() == with_columns(old(self).known(), table@, views(columns@)),
            grows(old(self).known(), final(self).known()),
    {
        let ghost m = self.known@;
        let ghost old_entries = self.known_tables@;
        let found = self.find_table(table);
        let mut cols: Vec<String> = match found {
            Some(i) => {
                let src = &self.known_tables[i].columns;
                let mut v: Vec<String> = Vec::new();
                let mut j: usize = 0;
                while j < src.len()
                    invariant
                        0 <= j <= src@.len(),
                        views(v@) == views(src@).take(j as int),
                    decreases src@.len() - j,
                {
                    let ghost prev = v@;
                    v.push(src[j].clone());
                    assert(views(v@) =~= views(prev).push(src@[j as int]@));
                    assert(views(src@).take(j + 1) =~= views(src@).take(j as int).push(src@[j as int]@));
                    j = j + 1;
                }
                assert(views(src@).take(src@.len() as int) =~= views(src@));
                v
            },
            None => Vec::new(),
        };
        proof {
            assert(views(cols@).to_set() =~= columns_in(m, table@));
        }
        let mut k: usize = 0;
        while k < columns.len()
            invariant
                0 <= k <= columns@.len(),
                views(cols@).no_duplicates(),
                views(cols@).to_set() == columns_in(m, table@).union(
                    views(columns@).take(k as int).to_set(),
                ),
            decreases columns@.len() - k,
        {
            let ghost prev = cols@;
            let ghost c = columns@[k as int]@;
            assert(views(columns@).take(k + 1) =~= views(columns@).take(k as int).push(c));
            proof {
                views(columns@).take(k as int).lemma_push_to_set_commute(c);
                views(prev).lemma_push_to_set_commute(c);
            }
            assert(columns[k as int]@ == c);
            if !contains_text(&cols, columns[k].as_str()) {
                cols.push(columns[k].clone());
                assert(views(cols@) =~= views(prev).push(c));
            } else {
                assert(views(cols@).to_set().contains(c));
            }
            assert(views(cols@).to_set() =~= columns_in(m, table@).union(
                views(columns@).take(k + 1).to_set(),
            ));
            k = k + 1;
        }
        assert(views(columns@).take(columns@.len() as int) =~= views(columns@));
        let ghost merged = views(cols@).to_set();
        match found {
            Some(i) => {
                let entry = KnownTable { table: String::from_str(table), columns: cols };
                self.known_tables.set(i, entry);
            },
            None => {
                let entry = KnownTable { table: String::from_str(table), columns: cols };
                self.known_tables.push(entry);
            },
        }
        self.known = Ghost(m.insert(table@, merged));
        proof {
            assert(self.known@ =~= with_columns(m, table@, views(columns@)));
            assert forall|t: Seq<char>| #[trigger] self.known@.contains_key(t) implies exists|i: int|
                0 <= i < self.known_tables@.len() && self.known_tables@[i].table@ == t by {
                if t == table@ {
                    match found {
                        Some(i) => assert(self.known_tables@[i as int].table@ == t),
                        None => assert(self.known_tables@[self.known_tables@.len() - 1].table@ == t),
                    }
                } else {
                    assert(m.contains_key(t));
                    let j = choose|j: int| 0 <= j < old_entries.len() && old_entries[j].table@ == t;
                    assert(self.known_tables@[j].table@ == t);
                }
            }
        }
    }

    /// Whether every one of `requested` is a confirmed column of `table`.
    pub fn has_columns_for(&self, table: &str, requested: &[String]) -> (r: bool)
        requires
            self.wf(),
        ensures
            r == (self.known().contains_key(table@) && forall|i: int|
                0 <= i < requested@.len() ==> #[trigger] self.known()[table@].contains(
                    requested@[i]@,
                )),
    {
        match self.find_table(table) {
            None => false,
            Some(t) => {
                let cols = &self.known_tables[t].columns;
                assert(self.known_tables@[t as int].table@ == table@);
                let mut i: usize = 0;
                while i < requested.len()
                    invariant
                        0 <= i <= requested@.len(),
                        self.known().contains_key(table@),
                        t < self.known_tables@.len(),
                        cols == self.known_tables@[t as int].columns,
                        self.known()[table@] == views(cols@).to_set(),
                        forall|j: int|
                            0 <= j < i ==> #[trigger] self.known()[table@].contains(requested@[j]@),
                    decreases requested@.len() - i,
                {
                    if !contains_text(cols, requested[i].as_str()) {
                        assert(!self.known()[table@].contains(requested@[i as int]@));
                        return false;
                    }
                    i = i + 1;
                }
                true
            },
        }
    }
}

} // verus!
