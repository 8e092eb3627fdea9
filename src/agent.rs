//! The negotiation engine: one round at a time, it records the responder's
//! reply, asks the schema oracle what the reply asks, and accepts SQL only
//! once every table that it reads from has been confirmed.
//!
//! The engine does no I/O itself. Each call returns a `Step` that names the
//! outside work to do next; its outcome comes back through `on_reply` or
//! `on_oracle`.
use vstd::prelude::*;
use crate::conversation::{
    Conversation, LlmResponse, ROLE_ASSISTANT, ROLE_SYSTEM, ROLE_USER, grows, lemma_grows_trans, with_columns,
};
use crate::llm::{reply_json, reply_to_json};
use crate::oracle::{
    LIST_TABLES, clarified_table, columns_in_text, extract_table_from_clarification, join,
    join_with, parse_columns_from_db_response,
};
use crate::sql::{extract_tables_from_sql, sql_tables};
use crate::text::{
    CharClass, eq_ascii_nocase, eq_ignore_ascii_case, lower_of, lowercase, skip_both, trim, views,
};

verus! {

/// The number of rounds after which the negotiation gives up.
pub const MAX_ATTEMPTS: usize = 12;

/// The instructions that open every negotiation: the reply format, and the
/// clarifications the responder may ask.
pub const SYSTEM_PROMPT: &'static str = r#"
You are a Postgres SQL assistant.
The user asks questions in natural language; you must respond with valid JSON only that matches this schema:
{
  "explanation": "string",
  "sql": "string",
  "clarification": "string"
}
Rules

* Output only JSON (no markdown fences, no text outside).
* Always include all three keys.
* Either sql or clarification must be non-empty (never both empty).
* If you are 100% confident, fill sql; otherwise ask via clarification.
* Valid clarifications are:
  - "list all available tables"
  - "What are the columns in '<table>'?"
  - Or other direct schema questions needed to form SQL.
* Never guess schema/table/column names.
* Ask step by step if multiple tables are involved.
* Your response must always be valid JSON that can be parsed without modification.

#### 1. Simple single-table question
**User:**
> Show me all versions

**Assistant:**
{ "explanation": "I need the columns for 'versions' before writing the SQL", "sql": "", "clarification": "What are the columns in 'versions'?" }

**User:**
> The table 'versions' has columns: id, name, created\_at

**Assistant:**
{ "explanation": "Using the provided columns, I can now query all versions", "sql": "SELECT id, name, created_at FROM versions;", "clarification": "" }
---

#### 2. Query requiring clarification first
**User:**
> Get me the latest 5 branches
**Assistant:**
{ "explanation": "To query branches, I first need to know the columns in 'branches'", "sql": "", "clarification": "What are the columns in 'branches'?" }

**User:**
> The 'branches' table has id, name, created\_at
**Assistant:**
{ "explanation": "Now I can select the latest 5 branches by created_at", "sql": "SELECT id, name FROM branches ORDER BY created_at DESC LIMIT 5;", "clarification": "" }
---

#### 3. Multi-table join (multi-turn)

**User:**
> Show me branch heads with their branch names
**Assistant:**
{ "explanation": "I need to know available tables first to determine which ones are relevant", "sql": "", "clarification": "list all available tables" }
**User:**
> Available tables: branch\_heads, branches, users
**Assistant:**
{ "explanation": "I suspect 'branch_heads' and 'branches' are needed, so I must know their columns", "sql": "", "clarification": "What are the columns in 'branch_heads'?" }
**User:**
> branch\_heads: id, branch\_id, created\_at
> branches: id, name
**Assistant:**
{ "explanation": "Now I can join branch_heads with branches to get branch head id and branch name", "sql": "SELECT bh.id AS branch_head_id, b.name AS branch_name FROM branch_heads bh JOIN branches b ON bh.branch_id = b.id;", "clarification": "" }
---

#### 4. Multi-table with extra clarification
**User:**
> Show me orders with their customer name and product name
**Assistant:**
{ "explanation": "I first need all available tables to understand relationships", "sql": "", "clarification": "list all available tables" }
**User:**
> Available tables: orders, customers, products
**Assistant:**
{ "explanation": "I need to know the columns in 'orders' to see how it links to customers and products", "sql": "", "clarification": "What are the columns in 'orders'?" }
**User:**
> orders: id, customer\_id, product\_id, created\_at
> customers: id, name
> products: id, title
**Assistant:**
{ "explanation": "Orders links to customers and products via foreign keys, so I can join them", "sql": "SELECT o.id AS order_id, c.name AS customer_name, p.title AS product_name FROM orders o JOIN customers c ON o.customer_id = c.id JOIN products p ON o.product_id = p.id;", "clarification": "" }
---

#### 5. Case where SQL cannot yet be generated
**User:**
> Show me all active users
**Assistant:**
{ "explanation": "I need to know the columns of 'users' to see if there is an 'active' flag or equivalent", "sql": "", "clarification": "What are the columns in 'users'?" }
**User:**
> users: id, name, email
**Assistant:**
{ "explanation": "No 'active' column exists, so I cannot form the SQL. I need clarification from the user.", "sql": "", "clarification": "Which column indicates whether a user is active?" }
---

"#;

/// Sent when a reply holds neither SQL nor a clarification.
pub const BOTH_EMPTY: &'static str = "Both clarification and sql are empty — NOT allowed. If you need schema details, ask 'list all available tables' or \"What are the columns in 'table'\".\n\nYou must generate SQL in sql field in response";

/// Follows the table list.
pub const AFTER_TABLE_LIST: &'static str = ". Based on these, ask for columns of the tables you need with \"What are the columns in 'table'\" or produce SQL if you have full information.";

/// Sent when the table list could not be had.
pub const TABLES_UNAVAILABLE: &'static str = "Unable to fetch list of tables from the DB; try again or check DB connection.";

/// Follows the confirmed columns of a table.
pub const AFTER_COLUMNS: &'static str = "]. Now that you have the schema, please retry and produce the SQL.";

/// Restates how the schema may be asked about.
pub const SCHEMA_HINT: &'static str = "If you need schema details, ask 'list all available tables' or \"What are the columns in 'table'\".";

/// Sent where a clarification could not be answered.
pub const ALLOWED_FORMS: &'static str = "I couldn't satisfy that clarification. The allowed clarifications are: 'list all available tables' or 'What are the columns in <table>'.";

/// Sent where the columns of a table could not be had.
pub const COLUMNS_UNAVAILABLE: &'static str = "Unable to fetch columns from DB for that table. Ensure the table exists and try again.";

/// Sent where the oracle could not answer a free-form clarification.
pub const ONLY_ALLOWED_FORMS: &'static str = "I couldn't satisfy that clarification. The ONLY allowed clarifications are: 'list all available tables' or 'What are the columns in <table>'.";

/// Why a negotiation ends without SQL.
#[derive(PartialEq, Eq, Structural, Debug, Clone, Copy)]
pub enum AgentError {
    /// No database or no responder is configured: the negotiation never starts.
    NotConfigured,
    /// The rounds ran out before the SQL was grounded.
    NotConverged,
}

/// What the caller does next.
pub enum Step {
    /// Send `snapshot()` of the conversation to the responder, and hand its
    /// reply to `on_reply`.
    AskResponder,
    /// Hand this request to the schema oracle, and its answer to `on_oracle`.
    AskOracle(String),
    /// The SQL is grounded: the negotiation is over.
    Accept(String),
    /// The negotiation is over without SQL.
    Fail(AgentError),
}

/// What the engine waits for.
pub enum Awaiting {
    /// A reply of the responder.
    Reply,
    /// The oracle's list of tables.
    TableList,
    /// The oracle's answer on the columns of this table.
    Columns(String),
    /// The oracle's answer to a free-form clarification.
    Other,
    /// Nothing: the negotiation is over.
    Finished,
}

/// One negotiation of a request into grounded SQL.
pub struct Negotiation {
    pub conversation: Conversation,
    /// The rounds begun so far.
    pub attempts: usize,
    pub awaiting: Awaiting,
}

/// The message that asks for the columns of `table`.
pub open spec fn ask_columns_text(table: Seq<char>) -> Seq<char> {
    "What are the columns in '"@ + table + "'?"@
}

/// The first of `tables` whose case-folded name is not confirmed in `known`.
pub open spec fn first_missing(tables: Seq<Seq<char>>, known: Map<Seq<char>, Set<Seq<char>>>) -> Option<
    Seq<char>,
>
    decreases tables.len(),
{
    if tables.len() == 0 {
        None
    } else if !known.contains_key(lower_of(tables[0])) {
        Some(tables[0])
    } else {
        first_missing(tables.drop_first(), known)
    }
}

/// A table that is not confirmed is always found, and the one found is
/// among `tables` and not confirmed.
pub proof fn lemma_missing_found(tables: Seq<Seq<char>>, known: Map<Seq<char>, Set<Seq<char>>>)
    ensures
        (exists|i: int| 0 <= i < tables.len() && !known.contains_key(lower_of(#[trigger] tables[i])))
            <==> first_missing(tables, known) is Some,
        first_missing(tables, known) matches Some(t) ==> tables.contains(t) && !known.contains_key(
            lower_of(t),
        ),
    decreases tables.len(),
{
    if tables.len() > 0 {
        lemma_missing_found(tables.drop_first(), known);
        if first_missing(tables, known) is Some {
            if known.contains_key(lower_of(tables[0])) {
                let t = first_missing(tables.drop_first(), known)->Some_0;
                let j = choose|j: int| 0 <= j < tables.len() - 1 && tables.drop_first()[j] == t;
                assert(tables[j + 1] == t);
            } else {
                assert(tables[0] == first_missing(tables, known)->Some_0);
            }
        }
        if exists|i: int| 0 <= i < tables.len() && !known.contains_key(lower_of(#[trigger] tables[i])) {
            let i = choose|i: int| 0 <= i < tables.len() && !known.contains_key(lower_of(#[trigger] tables[i]));
            if i > 0 {
                assert(tables.drop_first()[i - 1] == tables[i]);
            }
        }
    }
}

impl Negotiation {
    pub open spec fn wf(&self) -> bool {
        &&& self.conversation.wf()
        &&& 1 <= self.attempts <= MAX_ATTEMPTS
    }

    /// After a round that did not settle the negotiation: the next round
    /// begins, or, where all rounds are spent, the negotiation fails.
    pub open spec fn moves_on(old: &Negotiation, new: &Negotiation, step: &Step) -> bool {
        if old.attempts < MAX_ATTEMPTS {
            &&& step is AskResponder
            &&& new.attempts == old.attempts + 1
            &&& new.awaiting is Reply
        } else {
            &&& step matches Step::Fail(AgentError::NotConverged)
            &&& new.attempts == old.attempts
            &&& new.awaiting is Finished
        }
    }

    /// What a reply `m`, recorded as `json`, does to the negotiation (see
    /// `on_recorded_reply`).
    pub open spec fn handles_reply(
        old: &Negotiation,
        new: &Negotiation,
        m: &LlmResponse,
        json: Seq<char>,
        r: &Step,
    ) -> bool {
        let sql = trim(m.sql@);
        let clar = trim(m.clarification@);
        let logged = old.conversation.log().push((ROLE_ASSISTANT@, json));
        let known = old.conversation.known();
        &&& new.conversation.known() == known
        &&& if sql.len() == 0 && clar.len() == 0 {
            Self::moves_on(old, new, r) && new.conversation.log() == logged.push(
                (ROLE_USER@, BOTH_EMPTY@),
            )
        } else if sql.len() == 0 {
            &&& (r matches Step::AskOracle(q) && q@ == clar)
            &&& new.attempts == old.attempts
            &&& new.conversation.log() == logged
            &&& if eq_ascii_nocase(clar, LIST_TABLES@) {
                new.awaiting is TableList
            } else if clarified_table(clar) is Some {
                (new.awaiting matches Awaiting::Columns(t) && clarified_table(clar) == Some(t@))
            } else {
                new.awaiting is Other
            }
        } else {
            match first_missing(sql_tables(m.sql@), known) {
                Some(t) => Self::moves_on(old, new, r) && new.conversation.log() == logged.push(
                    (ROLE_USER@, ask_columns_text(t)),
                ),
                None => (r matches Step::Accept(s) && s@ == m.sql@) && new.conversation.log()
                    == logged && new.awaiting is Finished,
            }
        }
    }

    /// Opens a negotiation on `conversation` for the user's `query`: the
    /// system's instructions and the query join the conversation, and the
    /// first round begins. Where the database or the responder is not
    /// configured (`configured` false) the negotiation fails at once and the
    /// conversation is left as it is.
    pub fn start(conversation: Conversation, query: &str, configured: bool) -> (r: (Negotiation, Step))
        requires
            conversation.wf(),
        ensures
            r.0.wf(),
            r.0.conversation.known() == conversation.known(),
            !configured ==> (r.1 matches Step::Fail(AgentError::NotConfigured)) && r.0.awaiting is Finished
                && r.0.conversation.log() == conversation.log(),
            configured ==> r.1 is AskResponder && r.0.awaiting is Reply && r.0.attempts == 1
                && r.0.conversation.log() == conversation.log().push((ROLE_SYSTEM@, SYSTEM_PROMPT@)).push(
                (ROLE_USER@, query@),
            ),
    {
        let mut n = Negotiation { conversation, attempts: 1, awaiting: Awaiting::Finished };
        if !configured {
            return (n, Step::Fail(AgentError::NotConfigured));
        }
        n.conversation.add_system(SYSTEM_PROMPT);
        n.conversation.add_user(query);
        n.awaiting = Awaiting::Reply;
        (n, Step::AskResponder)
    }

    /// Ends a round that did not settle the negotiation (see `moves_on`).
    fn next_round(&mut self) -> (r: Step)
        requires
            old(self).wf(),
        ensures
            final(self).wf(),
            final(self).conversation == old(self).conversation,
            Self::moves_on(old(self), final(self), &r),
    {
        if self.attempts >= MAX_ATTEMPTS {
            self.awaiting = Awaiting::Finished;
            Step::Fail(AgentError::NotConverged)
        } else {
            self.attempts = self.attempts + 1;
            self.awaiting = Awaiting::Reply;
            Step::AskResponder
        }
    }

    /// The first of `tables` whose case-folded name is not confirmed.
    fn first_unknown(&self, tables: &Vec<String>) -> (r: Option<String>)
        requires
            self.wf(),
        ensures
            r matches Some(t) ==> first_missing(views(tables@), self.conversation.known()) == Some(t@),
            r is None ==> first_missing(views(tables@), self.conversation.known()) is None,
    {
        let ghost tv = views(tables@);
        let mut i: usize = 0;
        assert(tv.skip(0) =~= tv);
        while i < tables.len()
            invariant
                self.wf(),
                0 <= i <= tables@.len(),
                tv == views(tables@),
                first_missing(tv, self.conversation.known()) == first_missing(
                    tv.skip(i as int),
                    self.conversation.known(),
                ),
            decreases tables@.len() - i,
        {
            let key = lowercase(tables[i].as_str());
            assert(tv.skip(i as int)[0] == tables@[i as int]@);
            assert(tv.skip(i as int).drop_first() =~= tv.skip(i + 1));
            if !self.conversation.knows_table(key.as_str()) {
                return Some(tables[i].clone());
            }
            i = i + 1;
        }
        assert(tv.skip(i as int) =~= Seq::<Seq<char>>::empty());
        None
    }

    /// Takes the responder's reply, or a description of why none came.
    ///
    /// A failed call is reported to the responder and the next round begins.
    /// A reply is recorded as JSON, then: with neither SQL nor clarification
    /// the responder is corrected; a clarification alone goes to the oracle;
    /// SQL is accepted where every table it reads from is confirmed, and
    /// otherwise the columns of the first unconfirmed one are asked for.
    pub fn on_reply(&mut self, reply: Result<LlmResponse, String>) -> (r: Step)
        requires
            old(self).wf(),
            old(self).awaiting is Reply,
        ensures
            final(self).wf(),
            final(self).conversation.known() == old(self).conversation.known(),
            reply matches Err(e) ==> Self::moves_on(old(self), final(self), &r)
                && final(self).conversation.log() == old(self).conversation.log().push(
                (ROLE_USER@, "encountered error: "@ + e@),
            ),
            reply matches Ok(m) ==> Self::handles_reply(
                old(self),
                final(self),
                &m,
                reply_json(m.clarification@, m.sql@, m.explanation@),
                &r,
            ),
    {
        let m = match reply {
            Err(e) => {
                let mut text = String::from_str("encountered error: ");
                text.append(e.as_str());
                self.conversation.add_user(text.as_str());
                return self.next_round();
            },
            Ok(m) => m,
        };
        let json = reply_to_json(&m);
        self.on_recorded_reply(m, json)
    }

    /// Takes a reply `m` of the responder whose JSON text is `json`: records
    /// `json`, then, with neither SQL nor clarification (both trimmed), corrects
    /// the responder; with a clarification alone, hands it to the oracle; with
    /// SQL, accepts it where every table it reads from is confirmed, and
    /// otherwise asks for the columns of the first unconfirmed one.
    pub fn on_recorded_reply(&mut self, m: LlmResponse, json: String) -> (r: Step)
        requires
            old(self).wf(),
            old(self).awaiting is Reply,
        ensures
            final(self).wf(),
            Self::handles_reply(old(self), final(self), &m, json@, &r),
    {
        self.conversation.add_assistant(json.as_str());
        let sql_n = m.sql.as_str().unicode_len();
        assert(m.sql@.subrange(0, sql_n as int) =~= m.sql@);
        let (sa, sb) = skip_both(m.sql.as_str(), 0, sql_n, CharClass::Space);
        let clar_n = m.clarification.as_str().unicode_len();
        assert(m.clarification@.subrange(0, clar_n as int) =~= m.clarification@);
        let (ca, cb) = skip_both(m.clarification.as_str(), 0, clar_n, CharClass::Space);
        if sa == sb && ca == cb {
            self.conversation.add_user(BOTH_EMPTY);
            return self.next_round();
        }
        if sa == sb {
            let clar = m.clarification.as_str().substring_char(ca, cb);
            if eq_ignore_ascii_case(clar, LIST_TABLES) {
                self.awaiting = Awaiting::TableList;
            } else {
                match extract_table_from_clarification(clar) {
                    Some(t) => {
                        self.awaiting = Awaiting::Columns(t);
                    },
                    None => {
                        self.awaiting = Awaiting::Other;
                    },
                }
            }
            return Step::AskOracle(String::from_str(clar));
        }
        let tables = extract_tables_from_sql(m.sql.as_str());
        match self.first_unknown(&tables) {
            Some(t) => {
                let mut text = String::from_str("What are the columns in '");
                text.append(t.as_str());
                text.append("'?");
                self.conversation.add_user(text.as_str());
                self.next_round()
            },
            None => {
                self.awaiting = Awaiting::Finished;
                Step::Accept(m.sql)
            },
        }
    }

    /// Takes the oracle's answer, or a description of why none came, to the
    /// request of the last reply, reports it to the responder, and begins the
    /// next round. Columns read from an answer on a table are confirmed for
    /// that table under its case-folded name.
    pub fn on_oracle(&mut self, answer: Result<String, String>) -> (r: Step)
        requires
            old(self).wf(),
            old(self).awaiting is TableList || old(self).awaiting is Columns || old(
                self,
            ).awaiting is Other,
        ensures
            final(self).wf(),
            Self::moves_on(old(self), final(self), &r),
            grows(old(self).conversation.known(), final(self).conversation.known()),
            ({
                let log = old(self).conversation.log();
                let known = old(self).conversation.known();
                let new_log = final(self).conversation.log();
                let new_known = final(self).conversation.known();
                match old(self).awaiting {
                    Awaiting::TableList => new_known == known && new_log == log.push(
                        (
                            ROLE_USER@,
                            match answer {
                                Ok(d) => "Available tables: "@ + d@ + AFTER_TABLE_LIST@,
                                Err(_) => TABLES_UNAVAILABLE@,
                            },
                        ),
                    ),
                    Awaiting::Columns(t) => match answer {
                        Ok(d) => {
                            let cols = columns_in_text(d@);
                            if cols.len() > 0 {
                                new_known == with_columns(known, lower_of(t@), cols) && new_log
                                    == log.push(
                                    (
                                        ROLE_USER@,
                                        "Table '"@ + t@ + "' has columns: ["@ + join_with(
                                            cols,
                                            ", "@,
                                        ) + AFTER_COLUMNS@,
                                    ),
                                ).push((ROLE_USER@, SCHEMA_HINT@))
                            } else {
                                new_known == known && new_log == log.push(
                                    (
                                        ROLE_USER@,
                                        "DB returned: "@ + d@
                                            + ". I couldn't parse columns from that response for '"@
                                            + t@ + "'."@,
                                    ),
                                ).push((ROLE_USER@, ALLOWED_FORMS@))
                            }
                        },
                        Err(_) => new_known == known && new_log == log.push(
                            (ROLE_USER@, COLUMNS_UNAVAILABLE@),
                        ).push((ROLE_USER@, ALLOWED_FORMS@)),
                    },
                    Awaiting::Other => new_known == known && new_log == log.push(
                        (
                            ROLE_USER@,
                            match answer {
                                Ok(d) => "DB response: "@ + d@ + ". Now please continue."@,
                                Err(_) => ONLY_ALLOWED_FORMS@,
                            },
                        ),
                    ),
                    _ => true,
                }
            }),
    {
        let table = match &self.awaiting {
            Awaiting::Columns(t) => t.clone(),
            _ => String::new(),
        };
        match &self.awaiting {
            Awaiting::TableList => {
                match answer {
                    Ok(d) => {
                        let mut text = String::from_str("Available tables: ");
                        text.append(d.as_str());
                        text.append(AFTER_TABLE_LIST);
                        self.conversation.add_user(text.as_str());
                    },
                    Err(_) => {
                        self.conversation.add_user(TABLES_UNAVAILABLE);
                    },
                }
            },
            Awaiting::Columns(_) => {
                let t = table;
                match answer {
                    Ok(d) => {
                        let cols = parse_columns_from_db_response(d.as_str());
                        if cols.len() > 0 {
                            let mut text = String::from_str("Table '");
                            text.append(t.as_str());
                            text.append("' has columns: [");
                            let listed = join(&cols, ", ");
                            text.append(listed.as_str());
                            text.append(AFTER_COLUMNS);
                            let key = lowercase(t.as_str());
                            self.conversation.remember_table_columns(key.as_str(), cols);
                            self.conversation.add_user(text.as_str());
                            self.conversation.add_user(SCHEMA_HINT);
                        } else {
                            let mut text = String::from_str("DB returned: ");
                            text.append(d.as_str());
                            text.append(". I couldn't parse columns from that response for '");
                            text.append(t.as_str());
                            text.append("'.");
                            self.conversation.add_user(text.as_str());
                            self.conversation.add_user(ALLOWED_FORMS);
                        }
                    },
                    Err(_) => {
                        self.conversation.add_user(COLUMNS_UNAVAILABLE);
                        self.conversation.add_user(ALLOWED_FORMS);
                    },
                }
            },
            _ => {
                match answer {
                    Ok(d) => {
                        let mut text = String::from_str("DB response: ");
                        text.append(d.as_str());
                        text.append(". Now please continue.");
                        self.conversation.add_user(text.as_str());
                    },
                    Err(_) => {
                        self.conversation.add_user(ONLY_ALLOWED_FORMS);
                    },
                }
            },
        }
        self.next_round()
    }
}

/// SQL that reads from a table whose columns are not confirmed is never
/// accepted: the round ends by asking for the columns of such a table, in the
/// allowed form, and confirms nothing.
pub proof fn lemma_ungrounded_sql_not_accepted(
    old: &Negotiation,
    new: &Negotiation,
    m: &LlmResponse,
    json: Seq<char>,
    r: &Step,
)
    requires
        Negotiation::handles_reply(old, new, m, json, r),
        trim(m.sql@).len() > 0,
        exists|i: int|
            0 <= i < sql_tables(m.sql@).len() && !old.conversation.known().contains_key(
                lower_of(#[trigger] sql_tables(m.sql@)[i]),
            ),
    ensures
        !(r is Accept),
        new.conversation.known() == old.conversation.known(),
        exists|t: Seq<char>|
            sql_tables(m.sql@).contains(t) && !old.conversation.known().contains_key(lower_of(t))
                && new.conversation.log() == old.conversation.log().push((ROLE_ASSISTANT@, json)).push(
                (ROLE_USER@, ask_columns_text(t)),
            ),
{
    lemma_missing_found(sql_tables(m.sql@), old.conversation.known());
    let t = first_missing(sql_tables(m.sql@), old.conversation.known())->Some_0;
    assert(sql_tables(m.sql@).contains(t));
}

/// A reply with neither SQL nor clarification never ends the negotiation
/// with SQL: the round ends with a correction, and the negotiation fails
/// only where it was the last round allowed.
pub proof fn lemma_empty_reply_corrected(
    old: &Negotiation,
    new: &Negotiation,
    m: &LlmResponse,
    json: Seq<char>,
    r: &Step,
)
    requires
        old.wf(),
        Negotiation::handles_reply(old, new, m, json, r),
        trim(m.sql@).len() == 0,
        trim(m.clarification@).len() == 0,
    ensures
        !(r is Accept),
        new.conversation.log() == old.conversation.log().push((ROLE_ASSISTANT@, json)).push(
            (ROLE_USER@, BOTH_EMPTY@),
        ),
        r is Fail <==> old.attempts == MAX_ATTEMPTS,
        r is AskResponder <==> old.attempts < MAX_ATTEMPTS,
{
}

/// Over a run of rounds that each get a reply with neither SQL nor
/// clarification, from the first round on, the negotiation asks the
/// responder again after each of the first `MAX_ATTEMPTS - 1` of them and
/// fails on round `MAX_ATTEMPTS` exactly.
pub proof fn lemma_empty_replies_exhaust(
    states: Seq<Negotiation>,
    replies: Seq<LlmResponse>,
    jsons: Seq<Seq<char>>,
    steps: Seq<Step>,
)
    requires
        states.len() == replies.len() + 1,
        jsons.len() == replies.len(),
        steps.len() == replies.len(),
        states[0].wf(),
        states[0].attempts == 1,
        forall|k: int|
            0 <= k < replies.len() ==> #[trigger] Negotiation::handles_reply(
                &states[k],
                &states[k + 1],
                &replies[k],
                jsons[k],
                &steps[k],
            ),
        forall|k: int|
            0 <= k < replies.len() ==> trim(#[trigger] replies[k].sql@).len() == 0 && trim(
                replies[k].clarification@,
            ).len() == 0,
        forall|k: int| 0 <= k < replies.len() - 1 ==> #[trigger] steps[k] is AskResponder,
    ensures
        forall|k: int|
            0 <= k < replies.len() ==> (#[trigger] steps[k] is Fail <==> k == MAX_ATTEMPTS - 1),
        forall|k: int| 0 <= k < replies.len() ==> states[k].attempts == k + 1,
    decreases replies.len(),
{
    if replies.len() > 0 {
        let n = replies.len() - 1;
        lemma_empty_replies_exhaust(
            states.drop_last(),
            replies.drop_last(),
            jsons.drop_last(),
            steps.drop_last(),
        );
        assert forall|k: int| 0 <= k < replies.len() implies states[k].attempts == k + 1 by {
            if k < n {
                assert(states.drop_last()[k] == states[k]);
            } else if n > 0 {
                assert(states.drop_last()[n - 1] == states[n - 1]);
                assert(replies.drop_last()[n - 1] == replies[n - 1]);
                assert(Negotiation::handles_reply(
                    &states[n - 1],
                    &states[n],
                    &replies[n - 1],
                    jsons[n - 1],
                    &steps[n - 1],
                ));
                assert(steps[n - 1] is AskResponder);
            }
        }
        assert forall|k: int| 0 <= k < replies.len() implies (#[trigger] steps[k] is Fail <==> k
            == MAX_ATTEMPTS - 1) by {
            if k < n {
                assert(steps.drop_last()[k] == steps[k]);
            } else {
                assert(Negotiation::handles_reply(
                    &states[k],
                    &states[k + 1],
                    &replies[k],
                    jsons[k],
                    &steps[k],
                ));
                assert(trim(replies[k].sql@).len() == 0);
                assert(states[k].attempts == k + 1);
                if k > MAX_ATTEMPTS - 1 {
                    let l = MAX_ATTEMPTS - 1;
                    assert(states[l].attempts == l + 1);
                    assert(Negotiation::handles_reply(
                        &states[l],
                        &states[l + 1],
                        &replies[l],
                        jsons[l],
                        &steps[l],
                    ));
                    assert(trim(replies[l].sql@).len() == 0);
                    assert(steps[l] is AskResponder);
                }
            }
        }
    }
}

/// The round from `old` to `new` recorded `json` and then asked for the
/// columns of a table of `sql` that `known` does not confirm.
pub open spec fn asked_for_unconfirmed(
    old: &Negotiation,
    new: &Negotiation,
    sql: Seq<char>,
    json: Seq<char>,
    known: Map<Seq<char>, Set<Seq<char>>>,
) -> bool {
    exists|t: Seq<char>|
        sql_tables(sql).contains(t) && !known.contains_key(lower_of(t))
            && new.conversation.log() == old.conversation.log().push((ROLE_ASSISTANT@, json)).push(
            (ROLE_USER@, ask_columns_text(t)),
        )
}

/// Over a run of rounds, from the first round on, whose replies each hold SQL
/// that reads from a table not confirmed at the start: nothing is confirmed,
/// no round accepts, each round asks for the columns of an unconfirmed table
/// of its SQL, and the negotiation fails on round `MAX_ATTEMPTS` exactly.
pub proof fn lemma_ungrounded_replies_exhaust(
    states: Seq<Negotiation>,
    replies: Seq<LlmResponse>,
    jsons: Seq<Seq<char>>,
    steps: Seq<Step>,
)
    requires
        states.len() == replies.len() + 1,
        jsons.len() == replies.len(),
        steps.len() == replies.len(),
        states[0].attempts == 1,
        forall|k: int|
            0 <= k < replies.len() ==> #[trigger] Negotiation::handles_reply(
                &states[k],
                &states[k + 1],
                &replies[k],
                jsons[k],
                &steps[k],
            ),
        forall|k: int|
            0 <= k < replies.len() ==> trim(#[trigger] replies[k].sql@).len() > 0 && exists|i: int|
                0 <= i < sql_tables(replies[k].sql@).len() && !states[0].conversation.known().contains_key(
                    lower_of(#[trigger] sql_tables(replies[k].sql@)[i]),
                ),
        forall|k: int| 0 <= k < replies.len() - 1 ==> #[trigger] steps[k] is AskResponder,
    ensures
        forall|k: int|
            0 <= k <= replies.len() ==> #[trigger] states[k].conversation.known()
                == states[0].conversation.known(),
        forall|k: int| 0 <= k < replies.len() ==> !(#[trigger] steps[k] is Accept),
        forall|k: int|
            0 <= k < replies.len() ==> (#[trigger] steps[k] is Fail <==> k == MAX_ATTEMPTS - 1),
        forall|k: int|
            0 <= k < replies.len() ==> #[trigger] asked_for_unconfirmed(
                &states[k],
                &states[k + 1],
                replies[k].sql@,
                jsons[k],
                states[0].conversation.known(),
            ),
{
    let known = states[0].conversation.known();
    assert forall|k: int| 0 <= k <= replies.len() implies #[trigger] states[k].conversation.known()
        == known by {
        if k > 0 {
            lemma_attempts_along(states, replies, jsons, steps, k - 1);
        }
    }
    assert forall|k: int| 0 <= k < replies.len() implies !(#[trigger] steps[k] is Accept) && (
    steps[k] is Fail <==> k == MAX_ATTEMPTS - 1) by {
        lemma_attempts_along(states, replies, jsons, steps, k);
        if k > MAX_ATTEMPTS - 1 {
            lemma_attempts_along(states, replies, jsons, steps, MAX_ATTEMPTS - 1);
            assert(steps[MAX_ATTEMPTS - 1] is AskResponder);
        }
    }
    assert forall|k: int| 0 <= k < replies.len() implies #[trigger] asked_for_unconfirmed(
        &states[k],
        &states[k + 1],
        replies[k].sql@,
        jsons[k],
        known,
    ) by {
        lemma_attempts_along(states, replies, jsons, steps, k);
        let m = replies[k];
        assert(Negotiation::handles_reply(&states[k], &states[k + 1], &m, jsons[k], &steps[k]));
        assert(trim(m.sql@).len() > 0);
        lemma_ungrounded_sql_not_accepted(&states[k], &states[k + 1], &m, jsons[k], &steps[k]);
    }
}

/// Along such a run, round `k` begins with `k + 1` rounds spent and with
/// nothing confirmed beyond the start.
proof fn lemma_attempts_along(
    states: Seq<Negotiation>,
    replies: Seq<LlmResponse>,
    jsons: Seq<Seq<char>>,
    steps: Seq<Step>,
    k: int,
)
    requires
        0 <= k < replies.len(),
        states.len() == replies.len() + 1,
        jsons.len() == replies.len(),
        steps.len() == replies.len(),
        states[0].attempts == 1,
        forall|j: int|
            0 <= j < replies.len() ==> #[trigger] Negotiation::handles_reply(
                &states[j],
                &states[j + 1],
                &replies[j],
                jsons[j],
                &steps[j],
            ),
        forall|j: int|
            0 <= j < replies.len() ==> trim(#[trigger] replies[j].sql@).len() > 0 && exists|i: int|
                0 <= i < sql_tables(replies[j].sql@).len() && !states[0].conversation.known().contains_key(
                    lower_of(#[trigger] sql_tables(replies[j].sql@)[i]),
                ),
        forall|j: int| 0 <= j < replies.len() - 1 ==> #[trigger] steps[j] is AskResponder,
    ensures
        states[k].attempts == k + 1,
        states[k].conversation.known() == states[0].conversation.known(),
        states[k + 1].conversation.known() == states[0].conversation.known(),
        !(steps[k] is Accept),
        steps[k] is Fail <==> states[k].attempts == MAX_ATTEMPTS,
    decreases k,
{
    if k > 0 {
        lemma_attempts_along(states, replies, jsons, steps, k - 1);
        assert(Negotiation::handles_reply(
            &states[k - 1],
            &states[k],
            &replies[k - 1],
            jsons[k - 1],
            &steps[k - 1],
        ));
        assert(trim(replies[k - 1].sql@).len() > 0);
        assert(steps[k - 1] is AskResponder);
    }
    let m = replies[k];
    assert(Negotiation::handles_reply(&states[k], &states[k + 1], &m, jsons[k], &steps[k]));
    assert(trim(m.sql@).len() > 0);
    lemma_ungrounded_sql_not_accepted(&states[k], &states[k + 1], &m, jsons[k], &steps[k]);
    lemma_missing_found(sql_tables(m.sql@), states[0].conversation.known());
}

/// Within a session, the confirmed tables and columns only grow: what one
/// state knows, every later state knows.
pub proof fn lemma_session_knowledge_grows(known: Seq<Map<Seq<char>, Set<Seq<char>>>>)
    requires
        forall|k: int| 0 <= k < known.len() - 1 ==> grows(#[trigger] known[k], known[k + 1]),
    ensures
        forall|i: int, j: int| 0 <= i <= j < known.len() ==> grows(#[trigger] known[i], #[trigger] known[j]),
{
    assert forall|i: int, j: int| 0 <= i <= j < known.len() implies grows(#[trigger] known[i], #[trigger] known[j]) by {
        lemma_grows_along(known, i, j);
    }
}

proof fn lemma_grows_along(known: Seq<Map<Seq<char>, Set<Seq<char>>>>, i: int, j: int)
    requires
        0 <= i <= j < known.len(),
        forall|k: int| 0 <= k < known.len() - 1 ==> grows(#[trigger] known[k], known[k + 1]),
    ensures
        grows(known[i], known[j]),
    decreases j - i,
{
    if i < j {
        lemma_grows_along(known, i, j - 1);
        assert(grows(known[j - 1], known[j]));
        lemma_grows_trans(known[i], known[j - 1], known[j]);
    }
}

} // verus!
