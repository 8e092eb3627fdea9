//! Connection profiles: which database and which responder a session uses.
use vstd::prelude::*;

verus! {

/// How to reach a PostgreSQL server.
pub struct PostgresConfig {
    pub host: String,
    pub port: u16,
    pub user: String,
    pub password: String,
    pub dbname: String,
}

/// How to reach the language-model responder.
pub struct LlmConfig {
    pub api_url: String,
    pub model: String,
}

/// Named profiles of each kind, and the name of the active one of each.
/// Within each kind no two profiles share a name (see `wf`).
pub struct Setting {
    pub postgres_profiles: Vec<(String, PostgresConfig)>,
    pub llm_profiles: Vec<(String, LlmConfig)>,
    pub active_postgres: String,
    pub active_llm: String,
}

/// The decimal digit of `d`, for `d < 10`.
pub open spec fn digit(d: nat) -> char {
    ('0' as u32 + d) as char
}

/// `n` written in decimal, without leading zeros.
pub open spec fn decimal(n: nat) -> Seq<char>
    decreases n,
{
    if n < 10 {
        seq![digit(n)]
    } else {
        decimal(n / 10).push(digit(n % 10))
    }
}

/// The connection string of a PostgreSQL profile.
pub open spec fn connection_text(c: PostgresConfig) -> Seq<char> {
    "host="@ + c.host@ + " user="@ + c.user@ + " password="@ + c.password@ + " dbname="@ + c.dbname@
        + " port="@ + decimal(c.port as nat)
}

/// The position of the first profile named `name`, if any.
pub open spec fn first_named<T>(profiles: Seq<(String, T)>, name: Seq<char>, i: int) -> bool {
    &&& 0 <= i < profiles.len()
    &&& profiles[i].0@ == name
    &&& forall|j: int| 0 <= j < i ==> profiles[j].0@ != name
}

/// No two of `profiles` share a name.
pub open spec fn names_unique<T>(profiles: Seq<(String, T)>) -> bool {
    forall|i: int, j: int| 0 <= i < j < profiles.len() ==> profiles[i].0@ != profiles[j].0@
}

/// Whether no two of `profiles` share a name.
fn unique_names<T>(profiles: &Vec<(String, T)>) -> (r: bool)
    ensures
        r == names_unique(profiles@),
{
    let mut j: usize = 0;
    while j < profiles.len()
        invariant
            0 <= j <= profiles@.len(),
            forall|a: int, b: int| 0 <= a < b < j ==> profiles@[a].0@ != profiles@[b].0@,
        decreases profiles@.len() - j,
    {
        let mut i: usize = 0;
        while i < j
            invariant
                0 <= i <= j < profiles@.len(),
                forall|a: int| 0 <= a < i ==> profiles@[a].0@ != profiles@[j as int].0@,
            decreases j - i,
        {
            if profiles[i].0 == profiles[j].0 {
                return false;
            }
            i = i + 1;
        }
        j = j + 1;
    }
    true
}

fn digit_text(d: u16) -> (r: &'static str)
    requires
        d < 10,
    ensures
        r@ == seq![digit(d as nat)],
{
    proof {
        reveal_strlit("0");
        reveal_strlit("1");
        reveal_strlit("2");
        reveal_strlit("3");
        reveal_strlit("4");
        reveal_strlit("5");
        reveal_strlit("6");
        reveal_strlit("7");
        reveal_strlit("8");
        reveal_strlit("9");
    }
    let r = match d {
        0 => "0",
        1 => "1",
        2 => "2",
        3 => "3",
        4 => "4",
        5 => "5",
        6 => "6",
        7 => "7",
        8 => "8",
        _ => "9",
    };
    assert(r@ =~= seq![digit(d as nat)]);
    r
}

/// Appends `n` in decimal to `out`.
fn push_decimal(out: &mut String, n: u16)
    ensures
        final(out)@ == old(out)@ + decimal(n as nat),
    decreases n,
{
    if n >= 10 {
        push_decimal(out, n / 10);
    }
    let d = n % 10;
    out.append(digit_text(d));
    proof {
        if n >= 10 {
            assert(decimal(n as nat) == decimal((n / 10) as nat).push(digit((n % 10) as nat)));
        }
    }
    assert(final(out)@ =~= old(out)@ + decimal(n as nat));
}

impl PostgresConfig {
    /// The connection string: host, user, password, database name and port.
    pub fn as_str(&self) -> (r: String)
        ensures
            r@ == connection_text(*self),
    {
        let mut s = String::from_str("host=");
        s.append(self.host.as_str());
        s.append(" user=");
        s.append(self.user.as_str());
        s.append(" password=");
        s.append(self.password.as_str());
        s.append(" dbname=");
        s.append(self.dbname.as_str());
        s.append(" port=");
        push_decimal(&mut s, self.port);
        s
    }
}

/// The position of the first of `profiles` named `name`.
fn find_profile<T>(profiles: &Vec<(String, T)>, name: &String) -> (r: Option<usize>)
    ensures
        r matches Some(i) ==> first_named(profiles@, name@, i as int),
        r is None ==> forall|j: int| 0 <= j < profiles@.len() ==> profiles@[j].0@ != name@,
{
    let mut i: usize = 0;
    while i < profiles.len()
        invariant
            0 <= i <= profiles@.len(),
            forall|j: int| 0 <= j < i ==> profiles@[j].0@ != name@,
        decreases profiles@.len() - i,
    {
        if profiles[i].0 == *name {
            return Some(i);
        }
        i = i + 1;
    }
    None
}

impl Setting {
    /// The invariant: within each kind, profile names are unique.
    pub open spec fn wf(&self) -> bool {
        names_unique(self.postgres_profiles@) && names_unique(self.llm_profiles@)
    }

    /// Whether the profile names of each kind are unique.
    pub fn has_unique_names(&self) -> (r: bool)
        ensures
            r == self.wf(),
    {
        unique_names(&self.postgres_profiles) && unique_names(&self.llm_profiles)
    }

    /// The PostgreSQL profile named as the active one (the first such, and
    /// under the invariant the only one).
    pub fn active_postgres(&self) -> (r: Option<&PostgresConfig>)
        ensures
            r is None <==> forall|j: int|
                0 <= j < self.postgres_profiles@.len() ==> self.postgres_profiles@[j].0@
                    != self.active_postgres@,
            r matches Some(c) ==> exists|i: int|
                first_named(self.postgres_profiles@, self.active_postgres@, i) && *c
                    == self.postgres_profiles@[i].1,
            self.wf() ==> (r matches Some(c) ==> forall|j: int|
                0 <= j < self.postgres_profiles@.len() && self.postgres_profiles@[j].0@
                    == self.active_postgres@ ==> *c == self.postgres_profiles@[j].1),
    {
        match find_profile(&self.postgres_profiles, &self.active_postgres) {
            Some(i) => Some(&self.postgres_profiles[i].1),
            None => None,
        }
    }

    /// The responder profile named as the active one (the first such, and
    /// under the invariant the only one).
    pub fn active_llm(&self) -> (r: Option<&LlmConfig>)
        ensures
            r is None <==> forall|j: int|
                0 <= j < self.llm_profiles@.len() ==> self.llm_profiles@[j].0@ != self.active_llm@,
            r matches Some(c) ==> exists|i: int|
                first_named(self.llm_profiles@, self.active_llm@, i) && *c == self.llm_profiles@[i].1,
            self.wf() ==> (r matches Some(c) ==> forall|j: int|
                0 <= j < self.llm_profiles@.len() && self.llm_profiles@[j].0@ == self.active_llm@
                    ==> *c == self.llm_profiles@[j].1),
    {
        match find_profile(&self.llm_profiles, &self.active_llm) {
            Some(i) => Some(&self.llm_profiles[i].1),
            None => None,
        }
    }
}

} // verus!
