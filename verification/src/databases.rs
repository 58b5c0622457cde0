//! Which databases the environment names, and of what kind they are.
use crate::DATABASE_URL;
use crate::text::{lowercase, same_text, starts_with, strip_prefix, strip_suffix, to_lowercase};
use std::str::FromStr;
use vstd::prelude::*;
use vstd::string::StringExecFns;

verus! {

/// The kinds of database that can hold the application's own data.
#[derive(Debug, PartialEq, Eq, Structural)]
pub enum DatabaseType {
    Postgres,
    Sqlite,
}

/// The kind of database that a connection URL names, decided on the URL in
/// lower case: the text `lowered` decides, and `given` is quoted where it names
/// no supported kind.
pub open spec fn classified(lowered: Seq<char>, given: Seq<char>) -> Result<
    DatabaseType,
    Seq<char>,
> {
    if "postgres"@.is_prefix_of(lowered) {
        Ok(DatabaseType::Postgres)
    } else if "sqlite"@.is_prefix_of(lowered) {
        Ok(DatabaseType::Sqlite)
    } else {
        Err("Unsupported database type: "@ + given)
    }
}

/// `res` is `expected`, with the message of an error compared by its text.
pub open spec fn classifies_as(
    res: Result<DatabaseType, String>,
    expected: Result<DatabaseType, Seq<char>>,
) -> bool {
    match res {
        Ok(kind) => expected == Ok::<DatabaseType, Seq<char>>(kind),
        Err(message) => expected == Err::<DatabaseType, Seq<char>>(message@),
    }
}

impl DatabaseType {
    /// Decides the kind of database from a URL already put in lower case.
    pub fn classify(lowered: &str, given: &str) -> (res: Result<DatabaseType, String>)
        ensures
            classifies_as(res, classified(lowered@, given@)),
    {
        if starts_with(lowered, "postgres") {
            Ok(DatabaseType::Postgres)
        } else if starts_with(lowered, "sqlite") {
            Ok(DatabaseType::Sqlite)
        } else {
            Err("Unsupported database type: ".to_owned().concat(given))
        }
    }
}

impl FromStr for DatabaseType {
    type Err = String;

    /// The kind of database that the URL `s` names, whatever the case of its
    /// letters: Postgres where it begins with `postgres`, SQLite where it
    /// begins with `sqlite`, and otherwise an error that quotes the URL.
    fn from_str(s: &str) -> (res: Result<Self, Self::Err>)
        ensures
            classifies_as(res, classified(lowercase(s@), s@)),
    {
        let lower_s = to_lowercase(s);
        DatabaseType::classify(lower_s.as_str(), s)
    }
}

/// The variables of an environment as texts: names and values.
pub open spec fn vars_view(vars: Seq<(String, String)>) -> Seq<(Seq<char>, Seq<char>)> {
    vars.map_values(|v: (String, String)| (v.0@, v.1@))
}

/// The URL of the application's own database: the value of the last variable
/// named `DATABASE_URL`, if there is one.
pub open spec fn default_url(vars: Seq<(Seq<char>, Seq<char>)>) -> Option<Seq<char>>
    decreases vars.len(),
{
    if vars.len() == 0 {
        None
    } else if vars.last().0 == "DATABASE_URL"@ {
        Some(vars.last().1)
    } else {
        default_url(vars.drop_last())
    }
}

/// The code of the Teliway database that a variable names: what stands
/// between `DATABASE_` and `_URL` in its name, in lower case. The variable
/// `DATABASE_URL` itself names none, nor does a name of another shape.
pub open spec fn teliway_code(name: Seq<char>) -> Option<Seq<char>> {
    let rest = name.skip("DATABASE_"@.len() as int);
    if "DATABASE_"@.is_prefix_of(name) && name != "DATABASE_URL"@ && "_URL"@.is_suffix_of(rest) {
        Some(lowercase(rest.take(rest.len() - "_URL"@.len())))
    } else {
        None
    }
}

/// The Teliway databases that the variables name, in the order of the
/// variables: each code with its URL.
pub open spec fn teliway_urls(vars: Seq<(Seq<char>, Seq<char>)>) -> Seq<(Seq<char>, Seq<char>)> {
    vars.filter_map(
        |v: (Seq<char>, Seq<char>)|
            match teliway_code(v.0) {
                Some(code) => Some((code, v.1)),
                None => None,
            },
    )
}

/// The text of an optional string.
pub open spec fn text_of(s: Option<String>) -> Option<Seq<char>> {
    match s {
        Some(s) => Some(s@),
        None => None,
    }
}

/// Picks the database URLs out of the variables of an environment: first the
/// URL of the application's own database, then the Teliway databases, each
/// with its code.
pub fn get_database_urls_from_env(vars: Vec<(String, String)>) -> (res: (
    Option<String>,
    Vec<(String, String)>,
))
    ensures
        text_of(res.0) == default_url(vars_view(vars@)),
        vars_view(res.1@) == teliway_urls(vars_view(vars@)),
{
    let mut default: Option<String> = None;
    let mut teliways: Vec<(String, String)> = Vec::new();
    let ghost all = vars_view(vars@);
    for e in it: vars.into_iter()
        invariant
            it.seq() == vars@,
            all == vars_view(vars@),
            text_of(default) == default_url(all.take(it.index() as int)),
            vars_view(teliways@) == teliway_urls(all.take(it.index() as int)),
    {
        let ghost n = it.index() as int;
        proof {
            reveal_strlit("DATABASE_");
            reveal_strlit("DATABASE_URL");
            assert(all.take(n + 1).drop_last() =~= all.take(n));
        }
        let (key, value) = e;
        if starts_with(key.as_str(), "DATABASE_") {
            if same_text(key.as_str(), DATABASE_URL) {
                default = Some(value);
            } else {
                let code = match strip_prefix(key.as_str(), "DATABASE_") {
                    Some(rest) => strip_suffix(rest, "_URL"),
                    None => None,
                };
                if let Some(code) = code {
                    teliways.push((to_lowercase(code), value));
                }
            }
        }
    }
    assert(all.take(vars@.len() as int) =~= all);
    (default, teliways)
}

/// The URL of the application's own database, provided that it names a
/// database of the kind `wanted`.
pub open spec fn local_url(vars: Seq<(Seq<char>, Seq<char>)>, wanted: DatabaseType) -> Option<
    Seq<char>,
> {
    match default_url(vars) {
        Some(url) => if classified(lowercase(url), url) == Ok::<DatabaseType, Seq<char>>(wanted) {
            Some(url)
        } else {
            None
        },
        None => None,
    }
}

/// Finds the URL at which to open the application's own database: the one
/// that the environment names, if it is of the kind `wanted`.
pub fn local_database_url(vars: Vec<(String, String)>, wanted: DatabaseType) -> (res: Option<
    String,
>)
    ensures
        text_of(res) == local_url(vars_view(vars@), wanted),
{
    let (default, _) = get_database_urls_from_env(vars);
    match default {
        Some(url) => {
            let found = match DatabaseType::from_str(url.as_str()) {
                Ok(DatabaseType::Postgres) => matches!(wanted, DatabaseType::Postgres),
                Ok(DatabaseType::Sqlite) => matches!(wanted, DatabaseType::Sqlite),
                Err(_) => false,
            };
            if found {
                Some(url)
            } else {
                None
            }
        },
        None => None,
    }
}

} // verus!
