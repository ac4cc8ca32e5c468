//! Where a relay keeps its metadata.

use vstd::prelude::*;

use crate::home::join_path;
use crate::text::trim;
#[allow(unused_imports)]
use crate::home::{path_in, path_stays_within};
#[allow(unused_imports)]
use crate::text::{text_of, trimmed};

verus! {

/// Selects where the relay keeps its small metadata database. A MongoDB URL
/// takes precedence; without one it is a SQLite file in the data directory.
#[derive(Debug)]
pub struct RelayStorage {
    pub mongodb_url: Option<String>,
    pub mongodb_database: Option<String>,
}

impl Default for RelayStorage {
    /// Nothing set.
    fn default() -> (r: Self)
        ensures
            r.mongodb_url is None && r.mongodb_database is None,
    {
        RelayStorage { mongodb_url: None, mongodb_database: None }
    }
}

/// A setting without the white space around it; one that is blank counts as
/// unset.
pub open spec fn cleaned(value: Option<Seq<char>>) -> Option<Seq<char>> {
    match value {
        Some(s) => if trimmed(s).len() == 0 {
            None
        } else {
            Some(trimmed(s))
        },
        None => None,
    }
}

/// The first setting that is set, else the second.
pub open spec fn preferred(first: Option<Seq<char>>, second: Option<Seq<char>>) -> Option<
    Seq<char>,
> {
    match cleaned(first) {
        Some(s) => Some(s),
        None => cleaned(second),
    }
}

/// A setting's text without the white space around it, unless it is blank.
pub fn clean_string(value: String) -> (r: Option<String>)
    ensures
        text_of(r) == cleaned(Some(value@)),
{
    let value = trim(value.as_str());
    if value.as_str().is_empty() {
        None
    } else {
        Some(value)
    }
}

/// A setting without the white space around it.
pub fn clean_setting(value: Option<String>) -> (r: Option<String>)
    ensures
        text_of(r) == cleaned(text_of(value)),
{
    match value {
        Some(value) => clean_string(value),
        None => None,
    }
}

fn first_set(first: Option<String>, second: Option<String>) -> (r: Option<String>)
    ensures
        text_of(r) == preferred(text_of(first), text_of(second)),
{
    match clean_setting(first) {
        Some(s) => Some(s),
        None => clean_setting(second),
    }
}

/// Which store a relay uses.
#[derive(Debug)]
pub enum StoreChoice {
    Mongo { url: String, database: String },
    Sqlite { path: String },
}

impl RelayStorage {
    /// The storage that the command line selects, or else the environment:
    /// `MONGODB_URL` and `MONGODB_DATABASE` as they stand there.
    pub fn from_environment(
        mongodb_url: Option<String>,
        mongodb_database: Option<String>,
        env_url: Option<String>,
        env_database: Option<String>,
    ) -> (r: Self)
        ensures
            text_of(r.mongodb_url) == preferred(text_of(mongodb_url), text_of(env_url)),
            text_of(r.mongodb_database) == preferred(
                text_of(mongodb_database),
                text_of(env_database),
            ),
    {
        RelayStorage {
            mongodb_url: first_set(mongodb_url, env_url),
            mongodb_database: first_set(mongodb_database, env_database),
        }
    }

    /// The database that is used where none is named.
    pub open spec fn database(self) -> Seq<char> {
        match self.mongodb_database {
            Some(name) => name@,
            None => "recuros_relay"@,
        }
    }

    /// The name of the MongoDB database.
    pub fn database_name(&self) -> (r: String)
        ensures
            r@ == self.database(),
    {
        match &self.mongodb_database {
            Some(name) => name.clone(),
            None => "recuros_relay".to_owned(),
        }
    }

    /// The store that a relay with this data directory uses.
    pub fn store_at(&self, data_dir: &str) -> (r: StoreChoice)
        ensures
            r@ == chosen_store(
                text_of(self.mongodb_url),
                text_of(self.mongodb_database),
                data_dir@,
            ),
            match self.mongodb_url {
                Some(given) => r matches StoreChoice::Mongo { url, database } && url@ == given@
                    && database@ == self.database(),
                None => r matches StoreChoice::Sqlite { path } && path@ == path_in(
                    data_dir@,
                    "relay.db"@,
                ),
            },
    {
        match &self.mongodb_url {
            Some(url) => StoreChoice::Mongo { url: url.clone(), database: self.database_name() },
            None => StoreChoice::Sqlite { path: join_path(data_dir, "relay.db") },
        }
    }
}

// ---- laws ----

/// Which store a relay uses, as a value.
pub enum StoreChoiceView {
    Mongo { url: Seq<char>, database: Seq<char> },
    Sqlite { path: Seq<char> },
}

impl View for StoreChoice {
    type V = StoreChoiceView;

    open spec fn view(&self) -> StoreChoiceView {
        match self {
            StoreChoice::Mongo { url, database } => StoreChoiceView::Mongo {
                url: url@,
                database: database@,
            },
            StoreChoice::Sqlite { path } => StoreChoiceView::Sqlite { path: path@ },
        }
    }
}

/// The store that is used with these settings.
pub open spec fn chosen_store(
    url: Option<Seq<char>>,
    database: Option<Seq<char>>,
    data_dir: Seq<char>,
) -> StoreChoiceView {
    match url {
        Some(url) => StoreChoiceView::Mongo {
            url,
            database: match database {
                Some(name) => name,
                None => "recuros_relay"@,
            },
        },
        None => StoreChoiceView::Sqlite { path: path_in(data_dir, "relay.db"@) },
    }
}

/// A relay keeps its metadata in its own directory unless a MongoDB address is
/// set, and there in the database that is named.
pub proof fn sqlite_is_used_unless_mongodb_is_set(
    url: Option<Seq<char>>,
    database: Option<Seq<char>>,
    data_dir: Seq<char>,
)
    ensures
        chosen_store(url, database, data_dir) is Mongo <==> url is Some,
        chosen_store(url, database, data_dir) matches StoreChoiceView::Mongo {
            url: used,
            database: name,
        } ==> url == Some(used) && (database matches Some(named) ==> name == named) && (
        database is None ==> name == "recuros_relay"@),
        chosen_store(url, database, data_dir) matches StoreChoiceView::Sqlite { path } ==> {
            &&& data_dir.is_prefix_of(path)
            &&& "relay.db"@.is_suffix_of(path)
        },
{
    path_stays_within(data_dir, "relay.db"@);
}

/// A setting counts without the white space around it, and a blank one not at
/// all. What the command line sets counts before the environment, which counts
/// where the command line sets nothing.
pub proof fn the_command_line_counts_first(first: Option<Seq<char>>, second: Option<Seq<char>>)
    ensures
        preferred(first, second) is None <==> blank(first) && blank(second),
        !blank(first) ==> preferred(first, second) == Some(trimmed(first->Some_0)),
        blank(first) && !blank(second) ==> preferred(first, second) == Some(
            trimmed(second->Some_0),
        ),
        cleaned(first) is None <==> blank(first),
{
}

/// Whether a setting is unset, or holds white space alone.
pub open spec fn blank(value: Option<Seq<char>>) -> bool {
    match value {
        Some(s) => trimmed(s).len() == 0,
        None => true,
    }
}

} // verus!
