//! The table: its configuration from the creation arguments, and the schema
//! that it declares to the host.
use vstd::prelude::*;
use crate::arguments::{lex_parameter, lexed_parameter};
use crate::error::{QueryError, QueryFault};
use crate::query::{
    analysis_of_text, joined, parse, path_lists, variable_names, QueryDetails, QueryDetailsView,
    ResultPath, Variable,
};
use crate::text::{copy_texts, texts};

verus! {

/// Why a table cannot be created, as a plain value.
pub enum ConfigFault {
    /// A creation argument is not of the form `key=value`; with the host
    /// library's message.
    Argument(Seq<char>),
    /// No creation argument was given.
    MissingParams,
    /// No `url` was given, or an empty one.
    NoUrl,
    /// No `query` was given, or an empty one.
    NoQuery,
    /// The query text cannot back a table.
    Query(QueryFault),
}

/// Why a table cannot be created. `Argument` carries the host library's
/// message.
#[derive(Debug, Clone, PartialEq, Eq)]
pub enum ConfigError {
    Argument(String),
    MissingParams,
    NoUrl,
    NoQuery,
    Query(QueryError),
}

impl View for ConfigError {
    type V = ConfigFault;

    open spec fn view(&self) -> ConfigFault {
        match self {
            ConfigError::Argument(m) => ConfigFault::Argument(m@),
            ConfigError::MissingParams => ConfigFault::MissingParams,
            ConfigError::NoUrl => ConfigFault::NoUrl,
            ConfigError::NoQuery => ConfigFault::NoQuery,
            ConfigError::Query(e) => ConfigFault::Query(e@),
        }
    }
}

impl ConfigError {
    /// The text of the message; that of `Argument`, and of a syntax error
    /// in the query, is the one it carries.
    pub open spec fn fixed_message(self) -> Seq<char> {
        match self {
            ConfigError::Argument(m) => m@,
            ConfigError::MissingParams => "missing params"@,
            ConfigError::NoUrl => "no server `url` specified"@,
            ConfigError::NoQuery => "no Graphql `query` specified"@,
            ConfigError::Query(e) => e.fixed_message(),
        }
    }

    /// A message for the caller.
    pub fn message(&self) -> (text: String)
        ensures
            text@ == self.fixed_message(),
    {
        match self {
            ConfigError::Argument(m) => m.clone(),
            ConfigError::MissingParams => "missing params".to_owned(),
            ConfigError::NoUrl => "no server `url` specified".to_owned(),
            ConfigError::NoQuery => "no Graphql `query` specified".to_owned(),
            ConfigError::Query(e) => e.message(),
        }
    }
}

/// The configuration of a table: where to send the query, the query text,
/// and what the analysis made of it.
#[derive(Default, Clone)]
pub struct Config {
    pub url: String,
    pub query: String,
    /// Values derived from the query string
    pub query_details: QueryDetails,
}

/// A configuration as plain values.
pub struct ConfigView {
    pub url: Seq<char>,
    pub query: Seq<char>,
    pub query_details: QueryDetailsView,
}

impl View for Config {
    type V = ConfigView;

    open spec fn view(&self) -> ConfigView {
        ConfigView { url: self.url@, query: self.query@, query_details: self.query_details@ }
    }
}

impl QueryDetails {
    /// A copy of these details.
    pub fn copy(&self) -> (details: QueryDetails)
        ensures
            details@ == self@,
    {
        let mut variables: Vec<Variable> = Vec::new();
        let mut i: usize = 0;
        while i < self.variables.len()
            invariant
                i <= self.variables.len(),
                variables.len() == i,
                forall|m: int| 0 <= m < i ==> variables@[m]@ == self.variables@[m]@,
            decreases self.variables.len() - i,
        {
            variables.push(Variable { name: self.variables[i].name.clone() });
            i = i + 1;
        }
        let mut results: Vec<ResultPath> = Vec::new();
        let mut j: usize = 0;
        while j < self.results.len()
            invariant
                j <= self.results.len(),
                results.len() == j,
                forall|m: int| 0 <= m < j ==> results@[m]@ == self.results@[m]@,
            decreases self.results.len() - j,
        {
            let path = copy_texts(&self.results[j].path);
            results.push(ResultPath { path });
            j = j + 1;
        }
        assert(variable_names(variables@) =~= variable_names(self.variables@));
        assert(path_lists(results@) =~= path_lists(self.results@));
        QueryDetails {
            operation_name: self.operation_name.clone(),
            endpoint_name: self.endpoint_name.clone(),
            variables,
            results,
        }
    }
}

impl Config {
    /// Checks that a `url` and a `query` were given.
    pub fn validate(&self) -> (r: Result<(), ConfigError>)
        ensures
            match r {
                Ok(()) => self.url@.len() > 0 && self.query@.len() > 0,
                Err(e) => if self.url@.len() == 0 {
                    e@ == ConfigFault::NoUrl
                } else {
                    self.query@.len() == 0 && e@ == ConfigFault::NoQuery
                },
            },
    {
        if self.url.as_str().is_empty() {
            return Err(ConfigError::NoUrl);
        }
        if self.query.as_str().is_empty() {
            return Err(ConfigError::NoQuery);
        }
        Ok(())
    }

    /// A copy of this configuration.
    pub fn copy(&self) -> (config: Config)
        ensures
            config@ == self@,
    {
        Config {
            url: self.url.clone(),
            query: self.query.clone(),
            query_details: self.query_details.copy(),
        }
    }
}

/// The names of the table's columns: the result paths' names, in their
/// order, then the variables' names, in theirs.
pub open spec fn column_names(details: QueryDetailsView) -> Seq<Seq<char>> {
    details.results.map_values(|path: Seq<Seq<char>>| joined(path)) + details.variables
}

/// Derives the table's columns from the analysis of its query.
pub fn columns(details: &QueryDetails) -> (names: Vec<String>)
    ensures
        texts(names@) == column_names(details@),
        names@.len() == details@.results.len() + details@.variables.len(),
{
    let mut names: Vec<String> = Vec::new();
    let mut i: usize = 0;
    while i < details.results.len()
        invariant
            i <= details.results.len(),
            names.len() == i,
            forall|m: int| 0 <= m < i ==> names@[m]@ == joined(details.results@[m]@),
        decreases details.results.len() - i,
    {
        names.push(details.results[i].to_string());
        i = i + 1;
    }
    let mut j: usize = 0;
    while j < details.variables.len()
        invariant
            j <= details.variables.len(),
            names.len() == details.results.len() + j,
            forall|m: int|
                0 <= m < details.results.len() ==> names@[m]@ == joined(details.results@[m]@),
            forall|m: int|
                0 <= m < j ==> names@[details.results.len() + m]@ == details.variables@[m]@,
        decreases details.variables.len() - j,
    {
        names.push(details.variables[j].name.clone());
        j = j + 1;
    }
    assert(texts(names@) =~= column_names(details@));
    names
}

/// The declaration of one column: its name in double quotes, the type
/// `TEXT`, and what separates it from the next column or closes the list.
pub open spec fn column_sql(name: Seq<char>, last: bool) -> Seq<char> {
    "\""@ + name + "\" TEXT"@ + (if last {
        ");"@
    } else {
        ", "@
    })
}

/// The declarations of the first `n` columns.
pub open spec fn columns_sql(names: Seq<Seq<char>>, n: int) -> Seq<char>
    decreases n,
{
    if n <= 0 {
        Seq::empty()
    } else {
        columns_sql(names, n - 1) + column_sql(names[n - 1], n == names.len())
    }
}

/// The schema that the table declares to the host: every column a nullable
/// text column.
pub open spec fn table_sql(names: Seq<Seq<char>>) -> Seq<char> {
    "CREATE TABLE x("@ + columns_sql(names, names.len() as int)
}

/// Writes the schema that the table declares to the host.
pub fn create_table_sql(names: &Vec<String>) -> (sql: String)
    ensures
        sql@ == table_sql(texts(names@)),
{
    let mut sql = "CREATE TABLE x(".to_owned();
    let mut i: usize = 0;
    while i < names.len()
        invariant
            i <= names.len(),
            sql@ == "CREATE TABLE x("@ + columns_sql(texts(names@), i as int),
        decreases names.len() - i,
    {
        let ghost before = sql@;
        sql.append("\"");
        sql.append(names[i].as_str());
        sql.append("\" TEXT");
        if i == names.len() - 1 {
            sql.append(");");
        } else {
            sql.append(", ");
        }
        assert(sql@ =~= before + column_sql(texts(names@)[i as int], i + 1 == names.len()));
        assert(sql@ =~= "CREATE TABLE x("@ + columns_sql(texts(names@), i as int + 1));
        i = i + 1;
    }
    sql
}

/// The value of the last creation argument with the given key, or the empty
/// text where there is none.
pub open spec fn argument(params: Seq<(Seq<char>, Seq<char>)>, key: Seq<char>) -> Seq<char>
    decreases params.len(),
{
    if params.len() == 0 {
        Seq::empty()
    } else if params.last().0 == key {
        params.last().1
    } else {
        argument(params.drop_last(), key)
    }
}

/// The texts of a list of creation arguments.
pub open spec fn argument_texts(params: Seq<(String, String)>) -> Seq<(Seq<char>, Seq<char>)> {
    params.map_values(|p: (String, String)| (p.0@, p.1@))
}

/// What the creation of a table makes of its arguments: the declared schema
/// and the configuration, or why there is no table.
pub open spec fn connected(params: Seq<(Seq<char>, Seq<char>)>) -> Result<
    (Seq<char>, ConfigView),
    ConfigFault,
> {
    let url = argument(params, "url"@);
    let query = argument(params, "query"@);
    if params.len() == 0 {
        Err(ConfigFault::MissingParams)
    } else if url.len() == 0 {
        Err(ConfigFault::NoUrl)
    } else if query.len() == 0 {
        Err(ConfigFault::NoQuery)
    } else {
        match analysis_of_text(query) {
            Err(fault) => Err(ConfigFault::Query(fault)),
            Ok(details) => Ok(
                (table_sql(column_names(details)), ConfigView { url, query, query_details: details }),
            ),
        }
    }
}

/// A table over one GraphQL operation.
pub struct GraphQLTab {
    pub config: Config,
}

/// The bytes of a list of arguments.
pub open spec fn argument_bytes(args: Seq<Vec<u8>>) -> Seq<Seq<u8>> {
    args.map_values(|a: Vec<u8>| a@)
}

/// The keys and values of a list of creation arguments, or the message for
/// the first of them that is not of the form `key=value`.
pub open spec fn lexed(args: Seq<Seq<u8>>) -> Result<Seq<(Seq<char>, Seq<char>)>, Seq<char>>
    decreases args.len(),
{
    if args.len() == 0 {
        Ok(Seq::empty())
    } else {
        match lexed(args.drop_last()) {
            Err(message) => Err(message),
            Ok(before) => match lexed_parameter(args.last()) {
                Err(message) => Err(message),
                Ok(pair) => Ok(before.push(pair)),
            },
        }
    }
}

impl GraphQLTab {
    /// Creates the table from its creation arguments as the host hands
    /// them over, each of the form `key=value`. Gives the schema to declare
    /// and the table.
    pub fn connect(args: &Vec<Vec<u8>>) -> (r: Result<(String, GraphQLTab), ConfigError>)
        ensures
            match lexed(argument_bytes(args@)) {
                Err(message) => r matches Err(e) && e@ == ConfigFault::Argument(message),
                Ok(params) => match connected(params) {
                    Ok((sql, config)) => r matches Ok((text, tab)) && text@ == sql && tab.config@
                        == config,
                    Err(fault) => r matches Err(e) && e@ == fault,
                },
            },
    {
        let ghost given = argument_bytes(args@);
        let mut params: Vec<(String, String)> = Vec::new();
        let mut i: usize = 0;
        assert(argument_texts(params@) =~= Seq::empty());
        while i < args.len()
            invariant
                i <= args.len(),
                given == argument_bytes(args@),
                lexed(given.take(i as int)) == Ok::<Seq<(Seq<char>, Seq<char>)>, Seq<char>>(
                    argument_texts(params@),
                ),
            decreases args.len() - i,
        {
            proof {
                assert(given.take(i as int + 1).drop_last() =~= given.take(i as int));
                assert(given.take(i as int + 1).last() == args@[i as int]@);
            }
            match lex_parameter(&args[i]) {
                Ok(pair) => {
                    let ghost before = params@;
                    params.push(pair);
                    assert(argument_texts(params@) =~= argument_texts(before).push(
                        (pair.0@, pair.1@),
                    ));
                },
                Err(e) => {
                    let message = e.to_string();
                    proof {
                        lemma_lexed_prefix(given, i as int + 1);
                    }
                    return Err(ConfigError::Argument(message));
                },
            }
            i = i + 1;
        }
        assert(given.take(args.len() as int) =~= given);
        GraphQLTab::configure(&params)
    }

    /// Creates the table from the keys and values of its creation
    /// arguments: `url` and `query` are read, the last of each counts, and
    /// any other key is passed over. Gives the schema to declare and the
    /// table.
    pub fn configure(params: &Vec<(String, String)>) -> (r: Result<(String, GraphQLTab), ConfigError>)
        ensures
            match connected(argument_texts(params@)) {
                Ok((sql, config)) => r matches Ok((text, tab)) && text@ == sql && tab.config@
                    == config,
                Err(fault) => r matches Err(e) && e@ == fault,
            },
    {
        if params.len() < 1 {
            return Err(ConfigError::MissingParams);
        }
        let ghost given = argument_texts(params@);
        let url_key = "url".to_owned();
        let query_key = "query".to_owned();
        let mut config = Config {
            url: String::new(),
            query: String::new(),
            query_details: QueryDetails {
                operation_name: String::new(),
                endpoint_name: String::new(),
                variables: Vec::new(),
                results: Vec::new(),
            },
        };
        let mut i: usize = 0;
        while i < params.len()
            invariant
                i <= params.len(),
                given == argument_texts(params@),
                url_key@ == "url"@,
                query_key@ == "query"@,
                config.url@ == argument(given.take(i as int), "url"@),
                config.query@ == argument(given.take(i as int), "query"@),
            decreases params.len() - i,
        {
            proof {
                assert(given.take(i as int + 1).drop_last() =~= given.take(i as int));
                assert(given.take(i as int + 1).last() == (params@[i as int].0@, params@[i as int].1@));
            }
            if params[i].0 == url_key {
                config.url = params[i].1.clone();
            }
            if params[i].0 == query_key {
                config.query = params[i].1.clone();
            }
            i = i + 1;
        }
        assert(given.take(params.len() as int) =~= given);
        match config.validate() {
            Ok(()) => {},
            Err(e) => {
                return Err(e);
            },
        }
        match parse(config.query.as_str()) {
            Ok(details) => {
                config.query_details = details;
            },
            Err(e) => {
                return Err(ConfigError::Query(e));
            },
        }
        let names = columns(&config.query_details);
        let sql = create_table_sql(&names);
        Ok((sql, GraphQLTab { config }))
    }
}

/// Where a leading part of the arguments cannot be split, the whole cannot,
/// and the message is that of the leading part.
pub proof fn lemma_lexed_prefix(args: Seq<Seq<u8>>, k: int)
    requires
        0 <= k <= args.len(),
        lexed(args.take(k)) is Err,
    ensures
        lexed(args) == lexed(args.take(k)),
    decreases args.len() - k,
{
    if k < args.len() {
        assert(args.take(k + 1).drop_last() =~= args.take(k));
        lemma_lexed_prefix(args, k + 1);
    } else {
        assert(args.take(k) =~= args);
    }
}

} // verus!
