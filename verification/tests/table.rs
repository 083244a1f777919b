use graphql_vtab::error::QueryError;
use graphql_vtab::query::{parse, QueryDetails, ResultPath, Variable};
use graphql_vtab::table::{columns, create_table_sql, Config, ConfigError, GraphQLTab};

const FILMS_QUERY: &str =
    "query Query { allFilms { films { id title director edited } } }";

const AUTH_QUERY: &str = "query MyQuery($username_eq: String!, $password_eq: String!) { \
    authToken(password: $password_eq, username: $username_eq) { ... on AuthToken { __typename token } } }";

fn pair(key: &str, value: &str) -> (String, String) {
    (key.to_string(), value.to_string())
}

#[test]
fn columns_are_results_then_variables() {
    let details = parse(AUTH_QUERY).unwrap();
    let names = columns(&details);
    assert_eq!(names, vec!["__typename", "token", "username_eq", "password_eq"]);
    assert_eq!(names.len(), details.results.len() + details.variables.len());
}

#[test]
fn columns_of_hand_made_details() {
    let details = QueryDetails {
        operation_name: "Q".to_string(),
        endpoint_name: "e".to_string(),
        variables: vec![Variable { name: "v".to_string() }],
        results: vec![
            ResultPath { path: vec!["a".to_string(), "b".to_string(), "c".to_string()] },
            ResultPath { path: vec!["d".to_string()] },
        ],
    };
    assert_eq!(columns(&details), vec!["a_b_c", "d", "v"]);
}

#[test]
fn columns_of_empty_details_are_none() {
    assert!(columns(&QueryDetails::default()).is_empty());
}

#[test]
fn schema_declares_every_column_as_text() {
    let names = vec!["films_id".to_string(), "films_title".to_string(), "v".to_string()];
    assert_eq!(
        create_table_sql(&names),
        "CREATE TABLE x(\"films_id\" TEXT, \"films_title\" TEXT, \"v\" TEXT);"
    );
    assert_eq!(create_table_sql(&vec!["a".to_string()]), "CREATE TABLE x(\"a\" TEXT);");
}

#[test]
fn schema_without_columns_is_left_open() {
    assert_eq!(create_table_sql(&vec![]), "CREATE TABLE x(");
}

#[test]
fn validate_asks_for_url_and_query() {
    let mut config = Config::default();
    assert_eq!(config.validate(), Err(ConfigError::NoUrl));
    config.url = "http://localhost".to_string();
    assert_eq!(config.validate(), Err(ConfigError::NoQuery));
    config.query = FILMS_QUERY.to_string();
    assert_eq!(config.validate(), Ok(()));
    config.url = String::new();
    assert_eq!(config.validate(), Err(ConfigError::NoUrl));
}

#[test]
fn configure_builds_schema_and_configuration() {
    let params = vec![pair("url", "https://example.org/graphql"), pair("query", FILMS_QUERY)];
    let (sql, tab) = GraphQLTab::configure(&params).unwrap();
    assert_eq!(
        sql,
        "CREATE TABLE x(\"films_id\" TEXT, \"films_title\" TEXT, \"films_director\" TEXT, \"films_edited\" TEXT);"
    );
    assert_eq!(tab.config.url, "https://example.org/graphql");
    assert_eq!(tab.config.query, FILMS_QUERY);
    assert_eq!(tab.config.query_details.endpoint_name, "allFilms");
    assert_eq!(tab.config.query_details.results.len(), 4);
}

#[test]
fn configure_takes_the_last_of_repeated_keys_and_skips_others() {
    let params = vec![
        pair("url", "http://first"),
        pair("operationName", "ignored"),
        pair("query", "query A { a { b } }"),
        pair("url", "http://second"),
        pair("query", "query B { c { d e } }"),
    ];
    let (sql, tab) = GraphQLTab::configure(&params).unwrap();
    assert_eq!(tab.config.url, "http://second");
    assert_eq!(tab.config.query_details.operation_name, "B");
    assert_eq!(sql, "CREATE TABLE x(\"d\" TEXT, \"e\" TEXT);");
}

#[test]
fn configure_without_arguments_fails() {
    assert_eq!(GraphQLTab::configure(&vec![]).err(), Some(ConfigError::MissingParams));
}

#[test]
fn configure_without_url_fails_before_the_query_is_read() {
    let params = vec![pair("query", "not a query")];
    assert_eq!(GraphQLTab::configure(&params).err(), Some(ConfigError::NoUrl));
    let params = vec![pair("url", ""), pair("query", FILMS_QUERY)];
    assert_eq!(GraphQLTab::configure(&params).err(), Some(ConfigError::NoUrl));
}

#[test]
fn configure_without_query_fails() {
    let params = vec![pair("url", "http://localhost")];
    assert_eq!(GraphQLTab::configure(&params).err(), Some(ConfigError::NoQuery));
}

#[test]
fn configure_hands_on_the_fault_of_the_query() {
    let params = vec![pair("url", "http://localhost"), pair("query", "query Q { a { ...F } }")];
    assert_eq!(
        GraphQLTab::configure(&params).err(),
        Some(ConfigError::Query(QueryError::FragmentSpread))
    );
    let params = vec![pair("url", "http://localhost"), pair("query", "query Q {")];
    assert!(matches!(
        GraphQLTab::configure(&params),
        Err(ConfigError::Query(QueryError::Syntax(_)))
    ));
}

#[test]
fn configuration_messages() {
    assert_eq!(ConfigError::MissingParams.message(), "missing params");
    assert_eq!(ConfigError::Argument("illegal".to_string()).message(), "illegal");
    assert_eq!(ConfigError::NoUrl.message(), "no server `url` specified");
    assert_eq!(ConfigError::NoQuery.message(), "no Graphql `query` specified");
    assert_eq!(
        ConfigError::Query(QueryError::MissingOperationName).message(),
        "Missing operation name"
    );
}

#[test]
fn copies_keep_every_value() {
    let params = vec![pair("url", "http://localhost"), pair("query", AUTH_QUERY)];
    let (_, tab) = GraphQLTab::configure(&params).unwrap();
    let copy = tab.config.copy();
    assert_eq!(copy.url, tab.config.url);
    assert_eq!(copy.query, tab.config.query);
    assert_eq!(columns(&copy.query_details), columns(&tab.config.query_details));
    assert_eq!(copy.query_details.operation_name, "MyQuery");
    assert_eq!(copy.query_details.endpoint_name, "authToken");
}

fn bytes(args: &[&str]) -> Vec<Vec<u8>> {
    args.iter().map(|a| a.as_bytes().to_vec()).collect()
}

#[test]
fn connect_splits_the_arguments_and_drops_their_quotes() {
    let args = bytes(&[
        "url='http://localhost:8000/graphql'",
        " query = \"query Q { e { a b } }\" ",
    ]);
    let (sql, tab) = GraphQLTab::connect(&args).unwrap();
    assert_eq!(tab.config.url, "http://localhost:8000/graphql");
    assert_eq!(tab.config.query, "query Q { e { a b } }");
    assert_eq!(sql, "CREATE TABLE x(\"a\" TEXT, \"b\" TEXT);");
}

#[test]
fn connect_takes_a_query_over_several_lines() {
    let query_str = r#"
        query Query {
            allFilms {
                films {
                    id
                    title
                    director
                    edited
                }
            }
        }
        "#;
    let args = vec![
        b"url='https://swapi-graphql.netlify.app/.netlify/functions/index'".to_vec(),
        format!("query='{}'", query_str).into_bytes(),
    ];
    let (sql, tab) = GraphQLTab::connect(&args).unwrap();
    assert_eq!(tab.config.query_details.endpoint_name, "allFilms");
    assert_eq!(
        sql,
        "CREATE TABLE x(\"films_id\" TEXT, \"films_title\" TEXT, \"films_director\" TEXT, \"films_edited\" TEXT);"
    );
}

#[test]
fn connect_refuses_an_argument_without_a_value() {
    let args = bytes(&["url='http://localhost'", "query"]);
    match GraphQLTab::connect(&args) {
        Err(ConfigError::Argument(message)) => assert!(message.contains("illegal argument")),
        _ => panic!("an argument error was expected"),
    }
    let args = vec![vec![0xff, 0xfe, b'=', b'1']];
    assert!(matches!(GraphQLTab::connect(&args), Err(ConfigError::Argument(_))));
}

#[test]
fn connect_refuses_a_block_string_that_cannot_be_unquoted() {
    let args = vec![
        b"url=http://localhost".to_vec(),
        "query='query Q { e(x: \"\"\"\n a\n\u{2003}b\n\"\"\") { a } }'".as_bytes().to_vec(),
    ];
    assert_eq!(
        GraphQLTab::connect(&args).err(),
        Some(ConfigError::Query(QueryError::BlockIndent))
    );
}

#[test]
fn connect_takes_white_space_beyond_ascii_in_a_quoted_argument() {
    let args = vec![
        b"url=http://localhost".to_vec(),
        "query='query Q { e(x: \"a\u{2003}b\") { a } }'".as_bytes().to_vec(),
    ];
    let (sql, _) = GraphQLTab::connect(&args).unwrap();
    assert_eq!(sql, "CREATE TABLE x(\"a\" TEXT);");
}

#[test]
fn connect_keeps_the_message_for_an_argument() {
    let expected = rusqlite::vtab::parameter(b"query").err().unwrap().to_string();
    let args = bytes(&["url='http://localhost'", "query", "also bad"]);
    assert_eq!(GraphQLTab::connect(&args).err(), Some(ConfigError::Argument(expected)));
}

#[test]
fn connect_without_arguments_fails() {
    assert_eq!(GraphQLTab::connect(&vec![]).err(), Some(ConfigError::MissingParams));
}

#[test]
fn connect_checks_the_arguments_as_configure_does() {
    let args = bytes(&["query='query Q { e { a } }'"]);
    assert_eq!(GraphQLTab::connect(&args).err(), Some(ConfigError::NoUrl));
    let args = bytes(&["url=http://localhost"]);
    assert_eq!(GraphQLTab::connect(&args).err(), Some(ConfigError::NoQuery));
    let args = bytes(&["url=http://localhost", "query='query { e { a } }'"]);
    assert_eq!(
        GraphQLTab::connect(&args).err(),
        Some(ConfigError::Query(QueryError::MissingOperationName))
    );
}
