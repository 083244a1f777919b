use graphql_vtab::error::QueryError;
use graphql_vtab::query::{parse, parse_query_variable, ResultPath};
use graphql_vtab::syntax::QueryDocument;

const AUTH_QUERY: &str = r#"
        query MyQuery($username_eq: String!, $password_eq: String!) {
          authToken(password: $password_eq, username: $username_eq) {
            ... on AuthToken {
              __typename
              token
            }
          }
        }
        "#;

const FILMS_QUERY: &str = r#"
        query Query {
            allFilms {
                films {
                    id
                    title
                    director
                    edited
                }
            }
        }
        "#;

fn names(paths: &[ResultPath]) -> Vec<String> {
    paths.iter().map(|p| p.to_string()).collect()
}

#[test]
fn result_path_joins_segments_with_underscore() {
    let path = ResultPath { path: vec!["films".to_string(), "id".to_string()] };
    assert_eq!(path.to_string(), "films_id");
}

#[test]
fn result_path_of_one_segment_is_the_segment() {
    let path = ResultPath { path: vec!["token".to_string()] };
    assert_eq!(path.to_string(), "token");
}

#[test]
fn result_path_without_segments_is_empty() {
    let path = ResultPath { path: vec![] };
    assert_eq!(path.to_string(), "");
}

#[test]
fn analyses_the_films_query() {
    let details = parse(FILMS_QUERY).unwrap();
    assert_eq!(details.operation_name, "Query");
    assert_eq!(details.endpoint_name, "allFilms");
    assert!(details.variables.is_empty());
    assert_eq!(
        names(&details.results),
        vec!["films_id", "films_title", "films_director", "films_edited"]
    );
    assert_eq!(details.results[2].path, vec!["films".to_string(), "director".to_string()]);
}

#[test]
fn analyses_the_auth_query() {
    let details = parse(AUTH_QUERY).unwrap();
    assert_eq!(details.operation_name, "MyQuery");
    assert_eq!(details.endpoint_name, "authToken");
    let variables: Vec<&str> = details.variables.iter().map(|v| v.name.as_str()).collect();
    assert_eq!(variables, vec!["username_eq", "password_eq"]);
    assert_eq!(names(&details.results), vec!["__typename", "token"]);
}

#[test]
fn inline_fragment_adds_no_segment() {
    let details = parse("query Q { a { ... on T { b { c } } d } }").unwrap();
    assert_eq!(names(&details.results), vec!["b_c", "d"]);
}

#[test]
fn leaves_come_depth_first_left_to_right() {
    let details = parse("query Q { root { a { x y } b c { z { w } } } }").unwrap();
    assert_eq!(names(&details.results), vec!["a_x", "a_y", "b", "c_z_w"]);
}

#[test]
fn entry_field_without_selections_has_no_results() {
    let details = parse("query Q { version }").unwrap();
    assert_eq!(details.endpoint_name, "version");
    assert!(details.results.is_empty());
}

#[test]
fn analysis_is_stable_across_repeated_parses() {
    let first = parse(AUTH_QUERY).unwrap();
    let second = parse(AUTH_QUERY).unwrap();
    assert_eq!(first.operation_name, second.operation_name);
    assert_eq!(first.endpoint_name, second.endpoint_name);
    assert_eq!(first.results.len(), second.results.len());
    assert_eq!(first.variables.len(), second.variables.len());
    assert_eq!(names(&first.results), names(&second.results));
    for (a, b) in first.variables.iter().zip(second.variables.iter()) {
        assert_eq!(a.name, b.name);
    }
}

#[test]
fn text_that_is_no_document_is_a_syntax_error() {
    match parse("query Q { a ") {
        Err(QueryError::Syntax(message)) => assert!(!message.is_empty()),
        other => panic!("unexpected outcome: {:?}", other.map(|d| d.operation_name)),
    }
}

#[test]
fn white_space_beyond_ascii_in_a_quoted_argument_is_analysed() {
    let details = parse("query Q { search(text: \"a\u{3000}b\u{a0}\") { id name } }").unwrap();
    assert_eq!(details.endpoint_name, "search");
    assert_eq!(names(&details.results), vec!["id", "name"]);
    let details = parse("query Q { a(x: \"\u{e9}t\u{e9} \u{4e16}\u{754c}\") { b c } }").unwrap();
    assert_eq!(names(&details.results), vec!["b", "c"]);
}

#[test]
fn white_space_beyond_ascii_between_tokens_is_the_parsers_error() {
    assert!(matches!(parse("query Q {\u{a0}a { b } }"), Err(QueryError::Syntax(_))));
    assert!(matches!(parse("query Q { a { b } }\u{3000}"), Err(QueryError::Syntax(_))));
    assert!(matches!(parse("\u{2028}"), Err(QueryError::Syntax(_))));
    assert!(matches!(QueryDocument::parse("query Q { a\u{85}}"), Err(QueryError::Syntax(_))));
}

#[test]
fn block_string_that_cannot_be_unquoted_is_refused() {
    let block = "query Q { a(x: \"\"\"\n b\n\u{2003}\n c\n\"\"\") { b } }";
    assert_eq!(parse(block).err(), Some(QueryError::BlockIndent));
    assert!(matches!(QueryDocument::parse(block), Err(QueryError::BlockIndent)));
}

#[test]
fn empty_text_is_a_syntax_error() {
    assert!(matches!(parse(""), Err(QueryError::Syntax(_))));
    assert!(matches!(parse("  \n"), Err(QueryError::Syntax(_))));
}

#[test]
fn document_without_query_is_refused() {
    let r = parse("mutation M { a }");
    assert_eq!(r.err(), Some(QueryError::NoQueryOperation));
    let r = parse("{ a }");
    assert_eq!(r.err(), Some(QueryError::NoQueryOperation));
    let r = parse("fragment F on T { a }");
    assert_eq!(r.err(), Some(QueryError::NoQueryOperation));
}

#[test]
fn document_with_two_queries_is_refused() {
    let r = parse("query A { a } query B { b }");
    assert_eq!(r.err(), Some(QueryError::SeveralQueryOperations));
}

#[test]
fn query_beside_another_definition_is_analysed() {
    let details = parse("mutation M { m } query Q { a { b } }").unwrap();
    assert_eq!(details.operation_name, "Q");
    assert_eq!(names(&details.results), vec!["b"]);
}

#[test]
fn query_without_name_is_refused() {
    let r = parse("query { a { b } }");
    assert_eq!(r.err(), Some(QueryError::MissingOperationName));
}

#[test]
fn query_with_two_top_level_fields_is_refused() {
    let r = parse("query Q { a { b } c { d } }");
    assert_eq!(r.err(), Some(QueryError::TopLevelCount));
}

#[test]
fn top_level_inline_fragment_is_refused() {
    let r = parse("query Q { ... on T { a } }");
    assert_eq!(r.err(), Some(QueryError::FieldExpected));
}

#[test]
fn top_level_spread_is_not_a_field() {
    let r = parse("query Q { ...F }");
    assert_eq!(r.err(), Some(QueryError::FieldExpected));
}

#[test]
fn fragment_spread_is_refused_at_any_depth() {
    let r = parse("query Q { a { b ...F } }");
    assert_eq!(r.err(), Some(QueryError::FragmentSpread));
    let r = parse("query Q { a { b { c { ...F } } d } }");
    assert_eq!(r.err(), Some(QueryError::FragmentSpread));
    let r = parse("query Q { a { ... on T { ...F } } }");
    assert_eq!(r.err(), Some(QueryError::FragmentSpread));
}

#[test]
fn error_messages() {
    assert_eq!(QueryError::NoQueryOperation.message(), "No query operation found");
    assert_eq!(QueryError::MissingOperationName.message(), "Missing operation name");
    assert_eq!(QueryError::TopLevelCount.message(), "Exactly one operation expected");
    assert_eq!(QueryError::FieldExpected.message(), "Field expected");
    assert_eq!(QueryError::FragmentSpread.message(), "FragmentSpread not supported");
    assert_eq!(
        QueryError::SeveralQueryOperations.message(),
        "Exactly one query operation expected"
    );
    assert_eq!(QueryError::Syntax("boom".to_string()).message(), "boom");
    assert_eq!(
        QueryError::BlockIndent.message(),
        "Block string indentation ends inside a character"
    );
}

#[test]
fn operation_is_found_with_its_place_and_variables() {
    let document = QueryDocument::parse("fragment F on T { x } query Q($a: Int, $b: String) { f }")
        .ok()
        .unwrap();
    let (index, name, variables) = parse_query_variable(&document).ok().unwrap();
    assert_eq!(index, 1);
    assert_eq!(name, "Q");
    let variables: Vec<&str> = variables.iter().map(|v| v.name.as_str()).collect();
    assert_eq!(variables, vec!["a", "b"]);
}

#[test]
fn document_parse_keeps_the_parsers_message() {
    let expected = graphql_parser::parse_query::<String>("query Q {").err().unwrap().to_string();
    match QueryDocument::parse("query Q {") {
        Err(QueryError::Syntax(message)) => {
            assert!(message.contains("parse error"));
            assert_eq!(message, expected);
        },
        _ => panic!("a syntax error was expected"),
    }
}
