use graphql_vtab::error::QueryError;
use graphql_vtab::optimize::optimize_query;
use graphql_vtab::query::parse;

const FILMS_QUERY: &str = r#"
        query Query {
            allFilms {
                films {
                    id
                    title
                    director
                    edited
                }
            }
        }
        "#;

fn rendered(text: &str) -> String {
    graphql_parser::parse_query::<String>(text).unwrap().to_string()
}

fn leaves(text: &str) -> Vec<String> {
    parse(text).unwrap().results.iter().map(|p| p.to_string()).collect()
}

#[test]
fn full_usage_keeps_every_leaf() {
    let out = optimize_query(FILMS_QUERY, u64::MAX).unwrap();
    assert_eq!(out, rendered(FILMS_QUERY));
    assert_eq!(leaves(&out), leaves(FILMS_QUERY));
}

#[test]
fn unused_leaves_are_taken_out() {
    let out = optimize_query(FILMS_QUERY, 0b0101).unwrap();
    assert_eq!(out, rendered("query Query { allFilms { films { id director } } }"));
    let out = optimize_query(FILMS_QUERY, 0b1000).unwrap();
    assert_eq!(out, rendered("query Query { allFilms { films { edited } } }"));
}

#[test]
fn no_usage_keeps_the_first_item_of_each_set() {
    let out = optimize_query(FILMS_QUERY, 0).unwrap();
    assert_eq!(out, rendered("query Query { allFilms { films { id } } }"));
}

#[test]
fn no_usage_leaves_no_selection_set_empty() {
    let query = "query Q { root { a { x y } b c { z { w v } } ... on T { p q } } }";
    let out = optimize_query(query, 0).unwrap();
    assert_eq!(
        out,
        rendered("query Q { root { a { x } c { z { w } } ... on T { p } } }")
    );
    assert_eq!(leaves(&out), vec!["a_x", "c_z_w", "p"]);
}

#[test]
fn leaf_beside_a_branch_is_taken_out() {
    let query = "query Q { root { a b { c } } }";
    let out = optimize_query(query, 0).unwrap();
    assert_eq!(out, rendered("query Q { root { b { c } } }"));
}

#[test]
fn bits_follow_the_order_of_the_result_paths() {
    let query = "query Q { root { a { x y } b c { z } } }";
    assert_eq!(leaves(query), vec!["a_x", "a_y", "b", "c_z"]);
    let out = optimize_query(query, 0b0110).unwrap();
    assert_eq!(out, rendered("query Q { root { a { y } b c { z } } }"));
    let out = optimize_query(query, 0b1001).unwrap();
    assert_eq!(out, rendered("query Q { root { a { x } c { z } } }"));
}

#[test]
fn inline_fragment_is_walked_without_leaving() {
    let query = r#"
        query MyQuery($username_eq: String!, $password_eq: String!) {
          authToken(password: $password_eq, username: $username_eq) {
            ... on AuthToken {
              __typename
              token
            }
          }
        }
        "#;
    let out = optimize_query(query, 0b10).unwrap();
    let expected = r#"
        query MyQuery($username_eq: String!, $password_eq: String!) {
          authToken(password: $password_eq, username: $username_eq) {
            ... on AuthToken {
              token
            }
          }
        }
        "#;
    assert_eq!(out, rendered(expected));
}

#[test]
fn leaves_beyond_the_bits_stay() {
    let mut query = String::from("query Q { root {");
    for i in 0..70 {
        query.push_str(&format!(" f{}", i));
    }
    query.push_str(" } }");
    let out = optimize_query(&query, 1u64 << 3).unwrap();
    let mut expected = String::from("query Q { root { f3");
    for i in 64..70 {
        expected.push_str(&format!(" f{}", i));
    }
    expected.push_str(" } }");
    assert_eq!(out, rendered(&expected));
    let out = optimize_query(&query, 1u64 << 63).unwrap();
    assert_eq!(leaves(&out).len(), 7);
}

#[test]
fn optimizing_is_deterministic() {
    let a = optimize_query(FILMS_QUERY, 0b0011).unwrap();
    let b = optimize_query(FILMS_QUERY, 0b0011).unwrap();
    assert_eq!(a, b);
}

#[test]
fn optimizer_fails_where_the_analysis_fails() {
    assert!(matches!(optimize_query("query Q { a ", 0), Err(QueryError::Syntax(_))));
    assert!(matches!(optimize_query("query Q { a\u{2003}{ b } }", 0), Err(QueryError::Syntax(_))));
    assert_eq!(
        optimize_query("query Q { a(x: \"\"\"\n b\n\u{a0}c\n\"\"\") { b } }", 0).err(),
        Some(QueryError::BlockIndent)
    );
    assert_eq!(optimize_query("mutation M { a }", 0).err(), Some(QueryError::NoQueryOperation));
    assert_eq!(
        optimize_query("query A { a } query B { b }", 0).err(),
        Some(QueryError::SeveralQueryOperations)
    );
    assert_eq!(
        optimize_query("query { a { b } }", 0).err(),
        Some(QueryError::MissingOperationName)
    );
    assert_eq!(
        optimize_query("query Q { a { b } c }", 0).err(),
        Some(QueryError::TopLevelCount)
    );
    assert_eq!(
        optimize_query("query Q { ... on T { a } }", 0).err(),
        Some(QueryError::FieldExpected)
    );
    assert_eq!(
        optimize_query("query Q { a { b ...F } }", u64::MAX).err(),
        Some(QueryError::FragmentSpread)
    );
}

#[test]
fn other_definitions_are_rendered_untouched() {
    let query = "query Q { root { a b } } fragment F on T { x y }";
    let out = optimize_query(query, 0b10).unwrap();
    assert_eq!(out, rendered("query Q { root { b } } fragment F on T { x y }"));
}

#[test]
fn kept_fields_keep_their_arguments_aliases_and_directives() {
    let query = "query Q($n: Int = 3) @live { root(first: $n, where: {a: [1, 2.5, \"x\"]}) { \
        one: a(x: 1) @include(if: true) b c: d { e(y: null) f } ... on T @skip(if: false) { g h } } }";
    let out = optimize_query(query, 0b100101).unwrap();
    let expected = "query Q($n: Int = 3) @live { root(first: $n, where: {a: [1, 2.5, \"x\"]}) { \
        one: a(x: 1) @include(if: true) c: d { e(y: null) } ... on T @skip(if: false) { h } } }";
    assert_eq!(out, rendered(expected));
}

#[test]
fn white_space_beyond_ascii_in_a_quoted_argument_is_pruned() {
    let query = "query Q { search(text: \"a\u{3000}b\") { id name } }";
    let out = optimize_query(query, 0b10).unwrap();
    assert_eq!(out, rendered("query Q { search(text: \"a\u{3000}b\") { name } }"));
    let out = optimize_query(query, 0b11).unwrap();
    assert_eq!(out, rendered(query));
}

#[test]
fn usage_set_with_a_bit_for_each_result_column_prunes_nothing() {
    let query = "query Q($v: Int) { root(x: $v) { a { x y } b c { z } } }";
    assert_eq!(optimize_query(query, 0b1111).unwrap(), rendered(query));
    assert_eq!(optimize_query(query, 0b1111 | (1 << 40)).unwrap(), rendered(query));
    assert_eq!(optimize_query(query, u64::MAX).unwrap(), rendered(query));
}
