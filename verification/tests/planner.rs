use graphql_vtab::plan::{Constraint, ParameterDetail, ESTIMATED_COST};
use graphql_vtab::table::GraphQLTab;

const AUTH_QUERY: &str = "query MyQuery($username_eq: String!, $password_eq: String!) { \
    authToken(password: $password_eq, username: $username_eq) { ... on AuthToken { __typename token } } }";

fn auth_table() -> GraphQLTab {
    let params = vec![
        ("url".to_string(), "http://localhost:8000/graphql".to_string()),
        ("query".to_string(), AUTH_QUERY.to_string()),
    ];
    GraphQLTab::configure(&params).unwrap().1
}

fn eq(column: i32) -> Constraint {
    Constraint { column, usable: true, equality: true }
}

#[test]
fn no_constraint_gives_a_plan_without_arguments() {
    let plan = auth_table().best_index(&vec![], 0b11);
    assert!(plan.query_info.params.is_empty());
    assert!(plan.argv_index.is_empty());
    assert_eq!(plan.query_info.col_used, 0b11);
    assert_eq!(plan.estimated_cost, 1_000_000);
    assert_eq!(ESTIMATED_COST, 1_000_000);
}

#[test]
fn equality_on_variable_columns_becomes_arguments_in_order() {
    let plan = auth_table().best_index(&vec![eq(3), eq(2)], 0b1111);
    assert_eq!(
        plan.query_info.params,
        vec![ParameterDetail { col: 3 }, ParameterDetail { col: 2 }]
    );
    assert_eq!(plan.argv_index, vec![1, 2]);
}

#[test]
fn constraint_on_a_result_column_is_no_argument() {
    let plan = auth_table().best_index(&vec![eq(0), eq(2), eq(1), eq(3)], 0);
    assert_eq!(
        plan.query_info.params,
        vec![ParameterDetail { col: 2 }, ParameterDetail { col: 3 }]
    );
    assert_eq!(plan.argv_index, vec![0, 1, 0, 2]);
    assert_eq!(plan.query_info.col_used, 0);
}

#[test]
fn unusable_or_other_operators_are_passed_over() {
    let constraints = vec![
        Constraint { column: 2, usable: false, equality: true },
        Constraint { column: 3, usable: true, equality: false },
        eq(3),
    ];
    let plan = auth_table().best_index(&constraints, 1);
    assert_eq!(plan.query_info.params, vec![ParameterDetail { col: 3 }]);
    assert_eq!(plan.argv_index, vec![0, 0, 1]);
}

#[test]
fn constraint_on_the_row_id_is_no_argument() {
    let plan = auth_table().best_index(&vec![eq(-1), eq(2)], 1);
    assert_eq!(plan.query_info.params, vec![ParameterDetail { col: 2 }]);
    assert_eq!(plan.argv_index, vec![0, 1]);
}

#[test]
fn only_result_columns_stay_in_the_column_set() {
    let plan = auth_table().best_index(&vec![], u64::MAX);
    assert_eq!(plan.query_info.col_used, 0b11);
    let plan = auth_table().best_index(&vec![], 0b1110);
    assert_eq!(plan.query_info.col_used, 0b10);
    let plan = auth_table().best_index(&vec![eq(2)], 0b0101);
    assert_eq!(plan.query_info.col_used, 0b01);
}

#[test]
fn table_without_result_columns_has_an_empty_column_set() {
    let params = vec![
        ("url".to_string(), "http://localhost".to_string()),
        ("query".to_string(), "query Q($a: Int) { version }".to_string()),
    ];
    let tab = GraphQLTab::configure(&params).unwrap().1;
    assert_eq!(tab.best_index(&vec![], 1).query_info.col_used, 0);
    assert_eq!(tab.best_index(&vec![eq(0)], u64::MAX).query_info.col_used, 0);
}

#[test]
fn column_set_is_whole_from_64_result_columns_on() {
    let mut query = String::from("query Q { root {");
    for i in 0..64 {
        query.push_str(&format!(" f{}", i));
    }
    query.push_str(" } }");
    let params =
        vec![("url".to_string(), "http://localhost".to_string()), ("query".to_string(), query)];
    let tab = GraphQLTab::configure(&params).unwrap().1;
    assert_eq!(tab.best_index(&vec![], u64::MAX).query_info.col_used, u64::MAX);
    assert_eq!(tab.best_index(&vec![], 1u64 << 63).query_info.col_used, 1u64 << 63);
}
