//! The flattening engine: from the JSON answer of the endpoint to rows, one
//! per element of the first array that a result path runs into, each with
//! the result columns first and the variable columns after them.
use vstd::prelude::*;
use crate::json::{as_value, member, resolved, scalar_of, step, walk, Json, Scalar, ScalarView};
use crate::plan::{columns_of, QueryInfo};
use crate::query::{path_lists, variable_names, QueryDetails, ResultPath};
use crate::text::texts;

verus! {

/// Whether a value is there and is an array.
pub open spec fn is_array_value(value: Option<Json>) -> bool {
    value matches Some(Json::Array(_))
}

/// The elements of an array; nothing else has any.
pub open spec fn items_of(value: Option<Json>) -> Seq<Json> {
    match value {
        Some(Json::Array(items)) => items@,
        _ => Seq::empty(),
    }
}

/// The number of segments, at least `k`, after which the walk from `root`
/// along `path` first stands on an array, if it ever does.
pub open spec fn array_depth(root: Option<Json>, path: Seq<Seq<char>>, k: int) -> Option<int>
    decreases path.len() + 1 - k,
{
    if k < 1 || k > path.len() {
        None
    } else if is_array_value(resolved(root, path.take(k))) {
        Some(k)
    } else {
        array_depth(root, path, k + 1)
    }
}

/// The point at which rows multiply: the path to an array of the response,
/// and its elements.
pub struct Anchor {
    pub path: Seq<Seq<char>>,
    pub items: Seq<Json>,
}

/// The anchor that the result paths from `i` on give: that of the first of
/// them that runs into an array.
pub open spec fn anchor_from(root: Option<Json>, paths: Seq<Seq<Seq<char>>>, i: int) -> Option<
    Anchor,
>
    decreases paths.len() - i,
{
    if i < 0 || i >= paths.len() {
        None
    } else {
        match array_depth(root, paths[i], 1) {
            Some(k) => Some(
                Anchor {
                    path: paths[i].take(k),
                    items: items_of(resolved(root, paths[i].take(k))),
                },
            ),
            None => anchor_from(root, paths, i + 1),
        }
    }
}

/// The anchor of a response: the prefix, up to the first array, of the first
/// result path in declared order that runs into an array. Only this one
/// array is expanded.
pub open spec fn anchor(root: Option<Json>, paths: Seq<Seq<Seq<char>>>) -> Option<Anchor> {
    anchor_from(root, paths, 0)
}

/// Whether a result path runs through the anchor: the anchor's path is a
/// prefix of it, segment by segment.
pub open spec fn under(anchor_path: Seq<Seq<char>>, path: Seq<Seq<char>>) -> bool {
    anchor_path.is_prefix_of(path)
}

/// The template's value for a result path: the scalar at the end of the
/// path from the root, or null for a path that runs through the anchor.
pub open spec fn template_cell(root: Option<Json>, anchor: Option<Anchor>, path: Seq<Seq<char>>)
    -> ScalarView {
    match anchor {
        Some(a) => if under(a.path, path) {
            ScalarView::Null
        } else {
            scalar_of(resolved(root, path))
        },
        None => scalar_of(resolved(root, path)),
    }
}

/// The template row: one value per result path.
pub open spec fn template(root: Option<Json>, anchor: Option<Anchor>, paths: Seq<Seq<Seq<char>>>)
    -> Seq<ScalarView> {
    Seq::new(paths.len(), |j: int| template_cell(root, anchor, paths[j]))
}

/// The value of a result path in the row of one array element: for a path
/// through the anchor the scalar at the end of the rest of the path, walked
/// from the element; for any other path the template's value.
pub open spec fn element_cell(
    root: Option<Json>,
    a: Anchor,
    element: Json,
    path: Seq<Seq<char>>,
) -> ScalarView {
    if under(a.path, path) {
        scalar_of(resolved(Some(element), path.skip(a.path.len() as int)))
    } else {
        template_cell(root, Some(a), path)
    }
}

/// The result columns of the row of one array element.
pub open spec fn element_row(
    root: Option<Json>,
    a: Anchor,
    element: Json,
    paths: Seq<Seq<Seq<char>>>,
) -> Seq<ScalarView> {
    Seq::new(paths.len(), |j: int| element_cell(root, a, element, paths[j]))
}

/// The first argument, from `k` on, whose constraint is on `column`.
pub open spec fn first_on(params: Seq<nat>, column: nat, k: int) -> Option<int>
    decreases params.len() - k,
{
    if k < 0 || k >= params.len() {
        None
    } else if params[k] == column {
        Some(k)
    } else {
        first_on(params, column, k + 1)
    }
}

/// The value of a variable column: the literal of the first argument bound
/// to it, as text, or null where none is.
pub open spec fn variable_cell(params: Seq<nat>, args: Seq<Seq<char>>, column: nat) -> ScalarView {
    match first_on(params, column, 0) {
        Some(k) => if k < args.len() {
            ScalarView::Text(args[k])
        } else {
            ScalarView::Null
        },
        None => ScalarView::Null,
    }
}

/// The variable columns of every row, in declaration order; they stand
/// after the result columns.
pub open spec fn variable_cells(
    params: Seq<nat>,
    args: Seq<Seq<char>>,
    result_count: nat,
    variable_count: nat,
) -> Seq<ScalarView> {
    Seq::new(variable_count, |i: int| variable_cell(params, args, (result_count + i) as nat))
}

/// The rows of a scan: without an anchor the template row alone; with one,
/// a row for each element of its array, in order. Every row ends with the
/// variable columns.
pub open spec fn flattened(
    root: Option<Json>,
    paths: Seq<Seq<Seq<char>>>,
    variable_count: nat,
    params: Seq<nat>,
    args: Seq<Seq<char>>,
) -> Seq<Seq<ScalarView>> {
    let tail = variable_cells(params, args, paths.len(), variable_count);
    match anchor(root, paths) {
        None => seq![template(root, None, paths) + tail],
        Some(a) => Seq::new(a.items.len(), |r: int| element_row(root, a, a.items[r], paths) + tail),
    }
}

/// The values of a row as plain values.
pub open spec fn cells(row: Seq<Scalar>) -> Seq<ScalarView> {
    row.map_values(|c: Scalar| c@)
}

/// The rows of a scan as plain values.
pub open spec fn rows_of(rows: Seq<Vec<Scalar>>) -> Seq<Seq<ScalarView>> {
    rows.map_values(|r: Vec<Scalar>| cells(r@))
}

/// Finds the anchor: the place of the first result path that runs into an
/// array, the number of its segments up to the array, and the array.
pub fn find_anchor<'a>(root: Option<&'a Json>, results: &Vec<ResultPath>) -> (found: Option<
    (usize, usize, &'a Json),
>)
    ensures
        match found {
            Some((i, depth, array)) => {
                &&& i < results.len()
                &&& 1 <= depth <= results@[i as int].path.len()
                &&& *array is Array
                &&& anchor(as_value(root), path_lists(results@)) == Some(
                    Anchor {
                        path: results@[i as int]@.take(depth as int),
                        items: items_of(Some(*array)),
                    },
                )
            },
            None => anchor(as_value(root), path_lists(results@)).is_none(),
        },
{
    let ghost paths = path_lists(results@);
    let mut i: usize = 0;
    while i < results.len()
        invariant
            i <= results.len(),
            paths == path_lists(results@),
            anchor(as_value(root), paths) == anchor_from(as_value(root), paths, i as int),
        decreases results.len() - i,
    {
        let path = &results[i].path;
        let ghost segments = paths[i as int];
        assert(segments == texts(path@));
        let mut value = root;
        let mut k: usize = 0;
        while k < path.len()
            invariant
                k <= path.len(),
                i < results.len(),
                *path == results@[i as int].path,
                paths == path_lists(results@),
                segments == paths[i as int],
                segments == texts(path@),
                anchor(as_value(root), paths) == anchor_from(as_value(root), paths, i as int),
                as_value(value) == resolved(as_value(root), segments.take(k as int)),
                array_depth(as_value(root), segments, 1) == array_depth(
                    as_value(root),
                    segments,
                    k as int + 1,
                ),
            decreases path.len() - k,
        {
            proof {
                assert(segments.take(k as int + 1).drop_last() =~= segments.take(k as int));
                assert(segments.take(k as int + 1).last() == path@[k as int]@);
            }
            value = step(value, &path[k]);
            k = k + 1;
            match value {
                Some(array) => {
                    if array.is_array() {
                        proof {
                            assert(is_array_value(resolved(as_value(root), segments.take(k as int))));
                            assert(array_depth(as_value(root), segments, k as int) == Some(k as int));
                            assert(results@[i as int]@ == segments);
                        }
                        return Some((i, k, array));
                    }
                },
                None => {},
            }
            assert(!is_array_value(resolved(as_value(root), segments.take(k as int))));
        }
        assert(array_depth(as_value(root), segments, path.len() as int + 1).is_none());
        i = i + 1;
    }
    None
}

/// Whether `path` runs through the first `depth` segments of `anchor_path`.
pub fn is_under(anchor_path: &Vec<String>, depth: usize, path: &Vec<String>) -> (b: bool)
    requires
        depth <= anchor_path.len(),
    ensures
        b == under(texts(anchor_path@).take(depth as int), texts(path@)),
{
    if path.len() < depth {
        return false;
    }
    let ghost prefix = texts(anchor_path@).take(depth as int);
    let mut j: usize = 0;
    while j < depth
        invariant
            j <= depth <= anchor_path.len(),
            depth <= path.len(),
            prefix == texts(anchor_path@).take(depth as int),
            forall|m: int| 0 <= m < j ==> prefix[m] == texts(path@)[m],
        decreases depth - j,
    {
        if anchor_path[j] != path[j] {
            assert(prefix[j as int] != texts(path@).subrange(0, depth as int)[j as int]);
            return false;
        }
        j = j + 1;
    }
    assert(prefix =~= texts(path@).subrange(0, depth as int));
    true
}

/// The variable columns of a scan's rows.
pub fn variable_columns(
    plan: &QueryInfo,
    args: &Vec<String>,
    result_count: usize,
    variable_count: usize,
) -> (tail: Vec<Scalar>)
    ensures
        cells(tail@) == variable_cells(
            columns_of(plan.params@),
            texts(args@),
            result_count as nat,
            variable_count as nat,
        ),
{
    let ghost params = columns_of(plan.params@);
    let mut tail: Vec<Scalar> = Vec::new();
    let mut i: usize = 0;
    while i < variable_count
        invariant
            i <= variable_count,
            params == columns_of(plan.params@),
            tail.len() == i,
            forall|m: int|
                0 <= m < i ==> tail@[m]@ == variable_cell(
                    params,
                    texts(args@),
                    (result_count + m) as nat,
                ),
        decreases variable_count - i,
    {
        let ghost column = (result_count + i) as nat;
        let mut cell = Scalar::Null;
        let mut k: usize = 0;
        let mut found = false;
        while k < plan.params.len() && !found
            invariant
                k <= plan.params.len(),
                params == columns_of(plan.params@),
                column == result_count + i,
                first_on(params, column, 0) == first_on(params, column, k as int) || found,
                found ==> cell@ == variable_cell(params, texts(args@), column),
                !found ==> cell@ == ScalarView::Null,
            decreases plan.params.len() - k + (if found { 0int } else { 1int }),
        {
            let col = plan.params[k].col;
            assert(params[k as int] == col);
            if col >= result_count && col - result_count == i {
                if k < args.len() {
                    cell = Scalar::Text(args[k].clone());
                }
                found = true;
            } else {
                k = k + 1;
            }
        }
        tail.push(cell);
        i = i + 1;
    }
    assert(cells(tail@) =~= variable_cells(
        params,
        texts(args@),
        result_count as nat,
        variable_count as nat,
    ));
    tail
}

/// Adds copies of the variable columns at the end of a row.
fn push_tail(row: &mut Vec<Scalar>, tail: &Vec<Scalar>)
    ensures
        cells(final(row)@) == cells(old(row)@) + cells(tail@),
{
    let mut m: usize = 0;
    while m < tail.len()
        invariant
            m <= tail.len(),
            cells(row@) == cells(old(row)@) + cells(tail@.take(m as int)),
        decreases tail.len() - m,
    {
        let ghost before = row@;
        row.push(tail[m].copy());
        assert(cells(row@) =~= cells(before).push(tail@[m as int]@));
        assert(cells(tail@.take(m as int + 1)) =~= cells(tail@.take(m as int)).push(
            tail@[m as int]@,
        ));
        assert(cells(row@) =~= cells(old(row)@) + cells(tail@.take(m as int + 1)));
        m = m + 1;
    }
    assert(tail@.take(tail.len() as int) =~= tail@);
}

/// Flattens the payload of a response into rows: the template row alone
/// where no result path runs into an array, else a row for each element of
/// the first such array; every row ends with the variable columns.
pub fn flatten_payload(
    root: Option<&Json>,
    details: &QueryDetails,
    plan: &QueryInfo,
    args: &Vec<String>,
) -> (rows: Vec<Vec<Scalar>>)
    ensures
        rows_of(rows@) == flattened(
            as_value(root),
            details@.results,
            details@.variables.len(),
            plan@.0,
            texts(args@),
        ),
{
    let results = &details.results;
    let ghost paths = path_lists(results@);
    let tail = variable_columns(plan, args, results.len(), details.variables.len());
    let mut rows: Vec<Vec<Scalar>> = Vec::new();
    match find_anchor(root, results) {
        None => {
            let mut row: Vec<Scalar> = Vec::new();
            let mut j: usize = 0;
            while j < results.len()
                invariant
                    j <= results.len(),
                    paths == path_lists(results@),
                    row.len() == j,
                    forall|m: int|
                        0 <= m < j ==> row@[m]@ == template_cell(as_value(root), None, paths[m]),
                decreases results.len() - j,
            {
                let path = &results[j].path;
                proof {
                    assert(texts(path@).subrange(0, path.len() as int) =~= paths[j as int]);
                }
                row.push(Scalar::of(walk(root, path, 0, path.len())));
                j = j + 1;
            }
            assert(cells(row@) =~= template(as_value(root), None, paths));
            push_tail(&mut row, &tail);
            rows.push(row);
            assert(rows_of(rows@) =~= seq![template(as_value(root), None, paths) + cells(tail@)]);
        },
        Some((at, depth, array)) => {
            let anchor_path = &results[at].path;
            let ghost a = Anchor {
                path: texts(anchor_path@).take(depth as int),
                items: items_of(Some(*array)),
            };
            match array {
                Json::Array(items) => {
                    let mut r: usize = 0;
                    while r < items.len()
                        invariant
                            r <= items.len(),
                            at < results.len(),
                            *anchor_path == results@[at as int].path,
                            depth <= anchor_path.len(),
                            paths == path_lists(results@),
                            a.path == texts(anchor_path@).take(depth as int),
                            a.items == items@,
                            rows.len() == r,
                            forall|m: int|
                                0 <= m < r ==> cells(#[trigger] rows@[m]@) == element_row(
                                    as_value(root),
                                    a,
                                    items@[m],
                                    paths,
                                ) + cells(tail@),
                        decreases items.len() - r,
                    {
                        let element = &items[r];
                        let mut row: Vec<Scalar> = Vec::new();
                        let mut j: usize = 0;
                        while j < results.len()
                            invariant
                                j <= results.len(),
                                at < results.len(),
                                *anchor_path == results@[at as int].path,
                                depth <= anchor_path.len(),
                                paths == path_lists(results@),
                                a.path == texts(anchor_path@).take(depth as int),
                                row.len() == j,
                                forall|m: int|
                                    0 <= m < j ==> row@[m]@ == element_cell(
                                        as_value(root),
                                        a,
                                        *element,
                                        paths[m],
                                    ),
                            decreases results.len() - j,
                        {
                            let path = &results[j].path;
                            proof {
                                assert(texts(path@) == paths[j as int]);
                                assert(texts(path@).subrange(0, path.len() as int) =~= paths[j as int]);
                            }
                            if is_under(anchor_path, depth, path) {
                                proof {
                                    assert(texts(path@).subrange(depth as int, path.len() as int)
                                        =~= paths[j as int].skip(a.path.len() as int));
                                }
                                row.push(Scalar::of(walk(Some(element), path, depth, path.len())));
                            } else {
                                row.push(Scalar::of(walk(root, path, 0, path.len())));
                            }
                            j = j + 1;
                        }
                        assert(cells(row@) =~= element_row(as_value(root), a, *element, paths));
                        push_tail(&mut row, &tail);
                        rows.push(row);
                        r = r + 1;
                    }
                    assert(rows_of(rows@) =~= Seq::new(
                        a.items.len(),
                        |r: int| element_row(as_value(root), a, a.items[r], paths) + cells(tail@),
                    ));
                },
                // `find_anchor` hands out nothing but an array.
                _ => {},
            }
        },
    }
    rows
}

/// The payload of a response: the member of its `data` that is named after
/// the query's entry field. A response without it has an absent payload.
pub open spec fn payload(response: Json, endpoint_name: Seq<char>) -> Option<Json> {
    match member(response, "data"@) {
        Some(data) => member(data, endpoint_name),
        None => None,
    }
}

/// The errors that a response reports: its member `errors`, unless that is
/// null or an array without elements.
pub open spec fn reported_errors(response: Json) -> Option<Json> {
    match member(response, "errors"@) {
        Some(errors) => if errors is Null || (errors is Array && items_of(Some(errors)).len() == 0) {
            None
        } else {
            Some(errors)
        },
        None => None,
    }
}

/// Turns the response of the endpoint into the rows of a scan. A response
/// that reports errors gives them back as they are; any other response gives
/// rows, and what is absent in it reads as null.
pub fn flatten<'a>(
    details: &QueryDetails,
    plan: &QueryInfo,
    args: &Vec<String>,
    response: &'a Json,
) -> (r: Result<Vec<Vec<Scalar>>, &'a Json>)
    ensures
        match reported_errors(*response) {
            Some(errors) => r matches Err(e) && *e == errors,
            None => r matches Ok(rows) && rows_of(rows@) == flattened(
                payload(*response, details.endpoint_name@),
                details@.results,
                details@.variables.len(),
                plan@.0,
                texts(args@),
            ),
        },
{
    let errors_key = "errors".to_owned();
    match response.get(&errors_key) {
        Some(errors) => {
            let empty = match errors {
                Json::Null => true,
                Json::Array(items) => items.len() == 0,
                _ => false,
            };
            if !empty {
                return Err(errors);
            }
        },
        None => {},
    }
    let data_key = "data".to_owned();
    let root = step(response.get(&data_key), &details.endpoint_name);
    Ok(flatten_payload(root, details, plan, args))
}

/// The variables of a request: for each argument of the plan, in order, the
/// name of the variable that its column stands for and the argument's
/// literal. An argument whose column is no variable column, or that the host
/// did not supply, binds nothing.
pub open spec fn bound_variables(
    variables: Seq<Seq<char>>,
    result_count: nat,
    params: Seq<nat>,
    args: Seq<Seq<char>>,
) -> Seq<(Seq<char>, Seq<char>)>
    decreases params.len(),
{
    if params.len() == 0 {
        Seq::empty()
    } else {
        let before = bound_variables(variables, result_count, params.drop_last(), args);
        let k = params.len() - 1;
        let column = params.last();
        if k < args.len() && result_count <= column < result_count + variables.len() {
            before.push((variables[column - result_count], args[k]))
        } else {
            before
        }
    }
}

/// The texts of a list of pairs of strings.
pub open spec fn pair_texts(pairs: Seq<(String, String)>) -> Seq<(Seq<char>, Seq<char>)> {
    pairs.map_values(|p: (String, String)| (p.0@, p.1@))
}

/// Binds the arguments of a scan to the query's variables.
pub fn bind_variables(details: &QueryDetails, plan: &QueryInfo, args: &Vec<String>) -> (bound: Vec<
    (String, String),
>)
    ensures
        pair_texts(bound@) == bound_variables(
            details@.variables,
            details@.results.len(),
            plan@.0,
            texts(args@),
        ),
{
    let ghost names = variable_names(details.variables@);
    let ghost params = columns_of(plan.params@);
    let result_count = details.results.len();
    let mut bound: Vec<(String, String)> = Vec::new();
    let mut k: usize = 0;
    while k < plan.params.len()
        invariant
            k <= plan.params.len(),
            names == variable_names(details.variables@),
            params == columns_of(plan.params@),
            result_count == details.results.len(),
            pair_texts(bound@) == bound_variables(
                names,
                result_count as nat,
                params.take(k as int),
                texts(args@),
            ),
        decreases plan.params.len() - k,
    {
        let col = plan.params[k].col;
        proof {
            assert(params.take(k as int + 1).drop_last() =~= params.take(k as int));
            assert(params.take(k as int + 1).last() == col);
        }
        if k < args.len() && col >= result_count && col - result_count < details.variables.len() {
            let ghost before = bound@;
            bound.push((details.variables[col - result_count].name.clone(), args[k].clone()));
            assert(pair_texts(bound@) =~= pair_texts(before).push(
                (names[col - result_count], texts(args@)[k as int]),
            ));
        }
        k = k + 1;
    }
    assert(params.take(plan.params.len() as int) =~= params);
    bound
}

/// Whether the walk from `root` along `path` never stands on an array.
pub open spec fn no_array_along(root: Option<Json>, path: Seq<Seq<char>>) -> bool {
    forall|k: int| 1 <= k <= path.len() ==> !is_array_value(resolved(root, #[trigger] path.take(k)))
}

/// What `array_depth` finds is the first array along the path, and it finds
/// none only where there is none.
pub proof fn lemma_array_depth(root: Option<Json>, path: Seq<Seq<char>>, k: int)
    requires
        1 <= k,
    ensures
        match array_depth(root, path, k) {
            Some(depth) => {
                &&& k <= depth <= path.len()
                &&& is_array_value(resolved(root, path.take(depth)))
                &&& forall|m: int| k <= m < depth ==> !is_array_value(resolved(root, #[trigger] path.take(m)))
            },
            None => forall|m: int|
                k <= m <= path.len() ==> !is_array_value(resolved(root, #[trigger] path.take(m))),
        },
    decreases path.len() + 1 - k,
{
    if k <= path.len() && !is_array_value(resolved(root, path.take(k))) {
        lemma_array_depth(root, path, k + 1);
    }
}

/// The anchor is the first array along the first result path that meets
/// one: no earlier path meets an array, and this path meets none before it.
/// There is no anchor only where no result path meets an array.
pub proof fn lemma_anchor_is_first_array(root: Option<Json>, paths: Seq<Seq<Seq<char>>>)
    ensures
        match anchor(root, paths) {
            Some(a) => exists|i: int, depth: int|
                {
                    &&& 0 <= i < paths.len()
                    &&& 1 <= depth <= paths[i].len()
                    &&& a.path == #[trigger] paths[i].take(depth)
                    &&& is_array_value(resolved(root, a.path))
                    &&& a.items == items_of(resolved(root, a.path))
                    &&& forall|m: int| 0 <= m < i ==> no_array_along(root, #[trigger] paths[m])
                    &&& forall|m: int|
                        1 <= m < depth ==> !is_array_value(
                            resolved(root, #[trigger] paths[i].take(m)),
                        )
                },
            None => forall|i: int| 0 <= i < paths.len() ==> no_array_along(root, #[trigger] paths[i]),
        },
{
    lemma_anchor_from(root, paths, 0);
}

proof fn lemma_anchor_from(root: Option<Json>, paths: Seq<Seq<Seq<char>>>, from: int)
    requires
        0 <= from,
    ensures
        match anchor_from(root, paths, from) {
            Some(a) => exists|i: int, depth: int|
                {
                    &&& from <= i < paths.len()
                    &&& 1 <= depth <= paths[i].len()
                    &&& a.path == #[trigger] paths[i].take(depth)
                    &&& is_array_value(resolved(root, a.path))
                    &&& a.items == items_of(resolved(root, a.path))
                    &&& forall|m: int| from <= m < i ==> no_array_along(root, #[trigger] paths[m])
                    &&& forall|m: int|
                        1 <= m < depth ==> !is_array_value(
                            resolved(root, #[trigger] paths[i].take(m)),
                        )
                },
            None => forall|i: int|
                from <= i < paths.len() ==> no_array_along(root, #[trigger] paths[i]),
        },
    decreases paths.len() - from,
{
    if from < paths.len() {
        lemma_array_depth(root, paths[from], 1);
        match array_depth(root, paths[from], 1) {
            Some(depth) => {
                let a = anchor_from(root, paths, from)->Some_0;
                assert(a.path == paths[from].take(depth));
            },
            None => {
                lemma_anchor_from(root, paths, from + 1);
                assert(no_array_along(root, paths[from]));
                match anchor_from(root, paths, from + 1) {
                    Some(a) => {
                        let (i, depth) = choose|i: int, depth: int|
                            {
                                &&& from + 1 <= i < paths.len()
                                &&& 1 <= depth <= paths[i].len()
                                &&& a.path == #[trigger] paths[i].take(depth)
                                &&& is_array_value(resolved(root, a.path))
                                &&& a.items == items_of(resolved(root, a.path))
                                &&& forall|m: int|
                                    from + 1 <= m < i ==> no_array_along(root, #[trigger] paths[m])
                                &&& forall|m: int|
                                    1 <= m < depth ==> !is_array_value(
                                        resolved(root, #[trigger] paths[i].take(m)),
                                    )
                            };
                        assert(a.path == paths[i].take(depth));
                        assert forall|m: int| from <= m < i implies no_array_along(
                            root,
                            #[trigger] paths[m],
                        ) by {
                            if m > from {
                            }
                        }
                    },
                    None => {
                        assert forall|i: int| from <= i < paths.len() implies no_array_along(
                            root,
                            #[trigger] paths[i],
                        ) by {
                            if i > from {
                            }
                        }
                    },
                }
            },
        }
    }
}

/// A response in which a result path runs into an array gives one row for
/// each element of the anchor's array. In every row a column whose path
/// runs through the anchor holds what the rest of its path reaches from that
/// row's element, and any other result column holds what its path reaches
/// from the root, the same in every row.
pub proof fn lemma_one_row_per_element(
    root: Option<Json>,
    paths: Seq<Seq<Seq<char>>>,
    variable_count: nat,
    params: Seq<nat>,
    args: Seq<Seq<char>>,
    a: Anchor,
)
    requires
        anchor(root, paths) == Some(a),
    ensures
        flattened(root, paths, variable_count, params, args).len() == a.items.len(),
        forall|r: int, j: int|
            #![trigger flattened(root, paths, variable_count, params, args)[r][j]]
            0 <= r < a.items.len() && 0 <= j < paths.len() ==> flattened(
                root,
                paths,
                variable_count,
                params,
                args,
            )[r][j] == (if under(a.path, paths[j]) {
                scalar_of(resolved(Some(a.items[r]), paths[j].skip(a.path.len() as int)))
            } else {
                scalar_of(resolved(root, paths[j]))
            }),
        forall|r: int|
            0 <= r < a.items.len() ==> (#[trigger] flattened(
                root,
                paths,
                variable_count,
                params,
                args,
            )[r]).len() == paths.len() + variable_count,
{
}

/// A response in which no result path runs into an array gives exactly one
/// row: the template row, then the variable columns.
pub proof fn lemma_no_array_one_row(
    root: Option<Json>,
    paths: Seq<Seq<Seq<char>>>,
    variable_count: nat,
    params: Seq<nat>,
    args: Seq<Seq<char>>,
)
    requires
        forall|i: int| 0 <= i < paths.len() ==> no_array_along(root, #[trigger] paths[i]),
    ensures
        flattened(root, paths, variable_count, params, args).len() == 1,
        flattened(root, paths, variable_count, params, args)[0] == template(root, None, paths)
            + variable_cells(params, args, paths.len(), variable_count),
        forall|j: int|
            0 <= j < paths.len() ==> flattened(root, paths, variable_count, params, args)[0][j]
                == scalar_of(resolved(root, #[trigger] paths[j])),
{
    lemma_anchor_is_first_array(root, paths);
    if let Some(a) = anchor(root, paths) {
        let (i, depth) = choose|i: int, depth: int|
            {
                &&& 0 <= i < paths.len()
                &&& 1 <= depth <= paths[i].len()
                &&& a.path == #[trigger] paths[i].take(depth)
                &&& is_array_value(resolved(root, a.path))
            };
        assert(no_array_along(root, paths[i]));
        assert(!is_array_value(resolved(root, paths[i].take(depth))));
    }
}

/// An empty array at the anchor gives no row at all.
pub proof fn lemma_empty_array_no_rows(
    root: Option<Json>,
    paths: Seq<Seq<Seq<char>>>,
    variable_count: nat,
    params: Seq<nat>,
    args: Seq<Seq<char>>,
)
    requires
        anchor(root, paths) matches Some(a) && a.items.len() == 0,
    ensures
        flattened(root, paths, variable_count, params, args).len() == 0,
{
}

/// What `first_on` finds is the first argument on the column, and it finds
/// none only where no argument is on it.
pub proof fn lemma_first_on(params: Seq<nat>, column: nat, from: int)
    requires
        0 <= from,
    ensures
        match first_on(params, column, from) {
            Some(k) => {
                &&& from <= k < params.len()
                &&& params[k] == column
                &&& forall|m: int| from <= m < k ==> params[m] != column
            },
            None => forall|m: int| from <= m < params.len() ==> params[m] != column,
        },
    decreases params.len() - from,
{
    if from < params.len() && params[from] != column {
        lemma_first_on(params, column, from + 1);
    }
}

/// In every row the column of variable `i` holds the literal of the first
/// argument whose constraint is on that column, as text, and null where no
/// constraint is on it.
pub proof fn lemma_variable_columns(
    root: Option<Json>,
    paths: Seq<Seq<Seq<char>>>,
    variable_count: nat,
    params: Seq<nat>,
    args: Seq<Seq<char>>,
    r: int,
    i: int,
)
    requires
        0 <= r < flattened(root, paths, variable_count, params, args).len(),
        0 <= i < variable_count,
    ensures
        (forall|k: int| 0 <= k < params.len() ==> params[k] != paths.len() + i) ==> flattened(
            root,
            paths,
            variable_count,
            params,
            args,
        )[r][paths.len() + i] == ScalarView::Null,
        forall|k: int|
            0 <= k < params.len() && k < args.len() && params[k] == paths.len() + i && (forall|
                m: int,
            |
                0 <= m < k ==> params[m] != paths.len() + i) ==> flattened(
                root,
                paths,
                variable_count,
                params,
                args,
            )[r][paths.len() + i] == ScalarView::Text(args[k]),
{
    let column = (paths.len() + i) as nat;
    lemma_first_on(params, column, 0);
    let rows = flattened(root, paths, variable_count, params, args);
    let tail = variable_cells(params, args, paths.len(), variable_count);
    assert(tail[i] == variable_cell(params, args, column));
    match anchor(root, paths) {
        None => {
            assert(rows[r] == template(root, None, paths) + tail);
        },
        Some(a) => {
            assert(rows[r] == element_row(root, a, a.items[r], paths) + tail);
        },
    }
    assert(rows[r][paths.len() + i] == tail[i]);
}

/// Every row of a scan has a value for each result path and each variable.
pub proof fn lemma_row_width(
    root: Option<Json>,
    paths: Seq<Seq<Seq<char>>>,
    variable_count: nat,
    params: Seq<nat>,
    args: Seq<Seq<char>>,
)
    ensures
        forall|r: int|
            0 <= r < flattened(root, paths, variable_count, params, args).len() ==> (
            #[trigger] flattened(root, paths, variable_count, params, args)[r]).len() == paths.len()
                + variable_count,
{
}

} // verus!
