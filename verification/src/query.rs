//! The query analyser: from a query text to the operation's name, its
//! variables and the paths of its leaf fields.
use vstd::prelude::*;
use crate::blocks::{is_parsed_safely, parses_safely};
use crate::error::{QueryError, QueryFault};
use crate::text::{copy_texts, optional_text, texts};
use crate::syntax::{
    children_of, definition_count, definition_head, document_shape, parse_document,
    parsed_query, put_children, selection_count, selection_head, selection_nodes,
    take_children, take_selections, written, DefinitionHead, DefinitionShape, Node,
    QueryDocument, SelectionHead, Selections,
};

verus! {

/// A declared query variable; it becomes one variable column.
#[derive(Default, Clone)]
pub struct Variable {
    pub name: String,
}

/// A leaf field's path below the query's entry field.
#[derive(Default, Clone)]
pub struct ResultPath {
    pub path: Vec<String>,
}

/// What the analysis of a query text yields.
#[derive(Default, Clone)]
pub struct QueryDetails {
    pub operation_name: String,
    pub endpoint_name: String,
    pub variables: Vec<Variable>,
    pub results: Vec<ResultPath>,
}

/// The segments joined by `_`: the column name of a result path.
pub open spec fn joined(segments: Seq<Seq<char>>) -> Seq<char>
    decreases segments.len(),
{
    if segments.len() == 0 {
        Seq::empty()
    } else if segments.len() == 1 {
        segments[0]
    } else {
        joined(segments.drop_last()) + seq!['_'] + segments.last()
    }
}

impl View for Variable {
    type V = Seq<char>;

    open spec fn view(&self) -> Seq<char> {
        self.name@
    }
}

impl View for ResultPath {
    type V = Seq<Seq<char>>;

    open spec fn view(&self) -> Seq<Seq<char>> {
        texts(self.path@)
    }
}

impl ResultPath {
    /// The column name: the path's segments joined by `_`.
    pub fn to_string(&self) -> (name: String)
        ensures
            name@ == joined(self@),
    {
        let mut name = String::new();
        let n = self.path.len();
        let mut i: usize = 0;
        while i < n
            invariant
                n == self.path.len(),
                i <= n,
                name@ == joined(self@.take(i as int)),
            decreases n - i,
        {
            proof {
                reveal_strlit("_");
                assert(self@.take(i as int + 1).drop_last() =~= self@.take(i as int));
                assert(self@.take(i as int + 1).last() == self.path@[i as int]@);
            }
            if i > 0 {
                name.append("_");
                assert("_"@ =~= seq!['_']);
            }
            name.append(self.path[i].as_str());
            i = i + 1;
        }
        proof {
            assert(self@.take(n as int) =~= self@);
        }
        name
    }
}

/// The analysis of a query as plain values.
pub struct QueryDetailsView {
    pub operation_name: Seq<char>,
    pub endpoint_name: Seq<char>,
    pub variables: Seq<Seq<char>>,
    pub results: Seq<Seq<Seq<char>>>,
}

/// The names of a list of variables.
pub open spec fn variable_names(v: Seq<Variable>) -> Seq<Seq<char>> {
    v.map_values(|x: Variable| x@)
}

/// The segment lists of a list of result paths.
pub open spec fn path_lists(v: Seq<ResultPath>) -> Seq<Seq<Seq<char>>> {
    v.map_values(|p: ResultPath| p@)
}

impl View for QueryDetails {
    type V = QueryDetailsView;

    open spec fn view(&self) -> QueryDetailsView {
        QueryDetailsView {
            operation_name: self.operation_name@,
            endpoint_name: self.endpoint_name@,
            variables: variable_names(self.variables@),
            results: path_lists(self.results@),
        }
    }
}

/// The leaf paths below `base` that one selection contributes: a field
/// without selections is a leaf, a field with selections adds its name to the
/// prefix, an inline fragment adds nothing to it.
pub open spec fn node_paths(n: Node, base: Seq<Seq<char>>) -> Seq<Seq<Seq<char>>>
    decreases n,
{
    match n {
        Node::Field { name, children, .. } => if children.len() == 0 {
            seq![base.push(name)]
        } else {
            leaf_paths(children, base.push(name))
        },
        Node::InlineFragment { children, .. } => leaf_paths(children, base),
        Node::FragmentSpread { .. } => Seq::empty(),
    }
}

/// The leaf paths of a selection set below `base`, depth first and left to
/// right. Bit `i` of a column-usage set speaks of entry `i` of this list.
pub open spec fn leaf_paths(items: Seq<Node>, base: Seq<Seq<char>>) -> Seq<Seq<Seq<char>>>
    decreases items,
{
    if items.len() == 0 {
        Seq::empty()
    } else {
        leaf_paths(items.drop_last(), base) + node_paths(items.last(), base)
    }
}

/// Whether a selection is, or holds at any depth, a fragment spread.
pub open spec fn node_has_spread(n: Node) -> bool
    decreases n,
{
    match n {
        Node::Field { children, .. } => has_spread(children),
        Node::InlineFragment { children, .. } => has_spread(children),
        Node::FragmentSpread { .. } => true,
    }
}

/// Whether a selection set holds a fragment spread at any depth.
pub open spec fn has_spread(items: Seq<Node>) -> bool
    decreases items,
{
    if items.len() == 0 {
        false
    } else {
        has_spread(items.drop_last()) || node_has_spread(items.last())
    }
}

/// Whether definition `i` is the one `query` operation of the document.
pub open spec fn sole_query(defs: Seq<DefinitionShape>, i: int) -> bool {
    &&& 0 <= i < defs.len()
    &&& defs[i] is Query
    &&& forall|j: int| 0 <= j < defs.len() && #[trigger] is_query(defs[j]) ==> j == i
}

/// Whether a definition is a `query` operation.
pub open spec fn is_query(d: DefinitionShape) -> bool {
    d is Query
}

/// The one `query` operation of a document.
pub struct Operation {
    pub index: int,
    pub name: Seq<char>,
    pub variables: Seq<Seq<char>>,
    pub selections: Seq<Node>,
}

/// The document's one named `query` operation, or why there is none: no
/// `query` at all, several of them, or one without a name.
pub open spec fn operation(defs: Seq<DefinitionShape>) -> Result<Operation, QueryFault> {
    if forall|j: int| 0 <= j < defs.len() ==> !#[trigger] is_query(defs[j]) {
        Err(QueryFault::NoQueryOperation)
    } else if exists|i: int| sole_query(defs, i) {
        let i = choose|i: int| sole_query(defs, i);
        match defs[i] {
            DefinitionShape::Query { name: Some(name), variables, selections, .. } => Ok(
                Operation { index: i, name, variables, selections },
            ),
            _ => Err(QueryFault::MissingOperationName),
        }
    } else {
        Err(QueryFault::SeveralQueryOperations)
    }
}

/// The entry field of an operation: the name and the selections of the one
/// field that its top-level selection set must hold.
pub open spec fn entry(selections: Seq<Node>) -> Result<(Seq<char>, Seq<Node>), QueryFault> {
    if selections.len() != 1 {
        Err(QueryFault::TopLevelCount)
    } else {
        match selections[0] {
            Node::Field { name, children, .. } => Ok((name, children)),
            _ => Err(QueryFault::FieldExpected),
        }
    }
}

/// The entry field's name and the leaf paths below it.
pub open spec fn results(selections: Seq<Node>) -> Result<
    (Seq<char>, Seq<Seq<Seq<char>>>),
    QueryFault,
> {
    match entry(selections) {
        Err(fault) => Err(fault),
        Ok((name, fields)) => if has_spread(fields) {
            Err(QueryFault::FragmentSpread)
        } else {
            Ok((name, leaf_paths(fields, Seq::empty())))
        },
    }
}

/// What the analysis makes of a document's definitions.
pub open spec fn analysis(defs: Seq<DefinitionShape>) -> Result<QueryDetailsView, QueryFault> {
    match operation(defs) {
        Err(fault) => Err(fault),
        Ok(op) => match results(op.selections) {
            Err(fault) => Err(fault),
            Ok((endpoint_name, paths)) => Ok(
                QueryDetailsView {
                    operation_name: op.name,
                    endpoint_name,
                    variables: op.variables,
                    results: paths,
                },
            ),
        },
    }
}

/// What the analysis makes of a query text.
pub open spec fn analysis_of_text(text: Seq<char>) -> Result<QueryDetailsView, QueryFault> {
    match parsed_text(text) {
        Err(fault) => Err(fault),
        Ok(defs) => analysis(defs),
    }
}

/// What the parser makes of a query text: the shapes of the document's
/// definitions. A text with a block string that the parser cannot unquote is
/// refused before the parser sees it.
pub open spec fn parsed_text(text: Seq<char>) -> Result<Seq<DefinitionShape>, QueryFault> {
    if !parses_safely(text) {
        Err(QueryFault::BlockIndent)
    } else {
        match parsed_query(text) {
            Err(message) => Err(QueryFault::Syntax(message)),
            Ok(defs) => Ok(defs),
        }
    }
}

/// An outcome of the analyser as plain values.
pub open spec fn outcome(r: Result<QueryDetails, QueryError>) -> Result<
    QueryDetailsView,
    QueryFault,
> {
    match r {
        Ok(details) => Ok(details@),
        Err(e) => Err(e@),
    }
}

impl QueryDocument {
    /// Parses a query text into a document. A text with a block string that
    /// the parser cannot unquote is refused.
    pub fn parse(text: &str) -> (r: Result<QueryDocument, QueryError>)
        ensures
            match parsed_text(text@) {
                Ok(defs) => r matches Ok(doc) && document_shape(doc) == defs,
                Err(fault) => r matches Err(e) && e@ == fault,
            },
            r matches Ok(doc) ==> (written(document_shape(doc)) && text@.len() > 0),
    {
        if !is_parsed_safely(text) {
            return Err(QueryError::BlockIndent);
        }
        match parse_document(text) {
            Ok(doc) => Ok(doc),
            Err(e) => Err(QueryError::Syntax(e.to_string())),
        }
    }
}

/// Lists the leaf paths of a selection set below `base`, depth first and
/// left to right, and leaves the set as it was. A fragment spread at any
/// depth is an error; the set is then of no further use.
pub fn collect_fields(selection_set: &mut Selections, base: &Vec<String>) -> (r: Result<
    Vec<ResultPath>,
    QueryError,
>)
    ensures
        match r {
            Ok(paths) => {
                &&& !has_spread(selection_nodes(*old(selection_set)))
                &&& path_lists(paths@) == leaf_paths(
                    selection_nodes(*old(selection_set)),
                    texts(base@),
                )
                &&& selection_nodes(*final(selection_set)) == selection_nodes(*old(selection_set))
            },
            Err(e) => has_spread(selection_nodes(*old(selection_set))) && e@
                == QueryFault::FragmentSpread,
        },
    decreases selection_nodes(*old(selection_set)),
{
    let ghost nodes = selection_nodes(*selection_set);
    let mut out: Vec<ResultPath> = Vec::new();
    let n = selection_count(selection_set);
    let mut i: usize = 0;
    while i < n
        invariant
            i <= n,
            n == nodes.len(),
            nodes == selection_nodes(*old(selection_set)),
            selection_nodes(*selection_set) == nodes,
            !has_spread(nodes.take(i as int)),
            path_lists(out@) == leaf_paths(nodes.take(i as int), texts(base@)),
        decreases n - i,
    {
        proof {
            lemma_walk_step(nodes, texts(base@), i as int);
            if node_has_spread(nodes[i as int]) {
                lemma_spread_in_prefix(nodes, i as int + 1);
            }
        }
        let ghost node = nodes[i as int];
        let mut path = copy_texts(base);
        let field = match selection_head(selection_set, i) {
            SelectionHead::Field(name) => {
                path.push(name);
                true
            },
            SelectionHead::InlineFragment => false,
            SelectionHead::FragmentSpread => {
                return Err(QueryError::FragmentSpread);
            },
        };
        proof {
            if let Node::Field { name, .. } = node {
                assert(texts(path@) =~= texts(base@).push(name));
            }
        }
        let mut children = take_children(selection_set, i);
        if field && selection_count(&children) == 0 {
            assert(children_of(node) =~= Seq::empty());
            assert(selection_nodes(*selection_set) =~= nodes);
            out.push(ResultPath { path });
            assert(path_lists(out@) =~= leaf_paths(nodes.take(i as int), texts(base@)) + node_paths(
                node,
                texts(base@),
            ));
        } else {
            let r = collect_fields(&mut children, &path);
            put_children(selection_set, i, children);
            match r {
                Ok(mut paths) => {
                    assert(selection_nodes(*selection_set) =~= nodes);
                    let ghost before = out@;
                    let ghost added = paths@;
                    out.append(&mut paths);
                    assert(path_lists(out@) =~= path_lists(before) + path_lists(added));
                },
                Err(e) => {
                    return Err(e);
                },
            }
        }
        i = i + 1;
    }
    assert(nodes.take(n as int) =~= nodes);
    Ok(out)
}

/// One more item of a selection set adds its own leaf paths at the end, and
/// its own spreads.
pub proof fn lemma_walk_step(items: Seq<Node>, base: Seq<Seq<char>>, i: int)
    requires
        0 <= i < items.len(),
    ensures
        leaf_paths(items.take(i + 1), base) == leaf_paths(items.take(i), base) + node_paths(
            items[i],
            base,
        ),
        has_spread(items.take(i + 1)) == (has_spread(items.take(i)) || node_has_spread(items[i])),
{
    assert(items.take(i + 1).drop_last() =~= items.take(i));
    assert(items.take(i + 1).last() == items[i]);
}

/// A spread in a prefix of a selection set is a spread in the set.
pub proof fn lemma_spread_in_prefix(items: Seq<Node>, k: int)
    requires
        0 <= k <= items.len(),
        has_spread(items.take(k)),
    ensures
        has_spread(items),
    decreases items.len() - k,
{
    if k < items.len() {
        assert(items.take(k + 1).drop_last() =~= items.take(k));
        lemma_spread_in_prefix(items, k + 1);
    } else {
        assert(items.take(k) =~= items);
    }
}

/// Finds the document's one `query` operation and reads its name and its
/// declared variables, in declaration order. Gives the operation's place
/// among the definitions with them.
pub fn parse_query_variable(full_query: &QueryDocument) -> (r: Result<
    (usize, String, Vec<Variable>),
    QueryError,
>)
    ensures
        match operation(document_shape(*full_query)) {
            Ok(op) => {
                &&& r matches Ok((index, name, variables))
                &&& index == op.index
                &&& name@ == op.name
                &&& variable_names(variables@) == op.variables
            },
            Err(fault) => r matches Err(e) && e@ == fault,
        },
{
    let ghost defs = document_shape(*full_query);
    let n = definition_count(full_query);
    let mut found: Option<(usize, Option<String>, Vec<String>)> = None;
    let mut i: usize = 0;
    while i < n
        invariant
            i <= n,
            n == defs.len(),
            defs == document_shape(*full_query),
            match found {
                None => forall|j: int| 0 <= j < i ==> !#[trigger] is_query(defs[j]),
                Some((at, name, variables)) => {
                    &&& at < i
                    &&& defs[at as int] matches DefinitionShape::Query { name: n, variables: v, .. }
                    &&& n == optional_text(name)
                    &&& v == texts(variables@)
                    &&& forall|j: int| 0 <= j < i && #[trigger] is_query(defs[j]) ==> j == at
                },
            },
        decreases n - i,
    {
        match definition_head(full_query, i) {
            DefinitionHead::Query { name, variables } => {
                match found {
                    Some((at, _, _)) => {
                        proof {
                            assert(is_query(defs[at as int]));
                            assert(is_query(defs[i as int]));
                            assert forall|k: int| !sole_query(defs, k) by {
                                if sole_query(defs, k) {
                                    assert(at == k);
                                    assert(i == k);
                                }
                            }
                        }
                        return Err(QueryError::SeveralQueryOperations);
                    },
                    None => {
                        found = Some((i, name, variables));
                    },
                }
            },
            DefinitionHead::Other => {},
        }
        i = i + 1;
    }
    match found {
        None => Err(QueryError::NoQueryOperation),
        Some((at, name, names)) => {
            proof {
                assert(is_query(defs[at as int]));
                assert(sole_query(defs, at as int));
                let chosen = choose|k: int| sole_query(defs, k);
                assert(chosen == at);
            }
            match name {
                None => Err(QueryError::MissingOperationName),
                Some(name) => {
                    let mut variables: Vec<Variable> = Vec::new();
                    let mut k: usize = 0;
                    while k < names.len()
                        invariant
                            k <= names.len(),
                            variables.len() == k,
                            forall|j: int| 0 <= j < k ==> variables@[j]@ == names@[j]@,
                        decreases names.len() - k,
                    {
                        variables.push(Variable { name: names[k].clone() });
                        k = k + 1;
                    }
                    assert(variable_names(variables@) =~= texts(names@));
                    Ok((at, name, variables))
                },
            }
        },
    }
}

/// Reads the entry field of an operation's top-level selections: its name
/// and the leaf paths below it. The selections are left as they were.
pub fn parse_query_results(selections: &mut Selections) -> (r: Result<
    (String, Vec<ResultPath>),
    QueryError,
>)
    ensures
        match results(selection_nodes(*old(selections))) {
            Ok((endpoint_name, paths)) => {
                &&& r matches Ok((name, found))
                &&& name@ == endpoint_name
                &&& path_lists(found@) == paths
                &&& selection_nodes(*final(selections)) == selection_nodes(*old(selections))
            },
            Err(fault) => r matches Err(e) && e@ == fault,
        },
{
    let ghost nodes = selection_nodes(*selections);
    if selection_count(selections) != 1 {
        return Err(QueryError::TopLevelCount);
    }
    match selection_head(selections, 0) {
        SelectionHead::Field(name) => {
            let mut fields = take_children(selections, 0);
            let base: Vec<String> = Vec::new();
            assert(texts(base@) =~= Seq::empty());
            let r = collect_fields(&mut fields, &base);
            put_children(selections, 0, fields);
            match r {
                Ok(paths) => {
                    assert(selection_nodes(*selections) =~= nodes);
                    Ok((name, paths))
                },
                Err(e) => Err(e),
            }
        },
        _ => Err(QueryError::FieldExpected),
    }
}

/// Analyses a query text: the name of its one `query` operation, the name of
/// that operation's one top-level field, the declared variables and the leaf
/// paths below that field, each in the order of the text. An empty text is
/// never analysed.
pub fn parse(full_query: &str) -> (r: Result<QueryDetails, QueryError>)
    ensures
        outcome(r) == analysis_of_text(full_query@),
        r is Ok ==> full_query@.len() > 0,
{
    let mut document = match QueryDocument::parse(full_query) {
        Ok(document) => document,
        Err(e) => {
            return Err(e);
        },
    };
    let (index, operation_name, variables) = match parse_query_variable(&document) {
        Ok(found) => found,
        Err(e) => {
            return Err(e);
        },
    };
    let mut selections = take_selections(&mut document, index);
    match parse_query_results(&mut selections) {
        Ok((endpoint_name, results)) => Ok(
            QueryDetails { operation_name, endpoint_name, variables, results },
        ),
        Err(e) => Err(e),
    }
}

/// Analysing one text twice gives the same outcome: the same names, the same
/// variables and the same result paths in the same order, or the same fault.
pub proof fn lemma_analysis_is_stable(
    text: Seq<char>,
    first: Result<QueryDetails, QueryError>,
    second: Result<QueryDetails, QueryError>,
)
    requires
        outcome(first) == analysis_of_text(text),
        outcome(second) == analysis_of_text(text),
    ensures
        first is Ok <==> second is Ok,
        first matches Ok(a) ==> second matches Ok(b) && a@ == b@ && a.results@.len()
            == b.results@.len() && a.variables@.len() == b.variables@.len(),
        first matches Err(a) ==> second matches Err(b) && a@ == b@,
{
    if let Ok(a) = first {
        let b = second->Ok_0;
        assert(a@.results.len() == a.results@.len());
        assert(b@.results.len() == b.results@.len());
        assert(a@.variables.len() == a.variables@.len());
        assert(b@.variables.len() == b.variables@.len());
    }
}

} // verus!
