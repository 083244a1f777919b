//! The boundary to `graphql_parser`: the parsed document stays in the parser's
//! own types, and the library reads and edits it through the small functions
//! of this module. Their contracts are stated over the shapes below and are
//! taken on trust from the parser's source; nothing here is proved.
use vstd::prelude::*;
use crate::blocks::parses_safely;
use crate::text::{optional_text, texts};
use graphql_parser::query::{Definition, Document, OperationDefinition, ParseError, Selection};

verus! {

/// What the parser holds of a selection or a definition beside what its
/// shape spells out: of a field its alias, arguments and directives, of a
/// fragment its type condition or name and its directives, of a query the
/// types and defaults of its variables and its directives, of any other
/// definition all of it. It is kept as one value that the library never looks
/// into; two such values are the same where the parser holds the same.
pub struct Detail {
    pub code: int,
}

/// Shape of one selection: what the analysis and the pruning read of it,
/// and the rest as a `Detail`.
pub enum Node {
    /// A field with its name and its own selections (none for a leaf).
    Field { name: Seq<char>, detail: Detail, children: Seq<Node> },
    /// An inline fragment (`... on T { .. }`) with its selections.
    InlineFragment { detail: Detail, children: Seq<Node> },
    /// A spread of a named fragment (`...Name`).
    FragmentSpread { detail: Detail },
}

/// Shape of one top-level definition of a document.
pub enum DefinitionShape {
    /// A `query` operation: its name, the names of its declared variables
    /// and its top-level selections.
    Query {
        name: Option<Seq<char>>,
        variables: Seq<Seq<char>>,
        detail: Detail,
        selections: Seq<Node>,
    },
    /// Anything else: a bare selection set, a mutation, a subscription or a
    /// fragment definition.
    Other { detail: Detail },
}

/// The selections of `n`; a fragment spread has none.
pub open spec fn children_of(n: Node) -> Seq<Node> {
    match n {
        Node::Field { children, .. } => children,
        Node::InlineFragment { children, .. } => children,
        Node::FragmentSpread { .. } => Seq::empty(),
    }
}

/// `n` with its selections replaced by `c`; a fragment spread stays as it is.
pub open spec fn with_children(n: Node, c: Seq<Node>) -> Node {
    match n {
        Node::Field { name, detail, .. } => Node::Field { name, detail, children: c },
        Node::InlineFragment { detail, .. } => Node::InlineFragment { detail, children: c },
        Node::FragmentSpread { .. } => n,
    }
}

/// `d` with its top-level selections replaced by `c`; only a query has any.
pub open spec fn with_selections(d: DefinitionShape, c: Seq<Node>) -> DefinitionShape {
    match d {
        DefinitionShape::Query { name, variables, detail, .. } => DefinitionShape::Query {
            name,
            variables,
            detail,
            selections: c,
        },
        DefinitionShape::Other { .. } => d,
    }
}

/// The top-level selections of `d`; only a query has any.
pub open spec fn selections_of(d: DefinitionShape) -> Seq<Node> {
    match d {
        DefinitionShape::Query { selections, .. } => selections,
        DefinitionShape::Other { .. } => Seq::empty(),
    }
}

/// Whether no selection set at or below this selection is empty. A field
/// without selections is a leaf and has no selection set.
pub open spec fn node_populated(n: Node) -> bool
    decreases n,
{
    match n {
        Node::Field { children, .. } => children.len() == 0 || populated(children),
        Node::InlineFragment { children, .. } => populated(children),
        Node::FragmentSpread { .. } => true,
    }
}

/// Whether a selection set holds an item, and so does every selection set
/// below it.
pub open spec fn populated(items: Seq<Node>) -> bool
    decreases items,
{
    items.len() > 0 && forall|i: int| 0 <= i < items.len() ==> node_populated(#[trigger] items[i])
}

/// Whether no selection set of a query of the document is empty, as in
/// every document that the parser gives: its grammar asks for an item in
/// every selection set that is written out.
pub open spec fn written(defs: Seq<DefinitionShape>) -> bool {
    forall|i: int|
        0 <= i < defs.len() && #[trigger] defs[i] is Query ==> populated(selections_of(defs[i]))
}

/// What the library reads of a definition, without its selections.
pub enum DefinitionHead {
    Query { name: Option<String>, variables: Vec<String> },
    Other,
}

/// What the library reads of a selection, without its own selections.
pub enum SelectionHead {
    Field(String),
    InlineFragment,
    FragmentSpread,
}

impl DefinitionHead {
    /// Whether this head is that of a definition of shape `d`.
    pub open spec fn describes(self, d: DefinitionShape) -> bool {
        match d {
            DefinitionShape::Query { name, variables, .. } => {
                &&& self matches DefinitionHead::Query { name: n, variables: v }
                &&& optional_text(n) == name
                &&& texts(v@) == variables
            },
            DefinitionShape::Other { .. } => self is Other,
        }
    }
}

impl SelectionHead {
    /// Whether this head is that of a selection of shape `n`.
    pub open spec fn describes(self, n: Node) -> bool {
        match n {
            Node::Field { name, .. } => self matches SelectionHead::Field(s) && s@ == name,
            Node::InlineFragment { .. } => self is InlineFragment,
            Node::FragmentSpread { .. } => self is FragmentSpread,
        }
    }
}

#[verifier::external_type_specification]
#[verifier::external_body]
pub struct ExParseError(ParseError);

/// A parsed GraphQL document, kept in `graphql_parser`'s own
/// `Document<'static, String>`.
#[verifier::external_body]
pub struct QueryDocument {
    inner: Document<'static, String>,
}

/// The items of one selection set, kept in `graphql_parser`'s own
/// `Vec<Selection<'static, String>>`.
#[verifier::external_body]
pub struct Selections {
    items: Vec<Selection<'static, String>>,
}

/// What `graphql_parser::parse_query` makes of a text: the shapes of the
/// document's definitions, or the message of its error where it rejects the
/// text.
pub uninterp spec fn parsed_query(text: Seq<char>) -> Result<Seq<DefinitionShape>, Seq<char>>;

/// The shapes of the definitions that a document holds, in order, each with
/// its details.
pub uninterp spec fn document_shape(doc: QueryDocument) -> Seq<DefinitionShape>;

/// The shapes of the selections that a selection set holds, in order, each
/// with its details.
pub uninterp spec fn selection_nodes(set: Selections) -> Seq<Node>;

/// The text that `graphql_parser` writes for a document of this shape (its
/// `Display`): it reads nothing of a document but what the shape holds.
pub uninterp spec fn rendered(shape: Seq<DefinitionShape>) -> Seq<char>;

/// Calls `graphql_parser::parse_query` with owned strings, then
/// `Document::into_static`. The outcome is a function of the text: a document
/// whose shape is that of `parsed_query`, or an error whose `to_string` is
/// the message of `parsed_query`. The grammar asks for a definition in every
/// document and for an item in every selection set, so an empty text is
/// rejected and no selection set of a query that comes out is empty. Texts
/// with a block string that the parser cannot unquote are left out: on them
/// it does not return.
#[verifier::external_body]
pub(crate) fn parse_document(text: &str) -> (r: Result<QueryDocument, ParseError>)
    requires
        parses_safely(text@),
    ensures
        match r {
            Ok(doc) => {
                &&& parsed_query(text@) == Ok::<Seq<DefinitionShape>, Seq<char>>(
                    document_shape(doc),
                )
                &&& written(document_shape(doc))
                &&& text@.len() > 0
            },
            Err(e) => parsed_query(text@) matches Err(message) && forall|s: String|
                #[trigger] vstd::string::to_string_from_display_ensures::<ParseError>(&e, s) ==> s@
                    == message,
        },
{
    match graphql_parser::parse_query::<String>(text) {
        Ok(doc) => Ok(QueryDocument { inner: doc.into_static() }),
        Err(e) => Err(e),
    }
}

/// Writes the document with `graphql_parser`'s `Display`. The text is a
/// function of the document's shape.
#[verifier::external_body]
pub(crate) fn render_document(doc: &QueryDocument) -> (text: String)
    ensures
        text@ == rendered(document_shape(*doc)),
{
    format!("{}", doc.inner)
}

/// Reads `definitions.len()` of a document.
#[verifier::external_body]
pub(crate) fn definition_count(doc: &QueryDocument) -> (n: usize)
    ensures
        n == document_shape(*doc).len(),
{
    doc.inner.definitions.len()
}

/// Tells a `query` operation from every other definition, and copies a
/// query's name and the names of its variable definitions, in order.
#[verifier::external_body]
pub(crate) fn definition_head(doc: &QueryDocument, i: usize) -> (head: DefinitionHead)
    requires
        i < document_shape(*doc).len(),
    ensures
        head.describes(document_shape(*doc)[i as int]),
{
    match &doc.inner.definitions[i] {
        Definition::Operation(OperationDefinition::Query(q)) => DefinitionHead::Query {
            name: q.name.clone(),
            variables: q.variable_definitions.iter().map(|v| v.name.clone()).collect(),
        },
        _ => DefinitionHead::Other,
    }
}

/// Moves the items of a query's top-level selection set out of definition
/// `i`, leaving it with none; any other definition gives none and stays.
#[verifier::external_body]
pub(crate) fn take_selections(doc: &mut QueryDocument, i: usize) -> (set: Selections)
    requires
        i < document_shape(*old(doc)).len(),
    ensures
        selection_nodes(set) == selections_of(document_shape(*old(doc))[i as int]),
        document_shape(*final(doc)) == document_shape(*old(doc)).update(
            i as int,
            with_selections(document_shape(*old(doc))[i as int], Seq::empty()),
        ),
{
    match &mut doc.inner.definitions[i] {
        Definition::Operation(OperationDefinition::Query(q)) => Selections {
            items: std::mem::take(&mut q.selection_set.items),
        },
        _ => Selections { items: Vec::new() },
    }
}

/// Makes `set` the items of the top-level selection set of definition `i`
/// where that is a query; any other definition stays as it is.
#[verifier::external_body]
pub(crate) fn put_selections(doc: &mut QueryDocument, i: usize, set: Selections)
    requires
        i < document_shape(*old(doc)).len(),
    ensures
        document_shape(*final(doc)) == document_shape(*old(doc)).update(
            i as int,
            with_selections(document_shape(*old(doc))[i as int], selection_nodes(set)),
        ),
{
    match &mut doc.inner.definitions[i] {
        Definition::Operation(OperationDefinition::Query(q)) => q.selection_set.items = set.items,
        _ => {},
    }
}

/// Reads `items.len()` of a selection set.
#[verifier::external_body]
pub(crate) fn selection_count(set: &Selections) -> (n: usize)
    ensures
        n == selection_nodes(*set).len(),
{
    set.items.len()
}

/// Tells the three kinds of selection apart and copies a field's name.
#[verifier::external_body]
pub(crate) fn selection_head(set: &Selections, i: usize) -> (head: SelectionHead)
    requires
        i < selection_nodes(*set).len(),
    ensures
        head.describes(selection_nodes(*set)[i as int]),
{
    match &set.items[i] {
        Selection::Field(f) => SelectionHead::Field(f.name.clone()),
        Selection::InlineFragment(_) => SelectionHead::InlineFragment,
        Selection::FragmentSpread(_) => SelectionHead::FragmentSpread,
    }
}

/// Moves the items of item `i`'s own selection set out of it, leaving it
/// with none; a fragment spread gives none and stays.
#[verifier::external_body]
pub(crate) fn take_children(set: &mut Selections, i: usize) -> (children: Selections)
    requires
        i < selection_nodes(*old(set)).len(),
    ensures
        selection_nodes(children) == children_of(selection_nodes(*old(set))[i as int]),
        selection_nodes(*final(set)) == selection_nodes(*old(set)).update(
            i as int,
            with_children(selection_nodes(*old(set))[i as int], Seq::empty()),
        ),
{
    match &mut set.items[i] {
        Selection::Field(f) => Selections { items: std::mem::take(&mut f.selection_set.items) },
        Selection::InlineFragment(f) => Selections {
            items: std::mem::take(&mut f.selection_set.items),
        },
        Selection::FragmentSpread(_) => Selections { items: Vec::new() },
    }
}

/// Makes `children` the items of item `i`'s own selection set; a fragment
/// spread stays as it is.
#[verifier::external_body]
pub(crate) fn put_children(set: &mut Selections, i: usize, children: Selections)
    requires
        i < selection_nodes(*old(set)).len(),
    ensures
        selection_nodes(*final(set)) == selection_nodes(*old(set)).update(
            i as int,
            with_children(selection_nodes(*old(set))[i as int], selection_nodes(children)),
        ),
{
    match &mut set.items[i] {
        Selection::Field(f) => f.selection_set.items = children.items,
        Selection::InlineFragment(f) => f.selection_set.items = children.items,
        Selection::FragmentSpread(_) => {},
    }
}

/// Calls `Vec::remove` on the items of a selection set: item `i` leaves, the
/// others keep their order.
#[verifier::external_body]
pub(crate) fn remove_selection(set: &mut Selections, i: usize)
    requires
        i < selection_nodes(*old(set)).len(),
    ensures
        selection_nodes(*final(set)) == selection_nodes(*old(set)).remove(i as int),
{
    set.items.remove(i);
}

} // verus!
