//! The query optimiser: leaf fields whose result column a scan does not read
//! are taken out of the query before it is sent, and no selection set is
//! ever emptied.
use vstd::prelude::*;
use crate::error::{QueryError, QueryFault};
use crate::plan::{lemma_result_columns_bits, result_columns};
use crate::query::{
    analysis, entry, has_spread, leaf_paths, lemma_spread_in_prefix, lemma_walk_step,
    node_has_spread, node_paths, operation, parse_query_variable, parsed_text, QueryDetailsView,
};
use crate::syntax::{
    children_of, document_shape, node_populated, populated, put_children, put_selections,
    remove_selection, render_document, rendered, selection_count, selection_head,
    selection_nodes, selections_of, take_children, take_selections, with_children,
    with_selections, written, DefinitionShape, Node, QueryDocument, SelectionHead, Selections,
};

verus! {

/// Whether the usage set asks for the leaf with this index. The set has 64
/// bits; a leaf beyond them has no bit that could be unset and counts as
/// asked for.
pub open spec fn column_used(used: u64, index: nat) -> bool {
    index >= 64 || (used >> (index as u64)) & 1 == 1
}

/// Whether a selection is a leaf: a field without selections of its own.
pub open spec fn is_leaf(n: Node) -> bool {
    n matches Node::Field { children, .. } && children.len() == 0
}

/// The number of leaves that one selection holds.
pub open spec fn node_leaf_count(n: Node) -> nat
    decreases n,
{
    match n {
        Node::Field { children, .. } => if children.len() == 0 {
            1
        } else {
            leaf_count(children)
        },
        Node::InlineFragment { children, .. } => leaf_count(children),
        Node::FragmentSpread { .. } => 0,
    }
}

/// The number of leaves that a selection set holds.
pub open spec fn leaf_count(items: Seq<Node>) -> nat
    decreases items,
{
    if items.len() == 0 {
        0
    } else {
        leaf_count(items.drop_last()) + node_leaf_count(items.last())
    }
}

/// A selection with the selection sets below it pruned; `first` is the index
/// of its first leaf.
pub open spec fn pruned_node(n: Node, used: u64, first: nat) -> Node
    decreases n, 0nat,
{
    match n {
        Node::Field { name, detail, children } => Node::Field {
            name,
            detail,
            children: pruned(children, used, first),
        },
        Node::InlineFragment { detail, children } => Node::InlineFragment {
            detail,
            children: pruned(children, used, first),
        },
        Node::FragmentSpread { .. } => n,
    }
}

/// Every item of a selection set with the selection sets below it pruned;
/// `first` is the index of the set's first leaf.
pub open spec fn pruned_below(items: Seq<Node>, used: u64, first: nat) -> Seq<Node>
    decreases items, 0nat,
{
    if items.len() == 0 {
        Seq::empty()
    } else {
        pruned_below(items.drop_last(), used, first).push(
            pruned_node(items.last(), used, first + leaf_count(items.drop_last())),
        )
    }
}

/// Whether item `i` of a selection set is a leaf that the usage set does not
/// ask for.
pub open spec fn unused_leaf_at(items: Seq<Node>, used: u64, first: nat, i: int) -> bool {
    is_leaf(items[i]) && !column_used(used, first + leaf_count(items.take(i)))
}

/// Whether item `i` of a selection set stays: everything but an unused leaf
/// stays, and where every item is an unused leaf the first one stays.
pub open spec fn kept_at(items: Seq<Node>, used: u64, first: nat, i: int) -> bool {
    !unused_leaf_at(items, used, first, i) || (i == 0 && forall|j: int|
        0 <= j < items.len() ==> unused_leaf_at(items, used, first, j))
}

/// The items of `items` whose flag in `keep` is set, in their order.
pub open spec fn selected(items: Seq<Node>, keep: Seq<bool>) -> Seq<Node>
    decreases items.len(),
{
    if items.len() == 0 {
        Seq::empty()
    } else {
        (if keep[0] {
            seq![items[0]]
        } else {
            Seq::empty()
        }) + selected(items.drop_first(), keep.drop_first())
    }
}

/// A selection set pruned to the leaves that the usage set asks for: the
/// sets below are pruned first, then the items that stay are kept in order.
pub open spec fn pruned(items: Seq<Node>, used: u64, first: nat) -> Seq<Node>
    decreases items, 1nat,
{
    selected(
        pruned_below(items, used, first),
        Seq::new(items.len(), |i: int| kept_at(items, used, first, i)),
    )
}

/// The leaf index after `count` more leaves, held in a `u64` that stops at
/// its largest value.
pub open spec fn advanced(index: nat, count: nat) -> nat {
    if index + count >= u64::MAX {
        u64::MAX as nat
    } else {
        index + count
    }
}

/// One more item of a selection set adds its own leaves to the count and its
/// own pruned form at the end of the set pruned below.
pub proof fn lemma_below_step(items: Seq<Node>, used: u64, first: nat, i: int)
    requires
        0 <= i < items.len(),
    ensures
        leaf_count(items.take(i + 1)) == leaf_count(items.take(i)) + node_leaf_count(items[i]),
        pruned_below(items.take(i + 1), used, first) == pruned_below(
            items.take(i),
            used,
            first,
        ).push(pruned_node(items[i], used, first + leaf_count(items.take(i)))),
{
    assert(items.take(i + 1).drop_last() =~= items.take(i));
    assert(items.take(i + 1).last() == items[i]);
}

/// Pruning below keeps every item in its place.
pub proof fn lemma_below_len(items: Seq<Node>, used: u64, first: nat)
    ensures
        pruned_below(items, used, first).len() == items.len(),
    decreases items.len(),
{
    if items.len() > 0 {
        lemma_below_len(items.drop_last(), used, first);
    }
}

/// Beyond the 64 bits of the usage set the index of the first leaf does not
/// matter: nothing is pruned there.
pub proof fn lemma_beyond_bits(items: Seq<Node>, used: u64, a: nat, b: nat)
    requires
        a >= 64,
        b >= 64,
    ensures
        pruned(items, used, a) == pruned(items, used, b),
        pruned_below(items, used, a) == pruned_below(items, used, b),
    decreases items, 1nat,
{
    lemma_below_beyond_bits(items, used, a, b);
    assert(Seq::new(items.len(), |i: int| kept_at(items, used, a, i)) =~= Seq::new(
        items.len(),
        |i: int| kept_at(items, used, b, i),
    ));
}

proof fn lemma_below_beyond_bits(items: Seq<Node>, used: u64, a: nat, b: nat)
    requires
        a >= 64,
        b >= 64,
    ensures
        pruned_below(items, used, a) == pruned_below(items, used, b),
    decreases items, 0nat,
{
    if items.len() > 0 {
        lemma_below_beyond_bits(items.drop_last(), used, a, b);
        let rest = leaf_count(items.drop_last());
        match items.last() {
            Node::Field { children, .. } => {
                lemma_beyond_bits(children, used, a + rest, b + rest);
            },
            Node::InlineFragment { children, .. } => {
                lemma_beyond_bits(children, used, a + rest, b + rest);
            },
            Node::FragmentSpread { .. } => {},
        }
        assert(pruned_node(items.last(), used, a + rest) == pruned_node(
            items.last(),
            used,
            b + rest,
        ));
    }
}

/// Prunes a selection set in place: walks it depth first and left to right,
/// counting leaves from `*result_vars_idx`, prunes the sets below, then takes
/// out the leaves whose bit in `used_col` is unset, from right to left, but
/// never the last item that is left. A fragment spread at any depth is an
/// error, and leaves the set partly pruned.
pub fn optimize_fields(
    selection_set: &mut Selections,
    used_col: u64,
    result_vars_idx: &mut u64,
) -> (r: Result<(), QueryError>)
    ensures
        match r {
            Ok(()) => {
                &&& !has_spread(selection_nodes(*old(selection_set)))
                &&& selection_nodes(*final(selection_set)) == pruned(
                    selection_nodes(*old(selection_set)),
                    used_col,
                    *old(result_vars_idx) as nat,
                )
                &&& *final(result_vars_idx) == advanced(
                    *old(result_vars_idx) as nat,
                    leaf_count(selection_nodes(*old(selection_set))),
                )
            },
            Err(e) => has_spread(selection_nodes(*old(selection_set))) && e@
                == QueryFault::FragmentSpread,
        },
    decreases selection_nodes(*old(selection_set)),
{
    let ghost nodes = selection_nodes(*selection_set);
    let ghost first = *result_vars_idx as nat;
    let n = selection_count(selection_set);
    let mut unused: Vec<bool> = Vec::new();
    let mut all_unused = true;
    let mut i: usize = 0;
    while i < n
        invariant
            i <= n,
            n == nodes.len(),
            nodes == selection_nodes(*old(selection_set)),
            first == *old(result_vars_idx),
            selection_nodes(*selection_set) =~= pruned_below(nodes.take(i as int), used_col, first)
                + nodes.skip(i as int),
            pruned_below(nodes.take(i as int), used_col, first).len() == i,
            unused.len() == i,
            forall|j: int| 0 <= j < i ==> unused@[j] == unused_leaf_at(nodes, used_col, first, j),
            all_unused == (forall|j: int| 0 <= j < i ==> unused_leaf_at(nodes, used_col, first, j)),
            *result_vars_idx == advanced(first, leaf_count(nodes.take(i as int))),
            !has_spread(nodes.take(i as int)),
        decreases n - i,
    {
        let ghost node = nodes[i as int];
        let ghost at = first + leaf_count(nodes.take(i as int));
        proof {
            lemma_walk_step(nodes, Seq::empty(), i as int);
            lemma_below_step(nodes, used_col, first, i as int);
            lemma_below_len(nodes.take(i as int + 1), used_col, first);
            if node_has_spread(node) {
                lemma_spread_in_prefix(nodes, i as int + 1);
            }
            assert(selection_nodes(*selection_set)[i as int] == node);
            assert(nodes.skip(i as int).drop_first() =~= nodes.skip(i as int + 1));
        }
        let field = match selection_head(selection_set, i) {
            SelectionHead::Field(_) => true,
            SelectionHead::InlineFragment => false,
            SelectionHead::FragmentSpread => {
                return Err(QueryError::FragmentSpread);
            },
        };
        let ghost before = selection_nodes(*selection_set);
        let mut children = take_children(selection_set, i);
        if field && selection_count(&children) == 0 {
            let index = *result_vars_idx;
            let leaf_unused = index < 64 && (used_col >> index) & 1 == 0;
            proof {
                assert(children_of(node) =~= Seq::empty());
                assert(is_leaf(node));
                assert(pruned_below(Seq::<Node>::empty(), used_col, at) =~= Seq::empty());
                assert(pruned(children_of(node), used_col, at) =~= Seq::empty());
                assert(pruned_node(node, used_col, at) == node);
                assert(selection_nodes(*selection_set) =~= before);
                if index < 64 {
                    assert(index == at);
                    let shifted = used_col >> index;
                    assert(shifted & 1 == 0 || shifted & 1 == 1) by (bit_vector);
                }
                assert(leaf_unused == unused_leaf_at(nodes, used_col, first, i as int));
            }
            unused.push(leaf_unused);
            all_unused = all_unused && leaf_unused;
            if index < u64::MAX {
                *result_vars_idx = index + 1;
            }
        } else {
            let ghost handed = *result_vars_idx as nat;
            let r = optimize_fields(&mut children, used_col, result_vars_idx);
            put_children(selection_set, i, children);
            match r {
                Ok(()) => {},
                Err(e) => {
                    return Err(e);
                },
            }
            proof {
                if handed != at {
                    lemma_beyond_bits(children_of(node), used_col, handed, at);
                }
                assert(!is_leaf(node));
                assert(selection_nodes(*selection_set) =~= before.update(
                    i as int,
                    pruned_node(node, used_col, at),
                ));
            }
            unused.push(false);
            all_unused = false;
        }
        proof {
            assert(selection_nodes(*selection_set) =~= pruned_below(
                nodes.take(i as int + 1),
                used_col,
                first,
            ) + nodes.skip(i as int + 1));
            assert(unused@[i as int] == unused_leaf_at(nodes, used_col, first, i as int));
            if all_unused {
                assert forall|j: int| 0 <= j < i + 1 implies unused_leaf_at(
                    nodes,
                    used_col,
                    first,
                    j,
                ) by {
                    if j < i {
                    }
                }
            } else {
                if forall|j: int| 0 <= j < i + 1 ==> unused_leaf_at(nodes, used_col, first, j) {
                    assert(unused_leaf_at(nodes, used_col, first, i as int));
                    assert(forall|j: int| 0 <= j < i ==> unused_leaf_at(nodes, used_col, first, j));
                }
            }
        }
        i = i + 1;
    }
    let ghost below = pruned_below(nodes, used_col, first);
    let ghost keep = Seq::new(nodes.len(), |j: int| kept_at(nodes, used_col, first, j));
    proof {
        assert(nodes.take(n as int) =~= nodes);
        assert(selection_nodes(*selection_set) =~= below);
        assert(below.skip(n as int) =~= Seq::empty());
    }
    let mut k: usize = n;
    while k > 0
        invariant
            k <= n,
            n == nodes.len(),
            below.len() == n,
            keep.len() == n,
            unused.len() == n,
            forall|j: int| 0 <= j < n ==> unused@[j] == unused_leaf_at(nodes, used_col, first, j),
            all_unused == (forall|j: int| 0 <= j < n ==> unused_leaf_at(nodes, used_col, first, j)),
            forall|j: int| 0 <= j < n ==> keep[j] == kept_at(nodes, used_col, first, j),
            selection_nodes(*selection_set) =~= below.take(k as int) + selected(
                below.skip(k as int),
                keep.skip(k as int),
            ),
        decreases k,
    {
        k = k - 1;
        proof {
            assert(below.skip(k as int).drop_first() =~= below.skip(k as int + 1));
            assert(keep.skip(k as int).drop_first() =~= keep.skip(k as int + 1));
            assert(below.take(k as int + 1) =~= below.take(k as int).push(below[k as int]));
        }
        if unused[k] && !(all_unused && k == 0) {
            remove_selection(selection_set, k);
        }
    }
    proof {
        assert(below.skip(0) =~= below);
        assert(keep.skip(0) =~= keep);
    }
    Ok(())
}

/// Item `i` of a set pruned below is item `i` of the set, pruned, with the
/// leaves before it counted.
pub proof fn lemma_below_index(items: Seq<Node>, used: u64, first: nat, i: int)
    requires
        0 <= i < items.len(),
    ensures
        pruned_below(items, used, first).len() == items.len(),
        pruned_below(items, used, first)[i] == pruned_node(
            items[i],
            used,
            first + leaf_count(items.take(i)),
        ),
    decreases items.len(),
{
    lemma_below_len(items, used, first);
    lemma_below_len(items.drop_last(), used, first);
    if i < items.len() - 1 {
        lemma_below_index(items.drop_last(), used, first, i);
        assert(items.drop_last().take(i) =~= items.take(i));
    } else {
        assert(items.take(i) =~= items.drop_last());
    }
}

/// Every selected item is an item whose flag is set.
pub proof fn lemma_selected_from(items: Seq<Node>, keep: Seq<bool>, k: int) -> (j: int)
    requires
        keep.len() == items.len(),
        0 <= k < selected(items, keep).len(),
    ensures
        0 <= j < items.len(),
        keep[j],
        items[j] == selected(items, keep)[k],
    decreases items.len(),
{
    if keep[0] && k == 0 {
        0
    } else {
        let shift: int = if keep[0] { 1 } else { 0 };
        let j = lemma_selected_from(items.drop_first(), keep.drop_first(), k - shift);
        j + 1
    }
}

/// An item whose flag is set is among the selected ones.
pub proof fn lemma_selected_holds(items: Seq<Node>, keep: Seq<bool>, j: int) -> (k: int)
    requires
        keep.len() == items.len(),
        0 <= j < items.len(),
        keep[j],
    ensures
        0 <= k < selected(items, keep).len(),
        selected(items, keep)[k] == items[j],
    decreases items.len(),
{
    if j == 0 {
        0
    } else {
        let k = lemma_selected_holds(items.drop_first(), keep.drop_first(), j - 1);
        if keep[0] {
            k + 1
        } else {
            k
        }
    }
}

/// Where every flag is set, every item is selected.
pub proof fn lemma_selected_all(items: Seq<Node>, keep: Seq<bool>)
    requires
        keep.len() == items.len(),
        forall|j: int| 0 <= j < keep.len() ==> keep[j],
    ensures
        selected(items, keep) == items,
    decreases items.len(),
{
    if items.len() > 0 {
        lemma_selected_all(items.drop_first(), keep.drop_first());
        assert(seq![items[0]] + items.drop_first() =~= items);
    } else {
        assert(items =~= Seq::empty());
    }
}

/// Whether the usage set asks for every one of `count` leaves counted from
/// `first`.
pub open spec fn reads_all(used: u64, first: nat, count: nat) -> bool {
    forall|i: nat| first <= i < first + count ==> #[trigger] column_used(used, i)
}

/// The leaves of a leading part of a selection set are among its leaves.
pub proof fn lemma_leaf_count_prefix(items: Seq<Node>, j: int)
    requires
        0 <= j <= items.len(),
    ensures
        leaf_count(items.take(j)) <= leaf_count(items),
    decreases items.len() - j,
{
    if j < items.len() {
        lemma_below_step(items, 0, 0, j);
        lemma_leaf_count_prefix(items, j + 1);
    } else {
        assert(items.take(j) =~= items);
    }
}

/// Where the usage set asks for every leaf of a selection set the pruning
/// changes nothing: the pruned set is the set itself, and so it asks for the
/// same leaves. The set with all bits set is one such usage set; so is the
/// set that has a bit for each result column and no other.
pub proof fn lemma_reading_all_prunes_nothing(items: Seq<Node>, used: u64, first: nat)
    requires
        reads_all(used, first, leaf_count(items)),
    ensures
        pruned(items, used, first) == items,
        forall|base: Seq<Seq<char>>|
            leaf_paths(pruned(items, used, first), base) == leaf_paths(items, base),
    decreases items, 2nat,
{
    lemma_reading_all_below(items, used, first);
    let keep = Seq::new(items.len(), |i: int| kept_at(items, used, first, i));
    assert forall|j: int| 0 <= j < keep.len() implies keep[j] by {
        if is_leaf(items[j]) {
            lemma_below_step(items, used, first, j);
            lemma_leaf_count_prefix(items, j + 1);
            assert(column_used(used, first + leaf_count(items.take(j))));
        }
    }
    lemma_selected_all(items, keep);
}

proof fn lemma_reading_all_below(items: Seq<Node>, used: u64, first: nat)
    requires
        reads_all(used, first, leaf_count(items)),
    ensures
        pruned_below(items, used, first) == items,
    decreases items, 1nat,
{
    if items.len() > 0 {
        let before = leaf_count(items.drop_last());
        let at = first + before;
        assert(reads_all(used, first, before));
        lemma_reading_all_below(items.drop_last(), used, first);
        let children = children_of(items.last());
        if children.len() > 0 {
            assert(leaf_count(children) == node_leaf_count(items.last()));
            assert(reads_all(used, at as nat, leaf_count(children)));
            lemma_reading_all_prunes_nothing(children, used, at as nat);
        } else {
            assert(pruned_below(children, used, at) =~= Seq::empty());
            assert(pruned(children, used, at) =~= Seq::empty());
            assert(children =~= Seq::empty());
        }
        assert(pruned_node(items.last(), used, at) == items.last());
        assert(items.drop_last().push(items.last()) =~= items);
    } else {
        assert(items =~= Seq::empty());
    }
}

/// With every bit of the usage set set the pruning changes nothing.
pub proof fn lemma_full_usage_prunes_nothing(items: Seq<Node>, first: nat)
    ensures
        pruned(items, u64::MAX, first) == items,
{
    assert forall|i: nat| first <= i < first + leaf_count(items) implies #[trigger] column_used(
        u64::MAX,
        i,
    ) by {
        lemma_every_bit_set(i);
    }
    lemma_reading_all_prunes_nothing(items, u64::MAX, first);
}

proof fn lemma_every_bit_set(index: nat)
    ensures
        column_used(u64::MAX, index),
{
    if index < 64 {
        let i = index as u64;
        assert((0xffff_ffff_ffff_ffffu64 >> i) & 1 == 1) by (bit_vector)
            requires
                i < 64,
        ;
    }
}

/// Pruning never empties a selection set, whatever the usage set: where
/// every selection set of the input holds an item, so does every selection
/// set of the pruned output, and an item with selections of its own keeps
/// some of them.
pub proof fn lemma_pruning_empties_no_set(items: Seq<Node>, used: u64, first: nat)
    requires
        populated(items),
    ensures
        populated(pruned(items, used, first)),
        forall|i: int|
            0 <= i < items.len() ==> is_leaf(#[trigger] pruned_below(items, used, first)[i])
                == is_leaf(items[i]),
    decreases items, 1nat,
{
    let below = pruned_below(items, used, first);
    let keep = Seq::new(items.len(), |i: int| kept_at(items, used, first, i));
    let out = pruned(items, used, first);
    lemma_below_len(items, used, first);
    assert forall|i: int| 0 <= i < items.len() implies node_populated(#[trigger] below[i])
        && is_leaf(below[i]) == is_leaf(items[i]) by {
        lemma_below_index(items, used, first, i);
        lemma_node_stays_populated(items[i], used, first + leaf_count(items.take(i)));
    }
    lemma_some_item_stays(items, used, first);
    assert forall|k: int| 0 <= k < out.len() implies node_populated(#[trigger] out[k]) by {
        let j = lemma_selected_from(below, keep, k);
        assert(node_populated(below[j]));
    }
}

proof fn lemma_node_stays_populated(n: Node, used: u64, first: nat)
    requires
        node_populated(n),
    ensures
        node_populated(pruned_node(n, used, first)),
        is_leaf(pruned_node(n, used, first)) == is_leaf(n),
    decreases n, 0nat,
{
    match n {
        Node::Field { children, .. } => {
            if children.len() == 0 {
                assert(pruned_below(children, used, first) =~= Seq::empty());
                assert(pruned(children, used, first) =~= Seq::empty());
            } else {
                lemma_pruning_empties_no_set(children, used, first);
            }
        },
        Node::InlineFragment { children, .. } => {
            lemma_pruning_empties_no_set(children, used, first);
        },
        Node::FragmentSpread { .. } => {},
    }
}

/// The leaves that the pruning counts are the leaf paths that the analysis
/// lists, one for one: bit `i` of a usage set speaks of result path `i`.
pub proof fn lemma_leaves_are_result_paths(items: Seq<Node>, base: Seq<Seq<char>>)
    ensures
        leaf_count(items) == leaf_paths(items, base).len(),
    decreases items, 1nat,
{
    if items.len() > 0 {
        lemma_leaves_are_result_paths(items.drop_last(), base);
        match items.last() {
            Node::Field { name, children, .. } => {
                if children.len() > 0 {
                    lemma_leaves_are_result_paths(children, base.push(name));
                }
            },
            Node::InlineFragment { children, .. } => {
                lemma_leaves_are_result_paths(children, base);
            },
            Node::FragmentSpread { .. } => {},
        }
        assert(node_leaf_count(items.last()) == node_paths(items.last(), base).len());
        assert(leaf_paths(items, base) == leaf_paths(items.drop_last(), base) + node_paths(
            items.last(),
            base,
        ));
    }
}

/// A leaf path of a selection set is a leaf path of one of its items.
pub proof fn lemma_path_comes_from_item(items: Seq<Node>, base: Seq<Seq<char>>, k: int) -> (at: (
    int,
    int,
))
    requires
        0 <= k < leaf_paths(items, base).len(),
    ensures
        0 <= at.0 < items.len(),
        0 <= at.1 < node_paths(items[at.0], base).len(),
        k == leaf_paths(items.take(at.0), base).len() + at.1,
        leaf_paths(items, base)[k] == node_paths(items[at.0], base)[at.1],
    decreases items.len(),
{
    let before = leaf_paths(items.drop_last(), base);
    assert(leaf_paths(items, base) == before + node_paths(items.last(), base));
    if k < before.len() {
        let at = lemma_path_comes_from_item(items.drop_last(), base, k);
        assert(items.drop_last().take(at.0) =~= items.take(at.0));
        at
    } else {
        assert(items.take(items.len() - 1) =~= items.drop_last());
        (items.len() - 1, k - before.len())
    }
}

/// A leaf path of an item is a leaf path of the selection set that holds it.
pub proof fn lemma_item_path_is_set_path(items: Seq<Node>, base: Seq<Seq<char>>, i: int, k: int)
    requires
        0 <= i < items.len(),
        0 <= k < node_paths(items[i], base).len(),
    ensures
        leaf_paths(items, base).contains(node_paths(items[i], base)[k]),
    decreases items.len(),
{
    let before = leaf_paths(items.drop_last(), base);
    let all = leaf_paths(items, base);
    assert(all == before + node_paths(items.last(), base));
    if i == items.len() - 1 {
        assert(all[before.len() + k] == node_paths(items[i], base)[k]);
    } else {
        lemma_item_path_is_set_path(items.drop_last(), base, i, k);
        let m = choose|m: int| 0 <= m < before.len() && before[m] == node_paths(items[i], base)[k];
        assert(all[m] == before[m]);
    }
}

/// Pruning leaves an item in every selection set that has one.
pub proof fn lemma_some_item_stays(items: Seq<Node>, used: u64, first: nat)
    requires
        items.len() > 0,
    ensures
        pruned(items, used, first).len() > 0,
{
    let below = pruned_below(items, used, first);
    let keep = Seq::new(items.len(), |i: int| kept_at(items, used, first, i));
    lemma_below_len(items, used, first);
    let witness: int = if kept_at(items, used, first, 0) {
        0
    } else {
        choose|j: int| 0 <= j < items.len() && !unused_leaf_at(items, used, first, j)
    };
    assert(keep[witness]);
    let k = lemma_selected_holds(below, keep, witness);
}

/// A leaf that the usage set asks for stays: result path `k` of a selection
/// set, whose leaves are counted from `first`, is a result path of the
/// pruned set wherever bit `first + k` is set.
pub proof fn lemma_used_leaf_stays(
    items: Seq<Node>,
    used: u64,
    first: nat,
    base: Seq<Seq<char>>,
    k: int,
)
    requires
        0 <= k < leaf_paths(items, base).len(),
        column_used(used, (first + k) as nat),
    ensures
        leaf_paths(pruned(items, used, first), base).contains(leaf_paths(items, base)[k]),
    decreases items,
{
    let (i, inner) = lemma_path_comes_from_item(items, base, k);
    let node = items[i];
    let at = first + leaf_count(items.take(i));
    lemma_leaves_are_result_paths(items.take(i), base);
    let below = pruned_below(items, used, first);
    let keep = Seq::new(items.len(), |j: int| kept_at(items, used, first, j));
    let out = pruned(items, used, first);
    lemma_below_index(items, used, first, i);
    assert(keep[i]);
    let j = lemma_selected_holds(below, keep, i);
    let kept_node = pruned_node(node, used, at);
    assert(out[j] == kept_node);
    let target = node_paths(node, base)[inner];
    match node {
        Node::Field { name, children, .. } => {
            if children.len() == 0 {
                assert(pruned_below(children, used, at) =~= Seq::empty());
                assert(pruned(children, used, at) =~= Seq::empty());
                assert(node_paths(kept_node, base)[0] == target);
                lemma_item_path_is_set_path(out, base, j, 0);
            } else {
                lemma_some_item_stays(children, used, at);
                lemma_used_leaf_stays(children, used, at, base.push(name), inner);
                let rest = leaf_paths(pruned(children, used, at), base.push(name));
                let m = choose|m: int| 0 <= m < rest.len() && rest[m] == target;
                assert(node_paths(kept_node, base)[m] == target);
                lemma_item_path_is_set_path(out, base, j, m);
            }
        },
        Node::InlineFragment { children, .. } => {
            lemma_used_leaf_stays(children, used, at, base, inner);
            let rest = leaf_paths(pruned(children, used, at), base);
            let m = choose|m: int| 0 <= m < rest.len() && rest[m] == target;
            assert(node_paths(kept_node, base)[m] == target);
            lemma_item_path_is_set_path(out, base, j, m);
        },
        Node::FragmentSpread { .. } => {},
    }
}

/// Pruning asks for nothing new: every result path of the pruned selection
/// set is a result path of the set itself.
pub proof fn lemma_pruning_adds_no_leaf(
    items: Seq<Node>,
    used: u64,
    first: nat,
    base: Seq<Seq<char>>,
    k: int,
)
    requires
        0 <= k < leaf_paths(pruned(items, used, first), base).len(),
    ensures
        leaf_paths(items, base).contains(leaf_paths(pruned(items, used, first), base)[k]),
    decreases items,
{
    let below = pruned_below(items, used, first);
    let keep = Seq::new(items.len(), |j: int| kept_at(items, used, first, j));
    let out = pruned(items, used, first);
    lemma_below_len(items, used, first);
    let (j, inner) = lemma_path_comes_from_item(out, base, k);
    let i = lemma_selected_from(below, keep, j);
    let node = items[i];
    let at = first + leaf_count(items.take(i));
    lemma_below_index(items, used, first, i);
    let kept_node = pruned_node(node, used, at);
    assert(out[j] == kept_node);
    let target = node_paths(kept_node, base)[inner];
    match node {
        Node::Field { name, children, .. } => {
            if children.len() == 0 {
                assert(pruned_below(children, used, at) =~= Seq::empty());
                assert(pruned(children, used, at) =~= Seq::empty());
                assert(node_paths(node, base)[0] == target);
                lemma_item_path_is_set_path(items, base, i, 0);
            } else {
                lemma_some_item_stays(children, used, at);
                lemma_pruning_adds_no_leaf(children, used, at, base.push(name), inner);
                let rest = leaf_paths(children, base.push(name));
                let m = choose|m: int| 0 <= m < rest.len() && rest[m] == target;
                assert(node_paths(node, base)[m] == target);
                lemma_item_path_is_set_path(items, base, i, m);
            }
        },
        Node::InlineFragment { children, .. } => {
            lemma_pruning_adds_no_leaf(children, used, at, base, inner);
            let rest = leaf_paths(children, base);
            let m = choose|m: int| 0 <= m < rest.len() && rest[m] == target;
            assert(node_paths(node, base)[m] == target);
            lemma_item_path_is_set_path(items, base, i, m);
        },
        Node::FragmentSpread { .. } => {},
    }
}

/// The definitions of a document with the selections below the entry field
/// of its one `query` operation pruned, or the fault that the analysis finds
/// in the same document.
pub open spec fn pruned_definitions(defs: Seq<DefinitionShape>, used: u64) -> Result<
    Seq<DefinitionShape>,
    QueryFault,
> {
    match operation(defs) {
        Err(fault) => Err(fault),
        Ok(op) => match entry(op.selections) {
            Err(fault) => Err(fault),
            Ok((name, fields)) => if has_spread(fields) {
                Err(QueryFault::FragmentSpread)
            } else {
                Ok(
                    defs.update(
                        op.index,
                        with_selections(
                            defs[op.index],
                            seq![with_children(op.selections[0], pruned(fields, used, 0))],
                        ),
                    ),
                )
            },
        },
    }
}

/// Prunes a parsed document in place to the result columns that `used_col`
/// asks for. On an error the document is left partly edited and is of no
/// further use.
pub fn optimize_document(document: &mut QueryDocument, used_col: u64) -> (r: Result<
    (),
    QueryError,
>)
    ensures
        match pruned_definitions(document_shape(*old(document)), used_col) {
            Ok(shape) => r is Ok && document_shape(*final(document)) == shape,
            Err(fault) => r matches Err(e) && e@ == fault,
        },
        r is Ok && written(document_shape(*old(document))) ==> written(
            document_shape(*final(document)),
        ),
{
    let ghost defs = document_shape(*document);
    let index = match parse_query_variable(document) {
        Ok((index, _, _)) => index,
        Err(e) => {
            return Err(e);
        },
    };
    let mut selections = take_selections(document, index);
    let ghost top = selection_nodes(selections);
    if selection_count(&selections) != 1 {
        return Err(QueryError::TopLevelCount);
    }
    match selection_head(&selections, 0) {
        SelectionHead::Field(_) => {},
        _ => {
            return Err(QueryError::FieldExpected);
        },
    }
    let mut fields = take_children(&mut selections, 0);
    let mut result_vars_idx: u64 = 0;
    match optimize_fields(&mut fields, used_col, &mut result_vars_idx) {
        Ok(()) => {},
        Err(e) => {
            return Err(e);
        },
    }
    put_children(&mut selections, 0, fields);
    proof {
        assert(selection_nodes(selections) =~= seq![
            with_children(top[0], pruned(children_of(top[0]), used_col, 0)),
        ]);
    }
    put_selections(document, index, selections);
    proof {
        assert(document_shape(*document) =~= pruned_definitions(defs, used_col)->Ok_0);
        if written(defs) {
            lemma_pruned_document_is_written(defs, used_col);
        }
    }
    Ok(())
}

/// What the optimiser makes of a query text and a usage set: the shape of
/// the pruned document, or the fault on which it fails.
pub open spec fn optimization(query: Seq<char>, used: u64) -> Result<
    Seq<DefinitionShape>,
    QueryFault,
> {
    match parsed_text(query) {
        Err(fault) => Err(fault),
        Ok(defs) => pruned_definitions(defs, used),
    }
}

/// Whether `r` is the outcome of optimising `query` for the usage set
/// `used`: the fault on which the optimiser fails, or the parser's rendering
/// of the pruned document.
pub open spec fn optimized(query: Seq<char>, used: u64, r: Result<Seq<char>, QueryFault>) -> bool {
    r == match optimization(query, used) {
        Err(fault) => Err::<Seq<char>, QueryFault>(fault),
        Ok(shape) => Ok(rendered(shape)),
    }
}

/// Rewrites a query text for one scan: the leaf fields whose bit in
/// `used_col` is unset are taken out, but never the last item of a selection
/// set. The text is parsed anew and fails on the faults on which the analysis
/// fails. The answer is the parser's rendering of the pruned document.
pub fn optimize_query(query: &str, used_col: u64) -> (r: Result<String, QueryError>)
    ensures
        optimized(
            query@,
            used_col,
            match r {
                Ok(text) => Ok(text@),
                Err(e) => Err(e@),
            },
        ),
        r is Ok ==> (optimization(query@, used_col) matches Ok(shape) && written(shape)),
{
    let mut document = match QueryDocument::parse(query) {
        Ok(document) => document,
        Err(e) => {
            return Err(e);
        },
    };
    match optimize_document(&mut document, used_col) {
        Ok(()) => {},
        Err(e) => {
            return Err(e);
        },
    }
    Ok(render_document(&document))
}

/// The optimiser fails on the documents on which the analysis fails, with
/// the same fault.
pub proof fn lemma_same_faults(defs: Seq<DefinitionShape>, used: u64)
    ensures
        pruned_definitions(defs, used) is Err <==> analysis(defs) is Err,
        pruned_definitions(defs, used) matches Err(fault) ==> analysis(defs) == Err::<
            QueryDetailsView,
            QueryFault,
        >(fault),
{
}

/// Where the usage set asks for every result column the optimiser leaves the
/// shape of the document as it was, and so its text.
pub proof fn lemma_reading_all_keeps_document(defs: Seq<DefinitionShape>, used: u64)
    requires
        analysis(defs) matches Ok(details) && reads_all(used, 0, details.results.len()),
    ensures
        pruned_definitions(defs, used) == Ok::<Seq<DefinitionShape>, QueryFault>(defs),
{
    let op = operation(defs)->Ok_0;
    let (name, fields) = entry(op.selections)->Ok_0;
    lemma_leaves_are_result_paths(fields, Seq::empty());
    lemma_reading_all_prunes_nothing(fields, used, 0);
    assert(seq![with_children(op.selections[0], fields)] =~= op.selections);
    assert(defs.update(op.index, defs[op.index]) =~= defs);
}

/// With every bit of the usage set set the optimiser leaves the shape of the
/// document as it was.
pub proof fn lemma_full_usage_keeps_document(defs: Seq<DefinitionShape>)
    requires
        analysis(defs) is Ok,
    ensures
        pruned_definitions(defs, u64::MAX) == Ok::<Seq<DefinitionShape>, QueryFault>(defs),
{
    let details = analysis(defs)->Ok_0;
    assert forall|i: nat| 0 <= i < 0 + details.results.len() implies #[trigger] column_used(
        u64::MAX,
        i,
    ) by {
        lemma_every_bit_set(i);
    }
    lemma_reading_all_keeps_document(defs, u64::MAX);
}

/// The plan of a scan that reads every column asks for every result column:
/// the optimiser leaves the document as it was for it.
pub proof fn lemma_plan_reading_all_keeps_document(defs: Seq<DefinitionShape>, col_used: u64)
    requires
        analysis(defs) matches Ok(details) && reads_all(col_used, 0, details.results.len()),
    ensures
        pruned_definitions(defs, result_columns(col_used, analysis(defs)->Ok_0.results.len()))
            == Ok::<Seq<DefinitionShape>, QueryFault>(defs),
{
    let count = analysis(defs)->Ok_0.results.len();
    let planned = result_columns(col_used, count);
    assert forall|i: nat| 0 <= i < 0 + count implies #[trigger] column_used(planned, i) by {
        assert(column_used(col_used, i));
        if i < 64 {
            lemma_result_columns_bits(col_used, count, i as u64);
        }
    }
    lemma_reading_all_keeps_document(defs, planned);
}

/// Pruning a document in which no selection set of a query is empty gives
/// such a document, whatever the usage set.
pub proof fn lemma_pruned_document_is_written(defs: Seq<DefinitionShape>, used: u64)
    requires
        written(defs),
        pruned_definitions(defs, used) is Ok,
    ensures
        written(pruned_definitions(defs, used)->Ok_0),
{
    let op = operation(defs)->Ok_0;
    let (name, fields) = entry(op.selections)->Ok_0;
    let out = pruned_definitions(defs, used)->Ok_0;
    let top = with_children(op.selections[0], pruned(fields, used, 0));
    assert(populated(selections_of(defs[op.index])));
    assert(node_populated(op.selections[0]));
    if fields.len() > 0 {
        lemma_pruning_empties_no_set(fields, used, 0);
    } else {
        assert(pruned_below(fields, used, 0) =~= Seq::empty());
        assert(pruned(fields, used, 0) =~= Seq::empty());
    }
    assert(node_populated(top));
    assert(populated(seq![top]));
    assert forall|i: int| 0 <= i < out.len() && #[trigger] out[i] is Query implies populated(
        selections_of(out[i]),
    ) by {
        if i != op.index {
            assert(out[i] == defs[i]);
        }
    }
}

/// Optimising one text for one usage set twice gives the same outcome: the
/// same text, or the same fault.
pub proof fn lemma_optimizing_is_stable(
    query: Seq<char>,
    used: u64,
    first: Result<Seq<char>, QueryFault>,
    second: Result<Seq<char>, QueryFault>,
)
    requires
        optimized(query, used, first),
        optimized(query, used, second),
    ensures
        first == second,
{
}

} // verus!
