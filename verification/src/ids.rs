//! The ids of the nodes of a tree, and what follows where no two nodes share
//! one: that a walk lists every window once, and that outputs which lie side
//! by side have no window in common.

use crate::sway::{
    first_with_id, focused_workspace, handed_height, handed_layout, has_id, is_window,
    leaf_windows, lies_below, node_at, outputs_below, outputs_of_each, shown_as, stacks,
    windows_as, windows_of_each,
};
use crate::tree::{LayoutMode, NodeKind, NodeView};
use vstd::prelude::*;

verus! {

/// The ids of all nodes of a tree.
pub open spec fn ids_below(node: NodeView) -> Set<i64>
    decreases node,
{
    set![node.id] + ids_of_each(node.children) + ids_of_each(node.floating_children)
}

/// The ids of all nodes of a sequence of trees.
pub open spec fn ids_of_each(nodes: Seq<NodeView>) -> Set<i64>
    decreases nodes,
{
    if nodes.len() == 0 {
        Set::empty()
    } else {
        ids_of_each(nodes.drop_last()) + ids_below(nodes.last())
    }
}

/// Whether no two nodes of a tree share an id.
pub open spec fn distinct_ids(node: NodeView) -> bool
    decreases node,
{
    &&& !ids_of_each(node.children).contains(node.id)
    &&& !ids_of_each(node.floating_children).contains(node.id)
    &&& ids_of_each(node.children).disjoint(ids_of_each(node.floating_children))
    &&& distinct_ids_each(node.children)
    &&& distinct_ids_each(node.floating_children)
}

/// Whether no two nodes of a sequence of trees share an id.
pub open spec fn distinct_ids_each(nodes: Seq<NodeView>) -> bool
    decreases nodes,
{
    if nodes.len() == 0 {
        true
    } else {
        &&& distinct_ids_each(nodes.drop_last())
        &&& distinct_ids(nodes.last())
        &&& ids_of_each(nodes.drop_last()).disjoint(ids_below(nodes.last()))
    }
}

/// The ids of the windows of a tree.
pub open spec fn window_ids(node: NodeView) -> Set<i64>
    decreases node,
{
    (if is_window(node) {
        set![node.id]
    } else {
        Set::empty()
    }) + window_ids_of_each(node.children) + window_ids_of_each(node.floating_children)
}

/// The ids of the windows of a sequence of trees.
pub open spec fn window_ids_of_each(nodes: Seq<NodeView>) -> Set<i64>
    decreases nodes,
{
    if nodes.len() == 0 {
        Set::empty()
    } else {
        window_ids_of_each(nodes.drop_last()) + window_ids(nodes.last())
    }
}

/// The ids of a sequence of nodes, as a set.
pub open spec fn listed_ids(nodes: Seq<NodeView>) -> Set<i64> {
    Set::new(|id: i64| exists|i: int| 0 <= i < nodes.len() && (#[trigger] nodes[i]).id == id)
}

/// Whether no two nodes of a sequence have the same id.
pub open spec fn listed_once(nodes: Seq<NodeView>) -> bool {
    forall|i: int, j: int|
        0 <= i < j < nodes.len() ==> (#[trigger] nodes[i]).id != (#[trigger] nodes[j]).id
}

/// The ids of two sequences put together are the ids of both; and no id
/// comes twice in the whole if none comes twice in either part and the parts
/// share none.
pub proof fn lemma_listed_ids_concat(a: Seq<NodeView>, b: Seq<NodeView>)
    ensures
        listed_ids(a + b) == listed_ids(a) + listed_ids(b),
        listed_once(a) && listed_once(b) && listed_ids(a).disjoint(listed_ids(b)) ==> listed_once(
            a + b,
        ),
{
    let both = a + b;
    assert forall|id: i64| listed_ids(both).contains(id) implies (listed_ids(a) + listed_ids(
        b,
    )).contains(id) by {
        let i = choose|i: int| 0 <= i < both.len() && (#[trigger] both[i]).id == id;
        if i < a.len() {
            assert(a[i].id == id);
        } else {
            assert(b[i - a.len()].id == id);
        }
    }
    assert forall|id: i64| (listed_ids(a) + listed_ids(b)).contains(id) implies listed_ids(
        both,
    ).contains(id) by {
        if listed_ids(a).contains(id) {
            let i = choose|i: int| 0 <= i < a.len() && (#[trigger] a[i]).id == id;
            assert(both[i].id == id);
        } else {
            let i = choose|i: int| 0 <= i < b.len() && (#[trigger] b[i]).id == id;
            assert(both[a.len() + i].id == id);
        }
    }
    assert(listed_ids(both) =~= listed_ids(a) + listed_ids(b));
    if listed_once(a) && listed_once(b) && listed_ids(a).disjoint(listed_ids(b)) {
        assert forall|i: int, j: int| 0 <= i < j < both.len() implies (#[trigger] both[i]).id != (
        #[trigger] both[j]).id by {
            if j < a.len() {
                assert(a[i].id != a[j].id);
            } else if i >= a.len() {
                assert(b[i - a.len()].id != b[j - a.len()].id);
            } else {
                assert(listed_ids(a).contains(a[i].id));
                assert(listed_ids(b).contains(b[j - a.len()].id));
            }
        }
    }
}

/// The ids of the windows of a tree are among the ids of its nodes.
pub proof fn lemma_window_ids_within(node: NodeView)
    ensures
        window_ids(node).subset_of(ids_below(node)),
    decreases node,
{
    lemma_window_ids_within_each(node.children);
    lemma_window_ids_within_each(node.floating_children);
}

proof fn lemma_window_ids_within_each(nodes: Seq<NodeView>)
    ensures
        window_ids_of_each(nodes).subset_of(ids_of_each(nodes)),
    decreases nodes,
{
    if nodes.len() > 0 {
        lemma_window_ids_within_each(nodes.drop_last());
        lemma_window_ids_within(nodes.last());
    }
}

proof fn lemma_windows_listed_once(node: NodeView, layout: LayoutMode, deco_height: int)
    ensures
        listed_ids(windows_as(node, layout, deco_height)) == window_ids(node),
        distinct_ids(node) ==> listed_once(windows_as(node, layout, deco_height)),
    decreases node,
{
    let tiled = windows_of_each(
        node.children,
        stacks(node.node_kind, layout),
        node.children.len(),
    );
    let floating = windows_of_each(node.floating_children, false, 0);
    let own = if is_window(node) {
        seq![shown_as(node, layout, deco_height)]
    } else {
        Seq::empty()
    };
    lemma_windows_listed_once_each(
        node.children,
        stacks(node.node_kind, layout),
        node.children.len(),
    );
    lemma_windows_listed_once_each(node.floating_children, false, 0);
    lemma_window_ids_within_each(node.children);
    lemma_window_ids_within_each(node.floating_children);
    lemma_listed_ids_concat(tiled, floating);
    lemma_listed_ids_concat(tiled + floating, own);
    assert(listed_ids(own) =~= (if is_window(node) {
        set![node.id]
    } else {
        Set::empty()
    })) by {
        if is_window(node) {
            assert(own[0].id == node.id);
        }
    }
    assert(listed_ids(windows_as(node, layout, deco_height)) =~= window_ids(node));
}

proof fn lemma_windows_listed_once_each(nodes: Seq<NodeView>, stacked: bool, group: nat)
    ensures
        listed_ids(windows_of_each(nodes, stacked, group)) == window_ids_of_each(nodes),
        distinct_ids_each(nodes) ==> listed_once(windows_of_each(nodes, stacked, group)),
    decreases nodes,
{
    if nodes.len() == 0 {
        assert(listed_ids(Seq::<NodeView>::empty()) =~= Set::<i64>::empty());
    } else {
        let earlier = windows_of_each(nodes.drop_last(), stacked, group);
        let last = windows_as(
            nodes.last(),
            handed_layout(nodes.last(), stacked),
            handed_height(nodes.last(), stacked, group),
        );
        lemma_windows_listed_once_each(nodes.drop_last(), stacked, group);
        lemma_windows_listed_once(
            nodes.last(),
            handed_layout(nodes.last(), stacked),
            handed_height(nodes.last(), stacked, group),
        );
        lemma_window_ids_within_each(nodes.drop_last());
        lemma_window_ids_within(nodes.last());
        lemma_listed_ids_concat(earlier, last);
    }
}

/// The walk lists every window of a tree, and nothing else; and where no
/// two nodes of the tree share an id, it lists every window once.
pub proof fn lemma_each_window_listed_once(node: NodeView)
    ensures
        listed_ids(leaf_windows(node)) == window_ids(node),
        distinct_ids(node) ==> listed_once(leaf_windows(node)),
{
    lemma_windows_listed_once(node, node.layout_mode, node.decoration_rect.height);
}

proof fn lemma_ids_at(nodes: Seq<NodeView>, i: int)
    requires
        0 <= i < nodes.len(),
    ensures
        ids_below(nodes[i]).subset_of(ids_of_each(nodes)),
        distinct_ids_each(nodes) ==> distinct_ids(nodes[i]),
    decreases nodes.len(),
{
    if i < nodes.len() - 1 {
        lemma_ids_at(nodes.drop_last(), i);
    }
}

proof fn lemma_window_ids_at(nodes: Seq<NodeView>, i: int)
    requires
        0 <= i < nodes.len(),
    ensures
        window_ids(nodes[i]).subset_of(window_ids_of_each(nodes)),
        forall|id: i64|
            distinct_ids_each(nodes) && window_ids_of_each(nodes).contains(id) && ids_below(
                nodes[i],
            ).contains(id) ==> window_ids(nodes[i]).contains(id),
    decreases nodes.len(),
{
    lemma_window_ids_within(nodes.last());
    lemma_window_ids_within_each(nodes.drop_last());
    if i < nodes.len() - 1 {
        lemma_window_ids_at(nodes.drop_last(), i);
        lemma_ids_at(nodes.drop_last(), i);
    }
}

/// The number of windows of a tree.
pub open spec fn window_count(node: NodeView) -> nat
    decreases node,
{
    (if is_window(node) {
        1nat
    } else {
        0nat
    }) + window_count_of_each(node.children) + window_count_of_each(node.floating_children)
}

/// The number of windows of a sequence of trees.
pub open spec fn window_count_of_each(nodes: Seq<NodeView>) -> nat
    decreases nodes,
{
    if nodes.len() == 0 {
        0
    } else {
        window_count_of_each(nodes.drop_last()) + window_count(nodes.last())
    }
}

proof fn lemma_windows_counted(node: NodeView, layout: LayoutMode, deco_height: int)
    ensures
        windows_as(node, layout, deco_height).len() == window_count(node),
    decreases node,
{
    lemma_windows_counted_each(
        node.children,
        stacks(node.node_kind, layout),
        node.children.len(),
    );
    lemma_windows_counted_each(node.floating_children, false, 0);
}

proof fn lemma_windows_counted_each(nodes: Seq<NodeView>, stacked: bool, group: nat)
    ensures
        windows_of_each(nodes, stacked, group).len() == window_count_of_each(nodes),
    decreases nodes,
{
    if nodes.len() > 0 {
        lemma_windows_counted_each(nodes.drop_last(), stacked, group);
        lemma_windows_counted(
            nodes.last(),
            handed_layout(nodes.last(), stacked),
            handed_height(nodes.last(), stacked, group),
        );
    }
}

proof fn lemma_node_at_listed(top: NodeView, path: Seq<int>, node: NodeView)
    requires
        node_at(top, path) == Some(node),
    ensures
        ids_below(top).contains(node.id),
        is_window(node) ==> window_ids(top).contains(node.id),
        distinct_ids(top) && window_ids(top).contains(node.id) ==> is_window(node),
    decreases path.len(),
{
    lemma_window_ids_within_each(top.children);
    lemma_window_ids_within_each(top.floating_children);
    if path.len() > 0 {
        if 0 <= path[0] < top.children.len() {
            let child = top.children[path[0]];
            lemma_node_at_listed(child, path.drop_first(), node);
            lemma_ids_at(top.children, path[0]);
            lemma_window_ids_at(top.children, path[0]);
        } else {
            let j = path[0] - top.children.len();
            let child = top.floating_children[j];
            lemma_node_at_listed(child, path.drop_first(), node);
            lemma_ids_at(top.floating_children, j);
            lemma_window_ids_at(top.floating_children, j);
        }
    }
}

/// The walk lists the windows of a tree, and nothing else: as many nodes as
/// the tree has windows, and the id of every window of the tree. Where no
/// two nodes of the tree share an id, the id of a window of the tree is
/// listed once, and the id of any other node of the tree not at all.
pub proof fn lemma_windows_and_nothing_else(top: NodeView, node: NodeView)
    requires
        lies_below(top, node),
    ensures
        leaf_windows(top).len() == window_count(top),
        is_window(node) ==> listed_ids(leaf_windows(top)).contains(node.id),
        distinct_ids(top) ==> listed_once(leaf_windows(top)),
        distinct_ids(top) && !is_window(node) ==> !listed_ids(leaf_windows(top)).contains(node.id),
{
    let path = choose|path: Seq<int>| node_at(top, path) == Some(node);
    lemma_node_at_listed(top, path, node);
    lemma_windows_counted(top, top.layout_mode, top.decoration_rect.height);
    lemma_each_window_listed_once(top);
}


/// The focused workspace of a node is a workspace, and lies within the
/// node.
pub proof fn lemma_focused_workspace_within(node: NodeView)
    ensures
        match focused_workspace(node) {
            Some(workspace) => {
                &&& workspace.node_kind == NodeKind::Workspace
                &&& ids_below(workspace).subset_of(ids_below(node))
                &&& distinct_ids(node) ==> distinct_ids(workspace)
            },
            None => true,
        },
    decreases node,
{
    if node.node_kind != NodeKind::Workspace && node.focus.len() > 0 {
        if has_id(node.children, node.focus[0]) {
            let i = first_with_id(node.children, node.focus[0]);
            if 0 <= i < node.children.len() {
                lemma_focused_workspace_within(node.children[i]);
                lemma_ids_at(node.children, i);
            }
        } else if has_id(node.floating_children, node.focus[0]) {
            let i = first_with_id(node.floating_children, node.focus[0]);
            if 0 <= i < node.floating_children.len() {
                lemma_focused_workspace_within(node.floating_children[i]);
                lemma_ids_at(node.floating_children, i);
            }
        }
    }
}

proof fn lemma_outputs_within(node: NodeView, k: int)
    requires
        0 <= k < outputs_below(node).len(),
    ensures
        ids_below(outputs_below(node)[k]).subset_of(ids_below(node)),
        distinct_ids(node) ==> distinct_ids(outputs_below(node)[k]),
    decreases node,
{
    if k < outputs_of_each(node.children).len() {
        lemma_outputs_within_each(node.children, k);
    }
}

proof fn lemma_outputs_within_each(nodes: Seq<NodeView>, k: int)
    requires
        0 <= k < outputs_of_each(nodes).len(),
    ensures
        ids_below(outputs_of_each(nodes)[k]).subset_of(ids_of_each(nodes)),
        distinct_ids_each(nodes) ==> distinct_ids(outputs_of_each(nodes)[k]),
    decreases nodes,
{
    let earlier = outputs_of_each(nodes.drop_last());
    if k < earlier.len() {
        lemma_outputs_within_each(nodes.drop_last(), k);
    } else {
        lemma_outputs_within(nodes.last(), k - earlier.len());
    }
}

proof fn lemma_outputs_apart_or_nested(node: NodeView, i: int, j: int)
    requires
        distinct_ids(node),
        0 <= i < j < outputs_below(node).len(),
    ensures
        ids_below(outputs_below(node)[i]).disjoint(ids_below(outputs_below(node)[j])) || ids_below(
            outputs_below(node)[j],
        ).contains(outputs_below(node)[i].id),
    decreases node,
{
    let below = outputs_of_each(node.children);
    if j < below.len() {
        lemma_outputs_apart_or_nested_each(node.children, i, j);
    } else {
        lemma_outputs_within_each(node.children, i);
        assert(ids_below(below[i]).contains(below[i].id));
    }
}

proof fn lemma_outputs_apart_or_nested_each(nodes: Seq<NodeView>, i: int, j: int)
    requires
        distinct_ids_each(nodes),
        0 <= i < j < outputs_of_each(nodes).len(),
    ensures
        ids_below(outputs_of_each(nodes)[i]).disjoint(ids_below(outputs_of_each(nodes)[j]))
            || ids_below(outputs_of_each(nodes)[j]).contains(outputs_of_each(nodes)[i].id),
    decreases nodes,
{
    let earlier = outputs_of_each(nodes.drop_last());
    if j < earlier.len() {
        lemma_outputs_apart_or_nested_each(nodes.drop_last(), i, j);
    } else if i >= earlier.len() {
        lemma_outputs_apart_or_nested(nodes.last(), i - earlier.len(), j - earlier.len());
    } else {
        lemma_outputs_within_each(nodes.drop_last(), i);
        lemma_outputs_within(nodes.last(), j - earlier.len());
    }
}

/// Each listed output of a tree in which no two nodes share an id is such a
/// tree itself.
pub proof fn lemma_output_distinct(root: NodeView, i: int)
    requires
        distinct_ids(root),
        0 <= i < outputs_below(root).len(),
    ensures
        distinct_ids(outputs_below(root)[i]),
{
    lemma_outputs_within(root, i);
}

/// Whether no output of the sequence lies within another.
pub open spec fn side_by_side(outputs: Seq<NodeView>) -> bool {
    forall|i: int, j: int|
        0 <= i < outputs.len() && 0 <= j < outputs.len() && i != j ==> !ids_below(
            #[trigger] outputs[j],
        ).contains((#[trigger] outputs[i]).id)
}

/// In a tree in which no two nodes share an id, two listed outputs of which
/// none lies within the other have no node in common.
pub proof fn lemma_outputs_apart(root: NodeView, i: int, j: int)
    requires
        distinct_ids(root),
        side_by_side(outputs_below(root)),
        0 <= i < outputs_below(root).len(),
        0 <= j < outputs_below(root).len(),
        i != j,
    ensures
        ids_below(outputs_below(root)[i]).disjoint(ids_below(outputs_below(root)[j])),
{
    let outputs = outputs_below(root);
    if i < j {
        lemma_outputs_apart_or_nested(root, i, j);
        assert(!ids_below(outputs[j]).contains(outputs[i].id));
    } else {
        lemma_outputs_apart_or_nested(root, j, i);
        assert(!ids_below(outputs[i]).contains(outputs[j].id));
    }
}

} // verus!
