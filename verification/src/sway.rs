//! The walk over the compositor's window tree: the outputs, the focused
//! workspace of an output, and the windows of a workspace.

use crate::tree::{views, LayoutMode, NodeKind, NodeView, RectView, WindowTreeNode};
use crate::utils::{decimal, push_decimal};
use std::collections::VecDeque;
use vstd::prelude::*;

verus! {

/// A window is a container, tiled or floating, without children. Only
/// windows can be selected.
pub open spec fn is_window(node: NodeView) -> bool {
    &&& node.node_kind == NodeKind::Container || node.node_kind == NodeKind::FloatingContainer
    &&& node.children.len() == 0
}

/// Whether a node of this kind, seen with this layout, stacks its children
/// under one shared decoration strip.
pub open spec fn stacks(kind: NodeKind, layout: LayoutMode) -> bool {
    kind == NodeKind::Container && layout == LayoutMode::Stacked
}

/// The node with another layout and another decoration height.
pub open spec fn shown_as(node: NodeView, layout: LayoutMode, deco_height: int) -> NodeView {
    NodeView {
        layout_mode: layout,
        decoration_rect: RectView { height: deco_height, ..node.decoration_rect },
        ..node
    }
}

/// The layout with which a child is seen: `Stacked` under a parent that
/// stacks its children, its own otherwise.
pub open spec fn handed_layout(child: NodeView, stacked: bool) -> LayoutMode {
    if stacked {
        LayoutMode::Stacked
    } else {
        child.layout_mode
    }
}

/// The decoration height with which a child is seen: under a parent that
/// stacks its `group` children, the child's own height times `group`.
pub open spec fn handed_height(child: NodeView, stacked: bool, group: nat) -> int {
    if stacked {
        child.decoration_rect.height * group
    } else {
        child.decoration_rect.height
    }
}

/// The windows below `node`, the node itself included, from left to right:
/// those of the tiled children, then those of the floating children, then the
/// node if it is a window. The node is seen with `layout` and `deco_height`
/// in place of its own, and hands `Stacked` and the multiplied decoration
/// height on to its tiled children if, seen so, it stacks them.
pub open spec fn windows_as(node: NodeView, layout: LayoutMode, deco_height: int) -> Seq<NodeView>
    decreases node,
{
    windows_of_each(
        node.children,
        stacks(node.node_kind, layout),
        node.children.len(),
    ) + windows_of_each(node.floating_children, false, 0) + (if is_window(node) {
        seq![shown_as(node, layout, deco_height)]
    } else {
        Seq::empty()
    })
}

/// The windows below each of `nodes` in turn, from left to right. With
/// `stacked`, the nodes are the children of a parent that stacks `group` of
/// them.
pub open spec fn windows_of_each(nodes: Seq<NodeView>, stacked: bool, group: nat) -> Seq<NodeView>
    decreases nodes,
{
    if nodes.len() == 0 {
        Seq::empty()
    } else {
        windows_of_each(nodes.drop_last(), stacked, group) + windows_as(
            nodes.last(),
            handed_layout(nodes.last(), stacked),
            handed_height(nodes.last(), stacked, group),
        )
    }
}

/// The windows of a workspace, or of any node, from left to right.
pub open spec fn leaf_windows(node: NodeView) -> Seq<NodeView> {
    windows_as(node, node.layout_mode, node.decoration_rect.height)
}

/// The order in which a walk with a stack meets the windows below `node`:
/// the node first, then what lies below its floating children, last child
/// first, then what lies below its tiled children, last child first.
pub open spec fn visit_as(node: NodeView, layout: LayoutMode, deco_height: int) -> Seq<NodeView>
    decreases node,
{
    (if is_window(node) {
        seq![shown_as(node, layout, deco_height)]
    } else {
        Seq::empty()
    }) + visit_each(node.floating_children, false, 0) + visit_each(
        node.children,
        stacks(node.node_kind, layout),
        node.children.len(),
    )
}

/// The order in which a walk meets the windows below the nodes of a stack,
/// whose top is the last of `nodes`.
pub open spec fn visit_each(nodes: Seq<NodeView>, stacked: bool, group: nat) -> Seq<NodeView>
    decreases nodes,
{
    if nodes.len() == 0 {
        Seq::empty()
    } else {
        visit_as(
            nodes.last(),
            handed_layout(nodes.last(), stacked),
            handed_height(nodes.last(), stacked, group),
        ) + visit_each(nodes.drop_last(), stacked, group)
    }
}

/// The number of nodes of a tree.
pub open spec fn tree_size(node: NodeView) -> nat
    decreases node,
{
    1 + forest_size(node.children) + forest_size(node.floating_children)
}

/// The number of nodes of a sequence of trees.
pub open spec fn forest_size(nodes: Seq<NodeView>) -> nat
    decreases nodes,
{
    if nodes.len() == 0 {
        0
    } else {
        forest_size(nodes.drop_last()) + tree_size(nodes.last())
    }
}

/// Whether every decoration height that the walk below `node` multiplies
/// stays a 32-bit pixel count. The node is seen with `layout`.
pub open spec fn heights_fit_as(node: NodeView, layout: LayoutMode) -> bool
    decreases node,
{
    &&& heights_fit_each(node.children, stacks(node.node_kind, layout), node.children.len())
    &&& heights_fit_each(node.floating_children, false, 0)
}

/// [`heights_fit_as`] of each of `nodes`, seen as [`windows_of_each`] sees
/// them.
pub open spec fn heights_fit_each(nodes: Seq<NodeView>, stacked: bool, group: nat) -> bool
    decreases nodes,
{
    if nodes.len() == 0 {
        true
    } else {
        &&& heights_fit_each(nodes.drop_last(), stacked, group)
        &&& i32::MIN <= handed_height(nodes.last(), stacked, group) <= i32::MAX
        &&& heights_fit_as(nodes.last(), handed_layout(nodes.last(), stacked))
    }
}

/// Whether the walk over the windows of `node` keeps every decoration height
/// that it multiplies within the range of a 32-bit pixel count.
pub open spec fn heights_fit(node: NodeView) -> bool {
    heights_fit_as(node, node.layout_mode)
}

proof fn lemma_reverse_concat<A>(a: Seq<A>, b: Seq<A>)
    ensures
        (a + b).reverse() == b.reverse() + a.reverse(),
{
    assert((a + b).reverse() =~= b.reverse() + a.reverse());
}

/// Read backwards, the order in which the walk meets the windows is their
/// order from left to right.
pub proof fn lemma_visit_reversed(node: NodeView, layout: LayoutMode, deco_height: int)
    ensures
        visit_as(node, layout, deco_height).reverse() == windows_as(node, layout, deco_height),
    decreases node,
{
    let own = if is_window(node) {
        seq![shown_as(node, layout, deco_height)]
    } else {
        Seq::empty()
    };
    let floating = visit_each(node.floating_children, false, 0);
    let tiled = visit_each(node.children, stacks(node.node_kind, layout), node.children.len());
    lemma_visit_each_reversed(node.floating_children, false, 0);
    lemma_visit_each_reversed(node.children, stacks(node.node_kind, layout), node.children.len());
    lemma_reverse_concat(own + floating, tiled);
    lemma_reverse_concat(own, floating);
    assert(own.reverse() =~= own);
    assert(tiled.reverse() + (floating.reverse() + own.reverse()) =~= tiled.reverse()
        + floating.reverse() + own);
}

/// [`lemma_visit_reversed`] for the nodes of a stack.
pub proof fn lemma_visit_each_reversed(nodes: Seq<NodeView>, stacked: bool, group: nat)
    ensures
        visit_each(nodes, stacked, group).reverse() == windows_of_each(nodes, stacked, group),
    decreases nodes,
{
    if nodes.len() == 0 {
        assert(Seq::<NodeView>::empty().reverse() =~= Seq::<NodeView>::empty());
    } else {
        let first = visit_as(
            nodes.last(),
            handed_layout(nodes.last(), stacked),
            handed_height(nodes.last(), stacked, group),
        );
        lemma_visit_reversed(
            nodes.last(),
            handed_layout(nodes.last(), stacked),
            handed_height(nodes.last(), stacked, group),
        );
        lemma_visit_each_reversed(nodes.drop_last(), stacked, group);
        lemma_reverse_concat(first, visit_each(nodes.drop_last(), stacked, group));
    }
}

/// How many windows the walk lists below the first `i` of `nodes`.
pub open spec fn windows_before(nodes: Seq<NodeView>, stacked: bool, group: nat, i: int) -> int {
    windows_of_each(nodes.take(i), stacked, group).len() as int
}

proof fn lemma_windows_of_first(nodes: Seq<NodeView>, stacked: bool, group: nat, i: int)
    requires
        0 <= i <= nodes.len(),
    ensures
        windows_before(nodes, stacked, group, i) <= windows_of_each(nodes, stacked, group).len(),
        windows_of_each(nodes, stacked, group).take(windows_before(nodes, stacked, group, i))
            == windows_of_each(nodes.take(i), stacked, group),
    decreases nodes.len(),
{
    let all = windows_of_each(nodes, stacked, group);
    if i == nodes.len() {
        assert(nodes.take(i) =~= nodes);
        assert(all.take(all.len() as int) =~= all);
    } else {
        let earlier = windows_of_each(nodes.drop_last(), stacked, group);
        lemma_windows_of_first(nodes.drop_last(), stacked, group, i);
        assert(nodes.drop_last().take(i) =~= nodes.take(i));
        let n = windows_before(nodes, stacked, group, i);
        assert(all.take(n) =~= earlier.take(n));
    }
}

/// The windows come in the order of the siblings, from left to right: what
/// the walk lists below a sequence of siblings holds, for each sibling in
/// turn, the windows below that sibling, one block after the other.
pub proof fn lemma_siblings_in_order(nodes: Seq<NodeView>, stacked: bool, group: nat, i: int)
    requires
        0 <= i < nodes.len(),
    ensures
        0 <= windows_before(nodes, stacked, group, i) <= windows_before(
            nodes,
            stacked,
            group,
            i + 1,
        ) <= windows_of_each(nodes, stacked, group).len(),
        windows_of_each(nodes, stacked, group).subrange(
            windows_before(nodes, stacked, group, i),
            windows_before(nodes, stacked, group, i + 1),
        ) == windows_as(
            nodes[i],
            handed_layout(nodes[i], stacked),
            handed_height(nodes[i], stacked, group),
        ),
{
    let all = windows_of_each(nodes, stacked, group);
    let upto = nodes.take(i + 1);
    let below = windows_as(
        nodes[i],
        handed_layout(nodes[i], stacked),
        handed_height(nodes[i], stacked, group),
    );
    assert(upto.drop_last() =~= nodes.take(i));
    assert(upto.last() == nodes[i]);
    assert(windows_of_each(upto, stacked, group) == windows_of_each(
        nodes.take(i),
        stacked,
        group,
    ) + below);
    lemma_windows_of_first(nodes, stacked, group, i + 1);
    let from = windows_before(nodes, stacked, group, i);
    let to = windows_before(nodes, stacked, group, i + 1);
    assert(all.subrange(from, to) =~= all.take(to).subrange(from, to));
    assert(all.take(to).subrange(from, to) =~= below);
}

proof fn lemma_child_windows_listed(nodes: Seq<NodeView>, stacked: bool, group: nat, i: int)
    requires
        0 <= i < nodes.len(),
        is_window(nodes[i]),
    ensures
        windows_of_each(nodes, stacked, group).contains(
            shown_as(
                nodes[i],
                handed_layout(nodes[i], stacked),
                handed_height(nodes[i], stacked, group),
            ),
        ),
    decreases nodes.len(),
{
    let earlier = windows_of_each(nodes.drop_last(), stacked, group);
    let last = nodes.last();
    let under_last = windows_as(
        last,
        handed_layout(last, stacked),
        handed_height(last, stacked, group),
    );
    let all = windows_of_each(nodes, stacked, group);
    assert(all == earlier + under_last);
    if i == nodes.len() - 1 {
        let own = under_last.len() - 1;
        assert(under_last[own] == shown_as(
            last,
            handed_layout(last, stacked),
            handed_height(last, stacked, group),
        ));
        assert(all[earlier.len() + own] == under_last[own]);
    } else {
        lemma_child_windows_listed(nodes.drop_last(), stacked, group, i);
        let wanted = shown_as(
            nodes[i],
            handed_layout(nodes[i], stacked),
            handed_height(nodes[i], stacked, group),
        );
        let at = choose|at: int| 0 <= at < earlier.len() && earlier[at] == wanted;
        assert(all[at] == wanted);
    }
}

/// The node of the tree `top` that a path leads to. Each step of the path
/// picks a child: a tiled child by its place, a floating child by its place
/// behind the tiled ones.
pub open spec fn node_at(top: NodeView, path: Seq<int>) -> Option<NodeView>
    decreases path.len(),
{
    if path.len() == 0 {
        Some(top)
    } else if 0 <= path[0] < top.children.len() {
        node_at(top.children[path[0]], path.drop_first())
    } else if top.children.len() <= path[0] < top.children.len()
        + top.floating_children.len() {
        node_at(top.floating_children[path[0] - top.children.len()], path.drop_first())
    } else {
        None
    }
}

/// Whether `node` is a node of the tree `top`: the top itself, or a node
/// that a path through the children, tiled or floating, leads to.
pub open spec fn lies_below(top: NodeView, node: NodeView) -> bool {
    exists|path: Seq<int>| node_at(top, path) == Some(node)
}

proof fn lemma_listed_in_block(all: Seq<NodeView>, from: int, to: int, wanted: NodeView)
    requires
        0 <= from <= to <= all.len(),
        all.subrange(from, to).contains(wanted),
    ensures
        all.contains(wanted),
{
    let block = all.subrange(from, to);
    let at = choose|at: int| 0 <= at < block.len() && block[at] == wanted;
    assert(all[from + at] == wanted);
}

proof fn lemma_listed_below_child(
    nodes: Seq<NodeView>,
    stacked: bool,
    group: nat,
    i: int,
    wanted: NodeView,
)
    requires
        0 <= i < nodes.len(),
        windows_as(
            nodes[i],
            handed_layout(nodes[i], stacked),
            handed_height(nodes[i], stacked, group),
        ).contains(wanted),
    ensures
        windows_of_each(nodes, stacked, group).contains(wanted),
{
    lemma_siblings_in_order(nodes, stacked, group, i);
    lemma_listed_in_block(
        windows_of_each(nodes, stacked, group),
        windows_before(nodes, stacked, group, i),
        windows_before(nodes, stacked, group, i + 1),
        wanted,
    );
}

proof fn lemma_stacked_children_seen(
    top: NodeView,
    layout: LayoutMode,
    deco_height: int,
    path: Seq<int>,
    container: NodeView,
    i: int,
)
    requires
        node_at(top, path) == Some(container),
        stacks(container.node_kind, container.layout_mode),
        path.len() == 0 ==> layout == LayoutMode::Stacked,
        0 <= i < container.children.len(),
        is_window(container.children[i]),
    ensures
        windows_as(top, layout, deco_height).contains(
            shown_as(
                container.children[i],
                LayoutMode::Stacked,
                container.children[i].decoration_rect.height * container.children.len(),
            ),
        ),
    decreases path.len(),
{
    let wanted = shown_as(
        container.children[i],
        LayoutMode::Stacked,
        container.children[i].decoration_rect.height * container.children.len(),
    );
    let stacked = stacks(top.node_kind, layout);
    let tiled = windows_of_each(top.children, stacked, top.children.len());
    let floating = windows_of_each(top.floating_children, false, 0);
    let all = windows_as(top, layout, deco_height);
    if path.len() == 0 {
        lemma_child_windows_listed(top.children, true, top.children.len(), i);
        let at = choose|at: int| 0 <= at < tiled.len() && tiled[at] == wanted;
        assert(all[at] == wanted);
    } else if 0 <= path[0] < top.children.len() {
        let child = top.children[path[0]];
        lemma_stacked_children_seen(
            child,
            handed_layout(child, stacked),
            handed_height(child, stacked, top.children.len()),
            path.drop_first(),
            container,
            i,
        );
        lemma_listed_below_child(top.children, stacked, top.children.len(), path[0], wanted);
        let at = choose|at: int| 0 <= at < tiled.len() && tiled[at] == wanted;
        assert(all[at] == wanted);
    } else {
        let j = path[0] - top.children.len();
        let child = top.floating_children[j];
        lemma_stacked_children_seen(
            child,
            handed_layout(child, false),
            handed_height(child, false, 0),
            path.drop_first(),
            container,
            i,
        );
        lemma_listed_below_child(top.floating_children, false, 0, j, wanted);
        let at = choose|at: int| 0 <= at < floating.len() && floating[at] == wanted;
        assert(all[tiled.len() + at] == wanted);
    }
}

/// Each window among the children of a stacked container, wherever the
/// container lies in the tree that is walked, is listed with the layout
/// `Stacked` and with its decoration height times the number of the
/// container's children, and is in all else as the tree has it.
pub proof fn lemma_stacked_children(top: NodeView, container: NodeView, i: int)
    requires
        lies_below(top, container),
        stacks(container.node_kind, container.layout_mode),
        0 <= i < container.children.len(),
        is_window(container.children[i]),
    ensures
        leaf_windows(top).contains(
            shown_as(
                container.children[i],
                LayoutMode::Stacked,
                container.children[i].decoration_rect.height * container.children.len(),
            ),
        ),
{
    let path = choose|path: Seq<int>| node_at(top, path) == Some(container);
    lemma_stacked_children_seen(
        top,
        top.layout_mode,
        top.decoration_rect.height,
        path,
        container,
        i,
    );
}

proof fn lemma_heights_fit_at(nodes: Seq<NodeView>, stacked: bool, group: nat, i: int)
    requires
        heights_fit_each(nodes, stacked, group),
        0 <= i < nodes.len(),
    ensures
        i32::MIN <= handed_height(nodes[i], stacked, group) <= i32::MAX,
        heights_fit_as(nodes[i], handed_layout(nodes[i], stacked)),
    decreases nodes,
{
    if i < nodes.len() - 1 {
        lemma_heights_fit_at(nodes.drop_last(), stacked, group, i);
    }
}

/// The product of a decoration height and the size of its stacked group.
fn stacked_height(height: i32, group: usize) -> (product: i32)
    requires
        i32::MIN <= height * group <= i32::MAX,
    ensures
        product == height * group,
{
    if height == 0 {
        0
    } else {
        assert(group <= 0x8000_0000) by (nonlinear_arith)
            requires
                height != 0,
                -0x8000_0000 <= height * group <= 0x7fff_ffff,
                group >= 0,
        ;
        let wide: i64 = (height as i64) * (group as i64);
        wide as i32
    }
}

/// Moves the items of `items` into a new vector, last item first.
fn reversed(items: Vec<WindowTreeNode>) -> (turned: Vec<WindowTreeNode>)
    ensures
        turned@ == items@.reverse(),
{
    let mut items = items;
    let ghost all = items@;
    let mut turned: Vec<WindowTreeNode> = Vec::new();
    while items.len() > 0
        invariant
            items@ == all.take(items@.len() as int),
            items@.len() <= all.len(),
            turned@.len() == all.len() - items@.len(),
            forall|j: int| 0 <= j < turned@.len() ==> turned@[j] == all[all.len() - 1 - j],
        decreases items@.len(),
    {
        let item = items.pop().unwrap();
        turned.push(item);
        assert(items@ =~= all.take(items@.len() as int));
    }
    assert(turned@ =~= all.reverse());
    turned
}

/// The windows of a workspace, from left to right: tiled children before
/// floating ones, each child of a stacked container shown with the layout
/// `Stacked` and with its decoration height times the number of children of
/// that container.
///
/// The walk keeps the nodes it has still to look at in a queue, which it
/// uses as a stack, so it meets
/// the windows last one first, and turns the list round at the end.
pub fn get_all_windows(workspace: &WindowTreeNode) -> (windows: Vec<WindowTreeNode>)
    requires
        heights_fit(workspace@),
    ensures
        views(windows@) == leaf_windows(workspace@),
{
    let mut nodes: Vec<WindowTreeNode> = Vec::new();
    let mut q: VecDeque<WindowTreeNode> = VecDeque::new();
    q.push_back(workspace.clone());
    proof {
        assert(views(q@) =~= seq![workspace@]);
        assert(views(q@).drop_last() =~= Seq::<NodeView>::empty());
        assert(views(nodes@) =~= Seq::<NodeView>::empty());
        assert(visit_each(Seq::<NodeView>::empty(), false, 0) =~= Seq::<NodeView>::empty());
        assert(heights_fit_each(Seq::<NodeView>::empty(), false, 0));
        assert(views(nodes@) + visit_each(views(q@), false, 0) =~= visit_as(
            workspace@,
            workspace@.layout_mode,
            workspace@.decoration_rect.height,
        ));
    }
    while q.len() > 0
        invariant
            views(nodes@) + visit_each(views(q@), false, 0) == visit_as(
                workspace@,
                workspace@.layout_mode,
                workspace@.decoration_rect.height,
            ),
            heights_fit_each(views(q@), false, 0),
        decreases forest_size(views(q@)),
    {
        let ghost before = views(q@);
        let ghost found = views(nodes@);
        let node = q.pop_back().unwrap();
        let ghost rest = views(q@);
        proof {
            assert(rest =~= before.drop_last());
            assert(node@ == before.last());
            assert(shown_as(node@, node@.layout_mode, node@.decoration_rect.height) == node@);
            lemma_heights_fit_at(before, false, 0, before.len() - 1);
            assert(forest_size(before) == forest_size(rest) + tree_size(node@));
        }
        if (node.node_kind == NodeKind::Container || node.node_kind
            == NodeKind::FloatingContainer) && node.children.len() == 0 {
            nodes.push(node.clone());
            proof {
                assert(views(nodes@) =~= found + seq![node@]);
            }
        }
        let ghost own = if is_window(node@) {
            seq![node@]
        } else {
            Seq::<NodeView>::empty()
        };
        assert(views(nodes@) =~= found + own);
        let stacked = node.node_kind == NodeKind::Container && node.layout_mode
            == LayoutMode::Stacked;
        let count = node.children.len();
        let mut i: usize = 0;
        proof {
            assert(node@.children.take(0) =~= Seq::<NodeView>::empty());
            assert(visit_each(views(q@), false, 0) =~= visit_each(
                node@.children.take(0),
                stacked,
                count as nat,
            ) + visit_each(rest, false, 0));
        }
        while i < count
            invariant
                i <= count,
                count == node.children.len(),
                stacked == stacks(node@.node_kind, node@.layout_mode),
                visit_each(views(q@), false, 0) == visit_each(
                    node@.children.take(i as int),
                    stacked,
                    count as nat,
                ) + visit_each(rest, false, 0),
                forest_size(views(q@)) == forest_size(rest) + forest_size(
                    node@.children.take(i as int),
                ),
                heights_fit_each(views(q@), false, 0),
                heights_fit_each(node@.children, stacked, count as nat),
                heights_fit_each(node@.floating_children, false, 0),
            decreases count - i,
        {
            let ghost below = views(q@);
            let ghost given = node@.children[i as int];
            let mut child = node.children[i].clone();
            proof {
                lemma_heights_fit_at(node@.children, stacked, count as nat, i as int);
            }
            if stacked {
                child.layout_mode = LayoutMode::Stacked;
                child.decoration_rect.height = stacked_height(child.decoration_rect.height, count);
            }
            let ghost layout = handed_layout(given, stacked);
            let ghost height = handed_height(given, stacked, count as nat);
            proof {
                assert(child@.children == given.children);
                assert(child@.floating_children == given.floating_children);
                assert(child@ == shown_as(given, layout, height));
            }
            q.push_back(child);
            proof {
                let prefix = node@.children.take(i as int + 1);
                assert(views(q@) =~= below.push(child@));
                assert(views(q@).drop_last() =~= below);
                assert(prefix.drop_last() =~= node@.children.take(i as int));
                assert(prefix.last() == given);
                assert(visit_as(child@, child@.layout_mode, child@.decoration_rect.height)
                    == visit_as(given, layout, height));
                assert(tree_size(child@) == tree_size(given));
                assert(heights_fit_as(child@, child@.layout_mode) == heights_fit_as(
                    given,
                    layout,
                ));
                assert(visit_each(views(q@), false, 0) =~= visit_each(
                    prefix,
                    stacked,
                    count as nat,
                ) + visit_each(rest, false, 0));
            }
            i += 1;
        }
        proof {
            assert(node@.children.take(count as int) =~= node@.children);
            assert(node@.floating_children.take(0) =~= Seq::<NodeView>::empty());
        }
        let ghost tiled = visit_each(node@.children, stacked, count as nat);
        let floating_count = node.floating_children.len();
        let mut j: usize = 0;
        proof {
            assert(visit_each(views(q@), false, 0) =~= visit_each(
                node@.floating_children.take(0),
                false,
                0,
            ) + tiled + visit_each(rest, false, 0));
        }
        while j < floating_count
            invariant
                j <= floating_count,
                floating_count == node.floating_children.len(),
                visit_each(views(q@), false, 0) == visit_each(
                    node@.floating_children.take(j as int),
                    false,
                    0,
                ) + tiled + visit_each(rest, false, 0),
                forest_size(views(q@)) == forest_size(rest) + forest_size(node@.children)
                    + forest_size(node@.floating_children.take(j as int)),
                heights_fit_each(views(q@), false, 0),
                heights_fit_each(node@.floating_children, false, 0),
            decreases floating_count - j,
        {
            let ghost below = views(q@);
            let child = node.floating_children[j].clone();
            proof {
                lemma_heights_fit_at(node@.floating_children, false, 0, j as int);
            }
            q.push_back(child);
            proof {
                let prefix = node@.floating_children.take(j as int + 1);
                assert(views(q@) =~= below.push(child@));
                assert(views(q@).drop_last() =~= below);
                assert(prefix.drop_last() =~= node@.floating_children.take(j as int));
                assert(prefix.last() == child@);
                assert(visit_each(views(q@), false, 0) =~= visit_each(prefix, false, 0) + tiled
                    + visit_each(rest, false, 0));
            }
            j += 1;
        }
        proof {
            assert(node@.floating_children.take(floating_count as int)
                =~= node@.floating_children);
            let floating = visit_each(node@.floating_children, false, 0);
            assert(visit_as(node@, node@.layout_mode, node@.decoration_rect.height) == own
                + floating + tiled);
            assert(visit_each(before, false, 0) == own + floating + tiled + visit_each(
                rest,
                false,
                0,
            ));
            assert(views(nodes@) + visit_each(views(q@), false, 0) =~= found + visit_each(
                before,
                false,
                0,
            ));
        }
    }
    proof {
        assert(views(q@) =~= Seq::<NodeView>::empty());
        assert(views(nodes@) =~= visit_as(
            workspace@,
            workspace@.layout_mode,
            workspace@.decoration_rect.height,
        ));
        lemma_visit_reversed(
            workspace@,
            workspace@.layout_mode,
            workspace@.decoration_rect.height,
        );
    }
    let ghost met = nodes@;
    let windows = reversed(nodes);
    proof {
        assert(views(windows@) =~= views(met).reverse());
    }
    windows
}

/// The windows of a workspace as [`get_all_windows`] lists them, where the
/// workspace can be walked; where a decoration height would leave the range
/// of a 32-bit pixel count, there is no list.
pub fn try_get_all_windows(workspace: &WindowTreeNode) -> (windows: Option<Vec<WindowTreeNode>>)
    ensures
        match windows {
            Some(windows) => heights_fit(workspace@) && views(windows@) == leaf_windows(
                workspace@,
            ),
            None => !heights_fit(workspace@),
        },
{
    if decoration_heights_fit(workspace) {
        Some(get_all_windows(workspace))
    } else {
        None
    }
}

/// An output is listed if it has at least one tiled child and is not one of
/// the two virtual outputs that the compositor keeps for itself.
pub open spec fn is_listed_output(node: NodeView) -> bool {
    &&& node.node_kind == NodeKind::Output
    &&& node.children.len() > 0
    &&& match node.name {
        Some(name) => name != "__i3"@ && name != "__i3_scratch"@,
        None => true,
    }
}

/// The listed outputs below `node`, the node itself included, from left to
/// right. Only tiled children are looked at.
pub open spec fn outputs_below(node: NodeView) -> Seq<NodeView>
    decreases node,
{
    outputs_of_each(node.children) + (if is_listed_output(node) {
        seq![node]
    } else {
        Seq::empty()
    })
}

/// The listed outputs below each of `nodes` in turn, from left to right.
pub open spec fn outputs_of_each(nodes: Seq<NodeView>) -> Seq<NodeView>
    decreases nodes,
{
    if nodes.len() == 0 {
        Seq::empty()
    } else {
        outputs_of_each(nodes.drop_last()) + outputs_below(nodes.last())
    }
}

/// The order in which a walk with a stack meets the listed outputs below
/// `node`: the node first, then what lies below its children, last child
/// first.
pub open spec fn outputs_met(node: NodeView) -> Seq<NodeView>
    decreases node,
{
    (if is_listed_output(node) {
        seq![node]
    } else {
        Seq::empty()
    }) + outputs_met_each(node.children)
}

/// The order in which a walk meets the listed outputs below the nodes of a
/// stack, whose top is the last of `nodes`.
pub open spec fn outputs_met_each(nodes: Seq<NodeView>) -> Seq<NodeView>
    decreases nodes,
{
    if nodes.len() == 0 {
        Seq::empty()
    } else {
        outputs_met(nodes.last()) + outputs_met_each(nodes.drop_last())
    }
}

/// Read backwards, the order in which the walk meets the outputs is their
/// order from left to right.
pub proof fn lemma_outputs_met_reversed(node: NodeView)
    ensures
        outputs_met(node).reverse() == outputs_below(node),
    decreases node,
{
    let own = if is_listed_output(node) {
        seq![node]
    } else {
        Seq::empty()
    };
    lemma_outputs_met_each_reversed(node.children);
    lemma_reverse_concat(own, outputs_met_each(node.children));
    assert(own.reverse() =~= own);
}

/// [`lemma_outputs_met_reversed`] for the nodes of a stack.
pub proof fn lemma_outputs_met_each_reversed(nodes: Seq<NodeView>)
    ensures
        outputs_met_each(nodes).reverse() == outputs_of_each(nodes),
    decreases nodes,
{
    if nodes.len() == 0 {
        assert(Seq::<NodeView>::empty().reverse() =~= Seq::<NodeView>::empty());
    } else {
        lemma_outputs_met_reversed(nodes.last());
        lemma_outputs_met_each_reversed(nodes.drop_last());
        lemma_reverse_concat(outputs_met(nodes.last()), outputs_met_each(nodes.drop_last()));
    }
}

/// Whether the node is an output that the walk lists.
fn is_output(node: &WindowTreeNode) -> (listed: bool)
    ensures
        listed == is_listed_output(node@),
{
    if node.node_kind == NodeKind::Output && node.children.len() > 0 {
        match &node.name {
            Some(name) => {
                let root_name = String::from_str("__i3");
                let scratch_name = String::from_str("__i3_scratch");
                !(*name == root_name) && !(*name == scratch_name)
            },
            None => true,
        }
    } else {
        false
    }
}

/// All outputs of the tree, focused or not, from left to right. An output
/// without children is left out, and so are the compositor's virtual
/// outputs.
///
/// The walk keeps the nodes it has still to look at in a queue, which it
/// uses as a stack, so it meets
/// the outputs last one first, and turns the list round at the end.
pub fn get_all_output_nodes(root: &WindowTreeNode) -> (outputs: Vec<WindowTreeNode>)
    ensures
        views(outputs@) == outputs_below(root@),
{
    let mut output_nodes: Vec<WindowTreeNode> = Vec::new();
    let mut q: VecDeque<WindowTreeNode> = VecDeque::new();
    q.push_back(root.clone());
    proof {
        assert(views(q@) =~= seq![root@]);
        assert(views(q@).drop_last() =~= Seq::<NodeView>::empty());
        assert(views(output_nodes@) =~= Seq::<NodeView>::empty());
        assert(outputs_met_each(Seq::<NodeView>::empty()) =~= Seq::<NodeView>::empty());
        assert(views(output_nodes@) + outputs_met_each(views(q@)) =~= outputs_met(root@));
    }
    while q.len() > 0
        invariant
            views(output_nodes@) + outputs_met_each(views(q@)) == outputs_met(root@),
        decreases forest_size(views(q@)),
    {
        let ghost before = views(q@);
        let ghost found = views(output_nodes@);
        let node = q.pop_back().unwrap();
        let ghost rest = views(q@);
        proof {
            assert(rest =~= before.drop_last());
            assert(node@ == before.last());
            assert(forest_size(before) == forest_size(rest) + tree_size(node@));
        }
        if is_output(&node) {
            output_nodes.push(node.clone());
            proof {
                assert(views(output_nodes@) =~= found + seq![node@]);
            }
        }
        let ghost own = if is_listed_output(node@) {
            seq![node@]
        } else {
            Seq::<NodeView>::empty()
        };
        assert(views(output_nodes@) =~= found + own);
        let count = node.children.len();
        let mut i: usize = 0;
        proof {
            assert(node@.children.take(0) =~= Seq::<NodeView>::empty());
            assert(outputs_met_each(views(q@)) =~= outputs_met_each(node@.children.take(0))
                + outputs_met_each(rest));
        }
        while i < count
            invariant
                i <= count,
                count == node.children.len(),
                outputs_met_each(views(q@)) == outputs_met_each(node@.children.take(i as int))
                    + outputs_met_each(rest),
                forest_size(views(q@)) == forest_size(rest) + forest_size(
                    node@.children.take(i as int),
                ),
            decreases count - i,
        {
            let ghost below = views(q@);
            let child = node.children[i].clone();
            q.push_back(child);
            proof {
                let prefix = node@.children.take(i as int + 1);
                assert(views(q@) =~= below.push(child@));
                assert(views(q@).drop_last() =~= below);
                assert(prefix.drop_last() =~= node@.children.take(i as int));
                assert(prefix.last() == child@);
                assert(outputs_met_each(views(q@)) =~= outputs_met_each(prefix)
                    + outputs_met_each(rest));
            }
            i += 1;
        }
        proof {
            assert(node@.children.take(count as int) =~= node@.children);
            assert(outputs_met(node@) == own + outputs_met_each(node@.children));
            assert(outputs_met_each(before) == own + outputs_met_each(node@.children)
                + outputs_met_each(rest));
            assert(views(output_nodes@) + outputs_met_each(views(q@)) =~= found
                + outputs_met_each(before));
        }
    }
    proof {
        assert(views(q@) =~= Seq::<NodeView>::empty());
        assert(views(output_nodes@) =~= outputs_met(root@));
        lemma_outputs_met_reversed(root@);
    }
    let ghost met = output_nodes@;
    let outputs = reversed(output_nodes);
    proof {
        assert(views(outputs@) =~= views(met).reverse());
    }
    outputs
}

/// Why a walk over the tree failed.
#[derive(Clone, Copy, Debug, PartialEq, Eq, Structural)]
pub enum WalkError {
    /// The chain of focused nodes below an output ends before it reaches a
    /// workspace.
    NoFocusedWorkspace,
}

impl WalkError {
    /// The error in words.
    pub fn message(&self) -> (text: String)
        ensures
            text@ == "could not find focused workspace"@,
    {
        String::from_str("could not find focused workspace")
    }
}

/// Whether `nodes[i]` is the first of `nodes` with the id `id`.
pub open spec fn is_first_with_id(nodes: Seq<NodeView>, id: i64, i: int) -> bool {
    &&& 0 <= i < nodes.len()
    &&& nodes[i].id == id
    &&& forall|j: int| 0 <= j < i ==> nodes[j].id != id
}

/// Whether one of `nodes` has the id `id`.
pub open spec fn has_id(nodes: Seq<NodeView>, id: i64) -> bool {
    exists|i: int| is_first_with_id(nodes, id, i)
}

/// The place of the first of `nodes` with the id `id`.
pub open spec fn first_with_id(nodes: Seq<NodeView>, id: i64) -> int {
    choose|i: int| is_first_with_id(nodes, id, i)
}

/// The workspace at the end of the chain of focused nodes that starts at
/// `node`. A workspace is its own focused workspace. Any other node hands the
/// search on to its focused child: the first tiled child, or else the first
/// floating child, whose id heads the node's focus order. The chain breaks
/// where the focus order is empty or names no child.
pub open spec fn focused_workspace(node: NodeView) -> Option<NodeView>
    decreases node,
{
    if node.node_kind == NodeKind::Workspace {
        Some(node)
    } else if node.focus.len() == 0 {
        None
    } else if has_id(node.children, node.focus[0]) {
        let i = first_with_id(node.children, node.focus[0]);
        if 0 <= i < node.children.len() {
            focused_workspace(node.children[i])
        } else {
            None
        }
    } else if has_id(node.floating_children, node.focus[0]) {
        let i = first_with_id(node.floating_children, node.focus[0]);
        if 0 <= i < node.floating_children.len() {
            focused_workspace(node.floating_children[i])
        } else {
            None
        }
    } else {
        None
    }
}

/// The place of the first of `nodes` with the id `id`, if there is one.
fn find_with_id(nodes: &Vec<WindowTreeNode>, id: i64) -> (place: Option<usize>)
    ensures
        match place {
            Some(i) => is_first_with_id(views(nodes@), id, i as int),
            None => !has_id(views(nodes@), id),
        },
{
    let mut i: usize = 0;
    while i < nodes.len()
        invariant
            i <= nodes.len(),
            forall|j: int| 0 <= j < i ==> views(nodes@)[j].id != id,
        decreases nodes.len() - i,
    {
        if nodes[i].id == id {
            return Some(i);
        }
        i += 1;
    }
    None
}

/// The focused workspace of an output: the workspace at the end of the chain
/// of focused nodes that starts at the output. Without one the walk fails.
pub fn get_focused_workspace(output: &WindowTreeNode) -> (found: Result<
    WindowTreeNode,
    WalkError,
>)
    ensures
        match found {
            Ok(workspace) => focused_workspace(output@) == Some(workspace@),
            Err(error) => error == WalkError::NoFocusedWorkspace && focused_workspace(output@)
                is None,
        },
{
    let mut current: &WindowTreeNode = output;
    loop
        invariant
            focused_workspace(output@) == focused_workspace(current@),
        decreases current,
    {
        if current.node_kind == NodeKind::Workspace {
            return Ok(current.clone());
        }
        if current.focus.len() == 0 {
            return Err(WalkError::NoFocusedWorkspace);
        }
        let first = current.focus[0];
        proof {
            assert(views(current.children@) =~= current@.children);
            assert(views(current.floating_children@) =~= current@.floating_children);
        }
        match find_with_id(&current.children, first) {
            Some(i) => {
                proof {
                    assert(is_first_with_id(current@.children, first, i as int));
                    let chosen = first_with_id(current@.children, first);
                    assert(is_first_with_id(current@.children, first, chosen));
                    assert(chosen == i);
                }
                current = &current.children[i];
            },
            None => match find_with_id(&current.floating_children, first) {
                Some(i) => {
                    proof {
                        assert(is_first_with_id(current@.floating_children, first, i as int));
                        let chosen = first_with_id(current@.floating_children, first);
                        assert(is_first_with_id(current@.floating_children, first, chosen));
                        assert(chosen == i);
                    }
                    current = &current.floating_children[i];
                },
                None => {
                    return Err(WalkError::NoFocusedWorkspace);
                },
            },
        }
    }
}

/// Checks [`heights_fit_as`].
fn heights_fit_below(node: &WindowTreeNode, layout: LayoutMode) -> (fit: bool)
    ensures
        fit == heights_fit_as(node@, layout),
    decreases node,
{
    let stacked = node.node_kind == NodeKind::Container && layout == LayoutMode::Stacked;
    let count = node.children.len();
    let mut i: usize = 0;
    proof {
        assert(node@.children.take(0) =~= Seq::<NodeView>::empty());
    }
    while i < count
        invariant
            i <= count,
            count == node.children.len(),
            stacked == stacks(node@.node_kind, layout),
            heights_fit_each(node@.children.take(i as int), stacked, count as nat),
        decreases count - i,
    {
        let child = &node.children[i];
        let seen = if stacked {
            LayoutMode::Stacked
        } else {
            child.layout_mode
        };
        let product: i128 = if stacked {
            assert(-0x8000_0000_0000_0000_0000_0000 <= child.decoration_rect.height * count
                <= 0x8000_0000_0000_0000_0000_0000) by (nonlinear_arith)
                requires
                    -0x8000_0000 <= child.decoration_rect.height <= 0x8000_0000,
                    0 <= count <= 0x1_0000_0000_0000_0000,
            ;
            (child.decoration_rect.height as i128) * (count as i128)
        } else {
            child.decoration_rect.height as i128
        };
        let fit = -0x8000_0000 <= product && product <= 0x7fff_ffff && heights_fit_below(
            child,
            seen,
        );
        if !fit {
            proof {
                if heights_fit_each(node@.children, stacked, count as nat) {
                    lemma_heights_fit_at(node@.children, stacked, count as nat, i as int);
                }
            }
            return false;
        }
        proof {
            let prefix = node@.children.take(i as int + 1);
            assert(prefix.drop_last() =~= node@.children.take(i as int));
            assert(prefix.last() == child@);
        }
        i += 1;
    }
    proof {
        assert(node@.children.take(count as int) =~= node@.children);
        assert(node@.floating_children.take(0) =~= Seq::<NodeView>::empty());
    }
    let floating_count = node.floating_children.len();
    let mut j: usize = 0;
    while j < floating_count
        invariant
            j <= floating_count,
            floating_count == node.floating_children.len(),
            heights_fit_each(node@.children, stacks(node@.node_kind, layout), count as nat),
            count == node.children.len(),
            heights_fit_each(node@.floating_children.take(j as int), false, 0),
        decreases floating_count - j,
    {
        let child = &node.floating_children[j];
        if !heights_fit_below(child, child.layout_mode) {
            proof {
                if heights_fit_each(node@.floating_children, false, 0) {
                    lemma_heights_fit_at(node@.floating_children, false, 0, j as int);
                }
            }
            return false;
        }
        proof {
            let prefix = node@.floating_children.take(j as int + 1);
            assert(prefix.drop_last() =~= node@.floating_children.take(j as int));
            assert(prefix.last() == child@);
        }
        j += 1;
    }
    proof {
        assert(node@.floating_children.take(floating_count as int) =~= node@.floating_children);
    }
    true
}

/// Whether [`get_all_windows`] can walk the node: whether every decoration
/// height that the walk multiplies stays a 32-bit pixel count.
pub fn decoration_heights_fit(node: &WindowTreeNode) -> (fit: bool)
    ensures
        fit == heights_fit(node@),
{
    heights_fit_below(node, node.layout_mode)
}

/// The compositor command that focuses a container.
pub open spec fn focus_command(con_id: i64) -> Seq<char> {
    "[con_id="@ + decimal(con_id as int) + "] focus"@
}

/// The compositor command that swaps the focused container with another.
pub open spec fn swap_command(con_id: i64) -> Seq<char> {
    "swap container with con_id "@ + decimal(con_id as int)
}

/// The text of the command that focuses the container `con_id`.
pub fn focus(con_id: i64) -> (command: String)
    ensures
        command@ == focus_command(con_id),
{
    let mut command = String::from_str("[con_id=");
    push_decimal(&mut command, con_id);
    command.append("] focus");
    command
}

/// The text of the command that swaps the focused container with the
/// container `con_id`.
pub fn swap(con_id: i64) -> (command: String)
    ensures
        command@ == swap_command(con_id),
{
    let mut command = String::from_str("swap container with con_id ");
    push_decimal(&mut command, con_id);
    command
}

} // verus!
