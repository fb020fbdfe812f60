use sway_easyfocus::sway::{
    decoration_heights_fit, focus, get_all_output_nodes, get_all_windows, get_focused_workspace,
    swap, try_get_all_windows, WalkError,
};
use sway_easyfocus::tree::{LayoutMode, NodeKind, Rect, WindowTreeNode};

fn rect(x: i32, y: i32, width: i32, height: i32) -> Rect {
    Rect { x, y, width, height }
}

fn node(id: i64, kind: NodeKind, layout: LayoutMode, children: Vec<WindowTreeNode>) -> WindowTreeNode {
    WindowTreeNode {
        id,
        node_kind: kind,
        outer_rect: rect(0, 0, 100, 100),
        content_rect: rect(0, 0, 100, 100),
        decoration_rect: rect(0, 0, 100, 20),
        layout_mode: layout,
        focused: false,
        focus: children.iter().map(|c| c.id).collect(),
        children,
        floating_children: vec![],
        name: None,
    }
}

fn window(id: i64) -> WindowTreeNode {
    node(id, NodeKind::Container, LayoutMode::NoLayout, vec![])
}

fn ids(nodes: &[WindowTreeNode]) -> Vec<i64> {
    nodes.iter().map(|n| n.id).collect()
}

#[test]
fn windows_come_out_left_to_right() {
    let inner = node(5, NodeKind::Container, LayoutMode::Tiled, vec![window(6), window(7)]);
    let mut ws = node(
        1,
        NodeKind::Workspace,
        LayoutMode::Tiled,
        vec![window(2), inner, window(8)],
    );
    let mut floating = window(9);
    floating.node_kind = NodeKind::FloatingContainer;
    ws.floating_children = vec![floating, window(10)];
    assert!(decoration_heights_fit(&ws));
    assert_eq!(ids(&get_all_windows(&ws)), vec![2, 6, 7, 8, 9, 10]);
}

#[test]
fn stacked_children_get_the_whole_strip() {
    let stack = node(
        5,
        NodeKind::Container,
        LayoutMode::Stacked,
        vec![window(6), window(7), window(8)],
    );
    let ws = node(1, NodeKind::Workspace, LayoutMode::Tiled, vec![stack, window(9)]);
    let windows = get_all_windows(&ws);
    assert_eq!(ids(&windows), vec![6, 7, 8, 9]);
    for w in &windows[0..3] {
        assert_eq!(w.layout_mode, LayoutMode::Stacked);
        assert_eq!(w.decoration_rect.height, 60);
    }
    assert_eq!(windows[3].layout_mode, LayoutMode::NoLayout);
    assert_eq!(windows[3].decoration_rect.height, 20);
}

#[test]
fn command_texts() {
    assert_eq!(focus(20), "[con_id=20] focus");
    assert_eq!(swap(30), "swap container with con_id 30");
    assert_eq!(focus(0), "[con_id=0] focus");
    assert_eq!(focus(-1205), "[con_id=-1205] focus");
    assert_eq!(swap(i64::MIN), "swap container with con_id -9223372036854775808");
    assert_eq!(swap(i64::MAX), "swap container with con_id 9223372036854775807");
}

#[test]
fn outputs_and_focused_workspace() {
    let ws1 = node(11, NodeKind::Workspace, LayoutMode::Tiled, vec![window(12)]);
    let ws2 = node(13, NodeKind::Workspace, LayoutMode::Tiled, vec![window(14)]);
    let mut out1 = node(10, NodeKind::Output, LayoutMode::NoLayout, vec![ws1, ws2]);
    out1.focus = vec![13, 11];
    let mut virt = node(
        20,
        NodeKind::Output,
        LayoutMode::NoLayout,
        vec![node(21, NodeKind::Workspace, LayoutMode::Tiled, vec![])],
    );
    virt.name = Some("__i3".to_string());
    let empty = node(30, NodeKind::Output, LayoutMode::NoLayout, vec![]);
    let out2 = node(
        40,
        NodeKind::Output,
        LayoutMode::NoLayout,
        vec![node(41, NodeKind::Workspace, LayoutMode::Tiled, vec![])],
    );
    let root = node(1, NodeKind::Root, LayoutMode::NoLayout, vec![virt, out1, empty, out2]);
    let outputs = get_all_output_nodes(&root);
    assert_eq!(ids(&outputs), vec![10, 40]);
    assert_eq!(get_focused_workspace(&outputs[0]).unwrap().id, 13);
    assert_eq!(get_focused_workspace(&outputs[1]).unwrap().id, 41);
    let mut lost = node(50, NodeKind::Output, LayoutMode::NoLayout, vec![window(51)]);
    assert_eq!(get_focused_workspace(&lost), Err(WalkError::NoFocusedWorkspace));
    lost.focus = vec![];
    assert_eq!(get_focused_workspace(&lost), Err(WalkError::NoFocusedWorkspace));
}

fn floating(id: i64) -> WindowTreeNode {
    node(id, NodeKind::FloatingContainer, LayoutMode::NoLayout, vec![])
}

/// The windows from left to right, by plain recursion.
fn in_order(node: &WindowTreeNode, layout: LayoutMode, height: i32, out: &mut Vec<(i64, LayoutMode, i32)>) {
    let stacked = node.node_kind == NodeKind::Container && layout == LayoutMode::Stacked;
    let count = node.children.len() as i32;
    for child in &node.children {
        if stacked {
            in_order(child, LayoutMode::Stacked, child.decoration_rect.height * count, out);
        } else {
            in_order(child, child.layout_mode, child.decoration_rect.height, out);
        }
    }
    for child in &node.floating_children {
        in_order(child, child.layout_mode, child.decoration_rect.height, out);
    }
    let leaf = node.node_kind == NodeKind::Container || node.node_kind == NodeKind::FloatingContainer;
    if leaf && node.children.is_empty() {
        out.push((node.id, layout, height));
    }
}

fn busy_workspace() -> WindowTreeNode {
    let tabbed = node(30, NodeKind::Container, LayoutMode::Tabbed, vec![window(31), window(32)]);
    let inner = node(22, NodeKind::Container, LayoutMode::Tiled, vec![window(23), tabbed, window(24)]);
    let stack = node(
        20,
        NodeKind::Container,
        LayoutMode::Stacked,
        vec![window(21), inner, window(25)],
    );
    let mut holder = window(40);
    holder.floating_children = vec![floating(41)];
    let mut ws = node(
        1,
        NodeKind::Workspace,
        LayoutMode::Tiled,
        vec![window(10), stack, holder, window(50)],
    );
    let mut group = node(60, NodeKind::FloatingContainer, LayoutMode::Stacked, vec![window(61)]);
    group.floating_children = vec![floating(62)];
    ws.floating_children = vec![floating(70), group, floating(80)];
    ws
}

#[test]
fn walk_agrees_with_plain_recursion() {
    let ws = busy_workspace();
    let before = ws.clone();
    assert!(decoration_heights_fit(&ws));
    let walked: Vec<(i64, LayoutMode, i32)> = get_all_windows(&ws)
        .iter()
        .map(|w| (w.id, w.layout_mode, w.decoration_rect.height))
        .collect();
    let mut expected = vec![];
    in_order(&ws, ws.layout_mode, ws.decoration_rect.height, &mut expected);
    assert_eq!(walked, expected);
    assert_eq!(
        walked.iter().map(|w| w.0).collect::<Vec<i64>>(),
        vec![10, 21, 23, 31, 32, 24, 25, 41, 40, 50, 70, 61, 62, 80]
    );
    // the tree itself is left as it was
    assert_eq!(ws, before);
}

#[test]
fn every_window_comes_once() {
    let ws = busy_workspace();
    let mut ids = ids(&get_all_windows(&ws));
    let count = ids.len();
    ids.sort();
    ids.dedup();
    assert_eq!(ids.len(), count);
    assert_eq!(count, 14);
}

#[test]
fn stacking_is_handed_down() {
    let ws = busy_workspace();
    let windows = get_all_windows(&ws);
    let seen = |id: i64| {
        let w = windows.iter().find(|w| w.id == id).unwrap();
        (w.layout_mode, w.decoration_rect.height)
    };
    // direct children of the stack of three
    assert_eq!(seen(21), (LayoutMode::Stacked, 60));
    assert_eq!(seen(25), (LayoutMode::Stacked, 60));
    // the container below the stack is seen as stacked, and stacks its own three
    assert_eq!(seen(23), (LayoutMode::Stacked, 60));
    assert_eq!(seen(24), (LayoutMode::Stacked, 60));
    // and so on below: the tabbed container holds two
    assert_eq!(seen(31), (LayoutMode::Stacked, 40));
    // a floating container never stacks, whatever its layout
    assert_eq!(seen(61), (LayoutMode::NoLayout, 20));
    assert_eq!(seen(10), (LayoutMode::NoLayout, 20));
    // floating children are handed on as they are
    assert_eq!(seen(41), (LayoutMode::NoLayout, 20));
}

#[test]
fn what_counts_as_a_window() {
    // an empty workspace holds no window, and is none itself
    let empty = node(1, NodeKind::Workspace, LayoutMode::Tiled, vec![]);
    assert!(get_all_windows(&empty).is_empty());
    // a container without children is a window, also as the start of a walk
    assert_eq!(ids(&get_all_windows(&window(5))), vec![5]);
    assert_eq!(ids(&get_all_windows(&floating(6))), vec![6]);
    // other kinds are not
    for kind in [NodeKind::Root, NodeKind::Output, NodeKind::Workspace, NodeKind::Other] {
        assert!(get_all_windows(&node(7, kind, LayoutMode::Tiled, vec![])).is_empty());
    }
    // a container with children is no window
    let group = node(8, NodeKind::Container, LayoutMode::Tiled, vec![window(9)]);
    assert_eq!(ids(&get_all_windows(&group)), vec![9]);
}

#[test]
fn heights_that_do_not_fit() {
    let mut tall = window(2);
    tall.decoration_rect.height = i32::MAX / 3 + 1;
    let stack = node(
        1,
        NodeKind::Container,
        LayoutMode::Stacked,
        vec![tall.clone(), window(3), window(4)],
    );
    assert!(!decoration_heights_fit(&stack));
    // without stacking nothing is multiplied
    let tiled = node(1, NodeKind::Container, LayoutMode::Tiled, vec![tall.clone(), window(3)]);
    assert!(decoration_heights_fit(&tiled));
    assert_eq!(get_all_windows(&tiled)[0].decoration_rect.height, i32::MAX / 3 + 1);
    // the ends of the range
    let mut low = window(2);
    low.decoration_rect.height = i32::MIN / 2;
    let pair = node(1, NodeKind::Container, LayoutMode::Stacked, vec![low.clone(), window(3)]);
    assert!(decoration_heights_fit(&pair));
    assert_eq!(get_all_windows(&pair)[0].decoration_rect.height, i32::MIN);
    low.decoration_rect.height = i32::MIN / 2 - 1;
    let pair = node(1, NodeKind::Container, LayoutMode::Stacked, vec![low, window(3)]);
    assert!(!decoration_heights_fit(&pair));
    // deep below a workspace
    let ws = node(
        9,
        NodeKind::Workspace,
        LayoutMode::Tiled,
        vec![node(8, NodeKind::Container, LayoutMode::Tabbed, vec![stack])],
    );
    assert!(!decoration_heights_fit(&ws));
    // a height of zero fits whatever the group
    let mut flat = window(2);
    flat.decoration_rect.height = 0;
    let zero = node(1, NodeKind::Container, LayoutMode::Stacked, vec![flat, window(3)]);
    assert!(decoration_heights_fit(&zero));
    assert_eq!(get_all_windows(&zero)[0].decoration_rect.height, 0);
}

#[test]
fn outputs_come_out_left_to_right() {
    let ws = |id: i64| node(id, NodeKind::Workspace, LayoutMode::Tiled, vec![]);
    let out = |id: i64, name: &str| {
        let mut o = node(id, NodeKind::Output, LayoutMode::NoLayout, vec![ws(id + 1)]);
        o.name = Some(name.to_string());
        o
    };
    let mut hidden = node(90, NodeKind::Workspace, LayoutMode::Tiled, vec![]);
    hidden.floating_children = vec![out(91, "floating")];
    let root = node(
        1,
        NodeKind::Root,
        LayoutMode::NoLayout,
        vec![
            out(10, "__i3"),
            out(20, "eDP-1"),
            out(30, "__i3_scratch"),
            out(40, "HDMI-A-1"),
            out(50, "__i3_"),
            out(60, ""),
            hidden,
        ],
    );
    let before = root.clone();
    assert_eq!(ids(&get_all_output_nodes(&root)), vec![20, 40, 50, 60]);
    assert_eq!(root, before);
    // an output below an output comes before it
    let mut outer = out(70, "outer");
    outer.children.push(out(80, "inner"));
    assert_eq!(ids(&get_all_output_nodes(&outer)), vec![80, 70]);
    // a tree without outputs
    assert!(get_all_output_nodes(&ws(5)).is_empty());
}

#[test]
fn a_copy_is_deep() {
    let ws = busy_workspace();
    let mut copy = ws.clone();
    assert_eq!(copy, ws);
    copy.children[1].children[1].children[0].id = 99;
    copy.name = Some("copy".to_string());
    assert_ne!(copy, ws);
    assert_eq!(ws.children[1].children[1].children[0].id, 23);
    assert_eq!(ws.name, None);
}

#[test]
fn focused_workspace_is_a_copy_of_the_node() {
    let mut ws = busy_workspace();
    ws.name = Some("2: web".to_string());
    ws.focused = true;
    let mut out = node(100, NodeKind::Output, LayoutMode::NoLayout, vec![ws.clone()]);
    out.focus = vec![1];
    assert_eq!(get_focused_workspace(&out), Ok(ws));
}

#[test]
fn a_walk_that_tells_whether_the_heights_fit() {
    let ws = busy_workspace();
    assert_eq!(try_get_all_windows(&ws), Some(get_all_windows(&ws)));
    let mut tall = window(2);
    tall.decoration_rect.height = i32::MAX;
    let stack = node(1, NodeKind::Container, LayoutMode::Stacked, vec![tall, window(3)]);
    assert_eq!(try_get_all_windows(&stack), None);
    let empty = node(1, NodeKind::Workspace, LayoutMode::Tiled, vec![]);
    assert_eq!(try_get_all_windows(&empty), Some(vec![]));
}
