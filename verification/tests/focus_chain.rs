use sway_easyfocus::sway::{get_focused_workspace, WalkError};
use sway_easyfocus::tree::{LayoutMode, NodeKind, Rect, WindowTreeNode};
use swayipc::{Node, NodeLayout, NodeType};

fn json(id: i64, kind: &str, focus: &[i64], nodes: &[String], floating: &[String]) -> String {
    let rect = r#"{"x":0,"y":0,"width":10,"height":10}"#;
    let head = format!(
        r#""id":{},"type":"{}","border":"normal","current_border_width":2,"layout":"splith""#,
        id, kind
    );
    let rects = format!(
        r#""rect":{},"window_rect":{},"deco_rect":{},"geometry":{}"#,
        rect, rect, rect, rect
    );
    let tail = format!(
        r#""urgent":false,"focused":false,"focus":{:?},"nodes":[{}],"floating_nodes":[{}],"sticky":false"#,
        focus,
        nodes.join(","),
        floating.join(",")
    );
    format!("{{{},{},{}}}", head, rects, tail)
}

fn rect_of(r: &swayipc::Rect) -> Rect {
    Rect { x: r.x, y: r.y, width: r.width, height: r.height }
}

fn tree_of(node: &Node) -> WindowTreeNode {
    WindowTreeNode {
        id: node.id,
        node_kind: match node.node_type {
            NodeType::Root => NodeKind::Root,
            NodeType::Output => NodeKind::Output,
            NodeType::Workspace => NodeKind::Workspace,
            NodeType::Con => NodeKind::Container,
            NodeType::FloatingCon => NodeKind::FloatingContainer,
            _ => NodeKind::Other,
        },
        outer_rect: rect_of(&node.rect),
        content_rect: rect_of(&node.window_rect),
        decoration_rect: rect_of(&node.deco_rect),
        layout_mode: match node.layout {
            NodeLayout::SplitH | NodeLayout::SplitV => LayoutMode::Tiled,
            NodeLayout::Stacked => LayoutMode::Stacked,
            NodeLayout::Tabbed => LayoutMode::Tabbed,
            _ => LayoutMode::NoLayout,
        },
        focused: node.focused,
        focus: node.focus.clone(),
        children: node.nodes.iter().map(tree_of).collect(),
        floating_children: node.floating_nodes.iter().map(tree_of).collect(),
        name: node.name.clone(),
    }
}

fn agrees(text: &str) -> Option<i64> {
    let node: Node = serde_json::from_str(text).unwrap();
    let ours = get_focused_workspace(&tree_of(&node));
    let theirs = node.find_focused(|n| n.node_type == NodeType::Workspace);
    match (&ours, &theirs) {
        (Ok(a), Some(b)) => assert_eq!(*a, tree_of(b)),
        (Err(WalkError::NoFocusedWorkspace), None) => {}
        _ => panic!("{:?} against {:?}", ours, theirs),
    }
    theirs.map(|n| n.id)
}

#[test]
fn focus_chain_agrees_with_the_compositor_client() {
    let w = |id: i64| json(id, "con", &[], &[], &[]);
    let ws = |id: i64, focus: &[i64], nodes: &[String]| json(id, "workspace", focus, nodes, &[]);

    // the head of the focus order decides, not the order of the children
    let out = json(1, "output", &[12, 11], &[ws(11, &[], &[w(111)]), ws(12, &[], &[])], &[]);
    assert_eq!(agrees(&out), Some(12));
    // a workspace is its own focused workspace
    assert_eq!(agrees(&ws(11, &[5], &[w(5)])), Some(11));
    // the chain runs through containers
    let deep = json(1, "root", &[2], &[json(2, "output", &[3], &[json(3, "con", &[4], &[ws(4, &[], &[])], &[])], &[])], &[]);
    assert_eq!(agrees(&deep), Some(4));
    // no focus order, or one that names no child
    assert_eq!(agrees(&json(1, "output", &[], &[ws(11, &[], &[])], &[])), None);
    assert_eq!(agrees(&json(1, "output", &[99], &[ws(11, &[], &[])], &[])), None);
    // the chain ends in a window
    assert_eq!(agrees(&json(1, "output", &[5], &[w(5), ws(11, &[], &[])], &[])), None);
    // a floating child is looked at after the tiled ones
    let floating = json(1, "output", &[7], &[w(5)], &[ws(7, &[], &[])]);
    assert_eq!(agrees(&floating), Some(7));
    let both = json(1, "output", &[7], &[json(7, "con", &[], &[], &[])], &[ws(7, &[], &[])]);
    assert_eq!(agrees(&both), None);
    // of two children with one id the first is followed
    let twice = json(1, "output", &[7], &[json(7, "con", &[8], &[ws(8, &[], &[])], &[]), ws(7, &[], &[])], &[]);
    assert_eq!(agrees(&twice), Some(8));
}
