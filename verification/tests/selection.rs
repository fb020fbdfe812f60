use sway_easyfocus::cli::{Command, Settings};
use sway_easyfocus::sway::WalkError;
use sway_easyfocus::tree::{LayoutMode, NodeKind, Rect, WindowTreeNode};
use sway_easyfocus::selection::{
    execute, handle_keypress, resolve_key, Action, Event, Phase, Selection, SelectionOutcome,
    CONFIRMATION_MILLIS,
};
use sway_easyfocus::ui::{build_ui, can_build_ui, try_build_ui};
use std::collections::HashMap;

fn rect(x: i32, y: i32, width: i32, height: i32) -> Rect {
    Rect { x, y, width, height }
}

fn node(id: i64, kind: NodeKind, outer: Rect, children: Vec<WindowTreeNode>) -> WindowTreeNode {
    WindowTreeNode {
        id,
        node_kind: kind,
        outer_rect: outer,
        content_rect: rect(0, 0, outer.width, outer.height),
        decoration_rect: rect(0, 0, outer.width, 20),
        layout_mode: LayoutMode::Tiled,
        focused: false,
        focus: children.iter().map(|c| c.id).collect(),
        children,
        floating_children: vec![],
        name: None,
    }
}

fn window(id: i64, outer: Rect) -> WindowTreeNode {
    node(id, NodeKind::Container, outer, vec![])
}

/// One output at `x` with one workspace that holds the given windows side
/// by side.
fn output(id: i64, x: i32, window_ids: &[i64]) -> WindowTreeNode {
    let windows = window_ids
        .iter()
        .enumerate()
        .map(|(i, w)| window(*w, rect(x + 500 * i as i32, 30, 500, 1050)))
        .collect();
    let workspace = node(id + 1, NodeKind::Workspace, rect(x, 0, 1920, 1080), windows);
    node(id, NodeKind::Output, rect(x, 0, 1920, 1080), vec![workspace])
}

fn root(outputs: Vec<WindowTreeNode>) -> WindowTreeNode {
    node(1, NodeKind::Root, rect(0, 0, 3840, 1080), outputs)
}

fn settings(chars: &str, command: Command, show_confirmation: bool) -> Settings {
    Settings {
        chars: chars.to_string(),
        label_margin_x: 4,
        label_margin_y: 2,
        show_confirmation,
        command,
    }
}

fn shown(tree: &WindowTreeNode, settings: &Settings) -> Selection {
    assert!(can_build_ui(tree));
    let mut selection = build_ui(tree, settings).unwrap();
    assert_eq!(selection.phase, Phase::Idle);
    assert_eq!(selection.step(&Event::Activated), vec![Action::ShowOverlays]);
    assert_eq!(selection.phase, Phase::Shown);
    selection
}

fn key(name: &str) -> Event {
    Event::KeyPressed(name.to_string())
}

#[test]
fn default_settings() {
    let settings = Settings::default();
    assert_eq!(settings.chars, "fjghdkslaemuvitywoqpcbnxz");
    assert_eq!(settings.chars.chars().count(), 25);
    assert_eq!(settings.label_margin_x, 4);
    assert_eq!(settings.label_margin_y, 2);
    assert!(settings.show_confirmation);
    assert_eq!(settings.command, Command::Focus);
    assert_eq!(CONFIRMATION_MILLIS, 500);
}

#[test]
fn focus_the_second_of_two_windows_with_confirmation() {
    let tree = root(vec![output(2, 0, &[10, 20])]);
    let mut selection = shown(&tree, &settings("ab", Command::Focus, true));
    assert_eq!(selection.assignment.overlays.len(), 1);
    let actions = selection.step(&key("b"));
    assert_eq!(
        actions,
        vec![
            Action::RunCommand("[con_id=20] focus".to_string()),
            Action::HideOverlays,
            Action::ShowConfirmation { overlay: 0, label: 1 },
            Action::Wait(500),
        ]
    );
    assert_eq!(selection.phase, Phase::Confirming);
    assert_eq!(selection.outcome, Some(SelectionOutcome::Matched(20, Command::Focus)));
    // the confirmation sits at the anchor of window 20
    let label = &selection.assignment.overlays[0].labels[1];
    assert_eq!(label.window.id, 20);
    assert_eq!(label.hint, 'b');
    assert_eq!((label.x, label.y), (500 + 4, 30 - (20 - 2)));
    // keys are no longer listened to
    assert_eq!(selection.step(&key("a")), vec![]);
    assert_eq!(selection.phase, Phase::Confirming);
    assert_eq!(selection.step(&Event::ConfirmationElapsed), vec![Action::CloseAll]);
    assert_eq!(selection.phase, Phase::Closed);
    assert_eq!(selection.step(&Event::ConfirmationElapsed), vec![]);
    assert_eq!(selection.step(&key("b")), vec![]);
    assert_eq!(selection.step(&Event::Activated), vec![]);
    assert_eq!(selection.phase, Phase::Closed);
}

#[test]
fn focus_the_second_of_two_windows_without_confirmation() {
    let tree = root(vec![output(2, 0, &[10, 20])]);
    let mut selection = shown(&tree, &settings("ab", Command::Focus, false));
    assert_eq!(
        selection.step(&key("b")),
        vec![Action::RunCommand("[con_id=20] focus".to_string()), Action::CloseAll]
    );
    assert_eq!(selection.phase, Phase::Closed);
    assert_eq!(selection.outcome, Some(SelectionOutcome::Matched(20, Command::Focus)));
    assert_eq!(selection.step(&Event::ConfirmationElapsed), vec![]);
}

#[test]
fn swap_and_focus_issues_two_commands_in_order() {
    let mut tree = root(vec![output(2, 0, &[10, 20, 30])]);
    tree.children[0].children[0].children[0].focused = true;
    let mut selection = shown(&tree, &settings("xyz", Command::Swap { focus: true }, false));
    assert_eq!(
        selection.step(&key("z")),
        vec![
            Action::RunCommand("swap container with con_id 30".to_string()),
            Action::RunCommand("[con_id=30] focus".to_string()),
            Action::CloseAll,
        ]
    );
    assert_eq!(selection.phase, Phase::Closed);
}

#[test]
fn commands_one_by_one() {
    assert_eq!(
        execute(&Command::Focus, 7),
        vec![Action::RunCommand("[con_id=7] focus".to_string())]
    );
    assert_eq!(
        execute(&Command::Swap { focus: false }, 7),
        vec![Action::RunCommand("swap container with con_id 7".to_string())]
    );
    assert_eq!(
        execute(&Command::Swap { focus: true }, 7),
        vec![
            Action::RunCommand("swap container with con_id 7".to_string()),
            Action::RunCommand("[con_id=7] focus".to_string()),
        ]
    );
    assert_eq!(execute(&Command::Print, 7), vec![Action::Print(7)]);
}

#[test]
fn print_issues_no_compositor_command() {
    let tree = root(vec![output(2, 0, &[10, 20])]);
    let mut selection = shown(&tree, &settings("ab", Command::Print, true));
    assert_eq!(
        selection.step(&key("a")),
        vec![
            Action::Print(10),
            Action::HideOverlays,
            Action::ShowConfirmation { overlay: 0, label: 0 },
            Action::Wait(500),
        ]
    );
}

#[test]
fn no_windows_no_surface() {
    let tree = root(vec![output(2, 0, &[])]);
    assert!(can_build_ui(&tree));
    let mut selection = build_ui(&tree, &Settings::default()).unwrap();
    assert!(selection.assignment.overlays.is_empty());
    assert!(selection.assignment.key_to_con_id.is_empty());
    assert_eq!(selection.step(&Event::Activated), vec![]);
    assert_eq!(selection.phase, Phase::Closed);
    assert_eq!(selection.outcome, None);
    assert_eq!(selection.step(&key("f")), vec![]);
    assert_eq!(selection.phase, Phase::Closed);
}

#[test]
fn keys_that_select_nothing_close_at_once() {
    for name in ["c", "B", "1", "", "ab", "Escape", "space", "é", " ", "aa"] {
        let tree = root(vec![output(2, 0, &[10, 20])]);
        let mut selection = shown(&tree, &settings("ab", Command::Focus, true));
        assert_eq!(selection.step(&key(name)), vec![Action::CloseAll], "key {:?}", name);
        assert_eq!(selection.phase, Phase::Closed);
        assert_eq!(selection.outcome, Some(SelectionOutcome::Unmatched));
    }
}

#[test]
fn a_hint_that_is_no_lowercase_letter_cannot_be_pressed() {
    let tree = root(vec![output(2, 0, &[10, 20, 30])]);
    let mut selection = shown(&tree, &settings("A1c", Command::Focus, false));
    assert_eq!(selection.assignment.lookup('A'), Some(10));
    assert_eq!(selection.step(&key("A")), vec![Action::CloseAll]);
    assert_eq!(selection.outcome, Some(SelectionOutcome::Unmatched));
}

#[test]
fn keypress_against_a_map() {
    let mut keys: HashMap<u32, i64> = HashMap::new();
    keys.insert('a' as u32, 10);
    keys.insert('z' as u32, 26);
    keys.insert('Q' as u32, 17);
    let swap = Command::Swap { focus: false };
    assert_eq!(handle_keypress(&keys, "a", &swap), SelectionOutcome::Matched(10, swap));
    assert_eq!(handle_keypress(&keys, "z", &Command::Print), SelectionOutcome::Matched(26, Command::Print));
    assert_eq!(handle_keypress(&keys, "b", &swap), SelectionOutcome::Unmatched);
    assert_eq!(handle_keypress(&keys, "Q", &swap), SelectionOutcome::Unmatched);
    assert_eq!(handle_keypress(&keys, "az", &swap), SelectionOutcome::Unmatched);
    assert_eq!(handle_keypress(&keys, "", &swap), SelectionOutcome::Unmatched);
    assert_eq!(handle_keypress(&keys, "`", &swap), SelectionOutcome::Unmatched);
    assert_eq!(handle_keypress(&keys, "{", &swap), SelectionOutcome::Unmatched);
}

#[test]
fn a_key_on_one_output_selects_a_window_of_another() {
    let tree = root(vec![output(2, 0, &[10]), output(4, 1920, &[]), output(6, 3840, &[20, 30])]);
    let mut selection = shown(&tree, &settings("fjg", Command::Focus, true));
    assert_eq!(selection.assignment.overlays.len(), 2);
    assert_eq!(selection.assignment.overlays[1].output.id, 6);
    assert_eq!(
        selection.step(&key("g")),
        vec![
            Action::RunCommand("[con_id=30] focus".to_string()),
            Action::HideOverlays,
            Action::ShowConfirmation { overlay: 1, label: 1 },
            Action::Wait(500),
        ]
    );
    let label = &selection.assignment.overlays[1].labels[1];
    // relative to the third output's origin
    assert_eq!((label.window.id, label.x, label.y), (30, 504, 12));
}

#[test]
fn events_out_of_turn_change_nothing() {
    let tree = root(vec![output(2, 0, &[10])]);
    let mut selection = build_ui(&tree, &settings("a", Command::Focus, true)).unwrap();
    assert_eq!(selection.step(&key("a")), vec![]);
    assert_eq!(selection.step(&Event::ConfirmationElapsed), vec![]);
    assert_eq!(selection.phase, Phase::Idle);
    assert_eq!(selection.outcome, None);
    assert_eq!(selection.step(&Event::Activated), vec![Action::ShowOverlays]);
    assert_eq!(selection.step(&Event::Activated), vec![]);
    assert_eq!(selection.step(&Event::ConfirmationElapsed), vec![]);
    assert_eq!(selection.phase, Phase::Shown);
}

#[test]
fn an_output_without_focused_workspace_fails() {
    let mut lost = output(4, 1920, &[20]);
    lost.focus = vec![];
    let tree = root(vec![output(2, 0, &[10]), lost]);
    assert!(can_build_ui(&tree));
    assert_eq!(
        build_ui(&tree, &Settings::default()).err(),
        Some(WalkError::NoFocusedWorkspace)
    );
    assert_eq!(
        WalkError::NoFocusedWorkspace.message(),
        "could not find focused workspace"
    );
}

#[test]
fn a_stack_too_tall_for_the_pixel_range_is_told_beforehand() {
    let mut tree = root(vec![output(2, 0, &[10, 20])]);
    {
        let workspace = &mut tree.children[0].children[0];
        let mut stack = node(50, NodeKind::Container, rect(0, 0, 10, 10), vec![
            window(51, rect(0, 0, 10, 10)),
            window(52, rect(0, 0, 10, 10)),
        ]);
        stack.layout_mode = LayoutMode::Stacked;
        stack.children[1].decoration_rect.height = i32::MAX / 2 + 1;
        workspace.children.push(stack);
    }
    assert!(!can_build_ui(&tree));
    tree.children[0].children[0].children[2].children[1].decoration_rect.height = i32::MAX / 2;
    assert!(can_build_ui(&tree));
    let selection = build_ui(&tree, &settings("abcd", Command::Focus, true)).unwrap();
    let labels = &selection.assignment.overlays[0].labels;
    assert_eq!(labels[3].window.decoration_rect.height, i32::MAX - 1);
    assert_eq!(labels[3].window.layout_mode, LayoutMode::Stacked);
    assert_eq!(labels[2].window.decoration_rect.height, 40);
}

#[test]
fn a_lowercase_letter_beyond_ascii_is_a_hint_key() {
    let mut keys: HashMap<u32, i64> = HashMap::new();
    keys.insert('\u{e9}' as u32, 9);
    keys.insert('\u{df}' as u32, 8);
    keys.insert('\u{c9}' as u32, 7);
    keys.insert('\u{3bb}' as u32, 6);
    keys.insert('\u{4e2d}' as u32, 5);
    let focus = Command::Focus;
    assert_eq!(handle_keypress(&keys, "\u{e9}", &focus), SelectionOutcome::Matched(9, focus));
    assert_eq!(handle_keypress(&keys, "\u{df}", &focus), SelectionOutcome::Matched(8, focus));
    assert_eq!(handle_keypress(&keys, "\u{3bb}", &focus), SelectionOutcome::Matched(6, focus));
    // an upper-case letter, and a letter without case
    assert_eq!(handle_keypress(&keys, "\u{c9}", &focus), SelectionOutcome::Unmatched);
    assert_eq!(handle_keypress(&keys, "\u{4e2d}", &focus), SelectionOutcome::Unmatched);
    // a lower-case letter that the map does not hold, and two letters
    assert_eq!(handle_keypress(&keys, "\u{e8}", &focus), SelectionOutcome::Unmatched);
    assert_eq!(handle_keypress(&keys, "\u{e9}\u{e9}", &focus), SelectionOutcome::Unmatched);
}

#[test]
fn a_hint_beyond_ascii_selects_its_window() {
    let tree = root(vec![output(2, 0, &[10, 20])]);
    let mut selection = shown(&tree, &settings("\u{e9}\u{df}", Command::Focus, false));
    assert_eq!(
        selection.step(&key("\u{df}")),
        vec![Action::RunCommand("[con_id=20] focus".to_string()), Action::CloseAll]
    );
    assert_eq!(selection.outcome, Some(SelectionOutcome::Matched(20, Command::Focus)));
}

#[test]
fn a_key_given_what_its_character_is() {
    let mut keys: HashMap<u32, i64> = HashMap::new();
    keys.insert('b' as u32, 20);
    let print = Command::Print;
    assert_eq!(resolve_key(&keys, 'b', true, true, &print), SelectionOutcome::Matched(20, print));
    assert_eq!(resolve_key(&keys, 'b', false, true, &print), SelectionOutcome::Unmatched);
    assert_eq!(resolve_key(&keys, 'b', true, false, &print), SelectionOutcome::Unmatched);
    assert_eq!(resolve_key(&keys, 'b', false, false, &print), SelectionOutcome::Unmatched);
    assert_eq!(resolve_key(&keys, 'c', true, true, &print), SelectionOutcome::Unmatched);
}

#[test]
fn the_fallback_hint_cannot_be_pressed() {
    let tree = root(vec![output(2, 0, &[10, 20, 30])]);
    let mut selection = shown(&tree, &settings("fj", Command::Focus, true));
    let labels: Vec<(i64, char)> = selection.assignment.overlays[0]
        .labels
        .iter()
        .map(|l| (l.window.id, l.hint))
        .collect();
    assert_eq!(labels, vec![(10, 'f'), (20, 'j'), (30, 'a')]);
    assert_eq!(selection.assignment.key_to_con_id.len(), 2);
    assert_eq!(selection.step(&key("a")), vec![Action::CloseAll]);
    assert_eq!(selection.outcome, Some(SelectionOutcome::Unmatched));
}

#[test]
fn settling_an_outcome() {
    let tree = root(vec![output(2, 0, &[10, 20])]);
    // before the overlays are shown nothing is taken
    let mut idle = build_ui(&tree, &settings("ab", Command::Focus, true)).unwrap();
    assert_eq!(idle.settle(SelectionOutcome::Matched(20, Command::Focus)), vec![]);
    assert_eq!(idle.phase, Phase::Idle);
    assert_eq!(idle.outcome, None);

    let mut selection = shown(&tree, &settings("ab", Command::Focus, true));
    assert_eq!(
        selection.settle(SelectionOutcome::Matched(20, Command::Swap { focus: false })),
        vec![
            Action::RunCommand("swap container with con_id 20".to_string()),
            Action::HideOverlays,
            Action::ShowConfirmation { overlay: 0, label: 1 },
            Action::Wait(500),
        ]
    );
    assert_eq!(selection.phase, Phase::Confirming);
    assert_eq!(selection.settle(SelectionOutcome::Unmatched), vec![]);
    assert_eq!(selection.phase, Phase::Confirming);

    // a window that carries no label gets no confirmation
    let mut selection = shown(&tree, &settings("ab", Command::Print, true));
    assert_eq!(
        selection.settle(SelectionOutcome::Matched(99, Command::Print)),
        vec![Action::Print(99), Action::HideOverlays, Action::Wait(500)]
    );

    let mut selection = shown(&tree, &settings("ab", Command::Focus, false));
    assert_eq!(selection.settle(SelectionOutcome::Unmatched), vec![Action::CloseAll]);
    assert_eq!(selection.phase, Phase::Closed);
    assert_eq!(selection.outcome, Some(SelectionOutcome::Unmatched));
}

#[test]
fn a_plan_that_tells_whether_the_tree_can_be_walked() {
    let mut tree = root(vec![output(2, 0, &[10, 20])]);
    let built = try_build_ui(&tree, &settings("ab", Command::Focus, true)).unwrap().unwrap();
    assert_eq!(built.phase, Phase::Idle);
    assert_eq!(built.assignment.lookup('b'), Some(20));
    assert_eq!(built.assignment.hints_used, 2);
    // the failure of the walk is handed on
    tree.children[0].focus = vec![];
    assert_eq!(
        try_build_ui(&tree, &Settings::default()).map(|built| built.err()),
        Some(Some(WalkError::NoFocusedWorkspace))
    );
    // a stack that is too tall
    let mut tree = root(vec![output(2, 0, &[10])]);
    let mut stack = node(50, NodeKind::Container, rect(0, 0, 10, 10), vec![
        window(51, rect(0, 0, 10, 10)),
        window(52, rect(0, 0, 10, 10)),
    ]);
    stack.layout_mode = LayoutMode::Stacked;
    stack.children[0].decoration_rect.height = i32::MIN;
    tree.children[0].children[0].children.push(stack);
    assert!(try_build_ui(&tree, &Settings::default()).is_none());
}
