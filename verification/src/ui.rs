//! The overlays: where the hint labels sit, and which key selects which
//! window.

use crate::cli::Settings;
use crate::ids::{
    distinct_ids, ids_below, lemma_each_window_listed_once, lemma_focused_workspace_within,
    lemma_listed_ids_concat, lemma_output_distinct, lemma_outputs_apart, lemma_window_ids_within,
    listed_ids, listed_once, side_by_side,
};
use crate::selection::{Phase, Selection, SelectionView};
use crate::sway::{
    decoration_heights_fit, focused_workspace, get_all_output_nodes, get_all_windows,
    get_focused_workspace, heights_fit, leaf_windows, outputs_below, WalkError,
};
use crate::tree::{views, LayoutMode, NodeView, Rect, WindowTreeNode};
use std::collections::HashMap;
use vstd::prelude::*;

verus! {

broadcast use vstd::std_specs::hash::group_hash_axioms;

/// Where the label of a window sits on the overlay of its output, as an
/// offset from the output's origin: at the left edge of the window's
/// decoration, on the decoration strip above the window, moved by the
/// margins. Nothing is rounded or clamped.
pub open spec fn label_anchor(
    window: NodeView,
    output: NodeView,
    margin_x: int,
    margin_y: int,
) -> (int, int) {
    let rel_x = window.outer_rect.x + window.content_rect.x + window.decoration_rect.x + margin_x;
    let rel_y = window.outer_rect.y - (window.decoration_rect.height - margin_y) + (
    if window.layout_mode == LayoutMode::Stacked {
        window.decoration_rect.y
    } else {
        0
    });
    (rel_x - output.outer_rect.x, rel_y - output.outer_rect.y)
}

/// A change of the horizontal margin alone moves the label by as much to the
/// right, and leaves its height as it was.
pub proof fn lemma_margin_x_shifts_anchor(
    window: NodeView,
    output: NodeView,
    margin_x: int,
    margin_y: int,
    delta: int,
)
    ensures
        label_anchor(window, output, margin_x + delta, margin_y).0 == label_anchor(
            window,
            output,
            margin_x,
            margin_y,
        ).0 + delta,
        label_anchor(window, output, margin_x + delta, margin_y).1 == label_anchor(
            window,
            output,
            margin_x,
            margin_y,
        ).1,
{
}

/// Where the label of `window` sits on the overlay of `output`.
pub fn calculate_geometry(
    window: &WindowTreeNode,
    output: &WindowTreeNode,
    margin_x: i32,
    margin_y: i32,
) -> (anchor: (i64, i64))
    ensures
        (anchor.0 as int, anchor.1 as int) == label_anchor(
            window@,
            output@,
            margin_x as int,
            margin_y as int,
        ),
{
    let rect = window.outer_rect;
    let window_rect = window.content_rect;
    let deco_rect = window.decoration_rect;

    let anchor_x = output.outer_rect.x as i64;
    let anchor_y = output.outer_rect.y as i64;

    let rel_x = rect.x as i64 + window_rect.x as i64 + deco_rect.x as i64 + margin_x as i64;
    let rel_y = rect.y as i64 - (deco_rect.height as i64 - margin_y as i64) + if window.layout_mode
        == LayoutMode::Stacked {
        deco_rect.y as i64
    } else {
        0
    };

    (rel_x - anchor_x, rel_y - anchor_y)
}

/// The hint of the windows that come after the hint keys have run out.
pub const FALLBACK_HINT: char = 'a';

/// One hint label: a window, the key that selects it, and where the label
/// sits on the overlay of the window's output.
#[derive(Debug)]
pub struct Label {
    /// The window, as the walk over its workspace has seen it.
    pub window: WindowTreeNode,
    /// The key that selects the window.
    pub hint: char,
    /// How far the label sits to the right of the output's origin.
    pub x: i64,
    /// How far the label sits below the output's origin.
    pub y: i64,
}

/// The model of a [`Label`].
pub struct LabelView {
    pub window: NodeView,
    pub hint: char,
    pub x: int,
    pub y: int,
}

impl View for Label {
    type V = LabelView;

    open spec fn view(&self) -> LabelView {
        LabelView { window: self.window@, hint: self.hint, x: self.x as int, y: self.y as int }
    }
}

/// The models of a sequence of labels.
pub open spec fn label_views(labels: Seq<Label>) -> Seq<LabelView> {
    Seq::new(labels.len(), |i: int| labels[i]@)
}

/// The overlay of one output: the output and the labels of its windows.
#[derive(Debug)]
pub struct Overlay {
    /// The output on which the overlay is shown.
    pub output: WindowTreeNode,
    /// The labels of the output's windows, from left to right.
    pub labels: Vec<Label>,
}

/// The model of an [`Overlay`].
pub struct OverlayView {
    pub output: NodeView,
    pub labels: Seq<LabelView>,
}

impl View for Overlay {
    type V = OverlayView;

    open spec fn view(&self) -> OverlayView {
        OverlayView { output: self.output@, labels: label_views(self.labels@) }
    }
}

/// The models of a sequence of overlays.
pub open spec fn overlay_views(overlays: Seq<Overlay>) -> Seq<OverlayView> {
    Seq::new(overlays.len(), |i: int| overlays[i]@)
}

/// An output and the windows of its focused workspace, from left to right.
#[derive(Debug)]
pub struct OutputWindows {
    /// The output.
    pub output: WindowTreeNode,
    /// The windows of its focused workspace.
    pub windows: Vec<WindowTreeNode>,
}

/// The model of an [`OutputWindows`].
pub struct OutputWindowsView {
    pub output: NodeView,
    pub windows: Seq<NodeView>,
}

impl View for OutputWindows {
    type V = OutputWindowsView;

    open spec fn view(&self) -> OutputWindowsView {
        OutputWindowsView { output: self.output@, windows: views(self.windows@) }
    }
}

/// The models of a sequence of outputs with their windows.
pub open spec fn output_views(outputs: Seq<OutputWindows>) -> Seq<OutputWindowsView> {
    Seq::new(outputs.len(), |i: int| outputs[i]@)
}

/// The hint of the window that is labelled after `n` others: the next hint
/// key, or the fallback hint once the keys have run out.
pub open spec fn hint_at(hints: Seq<char>, n: int) -> char {
    if 0 <= n < hints.len() {
        hints[n]
    } else {
        FALLBACK_HINT
    }
}

/// The number of windows on all of `outputs`.
pub open spec fn window_total(outputs: Seq<OutputWindowsView>) -> nat
    decreases outputs.len(),
{
    if outputs.len() == 0 {
        0
    } else {
        window_total(outputs.drop_last()) + outputs.last().windows.len()
    }
}

/// The labels of the windows of one output, of which the first is labelled
/// after `before` windows of earlier outputs.
pub open spec fn labels_on(
    entry: OutputWindowsView,
    hints: Seq<char>,
    before: nat,
    margin_x: int,
    margin_y: int,
) -> Seq<LabelView> {
    Seq::new(
        entry.windows.len(),
        |j: int|
            LabelView {
                window: entry.windows[j],
                hint: hint_at(hints, before + j),
                x: label_anchor(entry.windows[j], entry.output, margin_x, margin_y).0,
                y: label_anchor(entry.windows[j], entry.output, margin_x, margin_y).1,
            },
    )
}

/// The overlays of `outputs`, in their order. The hint keys are handed out
/// window by window across all outputs. An output without windows gets no
/// overlay and uses up no hint key.
pub open spec fn overlays_for(
    outputs: Seq<OutputWindowsView>,
    hints: Seq<char>,
    margin_x: int,
    margin_y: int,
) -> Seq<OverlayView>
    decreases outputs.len(),
{
    if outputs.len() == 0 {
        Seq::empty()
    } else {
        let earlier = outputs.drop_last();
        let last = outputs.last();
        if last.windows.len() == 0 {
            overlays_for(earlier, hints, margin_x, margin_y)
        } else {
            overlays_for(earlier, hints, margin_x, margin_y).push(
                OverlayView {
                    output: last.output,
                    labels: labels_on(last, hints, window_total(earlier), margin_x, margin_y),
                },
            )
        }
    }
}

/// The labels of all overlays, in the order in which they were handed out.
pub open spec fn all_labels(overlays: Seq<OverlayView>) -> Seq<LabelView>
    decreases overlays.len(),
{
    if overlays.len() == 0 {
        Seq::empty()
    } else {
        all_labels(overlays.drop_last()) + overlays.last().labels
    }
}

/// The map from hint key to window id that the labels make, entered one
/// after the other: where two labels share a hint, the later one holds the
/// key.
pub open spec fn keys_of(labels: Seq<LabelView>) -> Map<char, i64>
    decreases labels.len(),
{
    if labels.len() == 0 {
        Map::empty()
    } else {
        keys_of(labels.drop_last()).insert(labels.last().hint, labels.last().window.id)
    }
}

/// A map under the code points of characters, read as a map under the
/// characters themselves.
pub open spec fn keyed_by_char(codes: Map<u32, i64>) -> Map<char, i64> {
    Map::new(|key: char| codes.contains_key(key as u32), |key: char| codes[key as u32])
}

proof fn lemma_code_points_differ(a: char, b: char)
    ensures
        a != b ==> a as u32 != b as u32,
{
}

proof fn lemma_keyed_by_char_insert(codes: Map<u32, i64>, key: char, value: i64)
    ensures
        keyed_by_char(codes.insert(key as u32, value)) == keyed_by_char(codes).insert(key, value),
{
    let left = keyed_by_char(codes.insert(key as u32, value));
    let right = keyed_by_char(codes).insert(key, value);
    assert forall|other: char| left.contains_key(other) == right.contains_key(other) by {
        lemma_code_points_differ(other, key);
    }
    assert forall|other: char| left.contains_key(other) implies left[other] == right[other] by {
        lemma_code_points_differ(other, key);
    }
    assert(left =~= right);
}

/// The labels that got a hint key of their own: the first of the labels, as
/// many as there are hint keys.
pub open spec fn hinted(labels: Seq<LabelView>, hints: Seq<char>) -> Seq<LabelView> {
    if labels.len() <= hints.len() {
        labels
    } else {
        labels.take(hints.len() as int)
    }
}

/// The map from hint key to window id: the keys of the labels that got a
/// hint key of their own. The fallback hint of the later labels is no key.
pub open spec fn hint_keys(labels: Seq<LabelView>, hints: Seq<char>) -> Map<char, i64> {
    keys_of(hinted(labels, hints))
}

/// Which key selects which window, and the overlays that show it.
#[derive(Debug)]
pub struct HintAssignment {
    /// The window id of each hint key, under the key's code point.
    pub key_to_con_id: HashMap<u32, i64>,
    /// One overlay for each output that has windows.
    pub overlays: Vec<Overlay>,
    /// How many labels got a hint key of their own: the first of the labels
    /// in the order of the overlays.
    pub hints_used: usize,
}

impl HintAssignment {
    /// The map from hint key to window id.
    pub open spec fn key_map(&self) -> Map<char, i64> {
        keyed_by_char(self.key_to_con_id@)
    }

    /// The keys are those of the labels that got a hint key of their own.
    pub open spec fn wf(&self) -> bool {
        let labels = all_labels(overlay_views(self.overlays@));
        &&& self.hints_used <= labels.len()
        &&& self.key_map() == keys_of(labels.take(self.hints_used as int))
    }
}

/// The characters of a text.
fn chars_of(text: &str) -> (chars: Vec<char>)
    ensures
        chars@ == text@,
{
    let count = text.unicode_len();
    let mut chars: Vec<char> = Vec::new();
    let mut i: usize = 0;
    while i < count
        invariant
            i <= count,
            count == text@.len(),
            chars@ == text@.take(i as int),
        decreases count - i,
    {
        chars.push(text.get_char(i));
        assert(chars@ =~= text@.take(i as int + 1));
        i += 1;
    }
    assert(text@.take(count as int) =~= text@);
    chars
}

/// Hands out the hint keys: one overlay for each output that has windows,
/// one label for each window, and the map from key to window id.
///
/// The keys of `hints` go to the windows in their order, across all outputs.
/// Once they have run out, every further window is labelled with
/// [`FALLBACK_HINT`]; that label is shown, but it is no key of the map.
pub fn assign_labels(
    outputs: &Vec<OutputWindows>,
    hints: &str,
    margin_x: i32,
    margin_y: i32,
) -> (assignment: HintAssignment)
    ensures
        overlay_views(assignment.overlays@) == overlays_for(
            output_views(outputs@),
            hints@,
            margin_x as int,
            margin_y as int,
        ),
        assignment.key_map() == hint_keys(
            all_labels(overlay_views(assignment.overlays@)),
            hints@,
        ),
        assignment.hints_used == hinted(
            all_labels(overlay_views(assignment.overlays@)),
            hints@,
        ).len(),
        assignment.wf(),
{
    let letters = chars_of(hints);
    let mut cursor: usize = 0;
    let ghost mut labelled: nat = 0;
    let mut key_to_con_id: HashMap<u32, i64> = HashMap::new();
    let mut overlays: Vec<Overlay> = Vec::new();
    let ghost all = output_views(outputs@);
    let ghost mx = margin_x as int;
    let ghost my = margin_y as int;
    let mut i: usize = 0;
    proof {
        assert(all.take(0) =~= Seq::<OutputWindowsView>::empty());
        assert(overlay_views(overlays@) =~= Seq::<OverlayView>::empty());
        assert(Seq::<LabelView>::empty().take(0) =~= Seq::<LabelView>::empty());
    }
    while i < outputs.len()
        invariant
            i <= outputs.len(),
            all == output_views(outputs@),
            letters@ == hints@,
            mx == margin_x as int,
            my == margin_y as int,
            labelled == window_total(all.take(i as int)),
            labelled == all_labels(overlay_views(overlays@)).len(),
            cursor == if labelled < letters@.len() {
                labelled
            } else {
                letters@.len()
            },
            overlay_views(overlays@) == overlays_for(all.take(i as int), hints@, mx, my),
            keyed_by_char(key_to_con_id@) == keys_of(
                all_labels(overlay_views(overlays@)).take(cursor as int),
            ),
        decreases outputs.len() - i,
    {
        let entry = &outputs[i];
        let ghost done = all_labels(overlay_views(overlays@));
        let ghost before = labelled;
        let ghost planned = labels_on(entry@, hints@, before, mx, my);
        let mut labels: Vec<Label> = Vec::new();
        let mut j: usize = 0;
        proof {
            assert(label_views(labels@) =~= planned.take(0));
            assert(done + label_views(labels@) =~= done);
        }
        while j < entry.windows.len()
            invariant
                j <= entry.windows.len(),
                letters@ == hints@,
                mx == margin_x as int,
                my == margin_y as int,
                planned == labels_on(entry@, hints@, before, mx, my),
                before == done.len(),
                labelled == before + j,
                cursor == if labelled < letters@.len() {
                    labelled
                } else {
                    letters@.len()
                },
                label_views(labels@) == planned.take(j as int),
                keyed_by_char(key_to_con_id@) == keys_of(
                    (done + label_views(labels@)).take(cursor as int),
                ),
            decreases entry.windows.len() - j,
        {
            let window_node = &entry.windows[j];
            let (x, y) = calculate_geometry(window_node, &entry.output, margin_x, margin_y);
            let ghost so_far = label_views(labels@);
            let ghost keys_before = key_to_con_id@;
            let ghost cursor_before = cursor;
            // Only a key of the hints goes into the map.
            let letter = if cursor < letters.len() {
                let c = letters[cursor];
                key_to_con_id.insert(c as u32, window_node.id);
                cursor += 1;
                c
            } else {
                FALLBACK_HINT
            };
            labels.push(Label { window: window_node.clone(), hint: letter, x, y });
            proof {
                labelled = labelled + 1;
                let label = labels@[j as int]@;
                assert(views(entry.windows@)[j as int] == window_node@);
                assert(label == planned[j as int]);
                assert(label_views(labels@) =~= so_far.push(label));
                assert(label_views(labels@) =~= planned.take(j as int + 1));
                let listed = done + label_views(labels@);
                assert(listed =~= (done + so_far).push(label));
                if cursor_before < letters@.len() {
                    assert((done + so_far).take(cursor_before as int) =~= done + so_far);
                    assert(listed.take(cursor as int) =~= listed);
                    assert(listed.drop_last() =~= done + so_far);
                    assert(listed.last() == label);
                    lemma_keyed_by_char_insert(keys_before, letter, window_node.id);
                } else {
                    assert(listed.take(cursor as int) =~= (done + so_far).take(
                        cursor_before as int,
                    ));
                }
            }
            j += 1;
        }
        proof {
            assert(planned.take(j as int) =~= planned);
            let prefix = all.take(i as int + 1);
            assert(prefix.drop_last() =~= all.take(i as int));
            assert(prefix.last() == entry@);
        }
        // An output without windows gets no overlay.
        if labels.len() > 0 {
            let ghost shown = overlay_views(overlays@);
            overlays.push(Overlay { output: entry.output.clone(), labels });
            proof {
                assert(overlay_views(overlays@) =~= shown.push(
                    OverlayView { output: entry@.output, labels: planned },
                ));
                assert(overlay_views(overlays@).drop_last() =~= shown);
            }
        } else {
            proof {
                assert(done + label_views(labels@) =~= done);
            }
        }
        i += 1;
    }
    proof {
        assert(all.take(outputs.len() as int) =~= all);
        let labels = all_labels(overlay_views(overlays@));
        assert(labels.take(labels.len() as int) =~= labels);
    }
    HintAssignment { key_to_con_id, overlays, hints_used: cursor }
}

/// The place of the last of `labels` whose window has the id `con_id`.
pub open spec fn last_with_id(labels: Seq<LabelView>, con_id: i64) -> Option<int>
    decreases labels.len(),
{
    if labels.len() == 0 {
        None
    } else if labels.last().window.id == con_id {
        Some(labels.len() - 1)
    } else {
        last_with_id(labels.drop_last(), con_id)
    }
}

/// The overlay and the label of the window `con_id`: the last label, in the
/// order in which the labels were handed out, whose window has that id.
pub open spec fn locate(overlays: Seq<OverlayView>, con_id: i64) -> Option<(int, int)>
    decreases overlays.len(),
{
    if overlays.len() == 0 {
        None
    } else {
        match last_with_id(overlays.last().labels, con_id) {
            Some(label) => Some((overlays.len() - 1, label)),
            None => locate(overlays.drop_last(), con_id),
        }
    }
}

impl HintAssignment {
    /// The window that a hint key selects.
    pub fn lookup(&self, key: char) -> (con_id: Option<i64>)
        ensures
            con_id == if self.key_map().contains_key(key) {
                Some(self.key_map()[key])
            } else {
                None
            },
    {
        let code = key as u32;
        match self.key_to_con_id.get(&code) {
            Some(con_id) => Some(*con_id),
            None => None,
        }
    }

    /// Where the window `con_id` is labelled: the index of its overlay in
    /// `overlays`, and the index of its label in that overlay. The overlay
    /// holds the window's output, the label the window and its hint.
    pub fn place_of(&self, con_id: i64) -> (place: Option<(usize, usize)>)
        ensures
            match place {
                Some((overlay, label)) => locate(overlay_views(self.overlays@), con_id) == Some(
                    (overlay as int, label as int),
                ),
                None => locate(overlay_views(self.overlays@), con_id) is None,
            },
    {
        let ghost all = overlay_views(self.overlays@);
        let mut o: usize = self.overlays.len();
        proof {
            assert(all.take(o as int) =~= all);
        }
        while o > 0
            invariant
                o <= self.overlays.len(),
                all == overlay_views(self.overlays@),
                locate(all, con_id) == locate(all.take(o as int), con_id),
            decreases o,
        {
            o -= 1;
            let labels = &self.overlays[o].labels;
            let ghost shown = label_views(labels@);
            let mut l: usize = labels.len();
            proof {
                assert(shown.take(l as int) =~= shown);
                let upto = all.take(o as int + 1);
                assert(upto.last().labels == shown);
                assert(upto.drop_last() =~= all.take(o as int));
            }
            while l > 0
                invariant
                    l <= labels.len(),
                    shown == label_views(labels@),
                    last_with_id(shown, con_id) == last_with_id(shown.take(l as int), con_id),
                    o < all.len(),
                    all == overlay_views(self.overlays@),
                    locate(all, con_id) == locate(all.take(o as int + 1), con_id),
                    all.take(o as int + 1).last().labels == shown,
                    all.take(o as int + 1).drop_last() == all.take(o as int),
                decreases l,
            {
                l -= 1;
                proof {
                    let upto = shown.take(l as int + 1);
                    assert(upto.last() == labels@[l as int]@);
                    assert(upto.drop_last() =~= shown.take(l as int));
                }
                if labels[l].window.id == con_id {
                    proof {
                        assert(last_with_id(shown.take(l as int + 1), con_id) == Some(l as int));
                        assert(all.take(o as int + 1).len() == o + 1);
                        assert(locate(all.take(o as int + 1), con_id) == Some(
                            (o as int, l as int),
                        ));
                    }
                    return Some((o, l));
                }
            }
        }
        None
    }
}

/// Each output with the windows of its focused workspace.
pub open spec fn windows_by_output(outputs: Seq<NodeView>) -> Seq<OutputWindowsView> {
    Seq::new(
        outputs.len(),
        |i: int|
            OutputWindowsView {
                output: outputs[i],
                windows: match focused_workspace(outputs[i]) {
                    Some(workspace) => leaf_windows(workspace),
                    None => Seq::empty(),
                },
            },
    )
}

/// Whether every output has a focused workspace.
pub open spec fn have_focused_workspaces(outputs: Seq<NodeView>) -> bool {
    forall|i: int| 0 <= i < outputs.len() ==> focused_workspace(#[trigger] outputs[i]) is Some
}

/// Whether the windows of the outputs can be walked: whether, up to the
/// first output without a focused workspace, every decoration height that
/// the walk over a focused workspace multiplies stays a 32-bit pixel count.
pub open spec fn walkable(outputs: Seq<NodeView>) -> bool
    decreases outputs.len(),
{
    if outputs.len() == 0 {
        true
    } else {
        match focused_workspace(outputs.first()) {
            Some(workspace) => heights_fit(workspace) && walkable(outputs.drop_first()),
            None => true,
        }
    }
}

/// Whether [`build_ui`] can be called on the tree.
pub fn can_build_ui(root: &WindowTreeNode) -> (can: bool)
    ensures
        can == walkable(outputs_below(root@)),
{
    let output_nodes = get_all_output_nodes(root);
    let ghost all = views(output_nodes@);
    let mut i: usize = 0;
    proof {
        assert(all.skip(0) =~= all);
    }
    while i < output_nodes.len()
        invariant
            i <= output_nodes.len(),
            all == views(output_nodes@),
            all == outputs_below(root@),
            walkable(all) == walkable(all.skip(i as int)),
        decreases output_nodes.len() - i,
    {
        proof {
            assert(all.skip(i as int).first() == output_nodes@[i as int]@);
            assert(all.skip(i as int).drop_first() =~= all.skip(i as int + 1));
        }
        match get_focused_workspace(&output_nodes[i]) {
            Ok(workspace) => {
                if !decoration_heights_fit(&workspace) {
                    return false;
                }
            },
            Err(_) => {
                return true;
            },
        }
        i += 1;
    }
    true
}

/// What planning the overlays of a tree comes to: the selection over the
/// overlays of all outputs, still to be activated, where every output has a
/// focused workspace; the failure where one has none.
pub open spec fn is_plan_of(
    built: Result<Selection, WalkError>,
    root: NodeView,
    settings: Settings,
) -> bool {
    match built {
        Ok(selection) => {
            let overlays = overlays_for(
                windows_by_output(outputs_below(root)),
                settings.chars@,
                settings.label_margin_x as int,
                settings.label_margin_y as int,
            );
            &&& have_focused_workspaces(outputs_below(root))
            &&& selection.assignment.wf()
            &&& selection@ == SelectionView {
                phase: Phase::Idle,
                keys: hint_keys(all_labels(overlays), settings.chars@),
                overlays,
                command: settings.command,
                show_confirmation: settings.show_confirmation,
                outcome: None,
            }
        },
        Err(error) => error == WalkError::NoFocusedWorkspace && !have_focused_workspaces(
            outputs_below(root),
        ),
    }
}

/// Plans the overlays of a tree: lists the outputs, walks the windows of
/// each output's focused workspace, and hands out the hint keys and the
/// places of the labels. The selection that comes back has still to be
/// activated.
///
/// Fails if an output has no focused workspace.
pub fn build_ui(root: &WindowTreeNode, settings: &Settings) -> (built: Result<
    Selection,
    WalkError,
>)
    requires
        walkable(outputs_below(root@)),
    ensures
        is_plan_of(built, root@, *settings),
{
    let output_nodes = get_all_output_nodes(root);
    let ghost all = views(output_nodes@);
    let mut entries: Vec<OutputWindows> = Vec::new();
    let mut i: usize = 0;
    proof {
        assert(all.skip(0) =~= all);
        assert(output_views(entries@) =~= windows_by_output(all).take(0));
    }
    while i < output_nodes.len()
        invariant
            i <= output_nodes.len(),
            all == views(output_nodes@),
            all == outputs_below(root@),
            walkable(all.skip(i as int)),
            forall|j: int| 0 <= j < i ==> focused_workspace(#[trigger] all[j]) is Some,
            output_views(entries@) == windows_by_output(all).take(i as int),
        decreases output_nodes.len() - i,
    {
        let output = &output_nodes[i];
        proof {
            assert(all.skip(i as int).first() == output@);
            assert(all.skip(i as int).drop_first() =~= all.skip(i as int + 1));
            assert(all[i as int] == output@);
        }
        let workspace = match get_focused_workspace(output) {
            Ok(workspace) => workspace,
            Err(error) => {
                return Err(error);
            },
        };
        let windows = get_all_windows(&workspace);
        let ghost listed = output_views(entries@);
        entries.push(OutputWindows { output: output.clone(), windows });
        proof {
            assert(output_views(entries@) =~= listed.push(windows_by_output(all)[i as int]));
            assert(output_views(entries@) =~= windows_by_output(all).take(i as int + 1));
        }
        i += 1;
    }
    proof {
        assert(windows_by_output(all).take(i as int) =~= windows_by_output(all));
    }
    let assignment = assign_labels(
        &entries,
        settings.chars.as_str(),
        settings.label_margin_x,
        settings.label_margin_y,
    );
    Ok(
        Selection {
            phase: Phase::Idle,
            assignment,
            command: settings.command,
            show_confirmation: settings.show_confirmation,
            outcome: None,
        },
    )
}

/// Plans the overlays of a tree as [`build_ui`] does, where the tree can be
/// walked; where a decoration height would leave the range of a 32-bit pixel
/// count, there is no plan.
pub fn try_build_ui(root: &WindowTreeNode, settings: &Settings) -> (built: Option<
    Result<Selection, WalkError>,
>)
    ensures
        match built {
            Some(built) => walkable(outputs_below(root@)) && is_plan_of(built, root@, *settings),
            None => !walkable(outputs_below(root@)),
        },
{
    if can_build_ui(root) {
        Some(build_ui(root, settings))
    } else {
        None
    }
}

/// Whether a monitor with this geometry holds the origin of the output.
pub open spec fn monitor_holds(geometry: Rect, output: NodeView) -> bool {
    &&& geometry.x <= output.outer_rect.x < geometry.x + geometry.width
    &&& geometry.y <= output.outer_rect.y < geometry.y + geometry.height
}

/// The monitor on which the overlay of an output is shown: the first of
/// `monitors` whose geometry holds the output's origin.
pub fn find_monitor(output: &WindowTreeNode, monitors: &Vec<Rect>) -> (found: Option<usize>)
    ensures
        match found {
            Some(i) => {
                &&& i < monitors.len()
                &&& monitor_holds(monitors[i as int], output@)
                &&& forall|j: int| 0 <= j < i ==> !monitor_holds(monitors[j], output@)
            },
            None => forall|j: int| 0 <= j < monitors.len() ==> !monitor_holds(monitors[j], output@),
        },
{
    let x = output.outer_rect.x as i64;
    let y = output.outer_rect.y as i64;
    let mut i: usize = 0;
    while i < monitors.len()
        invariant
            i <= monitors.len(),
            x == output@.outer_rect.x,
            y == output@.outer_rect.y,
            forall|j: int| 0 <= j < i ==> !monitor_holds(monitors[j], output@),
        decreases monitors.len() - i,
    {
        let geometry = monitors[i];
        if geometry.x as i64 <= x && x < geometry.x as i64 + geometry.width as i64 && geometry.y as i64
            <= y && y < geometry.y as i64 + geometry.height as i64 {
            return Some(i);
        }
        i += 1;
    }
    None
}

proof fn lemma_labels_in_order(
    outputs: Seq<OutputWindowsView>,
    hints: Seq<char>,
    margin_x: int,
    margin_y: int,
)
    ensures
        all_labels(overlays_for(outputs, hints, margin_x, margin_y)).len() == window_total(
            outputs,
        ),
        forall|k: int|
            0 <= k < window_total(outputs) ==> (#[trigger] all_labels(
                overlays_for(outputs, hints, margin_x, margin_y),
            )[k]).hint == hint_at(hints, k),
    decreases outputs.len(),
{
    if outputs.len() > 0 {
        let earlier = outputs.drop_last();
        let last = outputs.last();
        lemma_labels_in_order(earlier, hints, margin_x, margin_y);
        let shown = overlays_for(earlier, hints, margin_x, margin_y);
        if last.windows.len() > 0 {
            let overlay = OverlayView {
                output: last.output,
                labels: labels_on(last, hints, window_total(earlier), margin_x, margin_y),
            };
            assert(shown.push(overlay).drop_last() =~= shown);
            assert(all_labels(shown.push(overlay)) == all_labels(shown) + overlay.labels);
        }
    }
}

proof fn lemma_keys_of_labels(labels: Seq<LabelView>)
    ensures
        keys_of(labels).dom().finite(),
        keys_of(labels).dom().len() <= labels.len(),
        forall|key: char| #[trigger]
            keys_of(labels).contains_key(key) ==> exists|i: int|
                0 <= i < labels.len() && (#[trigger] labels[i]).hint == key && labels[i].window.id
                    == keys_of(labels)[key],
        forall|i: int|
            0 <= i < labels.len() ==> keys_of(labels).contains_key((#[trigger] labels[i]).hint),
    decreases labels.len(),
{
    if labels.len() > 0 {
        let earlier = labels.drop_last();
        lemma_keys_of_labels(earlier);
        assert forall|key: char| #[trigger] keys_of(labels).contains_key(key) implies exists|
            i: int,
        |
            0 <= i < labels.len() && (#[trigger] labels[i]).hint == key && labels[i].window.id
                == keys_of(labels)[key] by {
            if key == labels.last().hint {
                assert(labels[labels.len() - 1].hint == key);
            } else {
                let i = choose|i: int|
                    0 <= i < earlier.len() && (#[trigger] earlier[i]).hint == key
                        && earlier[i].window.id == keys_of(earlier)[key];
                assert(labels[i] == earlier[i]);
            }
        }
        assert forall|i: int| 0 <= i < labels.len() implies keys_of(labels).contains_key(
            (#[trigger] labels[i]).hint,
        ) by {
            if i < labels.len() - 1 {
                assert(labels[i] == earlier[i]);
            }
        }
    }
}

proof fn lemma_keys_of_distinct(labels: Seq<LabelView>)
    requires
        forall|i: int, j: int|
            0 <= i < j < labels.len() ==> (#[trigger] labels[i]).hint != (#[trigger] labels[j]).hint,
    ensures
        keys_of(labels).dom().finite(),
        keys_of(labels).dom().len() == labels.len(),
        forall|i: int|
            0 <= i < labels.len() ==> keys_of(labels)[(#[trigger] labels[i]).hint]
                == labels[i].window.id,
    decreases labels.len(),
{
    if labels.len() > 0 {
        let earlier = labels.drop_last();
        let last = labels.last();
        assert forall|i: int, j: int| 0 <= i < j < earlier.len() implies (#[trigger] earlier[i]).hint
            != (#[trigger] earlier[j]).hint by {
            assert(earlier[i] == labels[i]);
            assert(earlier[j] == labels[j]);
        }
        lemma_keys_of_distinct(earlier);
        lemma_keys_of_labels(earlier);
        if keys_of(earlier).contains_key(last.hint) {
            let i = choose|i: int|
                0 <= i < earlier.len() && (#[trigger] earlier[i]).hint == last.hint;
            assert(earlier[i] == labels[i]);
            assert(labels[labels.len() - 1].hint == last.hint);
        }
        assert forall|i: int| 0 <= i < labels.len() implies keys_of(labels)[(
        #[trigger] labels[i]).hint] == labels[i].window.id by {
            if i < labels.len() - 1 {
                assert(labels[i] == earlier[i]);
                assert(labels[labels.len() - 1].hint == last.hint);
            }
        }
    }
}

proof fn lemma_hinted_in_order(
    outputs: Seq<OutputWindowsView>,
    hints: Seq<char>,
    margin_x: int,
    margin_y: int,
)
    ensures
        ({
            let labels = all_labels(overlays_for(outputs, hints, margin_x, margin_y));
            let keyed = hinted(labels, hints);
            &&& labels.len() == window_total(outputs)
            &&& keyed.len() <= hints.len()
            &&& keyed.len() <= labels.len()
            &&& keyed.len() == hints.len() || keyed.len() == labels.len()
            &&& forall|k: int|
                0 <= k < keyed.len() ==> (#[trigger] keyed[k]) == labels[k] && keyed[k].hint
                    == hints[k]
        }),
{
    let labels = all_labels(overlays_for(outputs, hints, margin_x, margin_y));
    let keyed = hinted(labels, hints);
    lemma_labels_in_order(outputs, hints, margin_x, margin_y);
    assert forall|k: int| 0 <= k < keyed.len() implies (#[trigger] keyed[k]) == labels[k]
        && keyed[k].hint == hints[k] by {
        assert(labels[k].hint == hint_at(hints, k));
    }
}

/// The map holds the hint keys that were handed out, and nothing else:
/// every key of the map is one of the first hint keys, as many as there are
/// windows, and selects a window that got this key. The fallback hint of
/// the windows beyond the hint keys is no key of the map.
pub proof fn lemma_keys_are_hints(
    outputs: Seq<OutputWindowsView>,
    hints: Seq<char>,
    margin_x: int,
    margin_y: int,
    key: char,
)
    requires
        hint_keys(
            all_labels(overlays_for(outputs, hints, margin_x, margin_y)),
            hints,
        ).contains_key(key),
    ensures
        ({
            let labels = all_labels(overlays_for(outputs, hints, margin_x, margin_y));
            let keys = hint_keys(labels, hints);
            &&& keys.dom().finite()
            &&& keys.dom().len() <= hints.len()
            &&& keys.dom().len() <= window_total(outputs)
            &&& exists|k: int|
                0 <= k < hints.len() && 0 <= k < labels.len() && hints[k] == key && (
                #[trigger] labels[k]).window.id == keys[key]
        }),
{
    let labels = all_labels(overlays_for(outputs, hints, margin_x, margin_y));
    let keyed = hinted(labels, hints);
    lemma_hinted_in_order(outputs, hints, margin_x, margin_y);
    lemma_keys_of_labels(keyed);
    let k = choose|k: int|
        0 <= k < keyed.len() && (#[trigger] keyed[k]).hint == key && keyed[k].window.id
            == keys_of(keyed)[key];
    assert(keyed[k] == labels[k]);
    assert(labels[k].window.id == keys_of(keyed)[key]);
}

/// With hint keys that are all different, the windows get the keys in their
/// order for as long as the keys last: the map holds as many keys as there
/// are windows, or as there are hint keys if these are fewer, and each of
/// these keys selects the window that got it.
pub proof fn lemma_hint_keys_in_order(
    outputs: Seq<OutputWindowsView>,
    hints: Seq<char>,
    margin_x: int,
    margin_y: int,
)
    requires
        hints.no_duplicates(),
    ensures
        ({
            let labels = all_labels(overlays_for(outputs, hints, margin_x, margin_y));
            let keys = hint_keys(labels, hints);
            &&& labels.len() == window_total(outputs)
            &&& keys.dom().finite()
            &&& keys.dom().len() == if labels.len() <= hints.len() {
                labels.len()
            } else {
                hints.len()
            }
            &&& forall|k: int|
                0 <= k < labels.len() && k < hints.len() ==> {
                    &&& (#[trigger] labels[k]).hint == hints[k]
                    &&& keys.contains_key(hints[k])
                    &&& keys[hints[k]] == labels[k].window.id
                }
        }),
{
    let labels = all_labels(overlays_for(outputs, hints, margin_x, margin_y));
    let keyed = hinted(labels, hints);
    lemma_hinted_in_order(outputs, hints, margin_x, margin_y);
    assert forall|i: int, j: int| 0 <= i < j < keyed.len() implies (#[trigger] keyed[i]).hint != (
    #[trigger] keyed[j]).hint by {
        assert(keyed[i].hint == hints[i]);
        assert(keyed[j].hint == hints[j]);
    }
    lemma_keys_of_distinct(keyed);
    lemma_keys_of_labels(keyed);
    assert forall|k: int| 0 <= k < labels.len() && k < hints.len() implies {
        &&& (#[trigger] labels[k]).hint == hints[k]
        &&& hint_keys(labels, hints).contains_key(hints[k])
        &&& hint_keys(labels, hints)[hints[k]] == labels[k].window.id
    } by {
        assert(keyed[k] == labels[k]);
        assert(keyed[k].hint == hints[k]);
    }
}

/// While the hint keys last, no two windows share a key: with hint keys that
/// are all different, and at least as many of them as there are windows,
/// every window gets a key of its own, each key selects the window that got
/// it, and the map holds as many keys as there are windows.
pub proof fn lemma_hints_select_one_window(
    outputs: Seq<OutputWindowsView>,
    hints: Seq<char>,
    margin_x: int,
    margin_y: int,
)
    requires
        hints.no_duplicates(),
        window_total(outputs) <= hints.len(),
    ensures
        ({
            let labels = all_labels(overlays_for(outputs, hints, margin_x, margin_y));
            let keys = hint_keys(labels, hints);
            &&& labels.len() == window_total(outputs)
            &&& keys.dom().finite()
            &&& keys.dom().len() == labels.len()
            &&& forall|i: int|
                0 <= i < labels.len() ==> {
                    &&& (#[trigger] labels[i]).hint == hints[i]
                    &&& keys.contains_key(hints[i])
                    &&& keys[hints[i]] == labels[i].window.id
                }
            &&& forall|i: int, j: int|
                0 <= i < j < labels.len() ==> (#[trigger] labels[i]).hint != (
                #[trigger] labels[j]).hint
        }),
{
    let labels = all_labels(overlays_for(outputs, hints, margin_x, margin_y));
    lemma_hint_keys_in_order(outputs, hints, margin_x, margin_y);
    assert forall|i: int, j: int| 0 <= i < j < labels.len() implies (#[trigger] labels[i]).hint
        != (#[trigger] labels[j]).hint by {
        assert(labels[i].hint == hints[i]);
        assert(labels[j].hint == hints[j]);
    }
}

proof fn lemma_last_with_id(labels: Seq<LabelView>, con_id: i64)
    ensures
        match last_with_id(labels, con_id) {
            Some(l) => 0 <= l < labels.len() && labels[l].window.id == con_id,
            None => forall|l: int| 0 <= l < labels.len() ==> (#[trigger] labels[l]).window.id != con_id,
        },
    decreases labels.len(),
{
    if labels.len() > 0 && labels.last().window.id != con_id {
        lemma_last_with_id(labels.drop_last(), con_id);
        assert forall|l: int|
            0 <= l < labels.len() && last_with_id(labels, con_id) is None implies (
        #[trigger] labels[l]).window.id != con_id by {
            if l < labels.len() - 1 {
                assert(labels[l] == labels.drop_last()[l]);
            }
        }
    }
}

proof fn lemma_locate(overlays: Seq<OverlayView>, con_id: i64)
    ensures
        match locate(overlays, con_id) {
            Some((o, l)) => {
                &&& 0 <= o < overlays.len()
                &&& 0 <= l < overlays[o].labels.len()
                &&& overlays[o].labels[l].window.id == con_id
            },
            None => forall|k: int|
                0 <= k < all_labels(overlays).len() ==> (#[trigger] all_labels(
                    overlays,
                )[k]).window.id != con_id,
        },
    decreases overlays.len(),
{
    if overlays.len() > 0 {
        lemma_last_with_id(overlays.last().labels, con_id);
        lemma_locate(overlays.drop_last(), con_id);
    }
}

/// The window that a key selects is found on the overlays: where the keys
/// are those of the first `used` labels, the search for the label of the
/// window that a key selects comes back with an overlay and a label of that
/// overlay, and the label is one of this window.
pub proof fn lemma_selected_window_is_found(overlays: Seq<OverlayView>, used: int, key: char)
    requires
        0 <= used <= all_labels(overlays).len(),
        keys_of(all_labels(overlays).take(used)).contains_key(key),
    ensures
        match locate(overlays, keys_of(all_labels(overlays).take(used))[key]) {
            Some((o, l)) => {
                &&& 0 <= o < overlays.len()
                &&& 0 <= l < overlays[o].labels.len()
                &&& overlays[o].labels[l].window.id == keys_of(all_labels(overlays).take(used))[key]
            },
            None => false,
        },
{
    let labels = all_labels(overlays);
    let keyed = labels.take(used);
    let con_id = keys_of(keyed)[key];
    lemma_keys_of_labels(keyed);
    lemma_locate(overlays, con_id);
    let i = choose|i: int|
        0 <= i < keyed.len() && (#[trigger] keyed[i]).hint == key && keyed[i].window.id == con_id;
    assert(keyed[i] == labels[i]);
    assert(labels[i].window.id == con_id);
}

/// The windows of all outputs, in the order of the outputs.
pub open spec fn all_windows(outputs: Seq<OutputWindowsView>) -> Seq<NodeView>
    decreases outputs.len(),
{
    if outputs.len() == 0 {
        Seq::empty()
    } else {
        all_windows(outputs.drop_last()) + outputs.last().windows
    }
}

/// The labels are those of the windows of all outputs, window by window.
pub proof fn lemma_labels_are_windows(
    outputs: Seq<OutputWindowsView>,
    hints: Seq<char>,
    margin_x: int,
    margin_y: int,
)
    ensures
        all_labels(overlays_for(outputs, hints, margin_x, margin_y)).len() == all_windows(
            outputs,
        ).len(),
        forall|k: int|
            0 <= k < all_windows(outputs).len() ==> (#[trigger] all_labels(
                overlays_for(outputs, hints, margin_x, margin_y),
            )[k]).window == all_windows(outputs)[k],
    decreases outputs.len(),
{
    if outputs.len() > 0 {
        let earlier = outputs.drop_last();
        let last = outputs.last();
        lemma_labels_are_windows(earlier, hints, margin_x, margin_y);
        let shown = overlays_for(earlier, hints, margin_x, margin_y);
        if last.windows.len() > 0 {
            let overlay = OverlayView {
                output: last.output,
                labels: labels_on(last, hints, window_total(earlier), margin_x, margin_y),
            };
            assert(shown.push(overlay).drop_last() =~= shown);
            assert(all_labels(shown.push(overlay)) == all_labels(shown) + overlay.labels);
        } else {
            assert(all_windows(earlier) + last.windows =~= all_windows(earlier));
        }
    }
}

proof fn lemma_windows_of_outputs_once(outputs: Seq<NodeView>, n: int)
    requires
        0 <= n <= outputs.len(),
        forall|i: int, j: int|
            0 <= i < outputs.len() && 0 <= j < outputs.len() && i != j ==> ids_below(
                #[trigger] outputs[i],
            ).disjoint(ids_below(#[trigger] outputs[j])),
        forall|i: int| 0 <= i < outputs.len() ==> distinct_ids(#[trigger] outputs[i]),
    ensures
        listed_once(all_windows(windows_by_output(outputs).take(n))),
        forall|id: i64| #[trigger]
            listed_ids(all_windows(windows_by_output(outputs).take(n))).contains(id)
                ==> exists|k: int| 0 <= k < n && ids_below(#[trigger] outputs[k]).contains(id),
    decreases n,
{
    let by_output = windows_by_output(outputs);
    if n == 0 {
        assert(by_output.take(0) =~= Seq::<OutputWindowsView>::empty());
        assert(listed_ids(Seq::<NodeView>::empty()) =~= Set::<i64>::empty());
    } else {
        lemma_windows_of_outputs_once(outputs, n - 1);
        let output = outputs[n - 1];
        let earlier = all_windows(by_output.take(n - 1));
        let last = by_output[n - 1].windows;
        assert(by_output.take(n).drop_last() =~= by_output.take(n - 1));
        assert(by_output.take(n).last() == by_output[n - 1]);
        assert(all_windows(by_output.take(n)) == earlier + last);
        lemma_focused_workspace_within(output);
        match focused_workspace(output) {
            Some(workspace) => {
                lemma_each_window_listed_once(workspace);
                lemma_window_ids_within(workspace);
            },
            None => {
                assert(listed_ids(last) =~= Set::<i64>::empty());
            },
        }
        assert(listed_ids(last).subset_of(ids_below(output)));
        assert(distinct_ids(output));
        assert(listed_once(last));
        assert(listed_ids(earlier).disjoint(listed_ids(last))) by {
            assert forall|id: i64| listed_ids(earlier).contains(id) implies !listed_ids(
                last,
            ).contains(id) by {
                let k = choose|k: int|
                    0 <= k < n - 1 && ids_below(#[trigger] outputs[k]).contains(id);
                assert(ids_below(outputs[k]).disjoint(ids_below(outputs[n - 1])));
            }
        }
        lemma_listed_ids_concat(earlier, last);
        assert forall|id: i64| #[trigger]
            listed_ids(earlier + last).contains(id) implies exists|k: int|
            0 <= k < n && ids_below(#[trigger] outputs[k]).contains(id) by {
            if listed_ids(last).contains(id) {
                assert(ids_below(outputs[n - 1]).contains(id));
            } else {
                let k = choose|k: int|
                    0 <= k < n - 1 && ids_below(#[trigger] outputs[k]).contains(id);
                assert(ids_below(outputs[k]).contains(id));
            }
        }
    }
}

/// Every window gets one label: in a tree in which no two nodes share an id
/// and no listed output lies within another, no two labels are labels of
/// the same window.
pub proof fn lemma_each_window_labelled_once(
    root: NodeView,
    hints: Seq<char>,
    margin_x: int,
    margin_y: int,
)
    requires
        distinct_ids(root),
        side_by_side(outputs_below(root)),
    ensures
        ({
            let labels = all_labels(
                overlays_for(windows_by_output(outputs_below(root)), hints, margin_x, margin_y),
            );
            forall|i: int, j: int|
                0 <= i < j < labels.len() ==> (#[trigger] labels[i]).window.id != (
                #[trigger] labels[j]).window.id
        }),
{
    let outputs = outputs_below(root);
    let by_output = windows_by_output(outputs);
    let labels = all_labels(overlays_for(by_output, hints, margin_x, margin_y));
    assert forall|i: int, j: int|
        0 <= i < outputs.len() && 0 <= j < outputs.len() && i != j implies ids_below(
        #[trigger] outputs[i],
    ).disjoint(ids_below(#[trigger] outputs[j])) by {
        lemma_outputs_apart(root, i, j);
    }
    assert forall|i: int| 0 <= i < outputs.len() implies distinct_ids(#[trigger] outputs[i]) by {
        lemma_output_distinct(root, i);
    }
    lemma_windows_of_outputs_once(outputs, outputs.len() as int);
    assert(by_output.take(outputs.len() as int) =~= by_output);
    lemma_labels_are_windows(by_output, hints, margin_x, margin_y);
    let windows = all_windows(by_output);
    assert forall|i: int, j: int| 0 <= i < j < labels.len() implies (#[trigger] labels[i]).window.id
        != (#[trigger] labels[j]).window.id by {
        assert(labels[i].window == windows[i]);
        assert(labels[j].window == windows[j]);
    }
}

/// Every overlay shows at least one label, and every label sits where
/// [`label_anchor`] places its window on the overlay's output. Outputs
/// without windows make no overlay at all.
pub proof fn lemma_overlays_are_placed(
    outputs: Seq<OutputWindowsView>,
    hints: Seq<char>,
    margin_x: int,
    margin_y: int,
)
    ensures
        window_total(outputs) == 0 ==> overlays_for(outputs, hints, margin_x, margin_y).len() == 0,
        forall|o: int|
            0 <= o < overlays_for(outputs, hints, margin_x, margin_y).len() ==> (
            #[trigger] overlays_for(outputs, hints, margin_x, margin_y)[o]).labels.len() > 0,
        forall|o: int, l: int|
            #![trigger overlays_for(outputs, hints, margin_x, margin_y)[o].labels[l]]
            0 <= o < overlays_for(outputs, hints, margin_x, margin_y).len() && 0 <= l
                < overlays_for(outputs, hints, margin_x, margin_y)[o].labels.len() ==> {
                let overlay = overlays_for(outputs, hints, margin_x, margin_y)[o];
                let label = overlay.labels[l];
                (label.x, label.y) == label_anchor(label.window, overlay.output, margin_x, margin_y)
            },
    decreases outputs.len(),
{
    if outputs.len() > 0 {
        lemma_overlays_are_placed(outputs.drop_last(), hints, margin_x, margin_y);
    }
}

} // verus!
