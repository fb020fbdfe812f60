//! One selection: what a key press comes to, what carrying out a command
//! asks for, and the states that a selection runs through.

use crate::cli::Command;
use crate::sway::{focus, focus_command, swap, swap_command};
use crate::ui::{keyed_by_char, locate, overlay_views, HintAssignment, OverlayView};
use std::collections::HashMap;
use vstd::prelude::*;

verus! {

broadcast use vstd::std_specs::hash::group_hash_axioms;

/// What one key press comes to.
#[derive(Clone, Copy, Debug, PartialEq, Eq, Structural)]
pub enum SelectionOutcome {
    /// The key selects the window with this id, on which this command is
    /// carried out.
    Matched(i64, Command),
    /// The key selects no window.
    Unmatched,
}

/// What `char::is_alphabetic` of the standard library says of a character.
pub uninterp spec fn alphabetic(c: char) -> bool;

/// What `char::is_lowercase` of the standard library says of a character.
pub uninterp spec fn lowercase(c: char) -> bool;

/// Calls `char::is_alphabetic` of the standard library. Nothing is proved of
/// it: the contract only gives its answer the name [`alphabetic`], which
/// claims that the answer depends on the character alone.
#[verifier::external_body]
fn char_is_alphabetic(c: char) -> (answer: bool)
    ensures
        answer == alphabetic(c),
{
    c.is_alphabetic()
}

/// Calls `char::is_lowercase` of the standard library. Nothing is proved of
/// it: the contract only gives its answer the name [`lowercase`], which
/// claims that the answer depends on the character alone.
#[verifier::external_body]
fn char_is_lowercase(c: char) -> (answer: bool)
    ensures
        answer == lowercase(c),
{
    c.is_lowercase()
}

/// Whether a key name is a hint key: one character that is alphabetic and
/// lower case.
pub open spec fn is_hint_key(keyval: Seq<char>) -> bool {
    keyval.len() == 1 && alphabetic(keyval[0]) && lowercase(keyval[0])
}

/// What a key that is one character comes to, given whether the character
/// is alphabetic and whether it is lower case: a match if it is both and the
/// map holds it, no match otherwise.
pub open spec fn resolve_char(
    keys: Map<char, i64>,
    key: char,
    is_alphabetic: bool,
    is_lowercase: bool,
    command: Command,
) -> SelectionOutcome {
    if is_alphabetic && is_lowercase && keys.contains_key(key) {
        SelectionOutcome::Matched(keys[key], command)
    } else {
        SelectionOutcome::Unmatched
    }
}

/// What a key press comes to: a match if the key name is a hint key that the
/// map holds, no match for any other key name.
pub open spec fn resolve(
    keys: Map<char, i64>,
    keyval: Seq<char>,
    command: Command,
) -> SelectionOutcome {
    if keyval.len() == 1 {
        resolve_char(keys, keyval[0], alphabetic(keyval[0]), lowercase(keyval[0]), command)
    } else {
        SelectionOutcome::Unmatched
    }
}

/// Resolves a key that is one character against the map from hint key to
/// window id, given whether the character is alphabetic and whether it is
/// lower case.
pub fn resolve_key(
    key_to_con_id: &HashMap<u32, i64>,
    key: char,
    is_alphabetic: bool,
    is_lowercase: bool,
    command: &Command,
) -> (outcome: SelectionOutcome)
    ensures
        outcome == resolve_char(
            keyed_by_char(key_to_con_id@),
            key,
            is_alphabetic,
            is_lowercase,
            *command,
        ),
{
    if is_alphabetic && is_lowercase {
        let code = key as u32;
        if let Some(con_id) = key_to_con_id.get(&code) {
            return SelectionOutcome::Matched(*con_id, *command);
        }
    }
    SelectionOutcome::Unmatched
}

/// Resolves one key press against the map from hint key to window id.
pub fn handle_keypress(
    key_to_con_id: &HashMap<u32, i64>,
    keyval: &str,
    command: &Command,
) -> (outcome: SelectionOutcome)
    ensures
        outcome == resolve(keyed_by_char(key_to_con_id@), keyval@, *command),
{
    if keyval.unicode_len() == 1 {
        let c = keyval.get_char(0);
        resolve_key(key_to_con_id, c, char_is_alphabetic(c), char_is_lowercase(c), command)
    } else {
        SelectionOutcome::Unmatched
    }
}

/// One thing that the caller is asked to do.
#[derive(Debug, PartialEq, Eq)]
pub enum Action {
    /// Create one surface for each overlay, draw its labels, grab the
    /// keyboard, and present the surfaces.
    ShowOverlays,
    /// Send this command to the compositor.
    RunCommand(String),
    /// Write this window id to standard output.
    Print(i64),
    /// Hide the surfaces of all overlays, without destroying them.
    HideOverlays,
    /// Show the confirmation: the label `label` of the overlay `overlay`
    /// alone, at its place, in the style of a selected label.
    ShowConfirmation { overlay: usize, label: usize },
    /// Report [`Event::ConfirmationElapsed`] after this many milliseconds.
    Wait(u64),
    /// Destroy every surface.
    CloseAll,
}

/// The model of an [`Action`].
pub enum ActionView {
    ShowOverlays,
    RunCommand(Seq<char>),
    Print(i64),
    HideOverlays,
    ShowConfirmation { overlay: int, label: int },
    Wait(int),
    CloseAll,
}

impl View for Action {
    type V = ActionView;

    open spec fn view(&self) -> ActionView {
        match *self {
            Action::ShowOverlays => ActionView::ShowOverlays,
            Action::RunCommand(text) => ActionView::RunCommand(text@),
            Action::Print(con_id) => ActionView::Print(con_id),
            Action::HideOverlays => ActionView::HideOverlays,
            Action::ShowConfirmation { overlay, label } => ActionView::ShowConfirmation {
                overlay: overlay as int,
                label: label as int,
            },
            Action::Wait(millis) => ActionView::Wait(millis as int),
            Action::CloseAll => ActionView::CloseAll,
        }
    }
}

/// The models of a sequence of actions.
pub open spec fn action_views(actions: Seq<Action>) -> Seq<ActionView> {
    Seq::new(actions.len(), |i: int| actions[i]@)
}

/// What carrying out a command on a window asks for: one compositor command
/// to focus; one to swap, and one more to focus where the swap is to move
/// the focus along; for printing, the id and no compositor command.
pub open spec fn command_actions(command: Command, con_id: i64) -> Seq<ActionView> {
    match command {
        Command::Focus => seq![ActionView::RunCommand(focus_command(con_id))],
        Command::Swap { focus } => if focus {
            seq![
                ActionView::RunCommand(swap_command(con_id)),
                ActionView::RunCommand(focus_command(con_id)),
            ]
        } else {
            seq![ActionView::RunCommand(swap_command(con_id))]
        },
        Command::Print => seq![ActionView::Print(con_id)],
    }
}

/// The actions that carry out `command` on the window `con_id`.
pub fn execute(command: &Command, con_id: i64) -> (actions: Vec<Action>)
    ensures
        action_views(actions@) == command_actions(*command, con_id),
{
    let mut actions: Vec<Action> = Vec::new();
    match command {
        Command::Focus => {
            actions.push(Action::RunCommand(focus(con_id)));
        },
        Command::Swap { focus: also_focus } => {
            actions.push(Action::RunCommand(swap(con_id)));
            if *also_focus {
                actions.push(Action::RunCommand(focus(con_id)));
            }
        },
        Command::Print => {
            actions.push(Action::Print(con_id));
        },
    }
    assert(action_views(actions@) =~= command_actions(*command, con_id));
    actions
}

/// How long the confirmation stays on screen, in milliseconds.
pub const CONFIRMATION_MILLIS: u64 = 500;

/// Where a selection stands.
#[derive(Clone, Copy, Debug, PartialEq, Eq, Structural)]
pub enum Phase {
    /// Nothing is on screen yet.
    Idle,
    /// The overlays are on screen and wait for a key.
    Shown,
    /// A window was selected; its confirmation is on screen.
    Confirming,
    /// Every surface is gone.
    Closed,
}

/// What the caller reports to a selection.
#[derive(Debug, PartialEq, Eq)]
pub enum Event {
    /// The toolkit is ready to show surfaces.
    Activated,
    /// A key with this name was pressed on one of the overlays.
    KeyPressed(String),
    /// The time asked for by [`Action::Wait`] has passed.
    ConfirmationElapsed,
}

/// The model of an [`Event`].
pub enum EventView {
    Activated,
    KeyPressed(Seq<char>),
    ConfirmationElapsed,
}

impl View for Event {
    type V = EventView;

    open spec fn view(&self) -> EventView {
        match *self {
            Event::Activated => EventView::Activated,
            Event::KeyPressed(keyval) => EventView::KeyPressed(keyval@),
            Event::ConfirmationElapsed => EventView::ConfirmationElapsed,
        }
    }
}

/// One selection: the overlays with their hint keys, what was asked for, and
/// how far the selection has come. All overlays share it, so that a key
/// pressed on one output can select a window of another.
#[derive(Debug)]
pub struct Selection {
    /// Where the selection stands.
    pub phase: Phase,
    /// The overlays and their hint keys.
    pub assignment: HintAssignment,
    /// The command that is carried out on the selected window.
    pub command: Command,
    /// Whether the selected window's label stays on screen for a moment.
    pub show_confirmation: bool,
    /// What the key press came to, once there was one.
    pub outcome: Option<SelectionOutcome>,
}

/// The model of a [`Selection`].
pub struct SelectionView {
    pub phase: Phase,
    pub keys: Map<char, i64>,
    pub overlays: Seq<OverlayView>,
    pub command: Command,
    pub show_confirmation: bool,
    pub outcome: Option<SelectionOutcome>,
}

impl View for Selection {
    type V = SelectionView;

    open spec fn view(&self) -> SelectionView {
        SelectionView {
            phase: self.phase,
            keys: self.assignment.key_map(),
            overlays: overlay_views(self.assignment.overlays@),
            command: self.command,
            show_confirmation: self.show_confirmation,
            outcome: self.outcome,
        }
    }
}

/// The confirmation of the window `con_id`: its label, where it is found.
pub open spec fn confirmation(overlays: Seq<OverlayView>, con_id: i64) -> Seq<ActionView> {
    match locate(overlays, con_id) {
        Some((overlay, label)) => seq![ActionView::ShowConfirmation { overlay, label }],
        None => Seq::empty(),
    }
}

/// The state after the key press on the shown overlays has come to
/// `outcome`: a match leads to the confirmation, or closes the selection
/// where no confirmation is wanted; no match closes it. A selection whose
/// overlays are not shown stays as it is.
pub open spec fn settled_state(state: SelectionView, outcome: SelectionOutcome) -> SelectionView {
    if state.phase == Phase::Shown {
        SelectionView {
            phase: if outcome is Matched && state.show_confirmation {
                Phase::Confirming
            } else {
                Phase::Closed
            },
            outcome: Some(outcome),
            ..state
        }
    } else {
        state
    }
}

/// What the caller is to do once the key press on the shown overlays has
/// come to `outcome`, in this order.
///
/// A match has the command carried out first. Then, where a confirmation is
/// wanted, the overlays are hidden, the confirmation is shown and the caller
/// waits [`CONFIRMATION_MILLIS`]; where none is wanted, every surface is
/// closed at once. No match closes every surface and carries out no
/// command.
pub open spec fn settled_actions(state: SelectionView, outcome: SelectionOutcome) -> Seq<
    ActionView,
> {
    if state.phase == Phase::Shown {
        match outcome {
            SelectionOutcome::Matched(con_id, command) => if state.show_confirmation {
                command_actions(command, con_id) + seq![ActionView::HideOverlays] + confirmation(
                    state.overlays,
                    con_id,
                ) + seq![ActionView::Wait(CONFIRMATION_MILLIS as int)]
            } else {
                command_actions(command, con_id) + seq![ActionView::CloseAll]
            },
            SelectionOutcome::Unmatched => seq![ActionView::CloseAll],
        }
    } else {
        Seq::empty()
    }
}

/// The state after an event.
///
/// Activation shows the overlays, or closes the selection at once where
/// there is no overlay to show. The first key press on the shown overlays
/// decides, as [`settled_state`] says. The end of the confirmation closes
/// the selection. Every other event leaves the state as it is.
pub open spec fn next_state(state: SelectionView, event: EventView) -> SelectionView {
    match (state.phase, event) {
        (Phase::Idle, EventView::Activated) => SelectionView {
            phase: if state.overlays.len() == 0 {
                Phase::Closed
            } else {
                Phase::Shown
            },
            ..state
        },
        (Phase::Shown, EventView::KeyPressed(keyval)) => settled_state(
            state,
            resolve(state.keys, keyval, state.command),
        ),
        (Phase::Confirming, EventView::ConfirmationElapsed) => SelectionView {
            phase: Phase::Closed,
            ..state
        },
        _ => state,
    }
}

/// What an event asks the caller to do, in this order: to show the overlays
/// on activation, what [`settled_actions`] says on the first key press, and
/// to close every surface at the end of the confirmation.
pub open spec fn next_actions(state: SelectionView, event: EventView) -> Seq<ActionView> {
    match (state.phase, event) {
        (Phase::Idle, EventView::Activated) => if state.overlays.len() == 0 {
            Seq::empty()
        } else {
            seq![ActionView::ShowOverlays]
        },
        (Phase::Shown, EventView::KeyPressed(keyval)) => settled_actions(
            state,
            resolve(state.keys, keyval, state.command),
        ),
        (Phase::Confirming, EventView::ConfirmationElapsed) => seq![ActionView::CloseAll],
        _ => Seq::empty(),
    }
}

impl Selection {
    /// Takes what the key press on the shown overlays has come to: moves the
    /// selection on and says what the caller is to do, in order. A selection
    /// whose overlays are not shown takes nothing.
    pub fn settle(&mut self, outcome: SelectionOutcome) -> (actions: Vec<Action>)
        ensures
            final(self)@ == settled_state(old(self)@, outcome),
            action_views(actions@) == settled_actions(old(self)@, outcome),
            final(self).assignment == old(self).assignment,
    {
        let mut actions: Vec<Action> = Vec::new();
        proof {
            assert(action_views(actions@) =~= Seq::<ActionView>::empty());
        }
        if self.phase != Phase::Shown {
            return actions;
        }
        self.outcome = Some(outcome);
        match outcome {
            SelectionOutcome::Matched(con_id, command) => {
                actions = execute(&command, con_id);
                let ghost done = action_views(actions@);
                if self.show_confirmation {
                    actions.push(Action::HideOverlays);
                    let ghost hidden = action_views(actions@);
                    match self.assignment.place_of(con_id) {
                        Some((overlay, label)) => {
                            actions.push(Action::ShowConfirmation { overlay, label });
                        },
                        None => {},
                    }
                    let ghost confirmed = action_views(actions@);
                    actions.push(Action::Wait(CONFIRMATION_MILLIS));
                    self.phase = Phase::Confirming;
                    proof {
                        assert(hidden =~= done + seq![ActionView::HideOverlays]);
                        assert(confirmed =~= hidden + confirmation(old(self)@.overlays, con_id));
                        assert(action_views(actions@) =~= confirmed + seq![
                            ActionView::Wait(CONFIRMATION_MILLIS as int),
                        ]);
                    }
                } else {
                    actions.push(Action::CloseAll);
                    self.phase = Phase::Closed;
                    proof {
                        assert(action_views(actions@) =~= done + seq![ActionView::CloseAll]);
                    }
                }
            },
            SelectionOutcome::Unmatched => {
                actions.push(Action::CloseAll);
                self.phase = Phase::Closed;
                proof {
                    assert(action_views(actions@) =~= seq![ActionView::CloseAll]);
                }
            },
        }
        actions
    }

    /// Takes one event: moves the selection on and says what the caller is
    /// to do, in order. The overlays and their keys stay as they are.
    pub fn step(&mut self, event: &Event) -> (actions: Vec<Action>)
        ensures
            final(self)@ == next_state(old(self)@, event@),
            action_views(actions@) == next_actions(old(self)@, event@),
            final(self).assignment == old(self).assignment,
    {
        let mut actions: Vec<Action> = Vec::new();
        proof {
            assert(action_views(actions@) =~= Seq::<ActionView>::empty());
        }
        match self.phase {
            Phase::Idle => match event {
                Event::Activated => {
                    if self.assignment.overlays.len() == 0 {
                        self.phase = Phase::Closed;
                    } else {
                        self.phase = Phase::Shown;
                        actions.push(Action::ShowOverlays);
                        proof {
                            assert(action_views(actions@) =~= seq![ActionView::ShowOverlays]);
                        }
                    }
                },
                _ => {},
            },
            Phase::Shown => match event {
                Event::KeyPressed(keyval) => {
                    let outcome = handle_keypress(
                        &self.assignment.key_to_con_id,
                        keyval.as_str(),
                        &self.command,
                    );
                    actions = self.settle(outcome);
                },
                _ => {},
            },
            Phase::Confirming => match event {
                Event::ConfirmationElapsed => {
                    actions.push(Action::CloseAll);
                    self.phase = Phase::Closed;
                    proof {
                        assert(action_views(actions@) =~= seq![ActionView::CloseAll]);
                    }
                },
                _ => {},
            },
            Phase::Closed => {},
        }
        actions
    }
}

/// A key that is no hint key, or that the map does not hold, comes to no
/// match: a key name of more or less than one character, a character that
/// is not alphabetic or not lower case, or one that is no key of the map.
/// On the shown overlays such a key closes the selection at once, and no
/// command is carried out.
pub proof fn lemma_unmatched_key_closes(state: SelectionView, keyval: Seq<char>)
    requires
        state.phase == Phase::Shown,
    ensures
        !is_hint_key(keyval) || !state.keys.contains_key(keyval[0]) ==> {
            &&& resolve(state.keys, keyval, state.command) == SelectionOutcome::Unmatched
            &&& next_state(state, EventView::KeyPressed(keyval)).phase == Phase::Closed
            &&& next_state(state, EventView::KeyPressed(keyval)).outcome == Some(
                SelectionOutcome::Unmatched,
            )
            &&& next_actions(state, EventView::KeyPressed(keyval)) == seq![ActionView::CloseAll]
        },
        settled_state(state, SelectionOutcome::Unmatched).phase == Phase::Closed,
        settled_actions(state, SelectionOutcome::Unmatched) == seq![ActionView::CloseAll],
{
}

/// Once a key was pressed on the shown overlays, no further key does
/// anything.
pub proof fn lemma_one_key_decides(state: SelectionView, first: Seq<char>, second: Seq<char>)
    requires
        state.phase == Phase::Shown,
    ensures
        ({
            let decided = next_state(state, EventView::KeyPressed(first));
            &&& next_state(decided, EventView::KeyPressed(second)) == decided
            &&& next_actions(decided, EventView::KeyPressed(second)) == Seq::<ActionView>::empty()
        }),
{
}

/// A key that selects a window has the command carried out at once, before
/// anything is hidden or closed. With the confirmation, the overlays are
/// then hidden, the confirmation is shown and the caller waits; once the
/// time has passed, every surface is closed and the selection is closed.
pub proof fn lemma_match_with_confirmation(state: SelectionView, con_id: i64, command: Command)
    requires
        state.phase == Phase::Shown,
        state.show_confirmation,
    ensures
        ({
            let outcome = SelectionOutcome::Matched(con_id, command);
            let confirming = settled_state(state, outcome);
            &&& confirming.phase == Phase::Confirming
            &&& confirming.outcome == Some(outcome)
            &&& settled_actions(state, outcome) == command_actions(command, con_id)
                + seq![ActionView::HideOverlays] + confirmation(state.overlays, con_id)
                + seq![ActionView::Wait(500)]
            &&& next_state(confirming, EventView::ConfirmationElapsed).phase == Phase::Closed
            &&& next_actions(confirming, EventView::ConfirmationElapsed) == seq![
                ActionView::CloseAll,
            ]
        }),
{
}

/// Without the confirmation, a key that selects a window has the command
/// carried out and then every surface closed, without delay; the selection
/// is closed.
pub proof fn lemma_match_without_confirmation(state: SelectionView, con_id: i64, command: Command)
    requires
        state.phase == Phase::Shown,
        !state.show_confirmation,
    ensures
        ({
            let outcome = SelectionOutcome::Matched(con_id, command);
            &&& settled_state(state, outcome).phase == Phase::Closed
            &&& settled_state(state, outcome).outcome == Some(outcome)
            &&& settled_actions(state, outcome) == command_actions(command, con_id) + seq![
                ActionView::CloseAll,
            ]
        }),
{
}

/// A selection without overlays closes on activation, and asks for nothing.
pub proof fn lemma_nothing_to_show(state: SelectionView)
    requires
        state.phase == Phase::Idle,
        state.overlays.len() == 0,
    ensures
        next_state(state, EventView::Activated).phase == Phase::Closed,
        next_state(state, EventView::Activated).outcome == state.outcome,
        next_actions(state, EventView::Activated) == Seq::<ActionView>::empty(),
{
}

} // verus!
