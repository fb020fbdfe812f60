//! Pick one window of a tiling compositor by a single hint key.
//!
//! The crate holds the engine only: the walk over the compositor's window
//! tree, the placement of hint labels, the assignment of hint keys, and the
//! state machine that turns one key press into compositor commands. Talking
//! to the compositor and drawing the overlay are left to the caller.
//!
//! - [`tree`]: the window tree and its model.
//! - [`sway`]: the outputs of a tree, the focused workspace of an output, the
//!   windows of a workspace, and the texts of the compositor commands.
//! - [`ids`]: what holds of the walks where no two nodes share an id.
//! - [`ui`]: the overlays, with the place and the hint key of every label.
//! - [`selection`]: one key press, and the states of a selection.
//! - [`cli`]: the options and the settings.
//! - [`utils`]: decimal numbers, hex colours and the style sheet.

pub mod cli;
pub mod ids;
pub mod selection;
pub mod sway;
pub mod tree;
pub mod ui;
pub mod utils;
