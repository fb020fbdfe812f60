//! What a caller chooses: the options as they are given, layer over layer,
//! and the settings of one selection that come out of them.

use vstd::prelude::*;

verus! {

/// What to do with the selected container.
#[derive(Clone, Copy, Debug, PartialEq, Eq, Structural)]
pub enum Command {
    /// Focus the container.
    Focus,
    /// Swap the currently focused window with the selected one, and move the
    /// focus along where `focus` is set.
    Swap { focus: bool },
    /// Print the container's id.
    Print,
}

/// The settings of one selection.
#[derive(Debug)]
pub struct Settings {
    /// The hint keys, in the order in which they are handed out.
    pub chars: String,
    /// How far a label is moved to the right, in pixels.
    pub label_margin_x: i32,
    /// How far a label is moved down, in pixels.
    pub label_margin_y: i32,
    /// Whether the selected window's label stays on screen for a moment.
    pub show_confirmation: bool,
    /// The selected command.
    pub command: Command,
}

impl Default for Settings {
    fn default() -> (settings: Self)
        ensures
            settings.chars@ == "fjghdkslaemuvitywoqpcbnxz"@,
            settings.label_margin_x == 4,
            settings.label_margin_y == 2,
            settings.show_confirmation,
            settings.command == Command::Focus,
    {
        Settings {
            chars: String::from_str("fjghdkslaemuvitywoqpcbnxz"),
            label_margin_x: 4,
            label_margin_y: 2,
            show_confirmation: true,
            command: Command::Focus,
        }
    }
}

/// The options as they are given. An option that is not given is `None`.
///
/// The opacities are kept as the text that goes into the style sheet.
#[derive(Debug)]
pub struct Args {
    /// list of chars to use for hints
    pub chars: Option<String>,
    /// the window background color, `rrggbb`
    pub window_background_color: Option<String>,
    /// the window background opacity, from 0 to 1.0
    pub window_background_opacity: Option<String>,
    /// the label background color, `rrggbb`
    pub label_background_color: Option<String>,
    /// the label background opacity, from 0 to 1.0
    pub label_background_opacity: Option<String>,
    /// the label text color, `rrggbb`
    pub label_text_color: Option<String>,
    /// the background color of the focused window's label, `rrggbb`
    pub focused_background_color: Option<String>,
    /// the background opacity of the focused window's label, from 0 to 1.0
    pub focused_background_opacity: Option<String>,
    /// the text color of the focused window's label, `rrggbb`
    pub focused_text_color: Option<String>,
    /// the font family
    pub font_family: Option<String>,
    /// the font weight
    pub font_weight: Option<String>,
    /// the font size
    pub font_size: Option<String>,
    /// the label padding-x, in pixels
    pub label_padding_x: Option<i32>,
    /// the label padding-y, in pixels
    pub label_padding_y: Option<i32>,
    /// the label margin-x, in pixels
    pub label_margin_x: Option<i32>,
    /// the label margin-y, in pixels
    pub label_margin_y: Option<i32>,
    /// show the confirmation after a selection
    pub show_confirmation: Option<bool>,
    /// the selected command
    pub command: Option<Command>,
}

/// The model of [`Args`].
pub struct ArgsView {
    pub chars: Option<Seq<char>>,
    pub window_background_color: Option<Seq<char>>,
    pub window_background_opacity: Option<Seq<char>>,
    pub label_background_color: Option<Seq<char>>,
    pub label_background_opacity: Option<Seq<char>>,
    pub label_text_color: Option<Seq<char>>,
    pub focused_background_color: Option<Seq<char>>,
    pub focused_background_opacity: Option<Seq<char>>,
    pub focused_text_color: Option<Seq<char>>,
    pub font_family: Option<Seq<char>>,
    pub font_weight: Option<Seq<char>>,
    pub font_size: Option<Seq<char>>,
    pub label_padding_x: Option<i32>,
    pub label_padding_y: Option<i32>,
    pub label_margin_x: Option<i32>,
    pub label_margin_y: Option<i32>,
    pub show_confirmation: Option<bool>,
    pub command: Option<Command>,
}

/// The model of a text that may be missing.
pub open spec fn text_view(text: Option<String>) -> Option<Seq<char>> {
    match text {
        Some(text) => Some(text@),
        None => None,
    }
}

impl View for Args {
    type V = ArgsView;

    open spec fn view(&self) -> ArgsView {
        ArgsView {
            chars: text_view(self.chars),
            window_background_color: text_view(self.window_background_color),
            window_background_opacity: text_view(self.window_background_opacity),
            label_background_color: text_view(self.label_background_color),
            label_background_opacity: text_view(self.label_background_opacity),
            label_text_color: text_view(self.label_text_color),
            focused_background_color: text_view(self.focused_background_color),
            focused_background_opacity: text_view(self.focused_background_opacity),
            focused_text_color: text_view(self.focused_text_color),
            font_family: text_view(self.font_family),
            font_weight: text_view(self.font_weight),
            font_size: text_view(self.font_size),
            label_padding_x: self.label_padding_x,
            label_padding_y: self.label_padding_y,
            label_margin_x: self.label_margin_x,
            label_margin_y: self.label_margin_y,
            show_confirmation: self.show_confirmation,
            command: self.command,
        }
    }
}

/// One option of two layers: that of the upper layer where it is given,
/// that of the lower layer otherwise.
pub open spec fn over<T>(upper: Option<T>, lower: Option<T>) -> Option<T> {
    if upper is Some {
        upper
    } else {
        lower
    }
}

/// Two layers of options in one: every option that the upper layer gives,
/// and of the lower layer what the upper one leaves open.
pub open spec fn merged(lower: ArgsView, upper: ArgsView) -> ArgsView {
    ArgsView {
        chars: over(upper.chars, lower.chars),
        window_background_color: over(
            upper.window_background_color,
            lower.window_background_color,
        ),
        window_background_opacity: over(
            upper.window_background_opacity,
            lower.window_background_opacity,
        ),
        label_background_color: over(upper.label_background_color, lower.label_background_color),
        label_background_opacity: over(
            upper.label_background_opacity,
            lower.label_background_opacity,
        ),
        label_text_color: over(upper.label_text_color, lower.label_text_color),
        focused_background_color: over(
            upper.focused_background_color,
            lower.focused_background_color,
        ),
        focused_background_opacity: over(
            upper.focused_background_opacity,
            lower.focused_background_opacity,
        ),
        focused_text_color: over(upper.focused_text_color, lower.focused_text_color),
        font_family: over(upper.font_family, lower.font_family),
        font_weight: over(upper.font_weight, lower.font_weight),
        font_size: over(upper.font_size, lower.font_size),
        label_padding_x: over(upper.label_padding_x, lower.label_padding_x),
        label_padding_y: over(upper.label_padding_y, lower.label_padding_y),
        label_margin_x: over(upper.label_margin_x, lower.label_margin_x),
        label_margin_y: over(upper.label_margin_y, lower.label_margin_y),
        show_confirmation: over(upper.show_confirmation, lower.show_confirmation),
        command: over(upper.command, lower.command),
    }
}

/// A copy of a text that may be missing.
fn copy_of(text: &Option<String>) -> (copy: Option<String>)
    ensures
        text_view(copy) == text_view(*text),
{
    match text {
        Some(text) => Some(text.clone()),
        None => None,
    }
}

/// Lays a text of the upper layer over that of the lower layer.
fn lay_text(lower: &mut Option<String>, upper: &Option<String>)
    ensures
        text_view(*final(lower)) == over(text_view(*upper), text_view(*old(lower))),
{
    if upper.is_some() {
        *lower = copy_of(upper);
    }
}

/// Lays an option of the upper layer over that of the lower layer.
fn lay<T: Copy>(lower: &mut Option<T>, upper: &Option<T>)
    ensures
        *final(lower) == over(*upper, *old(lower)),
{
    if upper.is_some() {
        *lower = *upper;
    }
}

impl Args {
    /// Lays `other` over these options: takes over every option that
    /// `other` gives, and keeps the rest.
    pub fn merge(&mut self, other: &Self)
        ensures
            final(self)@ == merged(old(self)@, other@),
    {
        lay_text(&mut self.chars, &other.chars);
        lay_text(&mut self.window_background_color, &other.window_background_color);
        lay_text(&mut self.window_background_opacity, &other.window_background_opacity);
        lay_text(&mut self.label_background_color, &other.label_background_color);
        lay_text(&mut self.label_background_opacity, &other.label_background_opacity);
        lay_text(&mut self.label_text_color, &other.label_text_color);
        lay_text(&mut self.focused_background_color, &other.focused_background_color);
        lay_text(&mut self.focused_background_opacity, &other.focused_background_opacity);
        lay_text(&mut self.focused_text_color, &other.focused_text_color);
        lay_text(&mut self.font_family, &other.font_family);
        lay_text(&mut self.font_weight, &other.font_weight);
        lay_text(&mut self.font_size, &other.font_size);
        lay(&mut self.label_padding_x, &other.label_padding_x);
        lay(&mut self.label_padding_y, &other.label_padding_y);
        lay(&mut self.label_margin_x, &other.label_margin_x);
        lay(&mut self.label_margin_y, &other.label_margin_y);
        lay(&mut self.command, &other.command);
        lay(&mut self.show_confirmation, &other.show_confirmation);
    }

    /// The settings of a selection: the hint keys and the label margins as
    /// given, the command or else `Focus`, and the confirmation unless it is
    /// switched off. Without hint keys or without a margin there are none.
    pub fn settings(&self) -> (settings: Option<Settings>)
        ensures
            match settings {
                Some(settings) => {
                    &&& self@.chars == Some(settings.chars@)
                    &&& self.label_margin_x == Some(settings.label_margin_x)
                    &&& self.label_margin_y == Some(settings.label_margin_y)
                    &&& settings.show_confirmation == (self.show_confirmation != Some(false))
                    &&& settings.command == match self.command {
                        Some(command) => command,
                        None => Command::Focus,
                    }
                },
                None => self.chars is None || self.label_margin_x is None || self.label_margin_y
                    is None,
            },
    {
        match (&self.chars, self.label_margin_x, self.label_margin_y) {
            (Some(chars), Some(label_margin_x), Some(label_margin_y)) => Some(
                Settings {
                    chars: chars.clone(),
                    label_margin_x,
                    label_margin_y,
                    show_confirmation: match self.show_confirmation {
                        Some(show) => show,
                        None => true,
                    },
                    command: match self.command {
                        Some(command) => command,
                        None => Command::Focus,
                    },
                },
            ),
            _ => None,
        }
    }
}

/// The options that hold where nothing else is given.
pub open spec fn default_args() -> ArgsView {
    ArgsView {
        chars: Some("fjghdkslaemuvitywoqpcbnxz"@),
        window_background_color: Some("1d1f21"@),
        window_background_opacity: Some("0.2"@),
        label_background_color: Some("1d1f21"@),
        label_background_opacity: Some("1"@),
        label_text_color: Some("c5c8c6"@),
        focused_background_color: Some("285577"@),
        focused_background_opacity: Some("1"@),
        focused_text_color: Some("ffffff"@),
        font_family: Some("monospace"@),
        font_weight: Some("bold"@),
        font_size: Some("medium"@),
        label_padding_x: Some(4i32),
        label_padding_y: Some(0i32),
        label_margin_x: Some(4i32),
        label_margin_y: Some(2i32),
        show_confirmation: Some(true),
        command: Some(Command::Focus),
    }
}

impl Default for Args {
    fn default() -> (args: Self)
        ensures
            args@ == default_args(),
    {
        Self {
            chars: Some(String::from_str("fjghdkslaemuvitywoqpcbnxz")),
            window_background_color: Some(String::from_str("1d1f21")),
            window_background_opacity: Some(String::from_str("0.2")),
            label_background_color: Some(String::from_str("1d1f21")),
            label_background_opacity: Some(String::from_str("1")),
            label_text_color: Some(String::from_str("c5c8c6")),
            focused_background_color: Some(String::from_str("285577")),
            focused_background_opacity: Some(String::from_str("1")),
            focused_text_color: Some(String::from_str("ffffff")),
            font_family: Some(String::from_str("monospace")),
            font_weight: Some(String::from_str("bold")),
            font_size: Some(String::from_str("medium")),
            label_padding_x: Some(4),
            label_padding_y: Some(0),
            label_margin_x: Some(4),
            label_margin_y: Some(2),
            show_confirmation: Some(true),
            command: Some(Command::Focus),
        }
    }
}

} // verus!
