//! Text helpers: numbers written in decimal, colours read from hex codes,
//! and the style sheet of the overlay.

use crate::cli::{Args, ArgsView};
use vstd::prelude::*;

verus! {

/// The character of a decimal digit.
pub open spec fn digit_char(digit: int) -> char {
    if digit == 0 {
        '0'
    } else if digit == 1 {
        '1'
    } else if digit == 2 {
        '2'
    } else if digit == 3 {
        '3'
    } else if digit == 4 {
        '4'
    } else if digit == 5 {
        '5'
    } else if digit == 6 {
        '6'
    } else if digit == 7 {
        '7'
    } else if digit == 8 {
        '8'
    } else {
        '9'
    }
}

/// The decimal digits of a number, most significant first; none for zero.
pub open spec fn digits_of(n: nat) -> Seq<char>
    decreases n,
{
    if n == 0 {
        Seq::empty()
    } else {
        digits_of(n / 10).push(digit_char((n % 10) as int))
    }
}

/// An integer written in decimal: a minus sign if it is negative, then its
/// digits without leading zeros, `0` for zero.
pub open spec fn decimal(n: int) -> Seq<char> {
    if n == 0 {
        seq!['0']
    } else if n < 0 {
        seq!['-'] + digits_of((-n) as nat)
    } else {
        digits_of(n as nat)
    }
}

/// The text of one decimal digit.
fn digit_text(digit: u8) -> (text: &'static str)
    requires
        digit < 10,
    ensures
        text@ == seq![digit_char(digit as int)],
{
    proof {
        reveal_strlit("0");
        reveal_strlit("1");
        reveal_strlit("2");
        reveal_strlit("3");
        reveal_strlit("4");
        reveal_strlit("5");
        reveal_strlit("6");
        reveal_strlit("7");
        reveal_strlit("8");
        reveal_strlit("9");
    }
    let text = match digit {
        0 => "0",
        1 => "1",
        2 => "2",
        3 => "3",
        4 => "4",
        5 => "5",
        6 => "6",
        7 => "7",
        8 => "8",
        _ => "9",
    };
    assert(text@ =~= seq![digit_char(digit as int)]);
    text
}

/// Appends an integer in decimal to a text.
pub fn push_decimal(text: &mut String, n: i64)
    ensures
        final(text)@ == old(text)@ + decimal(n as int),
{
    let ghost start = text@;
    if n == 0 {
        proof {
            reveal_strlit("0");
        }
        text.append("0");
        assert(text@ =~= start + decimal(0));
        return ;
    }
    let magnitude: u64 = if n < 0 {
        (-(n as i128)) as u64
    } else {
        n as u64
    };
    let mut digits: Vec<u8> = Vec::new();
    let mut rest: u64 = magnitude;
    while rest > 0
        invariant
            forall|i: int| 0 <= i < digits@.len() ==> digits@[i] < 10,
            digits_of(magnitude as nat) == digits_of(rest as nat) + Seq::new(
                digits@.len(),
                |i: int| digit_char(digits@[digits@.len() - 1 - i] as int),
            ),
        decreases rest,
    {
        let ghost before = digits@;
        digits.push((rest % 10) as u8);
        proof {
            let lower = Seq::new(
                before.len(),
                |i: int| digit_char(before[before.len() - 1 - i] as int),
            );
            let now = Seq::new(
                digits@.len(),
                |i: int| digit_char(digits@[digits@.len() - 1 - i] as int),
            );
            assert(now =~= seq![digit_char((rest % 10) as int)] + lower);
            assert(digits_of(rest as nat) == digits_of((rest / 10) as nat).push(
                digit_char((rest % 10) as int),
            ));
            assert(digits_of((rest / 10) as nat) + now =~= digits_of(rest as nat) + lower);
        }
        rest = rest / 10;
    }
    if n < 0 {
        proof {
            reveal_strlit("-");
        }
        text.append("-");
    }
    let ghost signed = text@;
    let ghost written = Seq::new(
        digits@.len(),
        |i: int| digit_char(digits@[digits@.len() - 1 - i] as int),
    );
    proof {
        assert(digits_of(0) =~= Seq::<char>::empty());
        assert(digits_of(magnitude as nat) =~= written);
        assert(signed =~= start + (if n < 0 {
            seq!['-']
        } else {
            Seq::<char>::empty()
        }));
    }
    let mut left: usize = digits.len();
    while left > 0
        invariant
            left <= digits@.len(),
            forall|i: int| 0 <= i < digits@.len() ==> digits@[i] < 10,
            written == Seq::new(
                digits@.len(),
                |i: int| digit_char(digits@[digits@.len() - 1 - i] as int),
            ),
            text@ == signed + written.take(digits@.len() - left),
        decreases left,
    {
        left -= 1;
        let ghost so_far = text@;
        text.append(digit_text(digits[left]));
        assert(text@ =~= signed + written.take(digits@.len() - left));
    }
    assert(written.take(digits@.len() as int) =~= written);
    assert(text@ =~= start + decimal(n as int));
}

/// A colour of 8 bits per channel.
#[derive(Clone, Copy, Debug, PartialEq, Eq, Structural)]
pub struct RGB {
    /// Red.
    pub r: u8,
    /// Green.
    pub g: u8,
    /// Blue.
    pub b: u8,
}

/// Why a text is no hex code of a colour.
#[derive(Clone, Copy, Debug, PartialEq, Eq, Structural)]
pub enum ColorError {
    /// The text has fewer than six characters.
    TooShort,
    /// One of the three pairs is no number in base 16.
    InvalidDigit,
}

/// The value of a digit in base 16, in either case.
pub open spec fn hex_digit(c: char) -> Option<int> {
    if '0' <= c <= '9' {
        Some(c as int - '0' as int)
    } else if 'a' <= c <= 'f' {
        Some(c as int - 'a' as int + 10)
    } else if 'A' <= c <= 'F' {
        Some(c as int - 'A' as int + 10)
    } else {
        None
    }
}

/// The number that two characters write in base 16: two digits, or a plus
/// sign and one digit.
pub open spec fn hex_pair(high: char, low: char) -> Option<int> {
    match hex_digit(low) {
        Some(units) => if high == '+' {
            Some(units)
        } else {
            match hex_digit(high) {
                Some(sixteens) => Some(16 * sixteens + units),
                None => None,
            }
        },
        None => None,
    }
}

/// The colour that the first six characters of a text write, pair by pair:
/// red, green, blue.
pub open spec fn hex_colour(code: Seq<char>) -> Option<(int, int, int)> {
    if code.len() < 6 {
        None
    } else {
        match (hex_pair(code[0], code[1]), hex_pair(code[2], code[3]), hex_pair(code[4], code[5])) {
            (Some(r), Some(g), Some(b)) => Some((r, g, b)),
            _ => None,
        }
    }
}

/// The value of a digit in base 16.
fn digit_value(c: char) -> (value: Option<u8>)
    ensures
        match value {
            Some(v) => hex_digit(c) == Some(v as int) && v < 16,
            None => hex_digit(c) is None,
        },
{
    let code = c as u32;
    if '0' <= c && c <= '9' {
        Some((code - '0' as u32) as u8)
    } else if 'a' <= c && c <= 'f' {
        Some((code - 'a' as u32 + 10) as u8)
    } else if 'A' <= c && c <= 'F' {
        Some((code - 'A' as u32 + 10) as u8)
    } else {
        None
    }
}

/// The number that two characters write in base 16.
fn pair_value(high: char, low: char) -> (value: Option<u8>)
    ensures
        match value {
            Some(v) => hex_pair(high, low) == Some(v as int),
            None => hex_pair(high, low) is None,
        },
{
    match digit_value(low) {
        Some(units) => {
            if high == '+' {
                Some(units)
            } else {
                match digit_value(high) {
                    Some(sixteens) => Some(16 * sixteens + units),
                    None => None,
                }
            }
        },
        None => None,
    }
}

impl RGB {
    /// Parses a colour hex code of the form `rRgGbB..`: what follows the
    /// sixth character is not read.
    pub fn from_str(hex_code: &str) -> (parsed: Result<RGB, ColorError>)
        ensures
            match parsed {
                Ok(colour) => hex_colour(hex_code@) == Some(
                    (colour.r as int, colour.g as int, colour.b as int),
                ),
                Err(ColorError::TooShort) => hex_code@.len() < 6,
                Err(ColorError::InvalidDigit) => hex_code@.len() >= 6 && hex_colour(hex_code@)
                    is None,
            },
    {
        if hex_code.unicode_len() < 6 {
            return Err(ColorError::TooShort);
        }
        let r = pair_value(hex_code.get_char(0), hex_code.get_char(1));
        let g = pair_value(hex_code.get_char(2), hex_code.get_char(3));
        let b = pair_value(hex_code.get_char(4), hex_code.get_char(5));
        match (r, g, b) {
            (Some(r), Some(g), Some(b)) => Ok(RGB { r, g, b }),
            _ => Err(ColorError::InvalidDigit),
        }
    }
}

/// The three channels of a colour as they stand in a style sheet.
pub open spec fn rgb_text(colour: (int, int, int)) -> Seq<char> {
    decimal(colour.0) + ", "@ + decimal(colour.1) + ", "@ + decimal(colour.2)
}

/// What a style sheet is made from.
pub struct Style {
    pub window_background: (int, int, int),
    pub window_opacity: Seq<char>,
    pub label_background: (int, int, int),
    pub label_opacity: Seq<char>,
    pub label_text: (int, int, int),
    pub font_family: Seq<char>,
    pub font_weight: Seq<char>,
    pub font_size: Seq<char>,
    pub padding_x: int,
    pub padding_y: int,
    pub focused_background: (int, int, int),
    pub focused_opacity: Seq<char>,
    pub focused_text: (int, int, int),
}

/// The style sheet of the overlay: the background of the surfaces, the
/// labels, and the label of the focused window.
pub open spec fn style_sheet(style: Style) -> Seq<char> {
    "\n        window {\n            background: rgba("@ + rgb_text(style.window_background)
        + ", "@ + style.window_opacity
        + ");\n        }\n\n        window label {\n            background: rgba("@ + rgb_text(
        style.label_background,
    ) + ", "@ + style.label_opacity + ");\n            color: rgb("@ + rgb_text(style.label_text)
        + ");\n            font-family: "@ + style.font_family
        + ";\n            font-weight: "@ + style.font_weight + ";\n            font-size: "@
        + style.font_size + ";\n            padding: "@ + decimal(style.padding_y) + "px "@
        + decimal(style.padding_x)
        + "px;\n        }\n\n        .focused {\n            background: rgba("@ + rgb_text(
        style.focused_background,
    ) + ", "@ + style.focused_opacity + ");\n            color: rgb("@ + rgb_text(
        style.focused_text,
    ) + ")\n        }\n        "@
}

/// What the options say of the style, where they give every option of the
/// style and every colour is a hex code.
pub open spec fn style_of(args: ArgsView) -> Option<Style> {
    if args.window_background_color is Some && args.window_background_opacity is Some
        && args.label_background_color is Some && args.label_background_opacity is Some
        && args.label_text_color is Some && args.focused_background_color is Some
        && args.focused_background_opacity is Some && args.focused_text_color is Some
        && args.font_family is Some && args.font_weight is Some && args.font_size is Some
        && args.label_padding_x is Some && args.label_padding_y is Some {
        match (
            hex_colour(args.window_background_color->0),
            hex_colour(args.label_background_color->0),
            hex_colour(args.label_text_color->0),
            hex_colour(args.focused_background_color->0),
            hex_colour(args.focused_text_color->0),
        ) {
            (
                Some(window_background),
                Some(label_background),
                Some(label_text),
                Some(focused_background),
                Some(focused_text),
            ) => Some(
                Style {
                    window_background,
                    window_opacity: args.window_background_opacity->0,
                    label_background,
                    label_opacity: args.label_background_opacity->0,
                    label_text,
                    font_family: args.font_family->0,
                    font_weight: args.font_weight->0,
                    font_size: args.font_size->0,
                    padding_x: args.label_padding_x->0 as int,
                    padding_y: args.label_padding_y->0 as int,
                    focused_background,
                    focused_opacity: args.focused_background_opacity->0,
                    focused_text,
                },
            ),
            _ => None,
        }
    } else {
        None
    }
}

/// Whether the options leave an option of the style open.
pub open spec fn style_is_open(args: ArgsView) -> bool {
    ||| args.window_background_color is None
    ||| args.window_background_opacity is None
    ||| args.label_background_color is None
    ||| args.label_background_opacity is None
    ||| args.label_text_color is None
    ||| args.focused_background_color is None
    ||| args.focused_background_opacity is None
    ||| args.focused_text_color is None
    ||| args.font_family is None
    ||| args.font_weight is None
    ||| args.font_size is None
    ||| args.label_padding_x is None
    ||| args.label_padding_y is None
}

/// Why the options make no style sheet.
#[derive(Clone, Copy, Debug, PartialEq, Eq, Structural)]
pub enum StyleError {
    /// An option of the style is not given.
    MissingOption,
    /// A colour is no hex code.
    InvalidColor,
}

/// Appends the three channels of a colour.
fn push_rgb(text: &mut String, colour: RGB)
    ensures
        final(text)@ == old(text)@ + rgb_text((colour.r as int, colour.g as int, colour.b as int)),
{
    let ghost start = text@;
    push_decimal(text, colour.r as i64);
    text.append(", ");
    push_decimal(text, colour.g as i64);
    text.append(", ");
    push_decimal(text, colour.b as i64);
    assert(text@ =~= start + rgb_text((colour.r as int, colour.g as int, colour.b as int)));
}

/// The colour of an option.
fn colour_of(option: &Option<String>) -> (colour: Option<RGB>)
    ensures
        match colour {
            Some(colour) => match *option {
                Some(code) => hex_colour(code@) == Some(
                    (colour.r as int, colour.g as int, colour.b as int),
                ),
                None => false,
            },
            None => match *option {
                Some(code) => hex_colour(code@) is None,
                None => true,
            },
        },
{
    match option {
        Some(code) => match RGB::from_str(code.as_str()) {
            Ok(colour) => Some(colour),
            Err(_) => None,
        },
        None => None,
    }
}

/// The style sheet that the options ask for.
pub fn args_to_css(args: &Args) -> (css: Result<String, StyleError>)
    ensures
        match css {
            Ok(text) => match style_of(args@) {
                Some(style) => text@ == style_sheet(style),
                None => false,
            },
            Err(StyleError::MissingOption) => style_is_open(args@),
            Err(StyleError::InvalidColor) => !style_is_open(args@) && style_of(args@) is None,
        },
{
    let (window_opacity, label_opacity, focused_opacity, font_family, font_weight, font_size) =
        match (
        &args.window_background_opacity,
        &args.label_background_opacity,
        &args.focused_background_opacity,
        &args.font_family,
        &args.font_weight,
        &args.font_size,
    ) {
        (Some(a), Some(b), Some(c), Some(d), Some(e), Some(f)) => (a, b, c, d, e, f),
        _ => {
            return Err(StyleError::MissingOption);
        },
    };
    let (padding_x, padding_y) = match (args.label_padding_x, args.label_padding_y) {
        (Some(x), Some(y)) => (x, y),
        _ => {
            return Err(StyleError::MissingOption);
        },
    };
    if args.window_background_color.is_none() || args.label_background_color.is_none()
        || args.label_text_color.is_none() || args.focused_background_color.is_none()
        || args.focused_text_color.is_none() {
        return Err(StyleError::MissingOption);
    }
    let (window_bg, label_bg, label_fg, focused_bg, focused_fg) = match (
        colour_of(&args.window_background_color),
        colour_of(&args.label_background_color),
        colour_of(&args.label_text_color),
        colour_of(&args.focused_background_color),
        colour_of(&args.focused_text_color),
    ) {
        (Some(a), Some(b), Some(c), Some(d), Some(e)) => (a, b, c, d, e),
        _ => {
            return Err(StyleError::InvalidColor);
        },
    };
    let mut text = String::from_str("\n        window {\n            background: rgba(");
    push_rgb(&mut text, window_bg);
    text.append(", ");
    text.append(window_opacity.as_str());
    text.append(");\n        }\n\n        window label {\n            background: rgba(");
    push_rgb(&mut text, label_bg);
    text.append(", ");
    text.append(label_opacity.as_str());
    text.append(");\n            color: rgb(");
    push_rgb(&mut text, label_fg);
    text.append(");\n            font-family: ");
    text.append(font_family.as_str());
    text.append(";\n            font-weight: ");
    text.append(font_weight.as_str());
    text.append(";\n            font-size: ");
    text.append(font_size.as_str());
    text.append(";\n            padding: ");
    push_decimal(&mut text, padding_y as i64);
    text.append("px ");
    push_decimal(&mut text, padding_x as i64);
    text.append("px;\n        }\n\n        .focused {\n            background: rgba(");
    push_rgb(&mut text, focused_bg);
    text.append(", ");
    text.append(focused_opacity.as_str());
    text.append(");\n            color: rgb(");
    push_rgb(&mut text, focused_fg);
    text.append(")\n        }\n        ");
    Ok(text)
}

} // verus!
