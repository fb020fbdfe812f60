use sway_easyfocus::cli::{Args, Command};
use sway_easyfocus::utils::{args_to_css, StyleError};

fn nothing() -> Args {
    Args {
        chars: None,
        window_background_color: None,
        window_background_opacity: None,
        label_background_color: None,
        label_background_opacity: None,
        label_text_color: None,
        focused_background_color: None,
        focused_background_opacity: None,
        focused_text_color: None,
        font_family: None,
        font_weight: None,
        font_size: None,
        label_padding_x: None,
        label_padding_y: None,
        label_margin_x: None,
        label_margin_y: None,
        show_confirmation: None,
        command: None,
    }
}

fn text(s: &str) -> Option<String> {
    Some(s.to_string())
}

fn fields(args: &Args) -> Vec<Option<String>> {
    vec![
        args.chars.clone(),
        args.window_background_color.clone(),
        args.window_background_opacity.clone(),
        args.label_background_color.clone(),
        args.label_background_opacity.clone(),
        args.label_text_color.clone(),
        args.focused_background_color.clone(),
        args.focused_background_opacity.clone(),
        args.focused_text_color.clone(),
        args.font_family.clone(),
        args.font_weight.clone(),
        args.font_size.clone(),
        args.label_padding_x.map(|v| v.to_string()),
        args.label_padding_y.map(|v| v.to_string()),
        args.label_margin_x.map(|v| v.to_string()),
        args.label_margin_y.map(|v| v.to_string()),
        args.show_confirmation.map(|v| v.to_string()),
        args.command.map(|v| format!("{:?}", v)),
    ]
}

#[test]
fn the_defaults() {
    let args = Args::default();
    assert_eq!(
        fields(&args),
        vec![
            text("fjghdkslaemuvitywoqpcbnxz"),
            text("1d1f21"),
            text("0.2"),
            text("1d1f21"),
            text("1"),
            text("c5c8c6"),
            text("285577"),
            text("1"),
            text("ffffff"),
            text("monospace"),
            text("bold"),
            text("medium"),
            text("4"),
            text("0"),
            text("4"),
            text("2"),
            text("true"),
            text("Focus"),
        ]
    );
    // the opacities read as the numbers 0.2 and 1.0 are written
    assert_eq!(args.window_background_opacity, Some(format!("{}", 0.2f64)));
    assert_eq!(args.label_background_opacity, Some(format!("{}", 1.0f64)));
}

#[test]
fn merging_nothing_changes_nothing() {
    let mut args = Args::default();
    args.merge(&nothing());
    assert_eq!(fields(&args), fields(&Args::default()));
    let mut empty = nothing();
    empty.merge(&nothing());
    assert_eq!(fields(&empty), fields(&nothing()));
}

#[test]
fn merging_takes_what_is_given_and_keeps_the_rest() {
    let mut args = Args::default();
    let mut upper = nothing();
    upper.chars = text("abc");
    upper.label_margin_y = Some(-7);
    upper.show_confirmation = Some(false);
    upper.command = Some(Command::Swap { focus: true });
    upper.focused_background_opacity = text("0.5");
    args.merge(&upper);
    let mut expected = Args::default();
    expected.chars = text("abc");
    expected.label_margin_y = Some(-7);
    expected.show_confirmation = Some(false);
    expected.command = Some(Command::Swap { focus: true });
    expected.focused_background_opacity = text("0.5");
    assert_eq!(fields(&args), fields(&expected));
    // the upper layer is left as it was
    assert_eq!(upper.chars, text("abc"));
    assert_eq!(upper.font_family, None);
}

#[test]
fn merging_every_option() {
    let mut upper = Args::default();
    upper.chars = text("1");
    upper.window_background_color = text("2");
    upper.window_background_opacity = text("3");
    upper.label_background_color = text("4");
    upper.label_background_opacity = text("5");
    upper.label_text_color = text("6");
    upper.focused_background_color = text("7");
    upper.focused_background_opacity = text("8");
    upper.focused_text_color = text("9");
    upper.font_family = text("10");
    upper.font_weight = text("11");
    upper.font_size = text("12");
    upper.label_padding_x = Some(13);
    upper.label_padding_y = Some(14);
    upper.label_margin_x = Some(15);
    upper.label_margin_y = Some(16);
    upper.show_confirmation = Some(false);
    upper.command = Some(Command::Print);
    let mut args = Args::default();
    args.merge(&upper);
    assert_eq!(fields(&args), fields(&upper));
    let mut lower = nothing();
    lower.merge(&upper);
    assert_eq!(fields(&lower), fields(&upper));
}

#[test]
fn settings_of_the_options() {
    let settings = Args::default().settings().unwrap();
    assert_eq!(settings.chars, "fjghdkslaemuvitywoqpcbnxz");
    assert_eq!((settings.label_margin_x, settings.label_margin_y), (4, 2));
    assert!(settings.show_confirmation);
    assert_eq!(settings.command, Command::Focus);

    let mut args = Args::default();
    args.command = None;
    args.show_confirmation = None;
    let settings = args.settings().unwrap();
    assert!(settings.show_confirmation);
    assert_eq!(settings.command, Command::Focus);

    args.command = Some(Command::Swap { focus: false });
    args.show_confirmation = Some(false);
    args.label_margin_x = Some(-3);
    let settings = args.settings().unwrap();
    assert!(!settings.show_confirmation);
    assert_eq!(settings.command, Command::Swap { focus: false });
    assert_eq!(settings.label_margin_x, -3);

    for missing in 0..3 {
        let mut args = Args::default();
        match missing {
            0 => args.chars = None,
            1 => args.label_margin_x = None,
            _ => args.label_margin_y = None,
        }
        assert!(args.settings().is_none());
    }
}

#[test]
fn the_default_style_sheet() {
    let expected = format!(
        r#"
        window {{
            background: rgba({}, {}, {}, {});
        }}

        window label {{
            background: rgba({}, {}, {}, {});
            color: rgb({}, {}, {});
            font-family: {};
            font-weight: {};
            font-size: {};
            padding: {}px {}px;
        }}

        .focused {{
            background: rgba({}, {}, {}, {});
            color: rgb({}, {}, {})
        }}
        "#,
        0x1d, 0x1f, 0x21, 0.2f64,
        0x1d, 0x1f, 0x21, 1.0f64,
        0xc5, 0xc8, 0xc6,
        "monospace", "bold", "medium",
        0, 4,
        0x28, 0x55, 0x77, 1.0f64,
        255, 255, 255,
    );
    assert_eq!(args_to_css(&Args::default()), Ok(expected));
}

#[test]
fn a_style_sheet_of_other_options() {
    let mut args = Args::default();
    args.window_background_color = text("000000");
    args.window_background_opacity = text("0.75");
    args.label_text_color = text("FF8000ff");
    args.font_family = text("Fira Code");
    args.label_padding_x = Some(-2);
    args.label_padding_y = Some(12);
    let css = args_to_css(&args).unwrap();
    assert!(css.contains("window {\n            background: rgba(0, 0, 0, 0.75);"));
    assert!(css.contains("color: rgb(255, 128, 0);"));
    assert!(css.contains("font-family: Fira Code;"));
    assert!(css.contains("padding: 12px -2px;"));
    // the margins and the hint keys are no part of the style
    args.chars = None;
    args.label_margin_x = None;
    args.command = None;
    assert_eq!(args_to_css(&args), Ok(css));
}

#[test]
fn a_style_sheet_needs_every_option_of_the_style() {
    assert_eq!(args_to_css(&nothing()), Err(StyleError::MissingOption));
    for missing in 0..13 {
        let mut args = Args::default();
        // a bad colour beside a missing option: the missing option is told
        args.focused_text_color = text("nocolor");
        match missing {
            0 => args.window_background_color = None,
            1 => args.window_background_opacity = None,
            2 => args.label_background_color = None,
            3 => args.label_background_opacity = None,
            4 => args.label_text_color = None,
            5 => args.focused_background_color = None,
            6 => args.focused_background_opacity = None,
            7 => args.focused_text_color = None,
            8 => args.font_family = None,
            9 => args.font_weight = None,
            10 => args.font_size = None,
            11 => args.label_padding_x = None,
            _ => args.label_padding_y = None,
        }
        assert_eq!(args_to_css(&args), Err(StyleError::MissingOption), "option {}", missing);
    }
}

#[test]
fn a_style_sheet_needs_hex_codes() {
    for bad in 0..5 {
        let mut args = Args::default();
        let code = text(if bad % 2 == 0 { "12345" } else { "12345g" });
        match bad {
            0 => args.window_background_color = code,
            1 => args.label_background_color = code,
            2 => args.label_text_color = code,
            3 => args.focused_background_color = code,
            _ => args.focused_text_color = code,
        }
        assert_eq!(args_to_css(&args), Err(StyleError::InvalidColor), "colour {}", bad);
    }
}
