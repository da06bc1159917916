use dungen::util::ansi::{style_text, Ansi};

const DISPLAY_PRE: &str = "\u{1b}[";
const DISPLAY_SUF: &str = "m";

fn empty_style_function() -> Ansi {
    Ansi::new()
}

#[test]
fn style_text_basic() {
    let first = "first".to_string();
    let unstyled_val = style_text(&first, Ansi::new());
    assert_eq!(unstyled_val, first);
    let unstyled_fn = style_text(&first, empty_style_function);
    assert_eq!(unstyled_fn, first);

    let manual_prefix = format!("{}{}{}", DISPLAY_PRE, "4;38;2;255;0;0", DISPLAY_SUF);
    let manual_suffix = format!("{}{}{}", DISPLAY_PRE, "0", DISPLAY_SUF);
    let manual = format!("{}{}{}", manual_prefix, first, manual_suffix);

    let styled_value = style_text(&first, Ansi::red().underline());

    assert_eq!(styled_value, manual);
}

#[test]
fn style_text_inputs() {
    let first = "first".to_string();

    let st = style_text(&first, Ansi::new());
    let sf = style_text(&first, empty_style_function);
    let sc = style_text(&first, || {
        let style = Ansi::new()
            .underline()
            .italic()
            .fg((200, 100, 200))
            .bg((255, 255, 255));

        style.strike()
    });

    let manual_prefix = format!(
        "{}{}{}",
        DISPLAY_PRE, "3;4;9;38;2;200;100;200;48;2;255;255;255", DISPLAY_SUF
    );
    let manual_suffix = format!("{}{}{}", DISPLAY_PRE, "0", DISPLAY_SUF);
    let third = format!("{}{}{}", manual_prefix, first, manual_suffix);

    assert_eq!(&st, &first);
    assert_eq!(&sf, &first);
    assert_eq!(&sc, &third);
}

#[test]
fn build_string_and_build_vec_agree() {
    let styles = [
        Ansi::new(),
        Ansi::red(),
        Ansi::green().dim().blink(),
        Ansi::blue().reverse().bg((1, 2, 3)),
        Ansi::from_bg((9, 8, 7)).italic().underline().strike(),
    ];
    for s in styles {
        assert_eq!(s.build_string(), s.build_vec());
        assert_eq!(s.to_string(), s.build_string());
    }
    assert_eq!(Ansi::new().build_string(), "");
    assert_eq!(Ansi::green().dim().build_string(), "\u{1b}[2;38;2;0;255;0m");
    assert_eq!(Ansi::from_bg((9, 8, 7)).build_vec(), "\u{1b}[48;2;9;8;7m");
}

#[test]
fn flag_builders_toggle() {
    let s = Ansi::red().underline().underline();
    assert_eq!(s, Ansi::red());
    assert!(Ansi::red().clear().is_default());
    assert_eq!(Ansi::red().clear_fg(), Ansi::new());
    assert_eq!(Ansi::reset(), "\u{1b}[0m");
}

#[test]
fn empty_text_stays_empty() {
    assert_eq!(style_text("", Ansi::red()), "");
}
