use dev_utils::console::{set_bg, set_bg_rgb, set_fg, set_fg_256, set_fg_rgb, set_style};
use dev_utils::format::{strip_ansi_codes, visual_length, Color, Style, Stylize};

#[test]
fn color_codes() {
    let red = Color::new(255, 0, 0);
    assert_eq!(red.to_rgb(), (255, 0, 0));
    assert_eq!(red.as_fg(), "\x1b[38;2;255;0;0m");
    assert_eq!(Color::new(0, 0, 255).as_bg(), "\x1b[48;2;0;0;255m");
    assert_eq!(Style::Hidden.code(), "\x1b[8m");
}

#[test]
fn stylize_wraps_and_resets() {
    assert_eq!("hi".color(Color::new(1, 2, 3)), "\x1b[38;2;1;2;3mhi\x1b[0m");
    assert_eq!(
        String::from("hi").on_color(Color::new(9, 8, 7)),
        "\x1b[48;2;9;8;7mhi\x1b[0m"
    );
    assert_eq!("hi".style(Style::Bold), "\x1b[1mhi\x1b[0m");
}

#[test]
fn strip_codes() {
    assert_eq!(strip_ansi_codes("\x1b[31mRed text\x1b[0m"), "Red text");
    assert_eq!(visual_length("\x1b[31mRed\x1b[0m \x1b[32mGreen\x1b[0m"), 9);
    assert_eq!(strip_ansi_codes("a\x1bxb"), "a\x1bb");
    assert_eq!(strip_ansi_codes("\x1b[12;3Xy"), "Xy");
    assert_eq!(strip_ansi_codes("plain"), "plain");
    assert_eq!(strip_ansi_codes("end\x1b"), "end");
    assert_eq!(visual_length("héllo"), 5);
}

#[test]
fn console_named_colors() {
    assert_eq!(set_fg("x", "r"), "\x1b[31mx\x1b[0m");
    assert_eq!(set_fg("x", "magenta"), "\x1b[35mx\x1b[0m");
    assert_eq!(set_fg("x", "purple"), "\x1b[0mx\x1b[0m");
    assert_eq!(set_bg("x", "mage"), "\x1b[48;5;256mx\x1b[0m");
    assert_eq!(set_bg("x", "magenta"), "\x1b[48;5;201mx\x1b[0m");
    assert_eq!(set_bg("x", "m"), "\x1b[48;5;201mx\x1b[0m");
    assert_eq!(set_bg("x", "black"), "\x1b[48;5;0mx\x1b[0m");
    assert_eq!(set_bg("x", "none"), "\x1b[48;5;256mx\x1b[0m");
    assert_eq!(set_style("x", "reverse"), "\x1b[7mx\x1b[0m");
    assert_eq!(set_style("x", "bolder"), "\x1b[0mx\x1b[0m");
}

#[test]
fn console_numeric_colors() {
    assert_eq!(set_fg_rgb("x", 255, 0, 10), "\x1b[38;2;255;0;10mx\x1b[0m");
    assert_eq!(set_bg_rgb("x", 0, 128, 255), "\x1b[48;2;0;128;255mx\x1b[0m");
    assert_eq!(set_fg_256("x", 123), "\x1b[38;5;123mx\x1b[0m");
}
