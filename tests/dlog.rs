use dev_utils::dlog::{
    format_record, level_enabled, strip_ansi_escapes, DefaultDlogStyle, DlogStyle, Level,
};

#[test]
fn levels_filter_by_value() {
    assert!(level_enabled(Level::Error, Level::Info.value()));
    assert!(level_enabled(Level::Info, Level::Info.value()));
    assert!(!level_enabled(Level::Debug, Level::Info.value()));
    assert!(level_enabled(Level::Trace, Level::Trace.value()));
    assert_eq!(Level::Warn.name(), "Warn");
    assert_eq!(Level::Info.color().to_rgb(), (24, 216, 16));
}

#[test]
fn escapes_are_dropped_up_to_m() {
    assert_eq!(strip_ansi_escapes("\x1b[1;2mab\x1b[0mc"), "abc");
    assert_eq!(strip_ansi_escapes("no codes"), "no codes");
    assert_eq!(strip_ansi_escapes("m\x1bxyzmq"), "mq");
}

#[test]
fn one_line_record() {
    let r = format_record(Level::Info, 3661, 7, "hello");
    assert_eq!(
        r,
        "\x1b[2m[01:01:01.007]\x1b[0m \x1b[1m\x1b[38;2;24;216;16m Info\x1b[0m\x1b[0m hello\x1b[0m"
    );
    assert_eq!(strip_ansi_escapes(&r), "[01:01:01.007]  Info hello");
}

#[test]
fn multi_line_record_aligns_continuations() {
    let r = format_record(Level::Error, 86399, 999, "a\nb\nc");
    let plain = strip_ansi_escapes(&r);
    assert_eq!(
        plain,
        "[23:59:59.999] Error a\n                   │ b\n                   └ c"
    );
    assert_eq!(DefaultDlogStyle.format_log(&Level::Error, 86399, 999, "a\nb\nc"), r);
    let empty = DefaultDlogStyle.format_log(&Level::Warn, 0, 0, "");
    assert_eq!(strip_ansi_escapes(&empty), "[00:00:00.000]  Warn ");
    assert_eq!(
        DefaultDlogStyle.level_color(&Level::Debug, "x"),
        "\x1b[1m\x1b[38;2;96;216;216mx\x1b[0m\x1b[0m"
    );
}
