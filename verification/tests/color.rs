use sure_rm::color::{Painter, painter_for, use_color};

#[test]
fn tty_without_overrides_is_colored() {
    assert!(use_color(true, false, false));
}

#[test]
fn non_tty_is_never_colored() {
    assert!(!use_color(false, false, false));
}

#[test]
fn no_color_disables_ansi() {
    assert!(!use_color(true, true, false));
}

#[test]
fn dumb_term_disables_ansi() {
    assert!(!use_color(true, false, true));
}

#[test]
fn painters_wrap_content() {
    let p = Painter::ansi();
    let g = p.good("ok");
    assert_eq!(format!("{}{}{}", g.open(), g.content(), g.close()), "\x1b[32mok\x1b[0m");
    let b = p.bad(1);
    assert_eq!(b.open(), "\x1b[31m");
    assert_eq!(p.error_label(), "\x1b[31;1msure-rm:\x1b[0m");
    assert_eq!(p.warning_label(), "\x1b[33;1msure-rm:\x1b[0m");
    let plain = painter_for(false, false, false);
    let e = plain.emphasis("q");
    assert_eq!(format!("{}{}{}", e.open(), e.content(), e.close()), "q");
    assert_eq!(plain.error_label(), "sure-rm:");
}
