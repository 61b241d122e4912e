use tga_report::window::Palette;

/// HSL lightness of a `0xrrggbb` colour.
fn lightness(rgb: u32) -> f64 {
    let channels = [(rgb >> 16) & 0xff, (rgb >> 8) & 0xff, rgb & 0xff].map(|c| c as f64 / 255.0);
    let max = channels.iter().cloned().fold(0.0, f64::max);
    let min = channels.iter().cloned().fold(1.0, f64::min);
    (max + min) / 2.0
}

#[test]
fn the_two_appearances_are_genuinely_different() {
    let (l, d) = (Palette::light(), Palette::dark());
    assert_ne!(l.bg, d.bg);
    assert_ne!(l.fg, d.fg);
    assert_ne!(l.accent, d.accent);
}

#[test]
fn a_dark_hairline_is_not_black() {
    let (l, d) = (Palette::light(), Palette::dark());
    assert_eq!(l.hairline, l.fg, "light hairlines are the ink colour");
    assert!(lightness(d.hairline) > lightness(d.bg), "the dark hairline must be lighter than the page");
    assert!(lightness(d.hairline) < lightness(d.fg), "and darker than the text");
}

#[test]
fn an_unknown_theme_name_falls_back_rather_than_breaking() {
    assert_eq!(Palette::named("chartreuse"), Palette::dark());
    assert_eq!(Palette::named("light"), Palette::light());
}
