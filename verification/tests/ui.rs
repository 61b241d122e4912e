use tga_report::ui::{elided_start, glyphs, thousands, window_faces, FontError, Glyph};

#[test]
fn a_combining_mark_stays_with_the_letter_it_marks() {
    let parts = glyphs("c\u{301}a");
    assert_eq!(
        parts,
        vec![Glyph::Ink("c\u{301}".to_string()), Glyph::Ink("a".to_string())]
    );
}

#[test]
fn a_word_gap_is_a_spacer_and_not_a_glyph_holding_a_space() {
    assert_eq!(
        glyphs("a b"),
        vec![
            Glyph::Ink("a".to_string()),
            Glyph::Space,
            Glyph::Ink("b".to_string())
        ]
    );
}

#[test]
fn an_empty_label_produces_no_glyphs_at_all() {
    assert!(glyphs("").is_empty());
}

#[test]
fn a_path_is_elided_at_its_end_so_its_start_stays_readable() {
    let path = r"N:\telegram export\UA KOLAB TELEGRAM";
    let short = elided_start(path, 20);
    assert!(short.starts_with(r"N:\telegram"), "got {short}");
    assert!(short.ends_with('…'));
    assert_eq!(short.chars().count(), 20);
    assert_eq!(elided_start(path, 200), path);
}

#[test]
fn components_a_group_separator_is_a_non_breaking_space() {
    assert_eq!(thousands(333_582), "333\u{a0}582");
    assert_eq!(thousands(0), "0");
}

#[test]
fn the_report_embeds_a_subset_of_what_the_window_does() {
    let embedded = window_faces();
    assert!(embedded.iter().any(|n| *n == "Geist-Regular"));
    assert!(embedded.iter().any(|n| *n == "Geist-Medium"));
    assert!(embedded.iter().any(|n| *n == "GeistMono-Regular"));
}

#[test]
fn glyphs_read_back_as_the_label() {
    let label = "ab\u{301}  c";
    let back: String = glyphs(label)
        .iter()
        .map(|g| match g {
            Glyph::Ink(s) => s.clone(),
            Glyph::Space => " ".to_string(),
        })
        .collect();
    assert_eq!(back, label);
}

#[test]
fn a_font_error_names_what_is_missing_and_what_is_offered_instead() {
    let wrong = FontError::WrongFamilyNames {
        missing: vec!["Geist".to_string(), "Geist Mono".to_string()],
        registered: vec!["Geist Sans".to_string()],
    };
    assert_eq!(
        wrong.message(),
        "the embedded typefaces loaded but not as Geist and Geist Mono; the text system now offers [\"Geist Sans\"]. The window will use the system font instead."
    );
    let refused = FontError::Rejected("bad bytes".to_string());
    assert_eq!(refused.message(), "the embedded typefaces could not be loaded: bad bytes");
}
