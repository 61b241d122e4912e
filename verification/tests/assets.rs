use tga_report::assets::{base64, faces, font_css};

/// Three stand-in faces about the size of the real ones (~65 KB each).
fn face_bytes() -> Vec<Vec<u8>> {
    (0..3u8)
        .map(|k| (0..65_000usize).map(|i| (i as u8).wrapping_mul(31).wrapping_add(k)).collect())
        .collect()
}

#[test]
fn base64_matches_the_reference_vectors_including_the_padding() {
    assert_eq!(base64(b""), "");
    assert_eq!(base64(b"f"), "Zg==");
    assert_eq!(base64(b"fo"), "Zm8=");
    assert_eq!(base64(b"foo"), "Zm9v");
    assert_eq!(base64(b"foob"), "Zm9vYg==");
    assert_eq!(base64(b"fooba"), "Zm9vYmE=");
    assert_eq!(base64(b"foobar"), "Zm9vYmFy");
}

#[test]
fn base64_covers_the_high_bytes_the_alphabet_ends_on() {
    assert_eq!(base64(&[0xfb, 0xff, 0xbf]), "+/+/");
    assert_eq!(base64(&[0xff, 0xff, 0xff]), "////");
}

#[test]
fn three_faces_are_embedded_and_the_families_are_the_two_the_css_names() {
    let css = font_css(true, &face_bytes());
    assert_eq!(css.matches("@font-face").count(), 3);
    assert_eq!(css.matches("font-family:'Geist'").count(), 2);
    assert_eq!(css.matches("font-family:'Geist Mono'").count(), 1);
    assert_eq!(css.matches("font-weight:500").count(), 1);
    assert!(css.contains("format('truetype')"));
}

#[test]
fn the_type_system_stays_inside_its_share_of_the_budget() {
    let css = font_css(true, &face_bytes());
    assert!(
        css.len() < 300_000,
        "the embedded type is {} bytes",
        css.len()
    );
}

#[test]
fn no_fonts_embeds_nothing_rather_than_a_broken_reference() {
    assert_eq!(font_css(false, &Vec::new()), "");
}

#[test]
fn the_faces_are_listed_in_emission_order() {
    let list = faces();
    let files: Vec<&str> = list.iter().map(|f| f.file.as_str()).collect();
    assert_eq!(
        files,
        vec!["Geist-Regular.ttf", "Geist-Medium.ttf", "GeistMono-Regular.ttf"]
    );
    assert_eq!(list[1].weight, 500);
}

#[test]
fn base64_of_whole_groups_concatenates() {
    // The concatenation law on concrete bytes: a prefix of whole groups is
    // encoded on its own.
    let a = b"foobar";
    let b = b"xy";
    let joined: Vec<u8> = a.iter().chain(b.iter()).copied().collect();
    assert_eq!(base64(&joined), format!("{}{}", base64(a), base64(b)));
    assert_eq!(base64(&joined).len(), 4 * ((joined.len() + 2) / 3));
}

#[test]
fn a_face_rule_carries_the_bytes_it_was_given() {
    let data = vec![b"f".to_vec(), b"fo".to_vec(), b"foo".to_vec()];
    assert_eq!(
        font_css(true, &data),
        "@font-face{font-family:'Geist';font-style:normal;font-weight:400;font-display:swap;\
         src:url(data:font/ttf;base64,Zg==) format('truetype')}\
         @font-face{font-family:'Geist';font-style:normal;font-weight:500;font-display:swap;\
         src:url(data:font/ttf;base64,Zm8=) format('truetype')}\
         @font-face{font-family:'Geist Mono';font-style:normal;font-weight:400;font-display:swap;\
         src:url(data:font/ttf;base64,Zm9v) format('truetype')}"
    );
}

#[test]
fn padding_is_only_at_the_end_and_counts_the_missing_bytes() {
    assert_eq!(base64(b"any carnal pleas"), "YW55IGNhcm5hbCBwbGVhcw==");
    assert_eq!(base64(b"any carnal pleasu"), "YW55IGNhcm5hbCBwbGVhc3U=");
    assert_eq!(base64(b"any carnal pleasur"), "YW55IGNhcm5hbCBwbGVhc3Vy");
    assert_eq!(base64(&[0xfb, 0xff, 0xbf]), "+/+/");
}
