use tga_report::compare::{mask, stamp_of};

#[test]
fn the_stamp_is_read_back_out_of_the_recorded_report() {
    let html = "<p class=\"note\">Written by Telegram Export Analyser on 27 August 2026 \
                from <span class=\"num\">N:\\x</span>.</p>";
    assert_eq!(stamp_of(html), "27 August 2026");
    assert_eq!(stamp_of("no stamp here"), "");
}

#[test]
fn masking_removes_the_whole_element_and_not_just_its_numbers() {
    let html = "<p>before</p><svg class=\"chart network\" viewBox=\"0 0 1 1\">\
                <circle cx=\"1\"/></svg><p>after</p>";
    assert_eq!(mask(html), "<p>before</p>[MASKED]<p>after</p>");
}

#[test]
fn an_unclosed_element_is_left_for_the_diff_to_report() {
    let html = "<p>x</p><svg class=\"chart network\" viewBox=\"0 0 1 1\">";
    assert_eq!(mask(html), html);
    let twice = "a<svg class=\"chart network\">1</svg>b<svg class=\"chart network\">2</svg>c";
    assert_eq!(mask(twice), "a[MASKED]b[MASKED]c");
}
