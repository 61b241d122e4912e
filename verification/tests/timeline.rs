use tga_report::names::names_from;
use tga_report::timeline::{
    coverage_text, event_card, event_kinds, kind_filters, ribbon_caption, Coverage, Date, Event,
};

fn day(year: i32, month: u32, day: u32) -> Date {
    Date { year, month, day }
}

fn event(id: &str, kind: &str) -> Event {
    Event {
        id: id.into(),
        start: day(2026, 1, 2),
        kind: kind.into(),
        title: "T".into(),
        ..Default::default()
    }
}

#[test]
fn a_span_prints_both_days_and_a_moment_one() {
    let mut e = event("migration", "milestone");
    e.end = Some(day(2026, 1, 6));
    e.time = "20:59".into();
    e.messages = vec![1, 2, 17];
    e.confidence = "high".into();
    e.weight = "major".into();
    let names = names_from(&vec![("u2".to_string(), "Person 2".to_string())]);
    let card = event_card(&e, &vec!["milestone".to_string(), "drama".to_string()], &names);
    assert!(card.starts_with("<li class=\"k0\" id=\"event-migration\" data-kind=\"milestone\">"));
    assert!(card.contains("<time>2 Jan 2026 &ndash; 6 Jan 2026 <span class=\"at\">20:59</span></time>"));
    assert!(card.contains("<p class=\"cite\">3 messages cited &#183; 1, 2, 17</p>"));
    assert!(card.contains(" &#183; high confidence"));
    assert!(card.contains("<span class=\"w w-major\">major</span>"));
    assert!(card.contains("No summary."));

    let moment = event_card(&event("quiet", ""), &vec![], &names);
    assert!(moment.contains("<time>2 Jan 2026</time>"));
    assert!(moment.contains("<p class=\"cite\">no messages cited</p>"));
}

#[test]
fn more_than_eight_citations_trail_off() {
    let mut e = event("many", "drama");
    e.messages = (1..=10).collect();
    let card = event_card(&e, &vec!["milestone".to_string(), "drama".to_string()], &names_from(&vec![]));
    assert!(card.starts_with("<li class=\"k1\""));
    assert!(card.contains("10 messages cited &#183; 1, 2, 3, 4, 5, 6, 7, 8&#8230;</p>"));
}

#[test]
fn a_name_in_the_notes_that_matches_nobody_is_marked() {
    let mut e = event("who", "milestone");
    e.who = vec!["person  2".into(), "Nobody At All".into()];
    let names = names_from(&vec![("u2".to_string(), "Person 2".to_string())]);
    let card = event_card(&e, &vec![], &names);
    assert!(card.contains("<p class=\"who\"><span>person  2</span><span class=\"unknown\">Nobody At All</span> <em>1 name matches nobody in this export</em></p>"));
}

#[test]
fn kinds_are_the_ones_used_in_first_seen_order() {
    let events = vec![event("a", "milestone"), event("b", ""), event("c", "drama"), event("d", "milestone")];
    assert_eq!(event_kinds(&events), vec!["milestone".to_string(), "drama".to_string()]);
}

#[test]
fn one_kind_is_not_a_choice_and_gets_no_filter() {
    let events = vec![event("a", "milestone")];
    assert_eq!(kind_filters(&vec!["milestone".to_string()], &events), "");
    let events = vec![event("a", "milestone"), event("b", "drama"), event("c", "milestone")];
    let row = kind_filters(&event_kinds(&events), &events);
    assert!(row.starts_with("<div class=\"kinds\"><button class=\"kind-filter on\" data-k=\"0\" aria-pressed=\"true\"><i class=\"g0\">\u{25cf}</i>milestone <span>2</span></button>"));
    assert!(row.contains("<i class=\"g1\">\u{25a0}</i>drama <span>1</span>"));
}

#[test]
fn coverage_states_how_much_of_the_archive_was_read() {
    let cover = Coverage {
        from: Some(day(2025, 9, 5)),
        to: Some(day(2025, 10, 5)),
        level: "skimmed".into(),
        note: "<b>only the loud bits</b>".into(),
    };
    let first = "2025-01-01".to_string();
    let last = "2025-12-31".to_string();
    let text = coverage_text(&cover, Some(&first), Some(&last));
    assert_eq!(
        text,
        "<p class=\"coverage\"><b>Read</b> 5 Sep 2025 &ndash; 5 Oct 2025 &#183; 31 of 365 days &#183; skimmed</p><p class=\"caption\">&lt;b&gt;only the loud bits&lt;/b&gt;</p>"
    );
}

#[test]
fn a_claim_past_the_archive_is_capped_at_its_length() {
    let cover = Coverage { from: Some(day(2020, 1, 1)), to: Some(day(2030, 1, 1)), ..Default::default() };
    let first = "2025-01-01".to_string();
    let last = "2025-01-10".to_string();
    let text = coverage_text(&cover, Some(&first), Some(&last));
    assert!(text.contains("&#183; 10 of 10 days"));
    let open = Coverage { from: Some(day(2025, 1, 3)), ..Default::default() };
    assert_eq!(coverage_text(&open, Some(&first), Some(&last)), "<p class=\"coverage\"><b>Read</b> from 3 Jan 2025</p>");
}

#[test]
fn the_ribbon_caption_names_its_grain_and_its_tallest_bar() {
    assert!(ribbon_caption(1, 1234).starts_with("<p class=\"caption\">One bar per day; the tallest is 1\u{a0}234 messages."));
    assert!(ribbon_caption(7, 5).starts_with("<p class=\"caption\">One bar per 7-day block; the tallest is 5 messages."));
}

#[test]
fn a_day_outside_four_digit_years_is_printed_as_its_iso_text() {
    let first = "2025-01-01".to_string();
    let last = "2025-01-10".to_string();
    let far = Coverage { from: Some(day(10000, 1, 1)), ..Default::default() };
    assert_eq!(coverage_text(&far, Some(&first), Some(&last)), "<p class=\"coverage\"><b>Read</b> from +10000-01-01</p>");
    let early = Coverage { to: Some(day(-1, 3, 4)), ..Default::default() };
    assert!(coverage_text(&early, Some(&first), Some(&last)).starts_with("<p class=\"coverage\"><b>Read</b> up to -0001-03-04"));
    let old = Coverage { from: Some(day(99, 2, 3)), ..Default::default() };
    assert_eq!(coverage_text(&old, Some(&first), Some(&last)), "<p class=\"coverage\"><b>Read</b> from 3 Feb 0099</p>");
}
