use tga_report::assets::font_css;
use tga_report::between::{gone_quiet, Quiet};
use tga_report::masthead::{masthead, TitleFacts};
use tga_report::members::{members, Roster};
use tga_report::names::{names_from, Names};
use tga_report::notes::{notes, RuleFigures};
use tga_report::people::{people, Folk};
use tga_report::records::records;
use tga_report::report::{kind_css, page, shared_axis, Sections, Shell};
use tga_report::between::{between, BetweenDrawn, BetweenFacts};
use tga_report::conversation::{conversation as talk, TalkDrawn, TalkFacts};
use tga_report::rhythm::{rhythm, RhythmCharts};
use tga_report::scale::Quantiles;
use tga_report::said::{said, SaidDrawn, SaidFacts};
use tga_report::timeline::{event_listing, timeline, Date, Event, TimelineDrawn, TimelineFacts};
use tga_report::topics::topics;

fn face_bytes() -> Vec<Vec<u8>> {
    (0..3u8).map(|k| vec![k; 12]).collect()
}

fn pair(a: &str, b: &str) -> (String, String) {
    (a.to_string(), b.to_string())
}

/// The document for an export with nothing in it, assembled from the
/// library's sections; the drawn parts are empty, as they are when there is
/// nothing to draw.
fn bare_document(name: &str) -> String {
    let facts = TitleFacts { name: name.to_string(), empty: true, ..Default::default() };
    let conversation = talk(
        &TalkFacts::default(),
        &TalkDrawn {
            reply_share: "0.0%".to_string(),
            latency_median: "0 s".to_string(),
            latency_p90: "0 s".to_string(),
            ..Default::default()
        },
    );
    let said_part = said(
        &SaidFacts::default(),
        &SaidDrawn { no_text_share: "0.0%".to_string(), ..Default::default() },
    );
    let sections = Sections {
        masthead: masthead(&facts),
        timeline: timeline(
            &TimelineFacts { empty: true, ..Default::default() },
            &TimelineDrawn::default(),
            &None,
            &vec![],
            &vec![],
            &Names::new(),
            "",
        ),
        rhythm: rhythm(true, &[], &[], &RhythmCharts::default(), &Quantiles::new(vec![]), &Quantiles::new(vec![])),
        people: people(&vec![], &vec![], &Folk::default(), "0.0%", &Quantiles::new(vec![])),
        members: members(&Roster::default(), &vec![]),
        conversation,
        between: between(&BetweenFacts::default(), &BetweenDrawn::default()),
        said: said_part,
        churn: String::new(),
        topics: topics(&vec![], &vec![], &Quantiles::new(vec![]), ""),
        records: records(&vec![]),
        notes: notes(
            &RuleFigures { session_gap: 1800, root: "C:\\x".to_string(), ..Default::default() },
            "",
            "Telegram Export Analyser",
            "1 January 2025",
        ),
    };
    let shell = Shell {
        name: name.to_string(),
        fonts: font_css(true, &face_bytes()),
        css: String::new(),
        js: String::new(),
        axis: shared_axis(&vec![]),
        kind_rules: kind_css(0),
    };
    page(&sections, &shell)
}

#[test]
fn an_export_with_nothing_in_it_still_renders_a_whole_document() {
    let html = bare_document("Nothing");
    assert!(html.starts_with("<!doctype html>\n"));
    assert!(html.ends_with("</body></html>\n"));
    assert!(html.contains("No dated messages."));
    assert!(html.contains("no dated messages"));
}

#[test]
fn every_section_closes_the_tag_it_opened() {
    let html = bare_document("Nothing");
    assert_eq!(
        html.matches("<section").count(),
        html.matches("</section>").count(),
        "unbalanced sections"
    );
}

#[test]
fn the_report_is_dark_and_offers_no_choice_about_it() {
    let html = bare_document("Nothing");
    assert!(html.contains("<html lang=\"en\" class=\"dark\">"));
    assert!(html.contains("html.dark{"));
    assert!(html.contains("--r5:"));
    assert!(html.contains("--self:"));
    assert!(!html.contains("html.light{"), "the surface emits one block");
    assert!(!html.contains("id=\"theme\""), "and no control to change it");
}

#[test]
fn a_report_rendered_from_a_dump_without_dynamics_is_still_whole() {
    let html = bare_document("Nothing");
    assert!(!html.contains("id=\"between\""));
    assert!(!html.contains("#between"));
    assert!(html.ends_with("</body></html>\n"));
}

#[test]
fn a_hostile_export_name_cannot_escape_into_markup() {
    let html = bare_document("<script>alert(1)</script>");
    assert!(!html.contains("<script>alert(1)</script>"));
    assert!(html.contains("&lt;script&gt;alert(1)&lt;/script&gt;"));
}

fn day(year: i32, month: u32, day: u32) -> Date {
    Date { year, month, day }
}

#[test]
fn a_hostile_event_title_cannot_escape_either() {
    let event = Event {
        id: "\"><img src=x onerror=alert(1)>".into(),
        start: day(2025, 1, 2),
        end: None,
        title: "<b>bold</b>".into(),
        summary: "<i>x</i>".into(),
        kind: "milestone".into(),
        topic: None,
        messages: vec![1],
        confidence: String::new(),
        time: String::new(),
        weight: String::new(),
        who: vec![],
        tags: vec![],
    };
    let kinds = vec!["milestone".to_string()];
    let (listing, note) = event_listing(&vec![event], &kinds, &Names::new(), "events.json");
    let html = listing + &note;
    assert!(!html.contains("<img src=x"));
    assert!(!html.contains("<b>bold</b>"));
    assert!(html.contains("&lt;b&gt;bold&lt;/b&gt;"));
    assert!(html.contains("Events read from events.json."));
}

#[test]
fn no_events_file_says_how_to_add_one_rather_than_saying_nothing() {
    let (listing, note) = event_listing(&vec![], &vec![], &Names::new(), "");
    assert_eq!(listing, "");
    assert!(note.contains("No events file yet."));
    assert!(note.contains("analysis/digest.jsonl"));
}

#[test]
fn the_people_who_stopped_posting_are_ranked_by_the_silence() {
    let rows = vec![
        Quiet {
            name: "Ana".into(),
            messages: 400,
            last: "2025-05-20".into(),
            dormant_days: 41,
            status: "fading".into(),
        },
        Quiet {
            name: "Bob & Co <the second>".into(),
            messages: 12,
            last: "2025-01-04".into(),
            dormant_days: 177,
            status: "gone".into(),
        },
    ];
    let html = gone_quiet(&rows, "2025-06-30", 30, 90);
    let bob = html.find("Bob &amp; Co").expect("the quiet one is listed");
    let ana = html.find(">Ana<").expect("the fading one is listed");
    assert!(bob < ana, "the table is ranked by dormancy, not by messages");
    assert!(html.contains("<td class=\"n\">177</td>"));
    assert!(html.contains("30 Jun 2025, the last day in this archive"));
    assert!(!html.contains("Bob & Co <the second>"));
}

#[test]
fn names_are_taken_from_the_people_rows() {
    let names = names_from(&vec![pair("user1", "Ana"), pair("user2", "Bob")]);
    assert_eq!(names.get("user1").map(String::as_str), Some("Ana"));
    assert_eq!(names.len(), 2);
}

#[test]
fn a_later_row_for_the_same_key_names_it() {
    let names = names_from(&vec![pair("user1", "Ana"), pair("user1", "Anna")]);
    assert_eq!(names.get("user1").map(String::as_str), Some("Anna"));
    assert_eq!(names.len(), 1);
}
