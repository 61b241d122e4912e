use std::collections::BTreeSet;

use tga_report::between::{between, BetweenDrawn, BetweenFacts};
use tga_report::conversation::{conversation, starter_rows, wait_rows, TalkDrawn, TalkFacts};
use tga_report::masthead::{masthead, TitleFacts};
use tga_report::model::{Edge, Latency, Starter};
use tga_report::rhythm::{rhythm, RhythmCharts};
use tga_report::names::Names;
use tga_report::said::{said, SaidDrawn, SaidFacts};
use tga_report::scale::Quantiles;
use tga_report::timeline::{timeline, TimelineDrawn, TimelineFacts};

fn waits(n: usize) -> Vec<Latency> {
    (0..n)
        .map(|i| Latency { key: format!("u{i}"), name: format!("P{i}"), replies: 5, median: 10 * (i as i64 + 1) })
        .collect()
}

fn drawn() -> TalkDrawn {
    TalkDrawn {
        reply_share: "12.5%".to_string(),
        latency_median: "3 min".to_string(),
        latency_p90: "2 h".to_string(),
        quickest: "10 s".to_string(),
        waits: "[WAITS]".to_string(),
        starters: "[STARTERS]".to_string(),
        matrix: "[GRID]".to_string(),
        network: "[NET]".to_string(),
    }
}

#[test]
fn the_wait_chart_takes_the_quickest_twelve_slowest_first() {
    let rows = wait_rows(&waits(15));
    assert_eq!(rows.len(), 12);
    assert_eq!(rows[0], ("P11".to_string(), 120));
    assert_eq!(rows[11], ("P0".to_string(), 10));
    let few = wait_rows(&waits(3));
    assert_eq!(few, vec![("P2".to_string(), 30), ("P1".to_string(), 20), ("P0".to_string(), 10)]);
    assert!(wait_rows(&vec![]).is_empty());
}

#[test]
fn the_starters_chart_takes_the_first_ten_in_order() {
    let starters: Vec<Starter> =
        (0..14).map(|i| Starter { key: format!("u{i}"), name: format!("S{i}"), count: 100 - i as i64 }).collect();
    let rows = starter_rows(&starters);
    assert_eq!(rows.len(), 10);
    assert_eq!(rows[0], ("S0".to_string(), 100));
    assert_eq!(rows[9], ("S9".to_string(), 91));
}

#[test]
fn the_caption_names_the_quickest_and_escapes_the_name() {
    let mut fastest = waits(4);
    fastest[0].name = "<Ana & co>".to_string();
    let f = TalkFacts { replies: 1234, sessions: 56, session_median_messages: 7, fastest, ..Default::default() };
    let html = conversation(&f, &drawn());
    assert!(html.starts_with("<section id=\"talk\"><div class=\"sechead\"><h2>Conversation</h2><span class=\"count\">56 bursts</span></div>"));
    assert!(html.contains("<li><b>1\u{a0}234</b><span>replies</span></li><li><b>12.5%</b><span>of messages are replies</span></li>"));
    assert!(html.contains("<h3>How long people wait before answering</h3>[WAITS]"));
    assert!(html.contains("Shorter is faster; &lt;Ana &amp; co&gt; is quickest at 10 s.</p>"));
    assert!(!html.contains("<Ana"));
    assert!(!html.contains("Who breaks the silence"));
    assert!(!html.contains("Who answers whom"));
    assert!(!html.contains("Who is in contact"));
    assert!(html.ends_with("</section>"));
}

#[test]
fn every_part_appears_in_page_order_when_there_is_something_to_show() {
    let f = TalkFacts {
        sessions: 3,
        fastest: waits(2),
        starters: vec![Starter { key: "u1".into(), name: "Ana".into(), count: 4 }],
        edges: vec![Edge { from: "u1".into(), to: "u2".into(), count: 2, ..Default::default() }],
        orphan_replies: 4,
        has_network: true,
        hidden: 3,
        ..Default::default()
    };
    let html = conversation(&f, &drawn());
    let order = ["[WAITS]", "[STARTERS]", "Who answers whom", "[GRID]", "[NET]", "The 3 least-connected people are left out", "4 replies point at a message"];
    let mut at = 0;
    for part in order {
        at += html[at..].find(part).expect(part);
    }
    let quiet = conversation(&TalkFacts { has_network: true, ..Default::default() }, &drawn());
    assert!(quiet.contains("[NET]"));
    assert!(!quiet.contains("least-connected"));
}

#[test]
fn the_between_section_and_its_link_share_one_gate() {
    let absent = between(&BetweenFacts::default(), &BetweenDrawn::default());
    assert_eq!(absent, "");
    let empty = between(&BetweenFacts { present: true, empty: true, ..Default::default() }, &BetweenDrawn::default());
    assert_eq!(empty, "");
    let drawn = between(&BetweenFacts { present: true, ..Default::default() }, &BetweenDrawn::default());
    assert!(drawn.starts_with("<section id=\"between\">"));
    let empty_branch = masthead(&TitleFacts { has_dynamics: true, dynamics_empty: true, ..Default::default() });
    assert!(!empty_branch.contains("href=\"#between\""));
    let full_branch = masthead(&TitleFacts { has_dynamics: true, ..Default::default() });
    assert!(full_branch.contains("href=\"#between\""));
}

#[test]
fn an_archive_with_no_dated_messages_has_no_rhythm_section() {
    let none = Quantiles::new(vec![]);
    assert_eq!(rhythm(true, &[1, 2], &[3], &RhythmCharts::default(), &Quantiles::new(vec![1, 2]), &none), "");
    let hours = vec![0i64; 24];
    let html = rhythm(false, &hours, &[0; 7], &RhythmCharts::default(), &Quantiles::new(vec![1, 2, 3]), &none);
    assert!(html.starts_with("<section id=\"rhythm\">"));
    assert!(html.contains("the cut points are 2, 3 and 3 messages."));
}

#[test]
fn no_cut_falls_on_the_smallest_value_so_every_shade_is_spent() {
    let values = vec![1, 1, 2, 3, 4, 5, 6];
    let scale = Quantiles::with_steps(values.clone(), 5);
    assert_eq!(scale.edges, vec![2, 3, 4, 5]);
    assert!(scale.edges[0] > 1);
    let used: BTreeSet<usize> = values.iter().map(|v| scale.index(*v)).collect();
    assert_eq!(used, (1..=5).collect::<BTreeSet<usize>>());
}

#[test]
fn the_scale_ignores_order_zeros_and_negatives() {
    let a = Quantiles::new(vec![5, 1, 9, 3, 3, 7, 2, 8]);
    let b = Quantiles::new(vec![0, 3, 8, -4, 2, 7, 3, 9, 0, 1, 5]);
    assert_eq!(a.edges, b.edges);
    assert_eq!(a.top, b.top);
    assert_eq!(a.edges.len(), 4);
}

#[test]
fn many_shades_over_few_values_need_no_multiplication() {
    let scale = Quantiles::with_steps(vec![1, 2], usize::MAX);
    assert_eq!(scale.edges, vec![2]);
    assert_eq!(scale.steps, usize::MAX);
}

#[test]
fn the_headline_figures_are_written_from_the_counts() {
    let f = BetweenFacts { present: true, mutual: 3, active: 2, fading: 1, gone: 4, deepest: 1234, ..Default::default() };
    let html = between(&f, &BetweenDrawn { kept: "61.0%".to_string(), ..Default::default() });
    assert!(html.contains("<ul class=\"figures\"><li><b>3</b><span>pairs answering each other</span></li><li><b>2</b><span>still posting</span></li><li><b>1</b><span>gone quiet</span></li><li><b>4</b><span>long gone</span></li><li><b>61.0%</b><span>kept month to month</span></li><li><b>1\u{a0}234</b><span>deepest chain</span></li></ul>"));
    let said_facts = SaidFacts { total_words: 12345, media_messages: 7, media_saved: 7, media_bytes: 1_940_744, links_total: 9, edited: 2, ..Default::default() };
    let html = said(&said_facts, &SaidDrawn { mean_words: "8.5".to_string(), ..Default::default() });
    assert!(html.contains("<ul class=\"figures\"><li><b>12\u{a0}345</b><span>words</span></li><li><b>8.5</b><span>words in a typical message</span></li><li><b>7</b><span>messages with an attachment</span></li><li><b>1.8 MB</b><span>shared</span></li><li><b>9</b><span>links</span></li><li><b>2</b><span>edited afterwards</span></li></ul>"));
    let t = TimelineFacts { span_days: 400, active_days: 133, speakers: 12, media_messages: 50, reactions: 1500, replies: 77, ..Default::default() };
    let html = timeline(&t, &TimelineDrawn::default(), &None, &vec![], &vec![], &Names::new(), "");
    assert!(html.contains("<ul class=\"figures\"><li><b>400</b><span>days spanned</span></li><li><b>133</b><span>days with messages</span></li><li><b>12</b><span>people spoke</span></li><li><b>50</b><span>attachments</span></li><li><b>1\u{a0}500</b><span>reactions</span></li><li><b>77</b><span>replies</span></li></ul>"));
}
