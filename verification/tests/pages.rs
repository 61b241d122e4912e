use tga_report::between::{answer_shown, month_rows, month_tail, pair_caption, pair_count, Months};
use tga_report::churn::{churn_body, churn_note, label_every, month_short, series_total, Arrivals};
use tga_report::masthead::{masthead, TitleFacts};
use tga_report::model::{Award, Busiest, Streak, Superlative};
use tga_report::notes::{notes, RuleFigures};
use tga_report::people::{awards, more_people, people_count, people_table, silent_note, streak_note, votes_note, Drawn, Speaker};
use tga_report::records::records;
use tga_report::rhythm::{hour_rows, legend, orphan_note, rhythm_count};
use tga_report::said::{forwards, no_text, skip_note, symbol_list, tag_tables};
use tga_report::scale::Quantiles;
use tga_report::stats::{Count, Figure};
use tga_report::topics::{all_silent, clocks_frame, topics, TopicCells, TopicRow};

#[test]
fn the_notes_put_the_events_rule_first_and_say_who_wrote_the_file() {
    let f = RuleFigures { self_replies: 1234, votes_named: 5, votes_total: 9, session_gap: 1800, root: "C:\\x".into() };
    let html = notes(&f, "events.json", "Telegram Export Analyser", "5 September 2025");
    assert!(html.starts_with("<section id=\"notes\"><div class=\"sechead\"><h2>Notes</h2><span class=\"count\">how to read this</span></div><ul class=\"records\"><li><span class=\"what\">Events</span>"));
    assert!(html.contains("(1\u{a0}234 of them)"));
    assert!(html.contains("(5 of 9 are attributed)"));
    assert!(html.contains("A gap longer than 30 minutes ends one"));
    assert!(html.ends_with("Written by Telegram Export Analyser on 5 September 2025 from <span class=\"num\">C:\\x</span>. No part of this report contacted Telegram; it is derived entirely from the export on disk.</p></section>"));
    let plain = notes(&f, "", "x", "y");
    assert!(!plain.contains(">Events<"));
}

#[test]
fn a_record_is_a_count_with_separators_or_a_text_as_it_stands() {
    let items = vec![
        Superlative { title: "Busiest day".into(), date: "2025-01-01".into(), value: Figure::Count(12345), unit: "messages".into(), ..Default::default() },
        Superlative { title: "Largest file".into(), date: "2025-02-02".into(), who: "Ana".into(), text: "a <b> file".into(), value: Figure::Text("1.8 MB".into()), ..Default::default() },
    ];
    let html = records(&items);
    assert!(html.starts_with("<section id=\"records\"><div class=\"sechead\"><h2>Records</h2><span class=\"count\">2</span></div><ul class=\"records\">"));
    assert!(html.contains("<span class=\"big\">12\u{a0}345</span><span class=\"about\">2025-01-01 <span class=\"num\">messages</span></span>"));
    assert!(html.contains("<span class=\"big\">1.8 MB</span><span class=\"about\">2025-02-02 &#183; Ana<br><span>a &lt;b&gt; file</span></span>"));
    assert_eq!(records(&vec![]), "");
}

#[test]
fn the_nav_reads_in_page_order_and_only_links_what_renders() {
    let facts = TitleFacts {
        name: "G".into(),
        messages: 1500,
        topics: 1,
        first: "2025-09-05".into(),
        last: "2025-12-14".into(),
        has_dynamics: true,
        known_members: 3,
        ..Default::default()
    };
    let html = masthead(&facts);
    assert!(html.contains("<p class=\"lede\">1\u{a0}500 messages across 1 topic, 5 Sep 2025 &ndash; 14 Dec 2025.</p>"));
    let order = ["#whole", "#rhythm", "#people", "#members", "#talk", "#between", "#said", "#topics", "#records", "#notes"];
    let mut at = 0;
    for anchor in order {
        let found = html[at..].find(anchor).expect(anchor);
        at += found;
    }
    let bare = masthead(&TitleFacts { topics: 2, empty: true, ..Default::default() });
    assert!(!bare.contains("#members"));
    assert!(!bare.contains("#between"));
    assert!(bare.contains("0 messages across 2 topics, no dated messages."));
}

#[test]
fn the_busiest_hour_and_day_are_the_first_maxima() {
    let mut hours = vec![0i64; 24];
    hours[9] = 5;
    hours[21] = 5;
    let days = vec![1, 7, 3, 7, 0, 0, 0];
    assert_eq!(rhythm_count(&hours, &days), "busiest at 09:00, on Tuesdays");
    let rows = hour_rows(&hours);
    assert_eq!(rows.len(), 24);
    assert_eq!(rows[9], vec!["09:00".to_string(), "5".to_string()]);
}

#[test]
fn a_legend_has_one_swatch_per_step() {
    assert_eq!(
        legend(2, "quiet", "busy"),
        "<p class=\"legend\"><span>quiet</span><i class=\"swatch-track\"></i><i style=\"background:var(--r1)\"></i><i style=\"background:var(--r2)\"></i><span>busy</span></p>"
    );
}

#[test]
fn an_hour_below_the_floor_is_drawn_as_nothing() {
    assert_eq!(answer_shown(&[60, 120, 30], &[25, 3, 20], 20), vec![60, 0, 30]);
}

#[test]
fn a_month_row_reads_zero_past_the_end_of_a_short_series() {
    let m = Months {
        months: vec!["2025-01".into(), "2025-02".into()],
        active: vec![3, 4],
        new: vec![3],
        returning: vec![0, 2],
        lost: vec![],
    };
    let rows = month_rows(&m);
    assert_eq!(rows[1], vec!["2025-02", "4", "0", "2", "0"]);
    assert_eq!(month_tail("2025-09"), "25-09");
    assert_eq!(month_short("2025-09"), "25-09");
    assert_eq!(month_tail("é-09"), "-09");
}

#[test]
fn the_pairs_caption_counts_the_one_way_pairs() {
    assert_eq!(pair_count(3, 1200), "3 mutual, 1\u{a0}200 one-way");
    assert!(pair_caption(3, 4).ends_with("&#8212; 4 of the 7 pairs here are that.</p>"));
}

#[test]
fn arrivals_are_dated_from_the_list_or_said_to_be_undatable() {
    let dated = Arrivals { roster_joins: vec![1, 2], announced_leaves: vec![0, 4], roster_dated: 3, roster_size: 40, ..Default::default() };
    assert_eq!(
        churn_note(&dated),
        "<p class=\"caption\">Arrivals are dated from the member list, which knows only about people who are still in the group: 3 of 40 current members carry a join date. Anyone who has since left is missing from it entirely, though the history announces 4 removals.</p>"
    );
    let none = Arrivals::default();
    assert_eq!(
        churn_note(&none),
        "<p class=\"caption\">This export carries no member list, so arrivals cannot be dated, and the history announces none.</p>"
    );
    let announced = Arrivals { announced_joins: vec![5], ..Default::default() };
    assert!(churn_note(&announced).contains(". The history does announce 5 joins and 0 removals"));
    assert_eq!(series_total(&vec![1, -2, 10]), 9);
    assert_eq!(label_every(13), 1);
    assert_eq!(label_every(30), 2);
    assert!(churn_body("<svg/>", "", "").ends_with("not the size of the group.</p>"));
    assert!(churn_body("<svg/>", "<svg/>", "").contains("<h3>Arrivals</h3>"));
}

fn topic(name: &str, hours: Vec<i64>) -> TopicRow {
    TopicRow { name: name.into(), messages: 1200, top: "a very long name that will not fit".into(), per_hour: hours, ..Default::default() }
}

#[test]
fn a_topic_with_no_busiest_day_leaves_the_cell_blank() {
    let rows = vec![topic("General", vec![0; 24])];
    let cells = vec![TopicCells { presence: "<svg/>".into(), words: "0".into() }];
    let html = topics(&rows, &cells, &Quantiles::new(vec![1, 2, 3]), "");
    assert!(html.contains("the cut points are 2, 3 and 3 messages in a day."));
    assert!(html.contains("<td class=\"n\">1\u{a0}200</td>"));
    assert!(html.contains("<td class=\"n\"></td><td class=\"n\">0</td>"));
    assert!(html.contains("<span title=\"a very long name that will not fit\">a very long name that&#8230;</span>"));
    assert!(all_silent(&rows));
    let mut busy = topic("Busy", vec![0; 24]);
    busy.per_hour[3] = 1;
    busy.busiest = Busiest { date: "2025-01-02".into(), messages: 7 };
    assert!(!all_silent(&vec![busy.clone()]));
    let html = topics(&vec![busy], &cells, &Quantiles::new(vec![]), &clocks_frame("<svg/>"));
    assert!(html.contains("7 <span class=\"at\">2 Jan 2025</span>"));
    assert!(html.contains("<h3>When each topic is awake</h3>"));
    assert_eq!(topics(&vec![], &vec![], &Quantiles::new(vec![]), ""), "");
}

fn count(label: &str, n: i64) -> Count {
    Count::new(label, n)
}

#[test]
fn top_lists_stop_at_ten_and_tables_at_twelve() {
    let many: Vec<Count> = (0..15).map(|i| count(&format!("e{i}"), 15 - i)).collect();
    let list = symbol_list(&many, "Most-used emoji");
    assert_eq!(list.matches("<li>").count(), 10);
    assert!(list.starts_with("<h3>Most-used emoji</h3><ul class=\"figures\"><li><b>e0</b><span>15</span></li>"));
    assert_eq!(symbol_list(&vec![], "x"), "");
    let tags = tag_tables(&many, &vec![]);
    assert_eq!(tags.matches("<tr>").count(), 13);
    assert!(tags.contains("<td>#e0</td><td class=\"n\">15</td>"));
    assert!(!tags.contains("Most mentioned"));
    assert_eq!(tag_tables(&vec![], &vec![]), "");
    assert!(forwards(&vec![count("Channel <x>", 2)]).contains("<td>Channel &lt;x&gt;</td>"));
}

#[test]
fn attachments_over_the_limit_are_noted() {
    assert!(skip_note(10, 7).starts_with("<p class=\"note\">3 of those attachments"));
    assert_eq!(skip_note(7, 7), "");
    assert_eq!(no_text(&vec![count("1", 4), count("no text", 9), count("no text", 1)]), 9);
    assert_eq!(no_text(&vec![count("1", 4)]), 0);
}

#[test]
fn people_past_the_thirtieth_go_behind_the_switch() {
    let rows: Vec<Speaker> = (0..32)
        .map(|i| Speaker { name: format!("p{i}"), messages: if i == 5 { 0 } else { 100 - i }, ..Default::default() })
        .collect();
    let drawn: Vec<Drawn> = rows.iter().map(|_| Drawn { presence: String::new(), share: "1.0%".into(), words: "3.5".into() }).collect();
    let html = people_table(&rows, &drawn);
    assert!(!html.contains(">p5<"));
    assert_eq!(html.matches("class=\"overflow\"").count(), 1);
    assert!(html.contains("<tr class=\"overflow\"><td class=\"rank\">31</td><td class=\"name\">p31</td>"));
    assert_eq!(more_people(31), "<p class=\"note\">1 more person sent at least one message. Use <span class=\"num\">Everyone</span> above to show them.</p>");
    assert_eq!(more_people(30), "");
    assert_eq!(people_count(25, 43), "25 spoke &#183; 43 on the member list");
    assert_eq!(people_count(25, 0), "25 spoke");
    assert!(silent_note(2).contains("2 more people appear in this archive"));
    assert_eq!(silent_note(0), "");
}

#[test]
fn a_person_row_names_their_role_and_former_names() {
    let p = Speaker {
        name: "Ana".into(),
        aliases: vec!["A.".into(), "Anka".into()],
        role: "admin".into(),
        messages: 1234,
        reactions_received: 5,
        first: Some("2025-01-02T10:00:00".into()),
        last: None,
    };
    let d = Drawn { presence: "<svg/>".into(), share: "12.5%".into(), words: "4.2".into() };
    let html = people_table(&vec![p], &vec![d]);
    assert!(html.contains("<td class=\"name\">Ana <span class=\"role\">admin</span> <span class=\"alias\">was A., Anka</span></td>"));
    assert!(html.contains("<td class=\"n\">1\u{a0}234</td><td class=\"n\">12.5%</td><td class=\"n\">4.2</td><td class=\"n\">5</td><td class=\"n\">2 Jan 2025</td><td class=\"n\"></td></tr>"));
}

#[test]
fn awards_streaks_and_reactions_are_noted() {
    let a = vec![Award { title: "Night owl".into(), name: "Bob".into(), value: "4am".into(), ..Default::default() }];
    assert!(awards(&a).contains("<li><b>4am</b><span>Night owl: Bob</span></li>"));
    assert_eq!(awards(&vec![]), "");
    let s = Some(Streak { name: "Ana".into(), days: 12, ended: "2025-03-01".into() });
    assert_eq!(streak_note(&s), "<p class=\"note\">Longest unbroken run of days posted on: Ana, 12 days to 1 Mar 2025.</p>");
    assert_eq!(streak_note(&None), "");
    assert!(votes_note(3, 10).ends_with("3 of 10 reactions in this archive have a name on them.</p>"));
    assert_eq!(orphan_note(0), "");
    assert!(orphan_note(4).starts_with("<p class=\"note\">4 replies point at a message"));
}
