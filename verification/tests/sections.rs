use tga_report::names::Names;
use tga_report::sections::{
    argmax, data_view, figures, head, label_for, plural, short, squeeze_words, table, who_line,
};
use tga_report::time::pretty_date;

fn short_name() {
    assert_eq!(short("Ana", 22), "Ana");
    let long = short("a name far longer than the column", 22);
    assert!(long.starts_with("<span title="));
    assert!(long.ends_with("&#8230;</span>"));
}

#[test]
fn sections_a_short_name_is_left_whole_and_a_long_one_keeps_its_title() {
    short_name();
}

#[test]
fn mod_a_short_name_is_left_whole_and_a_long_one_keeps_its_title() {
    short_name();
}

fn unknown_key() {
    let names = Names::new();
    assert_eq!(label_for(&names, "user123"), "user123");
    assert_eq!(label_for(&names, ""), "unknown");
}

#[test]
fn sections_an_unknown_key_labels_as_itself_rather_than_as_a_blank_cell() {
    unknown_key();
}

#[test]
fn mod_an_unknown_key_labels_as_itself_rather_than_as_a_blank_cell() {
    unknown_key();
}

fn first_max() {
    assert_eq!(argmax(&[1, 9, 3, 9]), 1);
    assert_eq!(argmax(&[]), 0);
}

#[test]
fn sections_argmax_takes_the_first_maximum_rather_than_the_last() {
    first_max();
}

#[test]
fn mod_argmax_takes_the_first_maximum_rather_than_the_last() {
    first_max();
}

fn dates() {
    assert_eq!(pretty_date("2025-09-05"), "5 Sep 2025");
    assert_eq!(pretty_date("2025-12-14"), "14 Dec 2025");
    assert_eq!(pretty_date("2025-09-05T14:30:00"), "5 Sep 2025");
}

#[test]
fn sections_a_date_loses_its_leading_zero_and_keeps_its_month_name() {
    dates();
}

#[test]
fn mod_a_date_loses_its_leading_zero_and_keeps_its_month_name() {
    dates();
}

fn unparseable() {
    assert_eq!(pretty_date(""), "");
    assert_eq!(pretty_date("soon"), "soon");
}

#[test]
fn sections_an_unparseable_date_comes_back_unchanged_rather_than_failing() {
    unparseable();
}

#[test]
fn mod_an_unparseable_date_comes_back_unchanged_rather_than_failing() {
    unparseable();
}

#[test]
fn a_known_key_labels_as_its_name() {
    let mut names = Names::new();
    names.insert("user1".to_string(), "Ana".to_string());
    names.insert("user2".to_string(), "Bob".to_string());
    names.insert("user1".to_string(), "Ana B.".to_string());
    assert_eq!(label_for(&names, "user1"), "Ana B.");
    assert_eq!(names.get("user2").map(String::as_str), Some("Bob"));
    assert_eq!(names.len(), 2);
}

#[test]
fn a_heading_escapes_its_title_but_not_its_count() {
    assert_eq!(
        head("A & B", "3 &#183; 4", "whole"),
        "<section id=\"whole\"><div class=\"sechead\"><h2>A &amp; B</h2>\
         <span class=\"count\">3 &#183; 4</span></div>"
    );
    assert_eq!(
        head("Notes", "", ""),
        "<section><div class=\"sechead\"><h2>Notes</h2><span class=\"count\"></span></div>"
    );
}

#[test]
fn a_table_pairs_cells_with_their_columns() {
    let headers = vec![("Month".to_string(), false), ("Messages".to_string(), true)];
    let rows = vec![
        vec!["2025-01".to_string(), "6".to_string()],
        vec!["2025-02".to_string()],
    ];
    assert_eq!(
        table(&headers, &rows),
        "<table class=\"\"><thead><tr><th>Month</th><th class=\"n\">Messages</th></tr></thead>\
         <tbody><tr><td>2025-01</td><td class=\"n\">6</td></tr><tr><td>2025-02</td></tr>\
         </tbody></table>"
    );
    assert_eq!(
        data_view("As <numbers>", "T"),
        "<details class=\"data\"><summary>As &lt;numbers&gt;</summary>T</details>"
    );
}

#[test]
fn figures_are_markup_values_with_escaped_labels() {
    let items = vec![("<em>3</em>".to_string(), "days & nights".to_string())];
    assert_eq!(
        figures(&items),
        "<ul class=\"figures\"><li><b><em>3</em></b><span>days &amp; nights</span></li></ul>"
    );
    assert_eq!(plural(1), "");
    assert_eq!(plural(0), "s");
    assert_eq!(plural(2), "s");
}

#[test]
fn a_credit_that_names_nobody_is_marked_and_counted() {
    let mut names = Names::new();
    names.insert("user2".to_string(), "Person  2".to_string());
    let who = vec!["person 2".to_string(), "Nobody At All".to_string()];
    assert_eq!(
        who_line(&who, &names),
        "<p class=\"who\"><span>person 2</span><span class=\"unknown\">Nobody At All</span> \
         <em>1 name matches nobody in this export</em></p>"
    );
    let two = vec!["x".to_string(), "y".to_string()];
    assert!(who_line(&two, &names).ends_with("<em>2 names match nobody in this export</em></p>"));
    assert_eq!(who_line(&Vec::new(), &names), "");
}

#[test]
fn white_space_runs_collapse_to_one_space() {
    assert_eq!(squeeze_words("  Bob \t& \u{a0}Co\n"), "Bob & Co");
    assert_eq!(squeeze_words(""), "");
}
