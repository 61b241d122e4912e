use std::collections::BTreeSet;

use tga_report::scale::Quantiles;
use tga_report::text::{decimal, esc, thousands};

#[test]
fn charts_escaping_does_not_double_escape_its_own_ampersands() {
    assert_eq!(
        esc("<a href='x'>&\"</a>"),
        "&lt;a href=&#39;x&#39;&gt;&amp;&quot;&lt;/a&gt;"
    );
}

#[test]
fn mod_escaping_does_not_double_escape_its_own_ampersands() {
    assert_eq!(
        esc("<a href='x'>&\"</a>"),
        "&lt;a href=&#39;x&#39;&gt;&amp;&quot;&lt;/a&gt;"
    );
}

#[test]
fn charts_a_group_separator_is_a_non_breaking_space() {
    assert_eq!(thousands(6_643), "6\u{a0}643");
    assert_eq!(thousands(333_582), "333\u{a0}582");
    assert_eq!(thousands(0), "0");
    assert_eq!(thousands(-1_234), "-1\u{a0}234");
}

#[test]
fn mod_a_group_separator_is_a_non_breaking_space() {
    assert_eq!(thousands(6_643), "6\u{a0}643");
    assert_eq!(thousands(333_582), "333\u{a0}582");
    assert_eq!(thousands(0), "0");
    assert_eq!(thousands(-1_234), "-1\u{a0}234");
}

#[test]
fn grouping_reaches_both_ends_of_the_range() {
    assert_eq!(thousands(999), "999");
    assert_eq!(thousands(1_000), "1\u{a0}000");
    assert_eq!(thousands(1_000_000), "1\u{a0}000\u{a0}000");
    assert_eq!(
        thousands(i64::MIN),
        "-9\u{a0}223\u{a0}372\u{a0}036\u{a0}854\u{a0}775\u{a0}808"
    );
    assert_eq!(decimal(i64::MIN), i64::MIN.to_string());
    assert_eq!(decimal(i64::MAX), i64::MAX.to_string());
    assert_eq!(decimal(-7), "-7");
}

#[test]
fn an_escaped_name_holds_no_markup_at_all() {
    let out = esc("<script>alert('x') & \"y\"</script>");
    assert!(!out.contains('<'));
    assert!(!out.contains('>'));
    assert!(!out.contains('"'));
    assert!(!out.contains('\''));
    assert_eq!(esc("plain ćaskanje"), "plain ćaskanje");
}

fn long_tailed() -> Vec<i64> {
    let mut values: Vec<i64> = (0..132).map(|i| 1 + (i % 40)).collect();
    values.push(557);
    values
}

fn quantiles_spend_the_whole_ramp() {
    let scale = Quantiles::new(long_tailed());
    let used: BTreeSet<String> = (1..=557).map(|v| scale.var(v)).collect();
    assert_eq!(used.len(), 5, "all five shades are reachable");
    assert_eq!(scale.var(0), "var(--track)");
    assert_eq!(scale.var(557), "var(--r5)");
}

#[test]
fn charts_quantiles_spend_the_whole_ramp_on_a_long_tailed_series() {
    quantiles_spend_the_whole_ramp();
}

#[test]
fn mod_quantiles_spend_the_whole_ramp_on_a_long_tailed_series() {
    quantiles_spend_the_whole_ramp();
}

fn few_distinct() {
    let scale = Quantiles::new(vec![1, 1, 1, 2, 2, 3]);
    assert_eq!(scale.edges, vec![2, 3]);
    assert_eq!(scale.var(1), "var(--r1)");
    assert_eq!(scale.var(2), "var(--r2)");
    assert_eq!(scale.var(3), "var(--r3)");
}

#[test]
fn charts_few_distinct_values_get_one_shade_each() {
    few_distinct();
}

#[test]
fn mod_few_distinct_values_get_one_shade_each() {
    few_distinct();
}

fn collapsing() {
    let mut values = vec![1i64; 100];
    values.extend([2, 3, 4, 5, 9, 40]);
    let scale = Quantiles::new(values);
    assert!(
        scale.edges.len() >= 4,
        "the fallback should spend the ramp: {:?}",
        scale.edges
    );
}

#[test]
fn charts_quantiles_collapsing_onto_the_mode_re_cut_on_the_distinct_values() {
    collapsing();
}

#[test]
fn mod_quantiles_collapsing_onto_the_mode_re_cut_on_the_distinct_values() {
    collapsing();
}

fn all_zero() {
    let scale = Quantiles::new(vec![0, 0, 0]);
    assert!(scale.edges.is_empty());
    assert_eq!(scale.caption("messages"), "");
    assert_eq!(scale.var(0), "var(--track)");
}

#[test]
fn charts_an_all_zero_series_has_no_edges_and_no_caption() {
    all_zero();
}

#[test]
fn mod_an_all_zero_series_has_no_edges_and_no_caption() {
    all_zero();
}

fn caption_numbers() {
    let scale = Quantiles::new(vec![1, 2, 3, 4]);
    let caption = scale.caption("messages");
    assert!(caption.starts_with("Five shades"));
    assert!(caption.ends_with("and 4 messages."));
}

#[test]
fn charts_the_caption_states_the_cut_points_as_numbers() {
    caption_numbers();
}

#[test]
fn mod_the_caption_states_the_cut_points_as_numbers() {
    caption_numbers();
}

#[test]
fn the_shades_never_fall_as_the_value_rises() {
    let scale = Quantiles::new(long_tailed());
    let mut last = 0;
    for v in -3..600 {
        let step = scale.index(v);
        assert!(step >= last, "{v} fell to {step}");
        assert!(step <= 5);
        assert_eq!(step == 0, v <= 0);
        last = step;
    }
}

#[test]
fn every_edge_is_a_value_the_data_took() {
    let values = long_tailed();
    let scale = Quantiles::new(values.clone());
    for pair in scale.edges.windows(2) {
        assert!(pair[0] < pair[1]);
    }
    for edge in &scale.edges {
        assert!(values.contains(edge));
    }
    assert_eq!(scale.top, 557);
}

#[test]
fn a_caption_lists_every_cut_point_grouped() {
    let scale = Quantiles::new(vec![1, 2, 3, 4, 5, 6, 7, 1500]);
    assert_eq!(
        scale.caption(""),
        format!(
            "Five shades, one per fifth of the range actually used; the cut points are {} and 1\u{a0}500.",
            scale
                .edges
                .iter()
                .map(|e| thousands(*e))
                .collect::<Vec<_>>()
                .join(", ")
        )
    );
}

#[test]
fn steps_other_than_five_are_honoured() {
    let scale = Quantiles::with_steps(vec![5, 1, 3], 2);
    assert_eq!(scale.steps, 2);
    assert_eq!(scale.index(5), 2);
    assert_eq!(scale.index(1), 1);
}
