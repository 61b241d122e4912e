use tga_report::matrix::{answer_matrix, matrix_frame};
use tga_report::model::Edge;

fn edge(from: &str, to: &str, count: i64) -> Edge {
    Edge { from: from.into(), to: to.into(), count, ..Default::default() }
}

#[test]
fn the_matrix_ranks_by_volume_and_counts_each_direction() {
    let edges = vec![edge("a", "b", 2), edge("b", "a", 1), edge("c", "a", 5), edge("a", "a", 1)];
    let (keys, cells) = answer_matrix(&edges);
    // a: 2 + 1 + 5 + 1 + 1 = 10, c: 5, b: 3.
    assert_eq!(keys, vec!["a".to_string(), "c".to_string(), "b".to_string()]);
    assert_eq!(cells, vec![vec![1, 0, 2], vec![5, 0, 0], vec![1, 0, 0]]);
}

#[test]
fn a_tie_on_volume_goes_to_whoever_turned_up_first() {
    let edges = vec![edge("x", "y", 1), edge("z", "w", 1)];
    let (keys, _) = answer_matrix(&edges);
    assert_eq!(keys, vec!["x", "y", "z", "w"]);
}

#[test]
fn only_the_sixteen_busiest_get_a_row() {
    let edges: Vec<Edge> = (0..20).map(|i| edge(&format!("p{i}"), "hub", i + 1)).collect();
    let (keys, cells) = answer_matrix(&edges);
    assert_eq!(keys.len(), 16);
    assert_eq!(keys[0], "hub");
    assert_eq!(keys[1], "p19");
    assert!(!keys.contains(&"p0".to_string()));
    assert_eq!(cells.len(), 16);
    assert_eq!(cells[1][0], 20);
}

#[test]
fn no_replies_make_no_matrix() {
    let (keys, cells) = answer_matrix(&vec![]);
    assert!(keys.is_empty());
    assert!(cells.is_empty());
}

#[test]
fn the_matrix_sits_beside_its_legend() {
    let html = matrix_frame("<svg/>");
    assert!(html.starts_with("<h3>Who answers whom</h3><div class=\"split\"><div><svg/></div><aside>"));
    assert!(html.contains("<span>never</span>"));
    assert_eq!(html.matches("<i style=\"background:var(--r").count(), 5);
}
