use tga_report::members::{absent, lede, listed_order, members, Member, Roster};

fn member(name: &str, messages: i64, listed: bool) -> Member {
    Member {
        name: name.to_string(),
        messages,
        listed,
        ..Default::default()
    }
}

#[test]
fn the_list_runs_loudest_first_then_by_name_ignoring_case() {
    let rows = vec![
        member("bob", 5, true),
        member("Zed", 9, true),
        member("alice", 5, true),
        member("Off the list", 50, false),
        member("Carol", 5, true),
    ];
    assert_eq!(listed_order(&rows), vec![1, 2, 0, 4]);
}

#[test]
fn members_equal_on_count_and_name_keep_the_order_they_came_in() {
    let rows = vec![member("Ana", 3, true), member("ana", 3, true), member("ANA", 3, true)];
    assert_eq!(listed_order(&rows), vec![0, 1, 2]);
}

#[test]
fn everybody_on_the_list_has_a_row_and_nobody_else_does() {
    let rows = vec![
        member("Lurker", 0, true),
        member("Talker", 10, true),
        member("Visitor", 4, false),
    ];
    let roster = Roster { known_members: 2, members_who_spoke: 1, speakers: 2, ..Default::default() };
    let html = members(&roster, &rows);
    assert!(html.contains(">Talker<"));
    assert!(html.contains(">Lurker<"));
    assert!(!html.contains("Visitor"));
    assert!(html.contains("<span class=\"muted\">never posted</span>"));
    assert!(html.contains("<span class=\"muted\">no handle</span>"));
    assert!(html.find(">Talker<").unwrap() < html.find(">Lurker<").unwrap());
    assert!(html.contains("1 person in this archive is not on the member list at all"));
    assert!(html.contains("<li><b>1</b><span>posted but are not listed</span></li>"));
}

#[test]
fn the_lede_is_true_of_a_list_where_everybody_posted() {
    let roster = Roster { known_members: 3, members_who_spoke: 3, speakers: 3, ..Default::default() };
    assert_eq!(lede(&roster), "Everybody on the member list posted at least once.");
    let quiet = Roster { known_members: 43, members_who_spoke: 25, speakers: 25, ..Default::default() };
    assert_eq!(
        lede(&quiet),
        "18 of the 43 people on the member list never posted, so this is the only table on the page they appear in."
    );
}

#[test]
fn a_handle_bot_and_role_are_marked() {
    let mut m = member("Helper", 2, true);
    m.username = "help<er>".into();
    m.bot = true;
    m.role = "admin".into();
    let roster = Roster { known_members: 1, members_who_spoke: 1, speakers: 1, ..Default::default() };
    let html = members(&roster, &vec![m]);
    assert!(html.contains("<span class=\"handle\">@help&lt;er&gt;</span>"));
    assert!(html.contains("<span class=\"tagpill\">bot</span><span class=\"role\">admin</span>"));
    assert!(html.contains("<li><b>1</b><span>are bots</span></li>"));
}

#[test]
fn with_no_member_list_the_people_who_never_posted_are_named() {
    let rows = vec![member("Reactor", 0, false), member("Talker", 3, false), member("", 0, false)];
    let html = absent(&rows);
    assert!(html.contains("<li>Reactor</li>"));
    assert!(html.contains("<li><span class=\"muted\">unnamed account</span></li>"));
    assert!(!html.contains("Talker"));
    assert!(html.contains("2 people below appear in this archive"));
    let roster = Roster::default();
    assert_eq!(members(&roster, &rows), html);
}

#[test]
fn with_no_member_list_and_nobody_silent_the_section_is_empty() {
    assert_eq!(absent(&vec![member("Talker", 3, false)]), "");
}
