use comick::chapter::{parse_priorities, scanlator_priorities, select_chapter, take_chapter, Chapter};
use comick::prefs::{HostValue, Preferences};

fn chapter(scanlator: &str, record: u32) -> Chapter<u32> {
    Chapter { scanlator: String::from(scanlator), record }
}

fn prefs_with_priorities(value: HostValue) -> Preferences {
    Preferences { languages: HostValue::Missing, scanlator_priorities: value }
}

fn text(value: &str) -> HostValue {
    HostValue::Text(String::from(value))
}

fn group_bac() -> Vec<Chapter<u32>> {
    vec![chapter("B", 0), chapter("A", 1), chapter("C", 2)]
}

#[test]
fn selection_follows_the_priority_list() {
    let kept = take_chapter(group_bac(), &prefs_with_priorities(text("A, C"))).unwrap();
    assert_eq!(kept.scanlator, "A");
    assert_eq!(kept.record, 1);
}

#[test]
fn selection_with_empty_priorities_keeps_the_first() {
    let kept = take_chapter(group_bac(), &prefs_with_priorities(text(""))).unwrap();
    assert_eq!(kept.scanlator, "B");
    assert_eq!(kept.record, 0);
}

#[test]
fn selection_with_absent_priorities_keeps_the_first() {
    let kept = take_chapter(group_bac(), &prefs_with_priorities(HostValue::Missing)).unwrap();
    assert_eq!(kept.scanlator, "B");
    let kept = take_chapter(group_bac(), &prefs_with_priorities(HostValue::Other)).unwrap();
    assert_eq!(kept.scanlator, "B");
    let kept =
        take_chapter(group_bac(), &prefs_with_priorities(HostValue::List(vec![]))).unwrap();
    assert_eq!(kept.scanlator, "B");
}

#[test]
fn selection_without_a_match_keeps_the_first() {
    let kept = take_chapter(group_bac(), &prefs_with_priorities(text("Z"))).unwrap();
    assert_eq!(kept.scanlator, "B");
    assert_eq!(kept.record, 0);
}

#[test]
fn selection_of_an_empty_group_is_none() {
    let empty: Vec<Chapter<u32>> = vec![];
    assert!(take_chapter(empty, &prefs_with_priorities(text("A"))).is_none());
    let empty: Vec<Chapter<u32>> = vec![];
    assert!(select_chapter(empty, &vec![]).is_none());
}

#[test]
fn selection_prefers_the_earliest_priority_over_group_order() {
    let group = vec![chapter("C", 0), chapter("A", 1), chapter("C", 2), chapter("A", 3)];
    let kept = take_chapter(group, &prefs_with_priorities(text("A,C"))).unwrap();
    assert_eq!(kept.scanlator, "A");
    assert_eq!(kept.record, 1);
}

#[test]
fn selection_keeps_the_first_chapter_of_the_preferred_group() {
    let group = vec![chapter("X", 0), chapter("C", 1), chapter("C", 2)];
    let priorities = vec![String::from("Q"), String::from("C"), String::from("X")];
    let kept = select_chapter(group, &priorities).unwrap();
    assert_eq!(kept.scanlator, "C");
    assert_eq!(kept.record, 1);
}

#[test]
fn selection_compares_names_exactly() {
    let group = vec![chapter("b", 0), chapter("AA", 1), chapter("a", 2)];
    let kept = take_chapter(group, &prefs_with_priorities(text("A,B"))).unwrap();
    assert_eq!(kept.record, 0);
}

#[test]
fn selection_returns_a_member_of_the_group() {
    let names = ["B", "A", "C"];
    for priorities in ["", "A", "C,A", "Z", " B ,", ",,", "Z,Y,C"] {
        let kept = take_chapter(group_bac(), &prefs_with_priorities(text(priorities))).unwrap();
        assert_eq!(kept.scanlator, names[kept.record as usize]);
    }
}

#[test]
fn priorities_are_split_at_commas_and_trimmed() {
    assert_eq!(parse_priorities("A, C"), vec!["A", "C"]);
    assert_eq!(parse_priorities("  Team One ,\tTeam Two\n"), vec!["Team One", "Team Two"]);
    assert_eq!(parse_priorities("x"), vec!["x"]);
    assert_eq!(parse_priorities("\u{3000}x\u{a0}"), vec!["x"]);
}

#[test]
fn priorities_leave_out_entries_that_are_empty_after_trimming() {
    assert_eq!(parse_priorities(""), Vec::<String>::new());
    assert_eq!(parse_priorities(" , ,"), Vec::<String>::new());
    assert_eq!(parse_priorities("A,,B, ,C,"), vec!["A", "B", "C"]);
}

#[test]
fn priorities_come_from_a_string_setting_only() {
    assert_eq!(scanlator_priorities(&prefs_with_priorities(text("A, C"))), vec!["A", "C"]);
    assert!(scanlator_priorities(&prefs_with_priorities(HostValue::Missing)).is_empty());
    assert!(scanlator_priorities(&prefs_with_priorities(HostValue::Other)).is_empty());
    let listed = HostValue::List(vec![Some(String::from("A"))]);
    assert!(scanlator_priorities(&prefs_with_priorities(listed)).is_empty());
}
