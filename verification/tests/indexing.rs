use cheatrs::index::{build_index, IndexEntry};
use cheatrs::rank::{rank_entries, score_entry, RankedEntry};
use cheatrs::score::{score_less, score_lowered, Score};
use cheatrs::sheets::{CheatItem, CheatSection, CheatSheet};

fn chars(s: &str) -> Vec<char> {
    s.chars().collect()
}

fn item(keys: &[&str], desc: &str, tags: &[&str], hint: Option<&str>) -> CheatItem {
    CheatItem {
        keys: keys.iter().map(|k| k.to_string()).collect(),
        desc: desc.to_string(),
        tags: tags.iter().map(|t| t.to_string()).collect(),
        hint: hint.map(|h| h.to_string()),
    }
}

fn sheet(id: &str, name: &str, description: &str, processes: &[&str], items: Vec<CheatItem>) -> CheatSheet {
    CheatSheet {
        id: id.to_string(),
        name: name.to_string(),
        description: description.to_string(),
        hint: None,
        processes: processes.iter().map(|p| p.to_string()).collect(),
        sections: vec![CheatSection { title: "General".to_string(), items }],
    }
}

fn two_sheet_store() -> Vec<CheatSheet> {
    vec![
        sheet(
            "A",
            "Code",
            "Editor",
            &["code.exe"],
            vec![item(&["Ctrl+P"], "Open", &["nav"], None)],
        ),
        sheet("B", "Global", "", &[], vec![item(&["Alt+Tab"], "Switch", &[], None)]),
    ]
}

#[test]
fn entry_texts_are_lowercased_and_joined() {
    let sheets = vec![sheet(
        "A",
        "Code",
        "Editor",
        &[],
        vec![item(&["Ctrl+P"], "Open", &["Nav"], Some("Quick"))],
    )];
    let index = build_index(&sheets, &None, true);
    assert_eq!(index.len(), 1);
    let e = &index[0];
    assert_eq!(e.sheet_id, "A");
    assert_eq!(e.section_index, 0);
    assert_eq!(e.item_index, 0);
    assert_eq!(e.text, chars("ctrl+p open nav quick code editor"));
    assert_eq!(e.tags_text, chars("nav"));
}

#[test]
fn filter_applies_with_search_all_on() {
    let sheets = two_sheet_store();
    // "code.exe" is listed by A; B applies everywhere.
    let index = build_index(&sheets, &Some("CODE.exe".to_string()), true);
    assert_eq!(index.len(), 2);
    // "slack.exe" is listed by no sheet; only B (empty set) stays.
    let index = build_index(&sheets, &Some("slack.exe".to_string()), true);
    assert_eq!(index.len(), 1);
    assert_eq!(index[0].sheet_id, "B");
}

#[test]
fn search_all_off_keeps_every_sheet() {
    let sheets = two_sheet_store();
    let with_process = build_index(&sheets, &Some("slack.exe".to_string()), false);
    let with_other = build_index(&sheets, &Some("nothing-matches-this".to_string()), false);
    let without = build_index(&sheets, &None, false);
    assert_eq!(with_process.len(), 2);
    assert_eq!(with_other.len(), 2);
    assert_eq!(without.len(), 2);
    assert_eq!(with_process[0].sheet_id, "A");
    assert_eq!(with_process[1].sheet_id, "B");
}

#[test]
fn no_process_keeps_every_sheet() {
    let sheets = two_sheet_store();
    let index = build_index(&sheets, &None, true);
    assert_eq!(index.len(), 2);
}

fn plain_entry(sheet_id: &str, item_index: usize, text: &str, tags_text: &str) -> IndexEntry {
    IndexEntry {
        sheet_id: sheet_id.to_string(),
        section_index: 0,
        item_index,
        text: chars(text),
        tags_text: chars(tags_text),
    }
}

#[test]
fn rank_keeps_only_matches_of_the_sheet() {
    let entries = vec![
        plain_entry("A", 0, "open file", ""),
        plain_entry("B", 0, "open window", ""),
        plain_entry("A", 1, "close file", ""),
    ];
    let res = rank_entries(&entries, &"A".to_string(), "open");
    assert_eq!(res.len(), 1);
    assert_eq!(res[0].item_index, 0);
    assert!(res[0].score.num > 0);
}

#[test]
fn rank_sorts_by_descending_score() {
    let entries = vec![
        plain_entry("A", 0, "xxopenxx something long here", ""),
        plain_entry("A", 1, "open", ""),
        plain_entry("A", 2, "an open door", ""),
    ];
    let res = rank_entries(&entries, &"A".to_string(), "open");
    assert_eq!(res.len(), 3);
    for w in res.windows(2) {
        assert!(!score_less(&w[0].score, &w[1].score));
    }
    // The exact, shortest match ranks first.
    assert_eq!(res[0].item_index, 1);
}

#[test]
fn rank_ties_keep_index_order() {
    let entries = vec![
        plain_entry("A", 0, "same text", ""),
        plain_entry("A", 1, "same text", ""),
        plain_entry("A", 2, "same text", ""),
    ];
    let res = rank_entries(&entries, &"A".to_string(), "same");
    assert_eq!(res.len(), 3);
    assert_eq!(res[0].item_index, 0);
    assert_eq!(res[1].item_index, 1);
    assert_eq!(res[2].item_index, 2);
}

#[test]
fn rank_returns_at_most_hundred() {
    let mut entries = Vec::new();
    for i in 0..150 {
        entries.push(plain_entry("A", i, "open file", ""));
    }
    let res = rank_entries(&entries, &"A".to_string(), "open");
    assert_eq!(res.len(), 100);
    for w in res.windows(2) {
        assert!(!score_less(&w[0].score, &w[1].score));
    }
}

#[test]
fn rank_empty_query_matches_nothing() {
    let entries = vec![plain_entry("A", 0, "open file", "")];
    let res = rank_entries(&entries, &"A".to_string(), "");
    assert_eq!(res.len(), 0);
}

#[test]
fn tag_mode_doubles_tag_hits() {
    let tagged = plain_entry("A", 0, "whatever text", "x");
    // The raw tag match: 'x' alone at the start of "x" earns 5 half points.
    let plain = score_lowered(&chars("x"), &chars("x"));
    assert_eq!(plain, Score { num: 5, den: 121 });
    let boosted = score_entry(&tagged, &chars("#x"), &chars("x"), true);
    assert_eq!(boosted, Score { num: 10, den: 121 });
    assert!(score_less(&plain, &boosted));
}

#[test]
fn tag_mode_falls_back_to_dampened_full_text() {
    // No tags match, but the full text contains the unstripped query "#x".
    let untagged = plain_entry("A", 0, "#x marks the spot", "");
    let s = score_entry(&untagged, &chars("#x"), &chars("x"), true);
    // Full text: '#' at 0 earns 5; 'x' at 1 earns 5 (contiguous, and '#'
    // before it is no alphanumeric, so the boundary award applies too).
    // The denominator is doubled by the dampening.
    assert_eq!(s.num, 10);
    assert_eq!(s.den, 2 * (120 + 17));
}

#[test]
fn tag_mode_ranks_tag_hits_above_fallback() {
    let entries = vec![
        plain_entry("A", 0, "#x fallback text", ""),
        plain_entry("A", 1, "whatever", "x"),
    ];
    let res = rank_entries(&entries, &"A".to_string(), "#x");
    assert_eq!(res.len(), 2);
    assert_eq!(res[0].item_index, 1);
    assert_eq!(res[1].item_index, 0);
}

#[test]
fn end_to_end_index_and_rank() {
    let sheets = two_sheet_store();
    let index = build_index(&sheets, &None, true);
    let res: Vec<RankedEntry> = rank_entries(&index, &"A".to_string(), "open");
    assert_eq!(res.len(), 1);
    assert_eq!(res[0].section_index, 0);
    assert_eq!(res[0].item_index, 0);
    let none = rank_entries(&index, &"B".to_string(), "open");
    assert_eq!(none.len(), 0);
}
