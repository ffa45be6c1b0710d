use cheatrs::resolve::{
    cycle_sheet_id, default_config, default_search_all_for_process, get_active_process_name,
    get_initial_sheet_id, get_sheet_for_process, resolve_process_change, resolve_startup_sheet,
    toggle_search_all_for_process, update_last_cheatsheet, AppConfig,
};
use cheatrs::sheets::{CheatSheet, sheet_matches_process};

fn sheet(id: &str, processes: &[&str]) -> CheatSheet {
    CheatSheet {
        id: id.to_string(),
        name: id.to_string(),
        description: String::new(),
        hint: None,
        processes: processes.iter().map(|p| p.to_string()).collect(),
        sections: Vec::new(),
    }
}

fn config_eq(a: &AppConfig, b: &AppConfig) -> bool {
    a.last_cheatsheet_id == b.last_cheatsheet_id
        && a.last_cheatsheet_per_process == b.last_cheatsheet_per_process
        && a.search_all_for_process == b.search_all_for_process
}

fn clone_config(c: &AppConfig) -> AppConfig {
    AppConfig {
        last_cheatsheet_id: c.last_cheatsheet_id.clone(),
        last_cheatsheet_per_process: c.last_cheatsheet_per_process.clone(),
        search_all_for_process: c.search_all_for_process,
    }
}

#[test]
fn defaults() {
    assert!(default_search_all_for_process());
    let c = default_config();
    assert_eq!(c.last_cheatsheet_id, None);
    assert!(c.last_cheatsheet_per_process.is_empty());
    assert!(c.search_all_for_process);
    assert_eq!(get_active_process_name(), None);
}

#[test]
fn toggle_flips_only_the_flag() {
    let c = default_config();
    let t = toggle_search_all_for_process(c);
    assert!(!t.search_all_for_process);
    assert_eq!(t.last_cheatsheet_id, None);
    let t2 = toggle_search_all_for_process(t);
    assert!(t2.search_all_for_process);
}

#[test]
fn initial_sheet_prefers_per_process_entry() {
    let mut c = default_config();
    c.last_cheatsheet_id = Some("global".to_string());
    c.last_cheatsheet_per_process
        .push(("Code.EXE".to_string(), "code-sheet".to_string()));
    // Per-process preferences are matched case-insensitively.
    let r = get_initial_sheet_id(&c, &Some("code.exe".to_string()));
    assert_eq!(r, Some("code-sheet".to_string()));
    // No preference for this process: the global last sheet wins.
    let r = get_initial_sheet_id(&c, &Some("slack.exe".to_string()));
    assert_eq!(r, Some("global".to_string()));
    // No process captured at all: the global last sheet wins.
    let r = get_initial_sheet_id(&c, &None);
    assert_eq!(r, Some("global".to_string()));
}

#[test]
fn initial_sheet_with_empty_config_is_none() {
    let c = default_config();
    assert_eq!(get_initial_sheet_id(&c, &Some("code.exe".to_string())), None);
    assert_eq!(get_initial_sheet_id(&c, &None), None);
}

#[test]
fn lookup_is_case_insensitive_and_first_match_wins() {
    let mut c = default_config();
    c.last_cheatsheet_per_process
        .push(("app.exe".to_string(), "first".to_string()));
    c.last_cheatsheet_per_process
        .push(("APP.exe".to_string(), "second".to_string()));
    assert_eq!(
        get_sheet_for_process(&c, "App.Exe"),
        Some("first".to_string())
    );
    assert_eq!(get_sheet_for_process(&c, "other.exe"), None);
}

#[test]
fn update_writes_global_and_matching_process_entry() {
    let c = default_config();
    let processes = vec!["code.exe".to_string()];
    let c = update_last_cheatsheet(
        c,
        "A".to_string(),
        Some("CODE.exe".to_string()),
        &processes,
    );
    assert_eq!(c.last_cheatsheet_id, Some("A".to_string()));
    assert_eq!(
        c.last_cheatsheet_per_process,
        vec![("CODE.exe".to_string(), "A".to_string())]
    );
}

#[test]
fn update_skips_process_entry_when_sheet_does_not_apply() {
    let c = default_config();
    let processes = vec!["code.exe".to_string()];
    let c = update_last_cheatsheet(
        c,
        "A".to_string(),
        Some("slack.exe".to_string()),
        &processes,
    );
    assert_eq!(c.last_cheatsheet_id, Some("A".to_string()));
    assert!(c.last_cheatsheet_per_process.is_empty());
}

#[test]
fn update_with_empty_process_set_writes_entry() {
    // An empty process set applies to every process, so the preference is
    // recorded: it would survive the staleness check of a process change.
    let c = default_config();
    let c = update_last_cheatsheet(
        c,
        "B".to_string(),
        Some("code.exe".to_string()),
        &Vec::new(),
    );
    assert_eq!(c.last_cheatsheet_id, Some("B".to_string()));
    assert_eq!(
        c.last_cheatsheet_per_process,
        vec![("code.exe".to_string(), "B".to_string())]
    );
}

#[test]
fn update_replaces_value_and_keeps_stored_key_casing() {
    let c = default_config();
    let c = update_last_cheatsheet(
        c,
        "A".to_string(),
        Some("Code.EXE".to_string()),
        &Vec::new(),
    );
    let c = update_last_cheatsheet(
        c,
        "B".to_string(),
        Some("code.exe".to_string()),
        &Vec::new(),
    );
    assert_eq!(
        c.last_cheatsheet_per_process,
        vec![("Code.EXE".to_string(), "B".to_string())]
    );
}

#[test]
fn update_twice_changes_nothing_after_the_first_write() {
    let c = default_config();
    let processes = vec!["code.exe".to_string()];
    let once = update_last_cheatsheet(
        c,
        "A".to_string(),
        Some("code.exe".to_string()),
        &processes,
    );
    let twice = update_last_cheatsheet(
        clone_config(&once),
        "A".to_string(),
        Some("code.exe".to_string()),
        &processes,
    );
    assert!(config_eq(&once, &twice));
    // And no entry appears for a process the sheet does not list.
    let other = update_last_cheatsheet(
        clone_config(&once),
        "A".to_string(),
        Some("slack.exe".to_string()),
        &processes,
    );
    assert_eq!(other.last_cheatsheet_per_process, once.last_cheatsheet_per_process);
}

#[test]
fn startup_falls_back_to_first_sheet() {
    let sheets = vec![sheet("A", &["code.exe"]), sheet("B", &[])];
    assert_eq!(
        resolve_startup_sheet(&sheets, &None),
        Some("A".to_string())
    );
    assert_eq!(
        resolve_startup_sheet(&sheets, &Some("B".to_string())),
        Some("B".to_string())
    );
    // An id no sheet carries falls back to the first sheet.
    assert_eq!(
        resolve_startup_sheet(&sheets, &Some("gone".to_string())),
        Some("A".to_string())
    );
    assert_eq!(resolve_startup_sheet(&Vec::new(), &None), None);
}

#[test]
fn end_to_end_selection_scenario() {
    // Store: A scoped to code.exe, B unscoped; active process code.exe.
    let sheets = vec![sheet("A", &["code.exe"]), sheet("B", &[])];
    let c = default_config();
    // Startup with empty preferences resolves nothing...
    let initial = get_initial_sheet_id(&c, &Some("code.exe".to_string()));
    assert_eq!(initial, None);
    // ...so the caller falls back to the first sheet, A.
    assert_eq!(resolve_startup_sheet(&sheets, &initial), Some("A".to_string()));
    // The user selects B: the global last sheet becomes B, and since B's
    // empty process set applies to every process, a per-process entry for
    // code.exe -> B is written.
    let c = update_last_cheatsheet(
        c,
        "B".to_string(),
        Some("code.exe".to_string()),
        &sheets[1].processes,
    );
    assert_eq!(c.last_cheatsheet_id, Some("B".to_string()));
    assert_eq!(
        c.last_cheatsheet_per_process,
        vec![("code.exe".to_string(), "B".to_string())]
    );
}

#[test]
fn process_change_keeps_display_when_nothing_matches() {
    // A does not list slack.exe, no preference exists for it, and no sheet
    // lists it: the display stays unchanged.
    let sheets = vec![sheet("A", &["code.exe"])];
    let c = default_config();
    let r = resolve_process_change(
        &sheets,
        &"A".to_string(),
        &c,
        &"slack.exe".to_string(),
    );
    assert_eq!(r, None);
}

#[test]
fn process_change_keeps_matching_sheet() {
    let sheets = vec![sheet("A", &["code.exe"]), sheet("B", &[])];
    let c = default_config();
    // B applies everywhere, so a change to any process keeps it.
    let r = resolve_process_change(
        &sheets,
        &"B".to_string(),
        &c,
        &"slack.exe".to_string(),
    );
    assert_eq!(r, None);
}

#[test]
fn process_change_uses_valid_preference() {
    let sheets = vec![sheet("A", &["code.exe"]), sheet("S", &["slack.exe"]), sheet(
        "S2",
        &["slack.exe"],
    )];
    let mut c = default_config();
    c.last_cheatsheet_per_process
        .push(("slack.exe".to_string(), "S2".to_string()));
    let r = resolve_process_change(
        &sheets,
        &"A".to_string(),
        &c,
        &"slack.exe".to_string(),
    );
    assert_eq!(r, Some("S2".to_string()));
}

#[test]
fn process_change_discards_stale_preference() {
    // The preferred sheet no longer exists in the store: fall back to the
    // first sheet that lists the process.
    let sheets = vec![sheet("A", &["code.exe"]), sheet("S", &["slack.exe"])];
    let mut c = default_config();
    c.last_cheatsheet_per_process
        .push(("slack.exe".to_string(), "gone".to_string()));
    let r = resolve_process_change(
        &sheets,
        &"A".to_string(),
        &c,
        &"slack.exe".to_string(),
    );
    assert_eq!(r, Some("S".to_string()));
}

#[test]
fn process_match_is_case_insensitive() {
    let s = sheet("A", &["Code.EXE"]);
    assert!(sheet_matches_process(&s, "code.exe"));
    assert!(!sheet_matches_process(&s, "slack.exe"));
    let everywhere = sheet("B", &[]);
    assert!(sheet_matches_process(&everywhere, "anything"));
}

#[test]
fn cycling_wraps_around() {
    let ids: Vec<String> = vec!["A".to_string(), "B".to_string(), "C".to_string()];
    assert_eq!(cycle_sheet_id(&ids, &"A".to_string(), true), Some("B".to_string()));
    assert_eq!(cycle_sheet_id(&ids, &"C".to_string(), true), Some("A".to_string()));
    assert_eq!(cycle_sheet_id(&ids, &"A".to_string(), false), Some("C".to_string()));
    assert_eq!(cycle_sheet_id(&ids, &"B".to_string(), false), Some("A".to_string()));
    assert_eq!(cycle_sheet_id(&ids, &"missing".to_string(), true), None);
    assert_eq!(cycle_sheet_id(&Vec::new(), &"A".to_string(), true), None);
}
