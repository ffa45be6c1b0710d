//! The process-sheet resolver.
//!
//! Decides which sheet is shown for the foreground application and maintains
//! the saved preferences: the last sheet shown globally, and per process the
//! sheet last shown while that process was in the foreground.
//!
//! Preference keys preserve the casing they were stored with and are compared
//! case-insensitively, folding at the point of comparison. A per-process
//! preference is written only when the selected sheet applies to the process,
//! so the stored value would survive the staleness check of the next process
//! change; stale entries from sheet-set changes are still tolerated and
//! re-validated on read where the rules ask for it.

use vstd::prelude::*;

use crate::sheets::{process_listed, processes_match, sheet_matches_process};
use crate::sheets::{spec_process_listed, spec_processes_match, spec_sheet_matches, CheatSheet};
use crate::text::{char_vecs_equal, lower_of, spec_opt_str_view, to_lower_chars};

verus! {

/// Saved preferences: the sheet last shown globally, the sheet last shown per
/// process (keys case-preserved, compared case-insensitively, no two keys
/// equal under folding), and the search-scope toggle.
pub struct AppConfig {
    pub last_cheatsheet_id: Option<String>,
    pub last_cheatsheet_per_process: Vec<(String, String)>,
    pub search_all_for_process: bool,
}

/// The mathematical content of an [`AppConfig`].
pub struct ConfigModel {
    pub last_cheatsheet_id: Option<Seq<char>>,
    pub last_cheatsheet_per_process: Seq<(Seq<char>, Seq<char>)>,
    pub search_all_for_process: bool,
}

/// The views of a sequence of string pairs.
pub open spec fn pairs_view(v: Seq<(String, String)>) -> Seq<(Seq<char>, Seq<char>)> {
    v.map_values(|p: (String, String)| (p.0@, p.1@))
}

impl View for AppConfig {
    type V = ConfigModel;

    open spec fn view(&self) -> ConfigModel {
        ConfigModel {
            last_cheatsheet_id: spec_opt_str_view(self.last_cheatsheet_id),
            last_cheatsheet_per_process: pairs_view(self.last_cheatsheet_per_process@),
            search_all_for_process: self.search_all_for_process,
        }
    }
}

/// Default value of the "search every sheet regardless of the foreground
/// process" toggle.
pub fn default_search_all_for_process() -> (b: bool)
    ensures
        b,
{
    true
}

/// The freshly-loaded defaults: no last sheet, no per-process preferences,
/// search not restricted to the foreground process.
pub fn default_config() -> (c: AppConfig)
    ensures
        c@.last_cheatsheet_id is None,
        c@.last_cheatsheet_per_process == Seq::<(Seq<char>, Seq<char>)>::empty(),
        c@.search_all_for_process,
        spec_pref_keys_unique(c@.last_cheatsheet_per_process),
{
    let c = AppConfig {
        last_cheatsheet_id: None,
        last_cheatsheet_per_process: Vec::new(),
        search_all_for_process: default_search_all_for_process(),
    };
    proof {
        assert(c@.last_cheatsheet_per_process =~= Seq::<(Seq<char>, Seq<char>)>::empty());
    }
    c
}

/// The foreground process name. Observing the foreground window is platform
/// work of the shell around this library; this portable core reports no
/// foreground process, which the resolver treats as "no active process".
pub fn get_active_process_name() -> (r: Option<String>)
    ensures
        r is None,
{
    None
}

/// The value of the first preference whose key equals `p` case-insensitively.
pub open spec fn spec_pref_lookup(m: Seq<(Seq<char>, Seq<char>)>, p: Seq<char>) -> Option<
    Seq<char>,
>
    decreases m.len(),
{
    if m.len() == 0 {
        None
    } else if lower_of(m[0].0) == lower_of(p) {
        Some(m[0].1)
    } else {
        spec_pref_lookup(m.drop_first(), p)
    }
}

proof fn lemma_pref_lookup_hit(m: Seq<(Seq<char>, Seq<char>)>, p: Seq<char>, j: int)
    requires
        0 <= j < m.len(),
        lower_of(m[j].0) == lower_of(p),
        forall|k: int| 0 <= k < j ==> lower_of(m[k].0) != lower_of(p),
    ensures
        spec_pref_lookup(m, p) == Some(m[j].1),
    decreases j,
{
    if j > 0 {
        lemma_pref_lookup_hit(m.drop_first(), p, j - 1);
    }
}

proof fn lemma_pref_lookup_miss(m: Seq<(Seq<char>, Seq<char>)>, p: Seq<char>)
    requires
        forall|k: int| 0 <= k < m.len() ==> lower_of(m[k].0) != lower_of(p),
    ensures
        spec_pref_lookup(m, p) is None,
    decreases m.len(),
{
    if m.len() > 0 {
        lemma_pref_lookup_miss(m.drop_first(), p);
    }
}

/// The saved sheet preference for `process_name`, compared case-insensitively
/// against the stored keys.
pub fn get_sheet_for_process(config: &AppConfig, process_name: &str) -> (r: Option<String>)
    ensures
        spec_opt_str_view(r) == spec_pref_lookup(config@.last_cheatsheet_per_process, process_name@),
{
    let map = &config.last_cheatsheet_per_process;
    let lp = to_lower_chars(process_name);
    let mut j: usize = 0;
    while j < map.len()
        invariant
            map == &config.last_cheatsheet_per_process,
            lp@ == lower_of(process_name@),
            j <= map@.len(),
            forall|k: int| 0 <= k < j ==> lower_of(#[trigger] map@[k].0@) != lower_of(
                process_name@,
            ),
        decreases map@.len() - j,
    {
        let lk = to_lower_chars(map[j].0.as_str());
        if char_vecs_equal(&lk, &lp) {
            proof {
                lemma_pref_lookup_hit(pairs_view(map@), process_name@, j as int);
            }
            return Some(map[j].1.clone());
        }
        j += 1;
    }
    proof {
        lemma_pref_lookup_miss(pairs_view(map@), process_name@);
    }
    None
}

/// The preference map with `k` bound to `v`: the first entry whose key equals
/// `k` case-insensitively gets the new value (its stored key casing kept);
/// with no such entry, `(k, v)` is appended.
pub open spec fn spec_pref_upsert(
    m: Seq<(Seq<char>, Seq<char>)>,
    k: Seq<char>,
    v: Seq<char>,
) -> Seq<(Seq<char>, Seq<char>)>
    decreases m.len(),
{
    if m.len() == 0 {
        seq![(k, v)]
    } else if lower_of(m[0].0) == lower_of(k) {
        seq![(m[0].0, v)] + m.drop_first()
    } else {
        seq![m[0]] + spec_pref_upsert(m.drop_first(), k, v)
    }
}

/// No two preference keys are equal under case folding.
pub open spec fn spec_pref_keys_unique(m: Seq<(Seq<char>, Seq<char>)>) -> bool {
    forall|i: int, j: int|
        0 <= i < j < m.len() ==> lower_of(m[i].0) != lower_of(m[j].0)
}

proof fn lemma_pref_upsert_keys(m: Seq<(Seq<char>, Seq<char>)>, k: Seq<char>, v: Seq<char>)
    ensures
        forall|i: int|
            0 <= i < spec_pref_upsert(m, k, v).len() ==> lower_of(
                (#[trigger] spec_pref_upsert(m, k, v)[i]).0,
            ) == lower_of(k) || exists|j: int|
                0 <= j < m.len() && lower_of(spec_pref_upsert(m, k, v)[i].0) == lower_of(
                    #[trigger] m[j].0,
                ),
    decreases m.len(),
{
    if m.len() == 0 {
    } else if lower_of(m[0].0) == lower_of(k) {
        assert forall|i: int| 0 <= i < spec_pref_upsert(m, k, v).len() implies lower_of(
            (#[trigger] spec_pref_upsert(m, k, v)[i]).0,
        ) == lower_of(k) || exists|j: int|
            0 <= j < m.len() && lower_of(spec_pref_upsert(m, k, v)[i].0) == lower_of(
                #[trigger] m[j].0,
            ) by {
            assert(spec_pref_upsert(m, k, v)[i].0 == m[i].0);
        }
    } else {
        lemma_pref_upsert_keys(m.drop_first(), k, v);
        assert forall|i: int| 0 <= i < spec_pref_upsert(m, k, v).len() implies lower_of(
            (#[trigger] spec_pref_upsert(m, k, v)[i]).0,
        ) == lower_of(k) || exists|j: int|
            0 <= j < m.len() && lower_of(spec_pref_upsert(m, k, v)[i].0) == lower_of(
                #[trigger] m[j].0,
            ) by {
            if i == 0 {
                assert(spec_pref_upsert(m, k, v)[0] == m[0]);
            } else {
                let rest = spec_pref_upsert(m.drop_first(), k, v);
                assert(spec_pref_upsert(m, k, v)[i] == rest[i - 1]);
                if lower_of(rest[i - 1].0) != lower_of(k) {
                    let j0 = choose|j0: int|
                        0 <= j0 < m.drop_first().len() && lower_of(rest[i - 1].0) == lower_of(
                            m.drop_first()[j0].0,
                        );
                    assert(m.drop_first()[j0] == m[j0 + 1]);
                }
            }
        }
    }
}

/// Law: the write-time rule keeps preference keys unique under case folding.
pub proof fn lemma_pref_upsert_keeps_keys_unique(
    m: Seq<(Seq<char>, Seq<char>)>,
    k: Seq<char>,
    v: Seq<char>,
)
    requires
        spec_pref_keys_unique(m),
    ensures
        spec_pref_keys_unique(spec_pref_upsert(m, k, v)),
    decreases m.len(),
{
    if m.len() == 0 {
    } else if lower_of(m[0].0) == lower_of(k) {
        assert forall|i: int, j: int|
            0 <= i < j < spec_pref_upsert(m, k, v).len() implies lower_of(
            (#[trigger] spec_pref_upsert(m, k, v)[i]).0,
        ) != lower_of((#[trigger] spec_pref_upsert(m, k, v)[j]).0) by {
            assert(spec_pref_upsert(m, k, v)[i].0 == m[i].0);
            assert(spec_pref_upsert(m, k, v)[j].0 == m[j].0);
        }
    } else {
        lemma_pref_upsert_keeps_keys_unique(m.drop_first(), k, v);
        lemma_pref_upsert_keys(m.drop_first(), k, v);
        let rest = spec_pref_upsert(m.drop_first(), k, v);
        assert forall|i: int, j: int|
            0 <= i < j < spec_pref_upsert(m, k, v).len() implies lower_of(
            (#[trigger] spec_pref_upsert(m, k, v)[i]).0,
        ) != lower_of((#[trigger] spec_pref_upsert(m, k, v)[j]).0) by {
            if i == 0 {
                assert(spec_pref_upsert(m, k, v)[0] == m[0]);
                assert(spec_pref_upsert(m, k, v)[j] == rest[j - 1]);
                if lower_of(rest[j - 1].0) == lower_of(k) {
                } else {
                    let j0 = choose|j0: int|
                        0 <= j0 < m.drop_first().len() && lower_of(rest[j - 1].0) == lower_of(
                            m.drop_first()[j0].0,
                        );
                    assert(m.drop_first()[j0] == m[j0 + 1]);
                }
            } else {
                assert(spec_pref_upsert(m, k, v)[i] == rest[i - 1]);
                assert(spec_pref_upsert(m, k, v)[j] == rest[j - 1]);
            }
        }
    }
}

proof fn lemma_pref_upsert_hit(m: Seq<(Seq<char>, Seq<char>)>, k: Seq<char>, v: Seq<char>, j: int)
    requires
        0 <= j < m.len(),
        lower_of(m[j].0) == lower_of(k),
        forall|i: int| 0 <= i < j ==> lower_of(m[i].0) != lower_of(k),
    ensures
        spec_pref_upsert(m, k, v) == m.update(j, (m[j].0, v)),
    decreases j,
{
    if j == 0 {
        assert(seq![(m[0].0, v)] + m.drop_first() =~= m.update(0, (m[0].0, v)));
    } else {
        lemma_pref_upsert_hit(m.drop_first(), k, v, j - 1);
        assert(seq![m[0]] + m.drop_first().update(j - 1, (m[j].0, v)) =~= m.update(
            j,
            (m[j].0, v),
        ));
    }
}

proof fn lemma_pref_upsert_miss(m: Seq<(Seq<char>, Seq<char>)>, k: Seq<char>, v: Seq<char>)
    requires
        forall|i: int| 0 <= i < m.len() ==> lower_of(m[i].0) != lower_of(k),
    ensures
        spec_pref_upsert(m, k, v) == m.push((k, v)),
    decreases m.len(),
{
    if m.len() == 0 {
        assert(seq![(k, v)] =~= m.push((k, v)));
    } else {
        lemma_pref_upsert_miss(m.drop_first(), k, v);
        assert(seq![m[0]] + m.drop_first().push((k, v)) =~= m.push((k, v)));
    }
}

/// Binds `key` to `value` in the preference vector, updating the first entry
/// whose key matches case-insensitively (keeping its stored casing), else
/// appending.
fn pref_upsert(map: &mut Vec<(String, String)>, key: String, value: String)
    ensures
        pairs_view(final(map)@) == spec_pref_upsert(pairs_view(old(map)@), key@, value@),
{
    let lk = to_lower_chars(key.as_str());
    let mut j: usize = 0;
    while j < map.len()
        invariant
            map@ == old(map)@,
            lk@ == lower_of(key@),
            j <= map@.len(),
            forall|i: int| 0 <= i < j ==> lower_of(#[trigger] map@[i].0@) != lower_of(key@),
        decreases map@.len() - j,
    {
        let lj = to_lower_chars(map[j].0.as_str());
        if char_vecs_equal(&lj, &lk) {
            proof {
                lemma_pref_upsert_hit(pairs_view(map@), key@, value@, j as int);
            }
            let stored_key = map[j].0.clone();
            map[j] = (stored_key, value);
            proof {
                assert(pairs_view(map@) =~= pairs_view(old(map)@).update(
                    j as int,
                    (old(map)@[j as int].0@, value@),
                ));
            }
            return ;
        }
        j += 1;
    }
    proof {
        lemma_pref_upsert_miss(pairs_view(map@), key@, value@);
    }
    map.push((key, value));
    proof {
        assert(pairs_view(map@) =~= pairs_view(old(map)@).push((key@, value@)));
    }
}

/// The configuration after the user selects `sheet_id`: the global last sheet
/// is always updated; the per-process preference for `process_name` is
/// written only when the selected sheet's process set applies to it.
pub open spec fn spec_update_config(
    c: ConfigModel,
    sheet_id: Seq<char>,
    process_name: Option<Seq<char>>,
    sheet_processes: Seq<String>,
) -> ConfigModel {
    ConfigModel {
        last_cheatsheet_id: Some(sheet_id),
        last_cheatsheet_per_process: match process_name {
            Some(p) => if spec_processes_match(sheet_processes, p) {
                spec_pref_upsert(c.last_cheatsheet_per_process, p, sheet_id)
            } else {
                c.last_cheatsheet_per_process
            },
            None => c.last_cheatsheet_per_process,
        },
        search_all_for_process: c.search_all_for_process,
    }
}

/// Records the user's manual selection of `sheet_id` while `process_name` is
/// in the foreground, `sheet_processes` being the selected sheet's process
/// set.
pub fn update_last_cheatsheet(
    config: AppConfig,
    sheet_id: String,
    process_name: Option<String>,
    sheet_processes: &Vec<String>,
) -> (c: AppConfig)
    ensures
        c@ == spec_update_config(
            config@,
            sheet_id@,
            spec_opt_str_view(process_name),
            sheet_processes@,
        ),
        spec_pref_keys_unique(config@.last_cheatsheet_per_process) ==> spec_pref_keys_unique(
            c@.last_cheatsheet_per_process,
        ),
{
    proof {
        if spec_pref_keys_unique(config@.last_cheatsheet_per_process) {
            match spec_opt_str_view(process_name) {
                Some(p) => {
                    if spec_processes_match(sheet_processes@, p) {
                        lemma_pref_upsert_keeps_keys_unique(
                            config@.last_cheatsheet_per_process,
                            p,
                            sheet_id@,
                        );
                    }
                },
                None => {},
            }
        }
    }
    let mut map = config.last_cheatsheet_per_process;
    match process_name {
        Some(p) => {
            if processes_match(sheet_processes, p.as_str()) {
                pref_upsert(&mut map, p, sheet_id.clone());
            }
        },
        None => {},
    }
    AppConfig {
        last_cheatsheet_id: Some(sheet_id),
        last_cheatsheet_per_process: map,
        search_all_for_process: config.search_all_for_process,
    }
}

/// Flips the "search every sheet regardless of the foreground process"
/// toggle, leaving everything else unchanged.
pub fn toggle_search_all_for_process(config: AppConfig) -> (c: AppConfig)
    ensures
        c@.search_all_for_process == !config@.search_all_for_process,
        c@.last_cheatsheet_id == config@.last_cheatsheet_id,
        c@.last_cheatsheet_per_process == config@.last_cheatsheet_per_process,
{
    AppConfig {
        last_cheatsheet_id: config.last_cheatsheet_id,
        last_cheatsheet_per_process: config.last_cheatsheet_per_process,
        search_all_for_process: !config.search_all_for_process,
    }
}

/// The sheet to display at startup: the per-process preference for the
/// captured process when one exists (trusted without validation), else the
/// global last sheet, else none.
pub open spec fn spec_initial_sheet_id(c: ConfigModel, process: Option<Seq<char>>) -> Option<
    Seq<char>,
> {
    match process {
        Some(p) => match spec_pref_lookup(c.last_cheatsheet_per_process, p) {
            Some(sid) => Some(sid),
            None => c.last_cheatsheet_id,
        },
        None => c.last_cheatsheet_id,
    }
}

/// Resolves the sheet to display at startup from the saved preferences and
/// the captured foreground process.
pub fn get_initial_sheet_id(config: &AppConfig, process_name: &Option<String>) -> (r: Option<
    String,
>)
    ensures
        spec_opt_str_view(r) == spec_initial_sheet_id(
            config@,
            spec_opt_str_view(*process_name),
        ),
{
    match process_name {
        Some(p) => {
            match get_sheet_for_process(config, p.as_str()) {
                Some(sid) => Some(sid),
                None => config.last_cheatsheet_id.clone(),
            }
        },
        None => config.last_cheatsheet_id.clone(),
    }
}

/// The first sheet carrying `id`.
pub open spec fn spec_find_sheet(sheets: Seq<CheatSheet>, id: Seq<char>) -> Option<CheatSheet>
    decreases sheets.len(),
{
    if sheets.len() == 0 {
        None
    } else if sheets[0].id@ == id {
        Some(sheets[0])
    } else {
        spec_find_sheet(sheets.drop_first(), id)
    }
}

proof fn lemma_find_sheet_hit(sheets: Seq<CheatSheet>, id: Seq<char>, j: int)
    requires
        0 <= j < sheets.len(),
        sheets[j].id@ == id,
        forall|k: int| 0 <= k < j ==> sheets[k].id@ != id,
    ensures
        spec_find_sheet(sheets, id) == Some(sheets[j]),
    decreases j,
{
    if j > 0 {
        lemma_find_sheet_hit(sheets.drop_first(), id, j - 1);
    }
}

proof fn lemma_find_sheet_miss(sheets: Seq<CheatSheet>, id: Seq<char>)
    requires
        forall|k: int| 0 <= k < sheets.len() ==> sheets[k].id@ != id,
    ensures
        spec_find_sheet(sheets, id) is None,
    decreases sheets.len(),
{
    if sheets.len() > 0 {
        lemma_find_sheet_miss(sheets.drop_first(), id);
    }
}

/// Position of the first sheet carrying `id`.
fn find_sheet_index(sheets: &Vec<CheatSheet>, id: &String) -> (r: Option<usize>)
    ensures
        match r {
            Some(j) => j < sheets@.len() && spec_find_sheet(sheets@, id@) == Some(
                sheets@[j as int],
            ),
            None => spec_find_sheet(sheets@, id@) is None,
        },
{
    let mut j: usize = 0;
    while j < sheets.len()
        invariant
            j <= sheets@.len(),
            forall|k: int| 0 <= k < j ==> (#[trigger] sheets@[k].id)@ != id@,
        decreases sheets@.len() - j,
    {
        if sheets[j].id == *id {
            proof {
                lemma_find_sheet_hit(sheets@, id@, j as int);
            }
            return Some(j);
        }
        j += 1;
    }
    proof {
        lemma_find_sheet_miss(sheets@, id@);
    }
    None
}

/// The id of the first sheet that names `p` in a non-empty process set.
pub open spec fn spec_first_matching_sheet(sheets: Seq<CheatSheet>, p: Seq<char>) -> Option<
    Seq<char>,
>
    decreases sheets.len(),
{
    if sheets.len() == 0 {
        None
    } else if sheets[0].processes@.len() > 0 && spec_process_listed(sheets[0].processes@, p) {
        Some(sheets[0].id@)
    } else {
        spec_first_matching_sheet(sheets.drop_first(), p)
    }
}

proof fn lemma_first_matching_hit(sheets: Seq<CheatSheet>, p: Seq<char>, j: int)
    requires
        0 <= j < sheets.len(),
        sheets[j].processes@.len() > 0 && spec_process_listed(sheets[j].processes@, p),
        forall|k: int|
            0 <= k < j ==> !((#[trigger] sheets[k].processes)@.len() > 0 && spec_process_listed(
                sheets[k].processes@,
                p,
            )),
    ensures
        spec_first_matching_sheet(sheets, p) == Some(sheets[j].id@),
    decreases j,
{
    if j > 0 {
        lemma_first_matching_hit(sheets.drop_first(), p, j - 1);
    }
}

proof fn lemma_first_matching_miss(sheets: Seq<CheatSheet>, p: Seq<char>)
    requires
        forall|k: int|
            0 <= k < sheets.len() ==> !((#[trigger] sheets[k].processes)@.len() > 0
                && spec_process_listed(sheets[k].processes@, p)),
    ensures
        spec_first_matching_sheet(sheets, p) is None,
    decreases sheets.len(),
{
    if sheets.len() > 0 {
        lemma_first_matching_miss(sheets.drop_first(), p);
    }
}

/// The sheet to display at startup given the loaded store: the resolved
/// preference when it names a sheet of the store, else the first sheet in
/// store order, else none.
pub open spec fn spec_resolve_startup_sheet(
    sheets: Seq<CheatSheet>,
    initial_id: Option<Seq<char>>,
) -> Option<Seq<char>> {
    match initial_id {
        Some(id) => if spec_find_sheet(sheets, id) is Some {
            Some(id)
        } else if sheets.len() > 0 {
            Some(sheets[0].id@)
        } else {
            None
        },
        None => if sheets.len() > 0 {
            Some(sheets[0].id@)
        } else {
            None
        },
    }
}

/// Picks the sheet to display at startup: `initial_id` when it names a sheet
/// of the store, else the first sheet, else none.
pub fn resolve_startup_sheet(sheets: &Vec<CheatSheet>, initial_id: &Option<String>) -> (r: Option<
    String,
>)
    ensures
        spec_opt_str_view(r) == spec_resolve_startup_sheet(
            sheets@,
            spec_opt_str_view(*initial_id),
        ),
{
    match initial_id {
        Some(id) => {
            match find_sheet_index(sheets, id) {
                Some(_) => Some(id.clone()),
                None => {
                    if sheets.len() > 0 {
                        Some(sheets[0].id.clone())
                    } else {
                        None
                    }
                },
            }
        },
        None => {
            if sheets.len() > 0 {
                Some(sheets[0].id.clone())
            } else {
                None
            }
        },
    }
}

/// The sheet to switch to when the foreground process changes to `p`:
/// none (stay) while the displayed sheet still applies to `p`; else the saved
/// preference for `p` when it names a sheet of the store that still applies
/// to `p`; else the first sheet of the store that names `p` in a non-empty
/// process set; else none (the display stays unchanged).
pub open spec fn spec_resolve_process_change(
    sheets: Seq<CheatSheet>,
    current_sheet_id: Seq<char>,
    c: ConfigModel,
    p: Seq<char>,
) -> Option<Seq<char>> {
    let current_matches = match spec_find_sheet(sheets, current_sheet_id) {
        Some(s) => spec_sheet_matches(s, p),
        None => false,
    };
    if current_matches {
        None
    } else {
        let pref_valid = match spec_pref_lookup(c.last_cheatsheet_per_process, p) {
            Some(sid) => match spec_find_sheet(sheets, sid) {
                Some(s) => spec_sheet_matches(s, p),
                None => false,
            },
            None => false,
        };
        if pref_valid {
            spec_pref_lookup(c.last_cheatsheet_per_process, p)
        } else {
            spec_first_matching_sheet(sheets, p)
        }
    }
}

/// Decides the switch on a foreground-process change; `None` leaves the
/// display unchanged.
pub fn resolve_process_change(
    sheets: &Vec<CheatSheet>,
    current_sheet_id: &String,
    config: &AppConfig,
    new_process: &String,
) -> (r: Option<String>)
    ensures
        spec_opt_str_view(r) == spec_resolve_process_change(
            sheets@,
            current_sheet_id@,
            config@,
            new_process@,
        ),
{
    let current_matches = match find_sheet_index(sheets, current_sheet_id) {
        Some(j) => sheet_matches_process(&sheets[j], new_process.as_str()),
        None => false,
    };
    if current_matches {
        return None;
    }
    match get_sheet_for_process(config, new_process.as_str()) {
        Some(sid) => {
            match find_sheet_index(sheets, &sid) {
                Some(j) => {
                    if sheet_matches_process(&sheets[j], new_process.as_str()) {
                        return Some(sid);
                    }
                },
                None => {},
            }
        },
        None => {},
    }
    first_matching_sheet(sheets, new_process)
}

/// The id of the first sheet whose non-empty process set names `process`.
fn first_matching_sheet(sheets: &Vec<CheatSheet>, process: &String) -> (r: Option<String>)
    ensures
        spec_opt_str_view(r) == spec_first_matching_sheet(sheets@, process@),
{
    let mut j: usize = 0;
    while j < sheets.len()
        invariant
            j <= sheets@.len(),
            forall|k: int|
                0 <= k < j ==> !((#[trigger] sheets@[k].processes)@.len() > 0
                    && spec_process_listed(sheets@[k].processes@, process@)),
        decreases sheets@.len() - j,
    {
        if sheets[j].processes.len() > 0 && process_listed(&sheets[j].processes, process.as_str())
        {
            proof {
                lemma_first_matching_hit(sheets@, process@, j as int);
            }
            return Some(sheets[j].id.clone());
        }
        j += 1;
    }
    proof {
        lemma_first_matching_miss(sheets@, process@);
    }
    None
}

/// Position of the first id equal to `id`.
pub open spec fn spec_first_index_of(ids: Seq<String>, id: Seq<char>) -> Option<int>
    decreases ids.len(),
{
    if ids.len() == 0 {
        None
    } else if ids[0]@ == id {
        Some(0int)
    } else {
        match spec_first_index_of(ids.drop_first(), id) {
            Some(j) => Some(j + 1),
            None => None,
        }
    }
}

proof fn lemma_first_index_hit(ids: Seq<String>, id: Seq<char>, j: int)
    requires
        0 <= j < ids.len(),
        ids[j]@ == id,
        forall|k: int| 0 <= k < j ==> (#[trigger] ids[k])@ != id,
    ensures
        spec_first_index_of(ids, id) == Some(j),
    decreases j,
{
    if j > 0 {
        lemma_first_index_hit(ids.drop_first(), id, j - 1);
    }
}

proof fn lemma_first_index_miss(ids: Seq<String>, id: Seq<char>)
    requires
        forall|k: int| 0 <= k < ids.len() ==> (#[trigger] ids[k])@ != id,
    ensures
        spec_first_index_of(ids, id) is None,
    decreases ids.len(),
{
    if ids.len() > 0 {
        lemma_first_index_miss(ids.drop_first(), id);
    }
}

/// The id one step from `current` in the cycle over `ids`, wrapping around at
/// either end; none when `current` does not occur in `ids`.
pub open spec fn spec_cycle_sheet_id(ids: Seq<String>, current: Seq<char>, forward: bool) -> Option<
    Seq<char>,
> {
    match spec_first_index_of(ids, current) {
        Some(j) => {
            let next = if forward {
                if j + 1 == ids.len() {
                    0int
                } else {
                    j + 1
                }
            } else {
                if j == 0 {
                    ids.len() as int - 1
                } else {
                    j - 1
                }
            };
            Some(ids[next]@)
        },
        None => None,
    }
}

/// Steps the displayed sheet to the next or previous one of the visible ids,
/// wrapping around; `None` when the current sheet is not among them.
pub fn cycle_sheet_id(ids: &Vec<String>, current: &String, forward: bool) -> (r: Option<String>)
    ensures
        spec_opt_str_view(r) == spec_cycle_sheet_id(ids@, current@, forward),
{
    let mut j: usize = 0;
    while j < ids.len()
        invariant
            j <= ids@.len(),
            forall|k: int| 0 <= k < j ==> (#[trigger] ids@[k])@ != current@,
        decreases ids@.len() - j,
    {
        if ids[j] == *current {
            proof {
                lemma_first_index_hit(ids@, current@, j as int);
            }
            let next: usize = if forward {
                if j + 1 == ids.len() {
                    0
                } else {
                    j + 1
                }
            } else {
                if j == 0 {
                    ids.len() - 1
                } else {
                    j - 1
                }
            };
            return Some(ids[next].clone());
        }
        j += 1;
    }
    proof {
        lemma_first_index_miss(ids@, current@);
    }
    None
}

/// Law (idempotence): recording the same selection twice for the same process
/// changes nothing after the first write — the global last sheet stays as
/// written, and no further per-process entry appears.
pub proof fn lemma_update_config_idempotent(
    c: ConfigModel,
    sheet_id: Seq<char>,
    process_name: Option<Seq<char>>,
    sheet_processes: Seq<String>,
)
    ensures
        spec_update_config(
            spec_update_config(c, sheet_id, process_name, sheet_processes),
            sheet_id,
            process_name,
            sheet_processes,
        ) == spec_update_config(c, sheet_id, process_name, sheet_processes),
{
    match process_name {
        Some(p) => {
            if spec_processes_match(sheet_processes, p) {
                lemma_pref_upsert_idempotent(c.last_cheatsheet_per_process, p, sheet_id);
            }
        },
        None => {},
    }
}

proof fn lemma_pref_upsert_idempotent(m: Seq<(Seq<char>, Seq<char>)>, k: Seq<char>, v: Seq<char>)
    ensures
        spec_pref_upsert(spec_pref_upsert(m, k, v), k, v) == spec_pref_upsert(m, k, v),
    decreases m.len(),
{
    if m.len() == 0 {
        assert(spec_pref_upsert(seq![(k, v)], k, v) =~= seq![(k, v)]);
    } else if lower_of(m[0].0) == lower_of(k) {
        let once = seq![(m[0].0, v)] + m.drop_first();
        assert(once[0] == (m[0].0, v));
        assert(spec_pref_upsert(once, k, v) == seq![(once[0].0, v)] + once.drop_first());
        assert(seq![(once[0].0, v)] + once.drop_first() =~= once);
    } else {
        lemma_pref_upsert_idempotent(m.drop_first(), k, v);
        let once = seq![m[0]] + spec_pref_upsert(m.drop_first(), k, v);
        assert(once[0] == m[0]);
        assert(once.drop_first() =~= spec_pref_upsert(m.drop_first(), k, v));
        assert(spec_pref_upsert(once, k, v) == seq![m[0]] + spec_pref_upsert(
            spec_pref_upsert(m.drop_first(), k, v),
            k,
            v,
        ));
    }
}

} // verus!
