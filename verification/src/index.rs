//! The index builder.
//!
//! Flattens a sheet collection into a flat sequence of searchable entries,
//! one per item, in sheet, section, item order. Each entry carries a
//! precomputed lowercase searchable text (keys, description, tags, hint,
//! sheet name and sheet description, space-joined) and a lowercase tag text.
//!
//! The process filter is gated entirely by the `search_all` flag: with an
//! active process given and `search_all` true, a sheet is included iff it
//! applies to that process; with `search_all` false, or with no active
//! process, every sheet is included.

use vstd::prelude::*;
use vstd::string::StringExecFns;

use crate::sheets::{sheet_matches_process, spec_sheet_matches, CheatItem, CheatSheet};
use crate::text::{lower_of, spec_opt_str_view, to_lower_chars};

verus! {

/// One searchable entry: a back-reference into the store and the two
/// precomputed lowercase texts.
pub struct IndexEntry {
    pub sheet_id: String,
    pub section_index: usize,
    pub item_index: usize,
    pub text: Vec<char>,
    pub tags_text: Vec<char>,
}

/// The mathematical content of an [`IndexEntry`].
pub struct EntryModel {
    pub sheet_id: Seq<char>,
    pub section_index: int,
    pub item_index: int,
    pub text: Seq<char>,
    pub tags_text: Seq<char>,
}

impl View for IndexEntry {
    type V = EntryModel;

    open spec fn view(&self) -> EntryModel {
        EntryModel {
            sheet_id: self.sheet_id@,
            section_index: self.section_index as int,
            item_index: self.item_index as int,
            text: self.text@,
            tags_text: self.tags_text@,
        }
    }
}

/// The models of a sequence of entries.
pub open spec fn entry_models(v: Seq<IndexEntry>) -> Seq<EntryModel> {
    v.map_values(|e: IndexEntry| e@)
}

/// The views of a sequence of strings.
pub open spec fn views_of(parts: Seq<String>) -> Seq<Seq<char>> {
    parts.map_values(|p: String| p@)
}

/// The parts joined with single spaces, in order; empty for no parts.
pub open spec fn spec_space_join(parts: Seq<Seq<char>>) -> Seq<char>
    decreases parts.len(),
{
    if parts.len() == 0 {
        Seq::empty()
    } else if parts.len() == 1 {
        parts[0]
    } else {
        spec_space_join(parts.drop_last()) + seq![' '] + parts.last()
    }
}

/// The parts of an item's searchable text: keys, description, tags, the hint
/// when present, then the owning sheet's name and description.
pub open spec fn spec_item_parts(item: CheatItem, sheet: CheatSheet) -> Seq<String> {
    item.keys@ + seq![item.desc] + item.tags@ + (match item.hint {
        Some(h) => seq![h],
        None => Seq::empty(),
    }) + seq![sheet.name, sheet.description]
}

/// The lowercase searchable text of one item.
pub open spec fn spec_entry_text(item: CheatItem, sheet: CheatSheet) -> Seq<char> {
    lower_of(spec_space_join(views_of(spec_item_parts(item, sheet))))
}

/// The lowercase tag text of one item.
pub open spec fn spec_tags_text(item: CheatItem) -> Seq<char> {
    lower_of(spec_space_join(views_of(item.tags@)))
}

/// The model of the entry for item `ii` of section `si` of `sheet`.
pub open spec fn spec_entry_model(sheet: CheatSheet, si: int, ii: int) -> EntryModel {
    EntryModel {
        sheet_id: sheet.id@,
        section_index: si,
        item_index: ii,
        text: spec_entry_text(sheet.sections@[si].items@[ii], sheet),
        tags_text: spec_tags_text(sheet.sections@[si].items@[ii]),
    }
}

/// The entry models of section `si` of `sheet`, in item order.
pub open spec fn spec_section_models(sheet: CheatSheet, si: int) -> Seq<EntryModel> {
    Seq::new(sheet.sections@[si].items@.len(), |ii: int| spec_entry_model(sheet, si, ii))
}

/// The entry models of the first `n` sections of `sheet`, concatenated.
pub open spec fn spec_sheet_models_upto(sheet: CheatSheet, n: int) -> Seq<EntryModel>
    decreases n,
{
    if n <= 0 {
        Seq::empty()
    } else {
        spec_sheet_models_upto(sheet, n - 1) + spec_section_models(sheet, n - 1)
    }
}

/// All entry models of `sheet`, in section, item order.
pub open spec fn spec_sheet_models(sheet: CheatSheet) -> Seq<EntryModel> {
    spec_sheet_models_upto(sheet, sheet.sections@.len() as int)
}

/// The filter rule: with an active process and `search_all` true, a sheet is
/// included iff it matches the process; otherwise every sheet is included.
pub open spec fn spec_sheet_included(
    sheet: CheatSheet,
    process: Option<Seq<char>>,
    search_all: bool,
) -> bool {
    match process {
        Some(p) => !search_all || spec_sheet_matches(sheet, p),
        None => true,
    }
}

/// The index of the first `n` sheets: the entry models of each included
/// sheet, concatenated in store order.
pub open spec fn spec_index_upto(
    sheets: Seq<CheatSheet>,
    process: Option<Seq<char>>,
    search_all: bool,
    n: int,
) -> Seq<EntryModel>
    decreases n,
{
    if n <= 0 {
        Seq::empty()
    } else {
        spec_index_upto(sheets, process, search_all, n - 1) + (if spec_sheet_included(
            sheets[n - 1],
            process,
            search_all,
        ) {
            spec_sheet_models(sheets[n - 1])
        } else {
            Seq::empty()
        })
    }
}

/// The whole index of a store.
pub open spec fn spec_build_index(
    sheets: Seq<CheatSheet>,
    process: Option<Seq<char>>,
    search_all: bool,
) -> Seq<EntryModel> {
    spec_index_upto(sheets, process, search_all, sheets.len() as int)
}

/// Joins the strings with single spaces.
fn space_join(parts: &Vec<String>) -> (r: String)
    ensures
        r@ == spec_space_join(views_of(parts@)),
{
    let mut r = String::new();
    let mut i: usize = 0;
    proof {
        assert(views_of(parts@).take(0) =~= Seq::<Seq<char>>::empty());
    }
    while i < parts.len()
        invariant
            i <= parts@.len(),
            r@ == spec_space_join(views_of(parts@).take(i as int)),
        decreases parts@.len() - i,
    {
        proof {
            reveal_strlit(" ");
            assert(" "@ =~= seq![' ']);
            assert(views_of(parts@).take(i + 1).drop_last() =~= views_of(parts@).take(i as int));
            assert(views_of(parts@).take(i + 1).last() == parts@[i as int]@);
        }
        if i > 0 {
            r.append(" ");
        }
        r.append(parts[i].as_str());
        i += 1;
    }
    proof {
        assert(views_of(parts@).take(parts@.len() as int) =~= views_of(parts@));
    }
    r
}

/// Builds the entry for item `item_index` of section `section_index`.
fn build_entry(sheet: &CheatSheet, section_index: usize, item_index: usize) -> (e: IndexEntry)
    requires
        section_index < sheet.sections@.len(),
        item_index < sheet.sections@[section_index as int].items@.len(),
    ensures
        e@ == spec_entry_model(*sheet, section_index as int, item_index as int),
{
    let item = &sheet.sections[section_index].items[item_index];
    let mut parts: Vec<String> = Vec::new();
    let mut k: usize = 0;
    while k < item.keys.len()
        invariant
            k <= item.keys@.len(),
            parts@ =~= item.keys@.take(k as int),
        decreases item.keys@.len() - k,
    {
        parts.push(item.keys[k].clone());
        proof {
            assert(parts@ =~= item.keys@.take(k + 1));
        }
        k += 1;
    }
    proof {
        assert(item.keys@.take(item.keys@.len() as int) =~= item.keys@);
    }
    parts.push(item.desc.clone());
    let mut t: usize = 0;
    while t < item.tags.len()
        invariant
            t <= item.tags@.len(),
            parts@ =~= item.keys@ + seq![item.desc] + item.tags@.take(t as int),
        decreases item.tags@.len() - t,
    {
        parts.push(item.tags[t].clone());
        proof {
            assert(item.tags@.take(t + 1) =~= item.tags@.take(t as int).push(item.tags@[t as int]));
        }
        t += 1;
    }
    match &item.hint {
        Some(h) => parts.push(h.clone()),
        None => {},
    }
    parts.push(sheet.name.clone());
    parts.push(sheet.description.clone());
    proof {
        assert(parts@ =~= spec_item_parts(*item, *sheet));
    }
    let text = to_lower_chars(space_join(&parts).as_str());
    let tags_text = to_lower_chars(space_join(&item.tags).as_str());
    IndexEntry {
        sheet_id: sheet.id.clone(),
        section_index,
        item_index,
        text,
        tags_text,
    }
}

proof fn lemma_entry_models_push(v: Seq<IndexEntry>, e: IndexEntry)
    ensures
        entry_models(v.push(e)) == entry_models(v).push(e@),
{
    assert(entry_models(v.push(e)) =~= entry_models(v).push(e@));
}

/// Builds the search index: one entry per item of every included sheet, in
/// sheet, section, item order, under the filter rule of
/// [`spec_sheet_included`].
pub fn build_index(
    sheets: &Vec<CheatSheet>,
    process_filter: &Option<String>,
    search_all: bool,
) -> (index: Vec<IndexEntry>)
    ensures
        entry_models(index@) == spec_build_index(
            sheets@,
            spec_opt_str_view(*process_filter),
            search_all,
        ),
{
    let ghost pv = spec_opt_str_view(*process_filter);
    let mut index: Vec<IndexEntry> = Vec::new();
    let mut s: usize = 0;
    proof {
        assert(entry_models(index@) =~= spec_index_upto(sheets@, pv, search_all, 0));
    }
    while s < sheets.len()
        invariant
            s <= sheets@.len(),
            pv == spec_opt_str_view(*process_filter),
            entry_models(index@) == spec_index_upto(sheets@, pv, search_all, s as int),
        decreases sheets@.len() - s,
    {
        let keep: bool = match process_filter {
            Some(p) => {
                if search_all {
                    sheet_matches_process(&sheets[s], p.as_str())
                } else {
                    true
                }
            },
            None => true,
        };
        proof {
            assert(keep == spec_sheet_included(sheets@[s as int], pv, search_all));
        }
        if keep {
            let sheet = &sheets[s];
            let mut sec: usize = 0;
            proof {
                assert(entry_models(index@) + spec_sheet_models_upto(*sheet, 0) =~= entry_models(
                    index@,
                ));
            }
            while sec < sheet.sections.len()
                invariant
                    s < sheets@.len(),
                    *sheet == sheets@[s as int],
                    sec <= sheet.sections@.len(),
                    pv == spec_opt_str_view(*process_filter),
                    entry_models(index@) == spec_index_upto(sheets@, pv, search_all, s as int)
                        + spec_sheet_models_upto(*sheet, sec as int),
                decreases sheet.sections@.len() - sec,
            {
                let n_items = sheet.sections[sec].items.len();
                let mut it: usize = 0;
                proof {
                    assert(spec_section_models(*sheet, sec as int).take(0)
                        =~= Seq::<EntryModel>::empty());
                    assert(entry_models(index@) + Seq::<EntryModel>::empty() =~= entry_models(
                        index@,
                    ));
                }
                while it < n_items
                    invariant
                        s < sheets@.len(),
                        *sheet == sheets@[s as int],
                        sec < sheet.sections@.len(),
                        n_items == sheet.sections@[sec as int].items@.len(),
                        it <= n_items,
                        pv == spec_opt_str_view(*process_filter),
                        entry_models(index@) == spec_index_upto(sheets@, pv, search_all, s as int)
                            + spec_sheet_models_upto(*sheet, sec as int) + spec_section_models(
                            *sheet,
                            sec as int,
                        ).take(it as int),
                    decreases n_items - it,
                {
                    let e = build_entry(sheet, sec, it);
                    proof {
                        lemma_entry_models_push(index@, e);
                    }
                    index.push(e);
                    proof {
                        assert(spec_section_models(*sheet, sec as int).take(it + 1)
                            =~= spec_section_models(*sheet, sec as int).take(it as int).push(
                            spec_entry_model(*sheet, sec as int, it as int),
                        ));
                        assert(entry_models(index@) == spec_index_upto(
                            sheets@,
                            pv,
                            search_all,
                            s as int,
                        ) + spec_sheet_models_upto(*sheet, sec as int) + spec_section_models(
                            *sheet,
                            sec as int,
                        ).take(it + 1)) by {
                            assert((spec_index_upto(sheets@, pv, search_all, s as int)
                                + spec_sheet_models_upto(*sheet, sec as int) + spec_section_models(
                                *sheet,
                                sec as int,
                            ).take(it as int)).push(spec_entry_model(*sheet, sec as int, it as int))
                                =~= spec_index_upto(sheets@, pv, search_all, s as int)
                                + spec_sheet_models_upto(*sheet, sec as int) + spec_section_models(
                                *sheet,
                                sec as int,
                            ).take(it + 1));
                        }
                    }
                    it += 1;
                }
                proof {
                    assert(spec_section_models(*sheet, sec as int).take(n_items as int)
                        =~= spec_section_models(*sheet, sec as int));
                    assert(entry_models(index@) == spec_index_upto(sheets@, pv, search_all, s as int)
                        + spec_sheet_models_upto(*sheet, sec + 1)) by {
                        assert(spec_index_upto(sheets@, pv, search_all, s as int) + (
                        spec_sheet_models_upto(*sheet, sec as int) + spec_section_models(
                            *sheet,
                            sec as int,
                        )) =~= spec_index_upto(sheets@, pv, search_all, s as int)
                            + spec_sheet_models_upto(*sheet, sec as int) + spec_section_models(
                            *sheet,
                            sec as int,
                        ));
                    }
                }
                sec += 1;
            }
            proof {
                assert(spec_sheet_models_upto(*sheet, sheet.sections@.len() as int)
                    == spec_sheet_models(*sheet));
                assert(entry_models(index@) == spec_index_upto(sheets@, pv, search_all, s + 1));
            }
        } else {
            proof {
                assert(entry_models(index@) + Seq::<EntryModel>::empty() =~= entry_models(index@));
                assert(entry_models(index@) == spec_index_upto(sheets@, pv, search_all, s + 1));
            }
        }
        s += 1;
    }
    index
}

proof fn lemma_index_upto_ignores_process_when_search_all_off(
    sheets: Seq<CheatSheet>,
    process: Option<Seq<char>>,
    n: int,
)
    ensures
        spec_index_upto(sheets, process, false, n) == spec_index_upto(sheets, None, false, n),
    decreases n,
{
    if n > 0 {
        lemma_index_upto_ignores_process_when_search_all_off(sheets, process, n - 1);
    }
}

/// Law: with `search_all` false the index covers every sheet in the store,
/// whatever the active process is.
pub proof fn lemma_search_all_off_ignores_process(
    sheets: Seq<CheatSheet>,
    process: Option<Seq<char>>,
)
    ensures
        spec_build_index(sheets, process, false) == spec_build_index(sheets, None, false),
{
    lemma_index_upto_ignores_process_when_search_all_off(sheets, process, sheets.len() as int);
}

} // verus!
