//! The ranking engine.
//!
//! Scores every index entry of the displayed sheet against the live query,
//! drops the non-matches, sorts the rest by descending score and returns at
//! most the first 100.
//!
//! A query whose first character is `#` switches to tag mode: the query
//! without the marker is scored against the entry's tag text, and a hit is
//! boosted to twice its score; an entry whose tags do not match falls back to
//! the full text scored with the original, unstripped query, dampened to half.
//!
//! Ties are broken deterministically: entries with equal scores keep their
//! index order (the insertion sort is stable).

use vstd::prelude::*;
use vstd::string::StrSliceExecFns;

use crate::index::{entry_models, EntryModel, IndexEntry};
use crate::score::{score_less, score_lowered, score_lt, spec_raw_score, Score};
use crate::score::{MAX_QUERY_LEN, MAX_TEXT_LEN};
use crate::text::{lower_of, to_lower_chars};

verus! {

/// One ranked result: the entry's back-reference and its final score.
#[derive(Clone, Copy, Debug, PartialEq, Eq, Structural)]
pub struct RankedEntry {
    pub section_index: usize,
    pub item_index: usize,
    pub score: Score,
}

/// The mathematical content of a [`RankedEntry`].
pub struct RankedModel {
    pub section_index: int,
    pub item_index: int,
    pub num: int,
    pub den: int,
}

impl View for RankedEntry {
    type V = RankedModel;

    open spec fn view(&self) -> RankedModel {
        RankedModel {
            section_index: self.section_index as int,
            item_index: self.item_index as int,
            num: self.score.num as int,
            den: self.score.den as int,
        }
    }
}

/// The models of a sequence of ranked entries.
pub open spec fn ranked_models(v: Seq<RankedEntry>) -> Seq<RankedModel> {
    v.map_values(|r: RankedEntry| r@)
}

/// Strict order on ranked models as fractions.
pub open spec fn model_lt(a: RankedModel, b: RankedModel) -> bool {
    a.num * b.den < b.num * a.den
}

/// Whether the query asks for tag mode: its first character is `#`.
pub open spec fn spec_tag_mode(q: Seq<char>) -> bool {
    q.len() > 0 && q[0] == '#'
}

/// The query without its leading marker character.
pub open spec fn spec_tag_rest(q: Seq<char>) -> Seq<char> {
    if q.len() > 0 {
        q.subrange(1, q.len() as int)
    } else {
        q
    }
}

/// The numerator of an entry's final score: the tag match doubled, or the
/// full-text match (halved via the denominator in tag mode).
pub open spec fn spec_entry_num(e: EntryModel, lq: Seq<char>, ltq: Seq<char>, tag_mode: bool) -> nat {
    if tag_mode {
        if spec_raw_score(ltq, e.tags_text) > 0 {
            2 * spec_raw_score(ltq, e.tags_text)
        } else {
            spec_raw_score(lq, e.text)
        }
    } else {
        spec_raw_score(lq, e.text)
    }
}

/// The denominator of an entry's final score; doubled for the dampened
/// fallback of tag mode.
pub open spec fn spec_entry_den(e: EntryModel, lq: Seq<char>, ltq: Seq<char>, tag_mode: bool) -> int {
    if tag_mode {
        if spec_raw_score(ltq, e.tags_text) > 0 {
            120 + e.tags_text.len() as int
        } else {
            2 * (120 + e.text.len() as int)
        }
    } else {
        120 + e.text.len() as int
    }
}

/// Scores one entry.
///
/// In tag mode a tag hit is worth twice its raw tag score; a tag miss falls
/// back to the full text scored with the unstripped query at half weight.
/// Outside tag mode the full text is scored with the query as is.
pub fn score_entry(
    entry: &IndexEntry,
    lowered_query: &Vec<char>,
    lowered_tag_query: &Vec<char>,
    tag_mode: bool,
) -> (s: Score)
    requires
        lowered_query@.len() <= MAX_QUERY_LEN,
        lowered_tag_query@.len() <= MAX_QUERY_LEN,
        entry.text@.len() <= MAX_TEXT_LEN,
        entry.tags_text@.len() <= MAX_TEXT_LEN,
    ensures
        s.num == spec_entry_num(entry@, lowered_query@, lowered_tag_query@, tag_mode),
        s.den == spec_entry_den(entry@, lowered_query@, lowered_tag_query@, tag_mode),
{
    if tag_mode {
        let ts = score_lowered(lowered_tag_query, &entry.tags_text);
        if ts.num > 0 {
            Score { num: 2 * ts.num, den: ts.den }
        } else {
            let fs = score_lowered(lowered_query, &entry.text);
            Score { num: fs.num, den: 2 * fs.den }
        }
    } else {
        score_lowered(lowered_query, &entry.text)
    }
}

/// The kept matches of the displayed sheet, in index order: every entry of
/// the sheet whose final score is positive.
pub open spec fn spec_kept(
    models: Seq<EntryModel>,
    sid: Seq<char>,
    lq: Seq<char>,
    ltq: Seq<char>,
    tag_mode: bool,
) -> Seq<RankedModel>
    decreases models.len(),
{
    if models.len() == 0 {
        Seq::empty()
    } else {
        let front = spec_kept(models.drop_last(), sid, lq, ltq, tag_mode);
        let m = models.last();
        if m.sheet_id == sid && spec_entry_num(m, lq, ltq, tag_mode) > 0 {
            front.push(
                RankedModel {
                    section_index: m.section_index,
                    item_index: m.item_index,
                    num: spec_entry_num(m, lq, ltq, tag_mode) as int,
                    den: spec_entry_den(m, lq, ltq, tag_mode),
                },
            )
        } else {
            front
        }
    }
}

/// Inserts `x` after every element that does not rank strictly below it, so
/// that equal scores keep their arrival order.
pub open spec fn spec_insert_desc(x: RankedModel, s: Seq<RankedModel>) -> Seq<RankedModel>
    decreases s.len(),
{
    if s.len() == 0 {
        seq![x]
    } else if model_lt(s[0], x) {
        seq![x] + s
    } else {
        seq![s[0]] + spec_insert_desc(x, s.drop_first())
    }
}

/// Stable insertion sort by descending score.
pub open spec fn spec_sort_desc(s: Seq<RankedModel>) -> Seq<RankedModel>
    decreases s.len(),
{
    if s.len() == 0 {
        s
    } else {
        spec_insert_desc(s.last(), spec_sort_desc(s.drop_last()))
    }
}

/// The ranked results for a store's models: the kept matches of the sheet,
/// sorted by descending score, cut to the first 100.
pub open spec fn spec_rank(models: Seq<EntryModel>, sid: Seq<char>, q: Seq<char>) -> Seq<
    RankedModel,
> {
    let kept = spec_kept(
        models,
        sid,
        lower_of(q),
        lower_of(spec_tag_rest(q)),
        spec_tag_mode(q),
    );
    let sorted = spec_sort_desc(kept);
    if sorted.len() <= 100 {
        sorted
    } else {
        sorted.take(100)
    }
}

/// Scores are non-increasing along the sequence.
pub open spec fn sorted_by_score_desc(s: Seq<RankedEntry>) -> bool {
    forall|i: int| 0 <= i && i + 1 < s.len() ==> !score_lt((#[trigger] s[i]).score, s[i + 1].score)
}

/// Every kept result has a positive score.
pub open spec fn all_scores_positive(s: Seq<RankedEntry>) -> bool {
    forall|i: int| 0 <= i < s.len() ==> s[i].score.num > 0
}

/// Whether the query and every entry text are within the matcher's 64-bit
/// budget; true of every realizable input.
pub open spec fn rank_fits(entries: Seq<IndexEntry>, q: Seq<char>) -> bool {
    &&& lower_of(q).len() <= MAX_QUERY_LEN
    &&& lower_of(spec_tag_rest(q)).len() <= MAX_QUERY_LEN
    &&& forall|i: int|
        0 <= i < entries.len() ==> entries[i].text@.len() <= MAX_TEXT_LEN
            && entries[i].tags_text@.len() <= MAX_TEXT_LEN
}

proof fn lemma_insert_desc_at(x: RankedModel, s: Seq<RankedModel>, k: int)
    requires
        0 <= k <= s.len(),
        forall|m: int| 0 <= m < k ==> !model_lt(s[m], x),
        k < s.len() ==> model_lt(s[k], x),
    ensures
        spec_insert_desc(x, s) == s.take(k) + seq![x] + s.skip(k),
    decreases k,
{
    if s.len() == 0 {
        assert(spec_insert_desc(x, s) =~= s.take(k) + seq![x] + s.skip(k));
    } else if k == 0 {
        if model_lt(s[0], x) {
            assert(seq![x] + s =~= s.take(0) + seq![x] + s.skip(0));
        } else {
            assert(s.take(0) + seq![x] + s.skip(0) =~= seq![x] + s);
            assert(spec_insert_desc(x, s) == seq![x] + s);
        }
    } else {
        lemma_insert_desc_at(x, s.drop_first(), k - 1);
        assert(seq![s[0]] + (s.drop_first().take(k - 1) + seq![x] + s.drop_first().skip(k - 1))
            =~= s.take(k) + seq![x] + s.skip(k));
    }
}

/// Inserts `x` into the sorted vector, after every element that does not rank
/// strictly below it.
fn insert_ranked(acc: &mut Vec<RankedEntry>, x: RankedEntry)
    requires
        sorted_by_score_desc(old(acc)@),
        all_scores_positive(old(acc)@),
        x.score.num > 0,
    ensures
        final(acc)@.len() == old(acc)@.len() + 1,
        sorted_by_score_desc(final(acc)@),
        all_scores_positive(final(acc)@),
        ranked_models(final(acc)@) == spec_insert_desc(x@, ranked_models(old(acc)@)),
{
    let ghost s0 = acc@;
    let n = acc.len();
    let mut k: usize = 0;
    while k < n && !score_less(&acc[k].score, &x.score)
        invariant
            acc@ == s0,
            n == s0.len(),
            k <= n,
            forall|m: int| 0 <= m < k ==> !score_lt(s0[m].score, x.score),
        decreases n - k,
    {
        k += 1;
    }
    acc.insert(k, x);
    proof {
        assert(forall|m: int| 0 <= m < s0.len() ==> ranked_models(s0)[m] == s0[m]@);
        assert(forall|a: RankedEntry, b: RankedEntry|
            score_lt(a.score, b.score) == #[trigger] model_lt(a@, b@));
        lemma_insert_desc_at(x@, ranked_models(s0), k as int);
        assert(ranked_models(acc@) =~= ranked_models(s0).take(k as int) + seq![x@] + ranked_models(
            s0,
        ).skip(k as int));
    }
}

/// Ranks the index entries of the displayed sheet against the query.
///
/// Every entry of the sheet with a positive score is returned, sorted by
/// non-increasing score (ties keep index order), cut to at most 100 results.
/// A query or entry text beyond the matcher's 64-bit budget (beyond any
/// realizable input) is skipped.
pub fn rank_entries(
    entries: &Vec<IndexEntry>,
    current_sheet_id: &String,
    query: &str,
) -> (res: Vec<RankedEntry>)
    ensures
        res@.len() <= 100,
        sorted_by_score_desc(res@),
        all_scores_positive(res@),
        rank_fits(entries@, query@) ==> ranked_models(res@) == spec_rank(
            entry_models(entries@),
            current_sheet_id@,
            query@,
        ),
{
    let tag_mode = !query.is_empty() && query.get_char(0) == '#';
    let lq = to_lower_chars(query);
    let ltq: Vec<char> = if query.is_empty() {
        to_lower_chars(query)
    } else {
        to_lower_chars(query.substring_char(1, query.unicode_len()))
    };
    proof {
        assert(tag_mode == spec_tag_mode(query@));
        assert(lq@ == lower_of(query@));
        assert(ltq@ == lower_of(spec_tag_rest(query@)));
    }
    let mut acc: Vec<RankedEntry> = Vec::new();
    if (lq.len() as u64) > MAX_QUERY_LEN || (ltq.len() as u64) > MAX_QUERY_LEN {
        return acc;
    }
    let mut i: usize = 0;
    proof {
        assert(entry_models(entries@.take(0)) =~= Seq::<EntryModel>::empty());
    }
    while i < entries.len()
        invariant
            i <= entries@.len(),
            tag_mode == spec_tag_mode(query@),
            lq@ == lower_of(query@),
            ltq@ == lower_of(spec_tag_rest(query@)),
            lq@.len() <= MAX_QUERY_LEN,
            ltq@.len() <= MAX_QUERY_LEN,
            sorted_by_score_desc(acc@),
            all_scores_positive(acc@),
            rank_fits(entries@, query@) ==> ranked_models(acc@) == spec_sort_desc(
                spec_kept(
                    entry_models(entries@.take(i as int)),
                    current_sheet_id@,
                    lq@,
                    ltq@,
                    tag_mode,
                ),
            ),
        decreases entries@.len() - i,
    {
        let entry = &entries[i];
        let ghost prefix = entry_models(entries@.take(i as int));
        let ghost grown = entry_models(entries@.take(i + 1));
        let ghost m = entries@[i as int]@;
        let ghost sid = current_sheet_id@;
        proof {
            assert(grown =~= prefix.push(m));
            assert(grown.drop_last() =~= prefix);
            assert(grown.last() == m);
        }
        if entry.sheet_id == *current_sheet_id {
            if (entry.text.len() as u64) <= MAX_TEXT_LEN && (entry.tags_text.len() as u64)
                <= MAX_TEXT_LEN {
                let s = score_entry(entry, &lq, &ltq, tag_mode);
                if s.num > 0 {
                    let x = RankedEntry {
                        section_index: entry.section_index,
                        item_index: entry.item_index,
                        score: s,
                    };
                    let ghost rm = RankedModel {
                        section_index: m.section_index,
                        item_index: m.item_index,
                        num: spec_entry_num(m, lq@, ltq@, tag_mode) as int,
                        den: spec_entry_den(m, lq@, ltq@, tag_mode),
                    };
                    let ghost kept_before = spec_kept(prefix, sid, lq@, ltq@, tag_mode);
                    proof {
                        assert(x@ == rm);
                        assert(spec_kept(grown, sid, lq@, ltq@, tag_mode) == kept_before.push(rm));
                        assert(kept_before.push(rm).drop_last() =~= kept_before);
                        assert(spec_sort_desc(spec_kept(grown, sid, lq@, ltq@, tag_mode))
                            == spec_insert_desc(rm, spec_sort_desc(kept_before)));
                    }
                    insert_ranked(&mut acc, x);
                } else {
                    proof {
                        assert(spec_kept(grown, sid, lq@, ltq@, tag_mode) == spec_kept(
                            prefix,
                            sid,
                            lq@,
                            ltq@,
                            tag_mode,
                        ));
                    }
                }
            } else {
                proof {
                    if rank_fits(entries@, query@) {
                        assert(entries@[i as int].text@.len() <= MAX_TEXT_LEN);
                        assert(entries@[i as int].tags_text@.len() <= MAX_TEXT_LEN);
                        assert(false);
                    }
                }
            }
        } else {
            proof {
                assert(m.sheet_id != sid);
                assert(spec_kept(grown, sid, lq@, ltq@, tag_mode) == spec_kept(
                    prefix,
                    sid,
                    lq@,
                    ltq@,
                    tag_mode,
                ));
            }
        }
        i += 1;
    }
    proof {
        assert(entries@.take(entries@.len() as int) =~= entries@);
    }
    if acc.len() > 100 {
        let ghost before = acc@;
        acc.truncate(100);
        proof {
            assert(acc@ =~= before.take(100));
            assert(ranked_models(acc@) =~= ranked_models(before).take(100));
        }
    }
    acc
}

} // verus!
