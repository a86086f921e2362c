//! Matching device-name candidates against a component catalog.
use vstd::prelude::*;
use fuzzy_matcher::skim::SkimMatcherV2;
use fuzzy_matcher::FuzzyMatcher;
use crate::model::Cpu;
use crate::text::strings_view;

verus! {

/// The skim (V2, default configuration) fuzzy score of `pattern` within `choice`.
pub uninterp spec fn skim_score(choice: Seq<char>, pattern: Seq<char>) -> Option<i64>;

/// Relies on `fuzzy_matcher::skim::SkimMatcherV2::fuzzy_match` with the default
/// configuration: a score that depends on the two strings alone, `Some(0)` for an
/// empty pattern.
#[verifier::external_body]
fn fuzzy_score(choice: &str, pattern: &str) -> (r: Option<i64>)
    ensures
        r == skim_score(choice@, pattern@),
        pattern@.len() == 0 ==> r == Some(0i64),
{
    SkimMatcherV2::default().fuzzy_match(choice, pattern)
}

/// A score as it counts for resolution: positive scores count, anything else is 0.
pub open spec fn positive_part(s: Option<i64>) -> int {
    match s {
        Some(v) => if v > 0 {
            v as int
        } else {
            0
        },
        None => 0,
    }
}

pub open spec fn valid_cell(scores: Seq<Seq<Option<i64>>>, i: int, j: int) -> bool {
    0 <= i < scores.len() && 0 <= j < scores[i].len()
}

pub open spec fn no_positive_score(scores: Seq<Seq<Option<i64>>>) -> bool {
    forall|i: int, j: int| valid_cell(scores, i, j) ==> positive_part(#[trigger] scores[i][j]) == 0
}

/// `r` is the row that resolution picks from `scores` (one row per catalog
/// entry, one column per candidate): the first row that holds the highest
/// positive score, or 0 when no score is positive.
pub open spec fn is_best_index(scores: Seq<Seq<Option<i64>>>, r: int) -> bool {
    if no_positive_score(scores) {
        r == 0
    } else {
        0 <= r < scores.len() && exists|j: int|
            #![trigger scores[r][j]]
            0 <= j < scores[r].len() && positive_part(scores[r][j]) > 0 && (forall|i: int, k: int|
                valid_cell(scores, i, k) ==> positive_part(#[trigger] scores[i][k]) <= positive_part(
                    scores[r][j],
                )) && (forall|i: int, k: int|
                valid_cell(scores, i, k) && i < r ==> positive_part(#[trigger] scores[i][k])
                    < positive_part(scores[r][j]))
    }
}

pub open spec fn table_view(t: Seq<Vec<Option<i64>>>) -> Seq<Seq<Option<i64>>> {
    t.map_values(|row: Vec<Option<i64>>| row@)
}

/// The scores of every candidate against every catalog name.
pub open spec fn score_table(devices: Seq<Seq<char>>, catalog: Seq<Cpu>) -> Seq<Seq<Option<i64>>> {
    Seq::new(
        catalog.len(),
        |i: int| Seq::new(devices.len(), |j: int| skim_score(catalog[i].name@, devices[j])),
    )
}

/// Picks the first row holding the highest positive score; 0 when there is none.
pub fn best_match_from_scores(scores: &Vec<Vec<Option<i64>>>) -> (r: usize)
    ensures
        is_best_index(table_view(scores@), r as int),
{
    let ghost t = table_view(scores@);
    let mut idx: usize = 0;
    let mut best: i64 = 0;
    let mut i: usize = 0;
    while i < scores.len()
        invariant
            t == table_view(scores@),
            i <= scores.len(),
            best >= 0,
            forall|a: int, k: int|
                valid_cell(t, a, k) && a < i ==> positive_part(#[trigger] t[a][k]) <= best,
            best == 0 ==> idx == 0,
            best > 0 ==> idx < i && (exists|j: int|
                #![trigger t[idx as int][j]]
                0 <= j < t[idx as int].len() && positive_part(t[idx as int][j]) == best),
            best > 0 ==> forall|a: int, k: int|
                valid_cell(t, a, k) && a < idx ==> positive_part(#[trigger] t[a][k]) < best,
        decreases scores.len() - i,
    {
        let row = &scores[i];
        assert(t[i as int] == row@);
        let mut j: usize = 0;
        while j < row.len()
            invariant
                t == table_view(scores@),
                i < scores.len(),
                row@ == t[i as int],
                j <= row.len(),
                best >= 0,
                forall|a: int, k: int|
                    valid_cell(t, a, k) && (a < i || (a == i && k < j)) ==> positive_part(
                        #[trigger] t[a][k],
                    ) <= best,
                best == 0 ==> idx == 0,
                best > 0 ==> idx <= i && (exists|jj: int|
                    #![trigger t[idx as int][jj]]
                    0 <= jj < t[idx as int].len() && positive_part(t[idx as int][jj]) == best),
                best > 0 ==> forall|a: int, k: int|
                    valid_cell(t, a, k) && a < idx ==> positive_part(#[trigger] t[a][k]) < best,
            decreases row.len() - j,
        {
            match row[j] {
                Some(s) => {
                    if s > best {
                        best = s;
                        idx = i;
                        assert(positive_part(t[i as int][j as int]) == best);
                    }
                },
                None => {},
            }
            j = j + 1;
        }
        i = i + 1;
    }
    if best > 0 {
        let ghost jj = choose|jj: int|
            #![trigger t[idx as int][jj]]
            0 <= jj < t[idx as int].len() && positive_part(t[idx as int][jj]) == best;
        assert(!no_positive_score(t));
    } else {
        assert(no_positive_score(t));
    }
    idx
}

/// Resolves device-name candidates against a catalog: the index of the entry
/// whose name matches some candidate best; 0 when none matches.
pub fn get_best_match(devices: &Vec<String>, cpus: &[Cpu]) -> (r: usize)
    ensures
        is_best_index(score_table(strings_view(devices@), cpus@), r as int),
{
    let ghost dv = strings_view(devices@);
    let mut scores: Vec<Vec<Option<i64>>> = Vec::new();
    let mut i: usize = 0;
    while i < cpus.len()
        invariant
            i <= cpus.len(),
            dv == strings_view(devices@),
            scores@.len() == i,
            forall|a: int|
                0 <= a < i ==> #[trigger] scores@[a]@ == score_table(dv, cpus@)[a],
        decreases cpus.len() - i,
    {
        let mut row: Vec<Option<i64>> = Vec::new();
        let mut j: usize = 0;
        while j < devices.len()
            invariant
                i < cpus.len(),
                j <= devices.len(),
                dv == strings_view(devices@),
                row@.len() == j,
                forall|k: int|
                    0 <= k < j ==> #[trigger] row@[k] == skim_score(cpus@[i as int].name@, dv[k]),
            decreases devices.len() - j,
        {
            let s = fuzzy_score(cpus[i].name.as_str(), devices[j].as_str());
            row.push(s);
            j = j + 1;
        }
        assert(row@ =~= score_table(dv, cpus@)[i as int]);
        scores.push(row);
        i = i + 1;
    }
    assert(table_view(scores@) =~= score_table(dv, cpus@));
    best_match_from_scores(&scores)
}

/// At most one row satisfies `is_best_index`.
pub proof fn lemma_best_index_unique(scores: Seq<Seq<Option<i64>>>, a: int, b: int)
    requires
        is_best_index(scores, a),
        is_best_index(scores, b),
    ensures
        a == b,
{
    if !no_positive_score(scores) {
        let ja = choose|j: int|
            #![trigger scores[a][j]]
            0 <= j < scores[a].len() && positive_part(scores[a][j]) > 0 && (forall|i: int, k: int|
                valid_cell(scores, i, k) ==> positive_part(#[trigger] scores[i][k])
                    <= positive_part(scores[a][j])) && (forall|i: int, k: int|
                valid_cell(scores, i, k) && i < a ==> positive_part(#[trigger] scores[i][k])
                    < positive_part(scores[a][j]));
        let jb = choose|j: int|
            #![trigger scores[b][j]]
            0 <= j < scores[b].len() && positive_part(scores[b][j]) > 0 && (forall|i: int, k: int|
                valid_cell(scores, i, k) ==> positive_part(#[trigger] scores[i][k])
                    <= positive_part(scores[b][j])) && (forall|i: int, k: int|
                valid_cell(scores, i, k) && i < b ==> positive_part(#[trigger] scores[i][k])
                    < positive_part(scores[b][j]));
        assert(valid_cell(scores, a, ja) && valid_cell(scores, b, jb));
        assert(positive_part(scores[a][ja]) == positive_part(scores[b][jb]));
    }
}

/// When no candidate scores above zero against any entry (in particular when
/// there are no candidates at all), resolution falls back to the sentinel at
/// index 0.
pub proof fn lemma_sentinel_fallback(devices: Seq<Seq<char>>, catalog: Seq<Cpu>, r: int)
    requires
        is_best_index(score_table(devices, catalog), r),
        devices.len() == 0 || forall|i: int, j: int|
            0 <= i < catalog.len() && 0 <= j < devices.len() ==> positive_part(
                #[trigger] skim_score(catalog[i].name@, devices[j]),
            ) == 0,
    ensures
        r == 0,
{
    let t = score_table(devices, catalog);
    assert forall|i: int, j: int| valid_cell(t, i, j) implies positive_part(
        #[trigger] t[i][j],
    ) == 0 by {
        assert(t[i][j] == skim_score(catalog[i].name@, devices[j]));
    }
}

/// The catalog entry that the candidates resolve to, by `get_best_match`.
pub fn resolve<'a>(devices: &Vec<String>, catalog: &'a [Cpu]) -> (r: &'a Cpu)
    requires
        catalog@.len() > 0,
    ensures
        exists|i: int|
            is_best_index(score_table(strings_view(devices@), catalog@), i) && *r
                == catalog@[i],
{
    let i = get_best_match(devices, catalog);
    &catalog[i]
}

} // verus!
