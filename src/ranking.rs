//! The ranking view over the finished catalog: request parameters, the
//! weighted score, the price-per-score key and a stable order by that key.
use vstd::prelude::*;
use crate::form::{
    count_key, decode_form, form_pairs, key_count, lemma_counted_key_has_value, lookup_key,
    pairs_view, query_value,
};
use crate::model::LaptopView;
use crate::text::{parse_i64, parse_usize, signed_literal, unsigned_literal};

verus! {

/// How much the CPU and the GPU count, and how many laptops to show.
#[derive(Debug, Clone, Copy, PartialEq, Eq)]
pub struct LaptopPriorities {
    pub cpu: i64,
    pub gpu: i64,
    pub quantity: usize,
}

impl Default for LaptopPriorities {
    fn default() -> (r: Self)
        ensures
            r.cpu == 0 && r.gpu == 0 && r.quantity == 0,
    {
        LaptopPriorities { cpu: 0, gpu: 0, quantity: 0 }
    }
}

pub open spec fn signed_field(pairs: Seq<(Seq<char>, Seq<char>)>, key: Seq<char>) -> Option<i64> {
    if key_count(pairs, key) == 1 {
        match signed_literal(query_value(pairs, key).unwrap()) {
            Some(v) => if i64::MIN <= v <= i64::MAX {
                Some(v as i64)
            } else {
                None
            },
            None => None,
        }
    } else {
        None
    }
}

pub open spec fn unsigned_field(pairs: Seq<(Seq<char>, Seq<char>)>, key: Seq<char>) -> Option<usize> {
    if key_count(pairs, key) == 1 {
        match unsigned_literal(query_value(pairs, key).unwrap()) {
            Some(v) => if v <= usize::MAX {
                Some(v as usize)
            } else {
                None
            },
            None => None,
        }
    } else {
        None
    }
}

/// The priorities that decoded request pairs give: `cpu`, `gpu` and
/// `quantity` each given once and readable as numbers, or `None`.
pub open spec fn priorities_of(pairs: Seq<(Seq<char>, Seq<char>)>) -> Option<(i64, i64, usize)> {
    match (
        signed_field(pairs, "cpu"@),
        signed_field(pairs, "gpu"@),
        unsigned_field(pairs, "quantity"@),
    ) {
        (Some(c), Some(g), Some(q)) => Some((c, g, q)),
        _ => None,
    }
}

fn signed_field_of(pairs: &Vec<(String, String)>, key: &str) -> (r: Option<i64>)
    ensures
        r == signed_field(pairs_view(pairs@), key@),
{
    if count_key(pairs, key) != 1 {
        return None;
    }
    proof {
        lemma_counted_key_has_value(pairs_view(pairs@), key@);
    }
    match lookup_key(pairs, key) {
        Some(v) => parse_i64(v.as_str()),
        None => None,
    }
}

fn unsigned_field_of(pairs: &Vec<(String, String)>, key: &str) -> (r: Option<usize>)
    ensures
        r == unsigned_field(pairs_view(pairs@), key@),
{
    if count_key(pairs, key) != 1 {
        return None;
    }
    proof {
        lemma_counted_key_has_value(pairs_view(pairs@), key@);
    }
    match lookup_key(pairs, key) {
        Some(v) => parse_usize(v.as_str()),
        None => None,
    }
}

/// The priorities that decoded request pairs give; all zero when they do
/// not give them.
pub fn priorities_from_pairs(pairs: &Vec<(String, String)>) -> (r: LaptopPriorities)
    ensures
        match priorities_of(pairs_view(pairs@)) {
            Some((c, g, q)) => r.cpu == c && r.gpu == g && r.quantity == q,
            None => r.cpu == 0 && r.gpu == 0 && r.quantity == 0,
        },
{
    let c = signed_field_of(pairs, "cpu");
    let g = signed_field_of(pairs, "gpu");
    let q = unsigned_field_of(pairs, "quantity");
    match (c, g, q) {
        (Some(cpu), Some(gpu), Some(quantity)) => LaptopPriorities { cpu, gpu, quantity },
        _ => LaptopPriorities::default(),
    }
}

/// The priorities a request body gives; all zero when it does not decode or
/// does not give them.
pub fn priorities_from_query(query: &str) -> (r: LaptopPriorities)
    ensures
        match form_pairs(query@) {
            Some(pairs) => match priorities_of(pairs) {
                Some((c, g, q)) => r.cpu == c && r.gpu == g && r.quantity == q,
                None => r.cpu == 0 && r.gpu == 0 && r.quantity == 0,
            },
            None => r.cpu == 0 && r.gpu == 0 && r.quantity == 0,
        },
{
    match decode_form(query) {
        Some(pairs) => priorities_from_pairs(&pairs),
        None => LaptopPriorities::default(),
    }
}

pub open spec fn abs(a: int) -> int {
    if a < 0 {
        -a
    } else {
        a
    }
}

/// Integer division rounding toward zero, as Rust's `/` does.
pub open spec fn trunc_div(a: int, b: int) -> int {
    if (a < 0) == (b < 0) {
        abs(a) / abs(b)
    } else {
        -(abs(a) / abs(b))
    }
}

fn div_toward_zero(a: i128, b: i128) -> (r: i128)
    requires
        b != 0,
        -0x1_0000_0000_0000_0000_0000_0000_0000 < a < 0x1_0000_0000_0000_0000_0000_0000_0000,
        -0x1_0000_0000_0000_0000_0000_0000_0000 < b < 0x1_0000_0000_0000_0000_0000_0000_0000,
    ensures
        r == trunc_div(a as int, b as int),
{
    let ua: i128 = if a < 0 { -a } else { a };
    let ub: i128 = if b < 0 { -b } else { b };
    let q = ua / ub;
    assert(0 <= q <= ua) by (nonlinear_arith)
        requires
            ua >= 0,
            ub >= 1,
            q == ua / ub,
    ;
    if (a < 0) == (b < 0) {
        q
    } else {
        -q
    }
}

/// The weighted score of a laptop: each component's score times its weight,
/// divided by the highest score of its kind.
pub open spec fn weighted_score(
    cpu_score: int,
    gpu_score: int,
    cpu_weight: int,
    gpu_weight: int,
    max_cpu: int,
    max_gpu: int,
) -> int {
    trunc_div(cpu_score * cpu_weight, max_cpu) + trunc_div(gpu_score * gpu_weight, max_gpu)
}

pub open spec fn fits_i64(v: int) -> bool {
    i64::MIN <= v <= i64::MAX
}

/// Every step of the weighted score stays within `i64`.
pub open spec fn score_fits(
    cpu_score: int,
    gpu_score: int,
    cpu_weight: int,
    gpu_weight: int,
    max_cpu: int,
    max_gpu: int,
) -> bool {
    &&& max_cpu != 0 && max_gpu != 0
    &&& fits_i64(cpu_score * cpu_weight) && fits_i64(gpu_score * gpu_weight)
    &&& fits_i64(trunc_div(cpu_score * cpu_weight, max_cpu))
    &&& fits_i64(trunc_div(gpu_score * gpu_weight, max_gpu))
    &&& fits_i64(weighted_score(cpu_score, gpu_score, cpu_weight, gpu_weight, max_cpu, max_gpu))
}

/// The weighted score of a laptop under the given priorities.
pub fn total_score(
    cpu_score: i64,
    gpu_score: i64,
    priorities: &LaptopPriorities,
    max_cpu: i64,
    max_gpu: i64,
) -> (r: i64)
    requires
        score_fits(
            cpu_score as int,
            gpu_score as int,
            priorities.cpu as int,
            priorities.gpu as int,
            max_cpu as int,
            max_gpu as int,
        ),
    ensures
        r == weighted_score(
            cpu_score as int,
            gpu_score as int,
            priorities.cpu as int,
            priorities.gpu as int,
            max_cpu as int,
            max_gpu as int,
        ),
{
    let a = div_toward_zero(cpu_score as i128 * priorities.cpu as i128, max_cpu as i128);
    let b = div_toward_zero(gpu_score as i128 * priorities.gpu as i128, max_gpu as i128);
    (a + b) as i64
}

/// The sort key of a laptop: its price per point of score, where one point
/// is added so that a zero score does not divide by zero.
pub open spec fn price_key(price: int, score: int) -> int {
    trunc_div(price * 1000, score + 1)
}

pub open spec fn key_fits(price: int, score: int) -> bool {
    &&& score + 1 != 0 && fits_i64(score + 1)
    &&& fits_i64(price * 1000)
    &&& fits_i64(price_key(price, score))
}

/// The sort key of a laptop.
pub fn rank_key(price: i64, score: i64) -> (r: i64)
    requires
        key_fits(price as int, score as int),
    ensures
        r == price_key(price as int, score as int),
{
    let k = div_toward_zero(price as i128 * 1000, score as i128 + 1);
    k as i64
}

/// `order` lists every index of `keys` once, by increasing key and, among
/// equal keys, by increasing index.
pub open spec fn is_stable_order(keys: Seq<i64>, order: Seq<usize>) -> bool {
    &&& order.len() == keys.len()
    &&& forall|i: int| 0 <= i < order.len() ==> #[trigger] order[i] < keys.len()
    &&& forall|i: int, j: int|
        0 <= i < j < order.len() ==> keys[#[trigger] order[i] as int] < keys[#[trigger] order[j] as int]
            || (keys[order[i] as int] == keys[order[j] as int] && order[i] < order[j])
}

/// Orders indices by key, keeping equal keys in index order.
pub fn ranking_order(keys: &Vec<i64>) -> (r: Vec<usize>)
    ensures
        is_stable_order(keys@, r@),
{
    let mut order: Vec<usize> = Vec::new();
    let mut idx: usize = 0;
    while idx < keys.len()
        invariant
            idx <= keys.len(),
            order@.len() == idx,
            forall|i: int| 0 <= i < order@.len() ==> #[trigger] order@[i] < idx,
            forall|i: int, j: int|
                0 <= i < j < order@.len() ==> keys@[#[trigger] order@[i] as int] < keys@[
                    #[trigger] order@[j] as int] || (keys@[order@[i] as int] == keys@[order@[j] as int]
                    && order@[i] < order@[j]),
        decreases keys.len() - idx,
    {
        let k = keys[idx];
        let mut pos: usize = order.len();
        while pos > 0 && keys[order[pos - 1]] > k
            invariant
                idx < keys.len(),
                k == keys@[idx as int],
                order@.len() == idx,
                pos <= order@.len(),
                forall|i: int| 0 <= i < order@.len() ==> #[trigger] order@[i] < idx,
                forall|q: int| pos <= q < order@.len() ==> keys@[#[trigger] order@[q] as int] > k,
            decreases pos,
        {
            pos = pos - 1;
        }
        let ghost old_order = order@;
        assert(forall|q: int| 0 <= q < pos ==> keys@[#[trigger] old_order[q] as int] <= k) by {
            if pos > 0 {
                assert forall|q: int| 0 <= q < pos implies keys@[#[trigger] old_order[q] as int] <= k by {
                    if q < pos - 1 {
                        assert(keys@[old_order[q] as int] < keys@[old_order[pos - 1] as int] || keys@[old_order[q] as int] == keys@[old_order[pos - 1] as int]);
                    }
                }
            }
        }
        order.insert(pos, idx);
        assert(order@ == old_order.insert(pos as int, idx));
        assert forall|i: int, j: int|
            0 <= i < j < order@.len() implies keys@[#[trigger] order@[i] as int] < keys@[
                #[trigger] order@[j] as int] || (keys@[order@[i] as int] == keys@[order@[j] as int]
                && order@[i] < order@[j]) by {
            if j < pos {
                assert(order@[i] == old_order[i] && order@[j] == old_order[j]);
            } else if j == pos {
                assert(order@[i] == old_order[i]);
            } else if i == pos {
                assert(order@[j] == old_order[j - 1]);
            } else if i < pos {
                assert(order@[i] == old_order[i] && order@[j] == old_order[j - 1]);
            } else {
                assert(order@[i] == old_order[i - 1] && order@[j] == old_order[j - 1]);
            }
        }
        assert forall|i: int| 0 <= i < order@.len() implies #[trigger] order@[i] < idx + 1 by {
            if i < pos {
                assert(order@[i] == old_order[i]);
            } else if i > pos {
                assert(order@[i] == old_order[i - 1]);
            }
        }
        idx = idx + 1;
    }
    order
}

/// The highest CPU and GPU scores among the laptops.
pub fn max_scores(laptops: &Vec<LaptopView>) -> (r: (i64, i64))
    requires
        laptops@.len() > 0,
    ensures
        exists|i: int| 0 <= i < laptops@.len() && r.0 == laptops@[i].cpu_score,
        exists|i: int| 0 <= i < laptops@.len() && r.1 == laptops@[i].gpu_score,
        forall|i: int| 0 <= i < laptops@.len() ==> #[trigger] laptops@[i].cpu_score <= r.0,
        forall|i: int| 0 <= i < laptops@.len() ==> #[trigger] laptops@[i].gpu_score <= r.1,
{
    let mut c = laptops[0].cpu_score;
    let mut g = laptops[0].gpu_score;
    let mut i: usize = 1;
    while i < laptops.len()
        invariant
            1 <= i <= laptops.len(),
            exists|a: int| 0 <= a < i && c == laptops@[a].cpu_score,
            exists|a: int| 0 <= a < i && g == laptops@[a].gpu_score,
            forall|a: int| 0 <= a < i ==> #[trigger] laptops@[a].cpu_score <= c,
            forall|a: int| 0 <= a < i ==> #[trigger] laptops@[a].gpu_score <= g,
        decreases laptops.len() - i,
    {
        if laptops[i].cpu_score > c {
            c = laptops[i].cpu_score;
        }
        if laptops[i].gpu_score > g {
            g = laptops[i].gpu_score;
        }
        i = i + 1;
    }
    (c, g)
}

} // verus!
