//! Rules for turning what a page shows into records: when a rendered page has
//! settled, how often a missing element is looked for again, prices, page
//! numbers, component names and the record that a listing becomes.
use vstd::prelude::*;
use crate::model::{CatalogRecord, Cpu, Error, LaptopWithNoComposition, RawListing};
use crate::resolver::{get_best_match, is_best_index, score_table};
use crate::scheduler::BenchmarkKind;
use crate::text::{
    all_digits, ascii_digits, before_first, before_first_str, decimal_value, device_candidates,
    keep_ascii_digits, lemma_split_on_len, parse_digits_i64, parse_i32, replace_all, replace_str, signed_literal,
    split_devices, split_on, split_str, strings_view, trim, trim_str,
};

verus! {

/// A rendered page has settled when two consecutive counts of its elements
/// are equal and not zero.
pub fn is_settled(previous: usize, current: usize) -> (r: bool)
    ensures
        r == (previous > 0 && previous == current),
{
    previous > 0 && previous == current
}

/// How often, and after which pause, a missing element is looked for again.
#[derive(Debug, Clone, Copy, PartialEq, Eq)]
pub struct RetryPolicy {
    pub attempts: u32,
    pub delay_ms: u64,
}

impl RetryPolicy {
    /// On a listing page: up to three more looks one second apart, for the
    /// first tile only (later tiles are rendered by then).
    pub fn listing_tile(first_on_page: bool) -> (r: Self)
        ensures
            r.attempts == (if first_on_page { 3u32 } else { 0u32 }),
            r.delay_ms == 1000,
    {
        RetryPolicy { attempts: if first_on_page { 3 } else { 0 }, delay_ms: 1000 }
    }

    /// On a laptop's own page: up to three more looks five seconds apart.
    pub fn detail_page() -> (r: Self)
        ensures
            r.attempts == 3,
            r.delay_ms == 5000,
    {
        RetryPolicy { attempts: 3, delay_ms: 5000 }
    }

    /// Whether to look again after `retries_done` further looks.
    pub fn should_retry(&self, retries_done: u32, found: bool) -> (r: bool)
        ensures
            r == (!found && retries_done < self.attempts),
    {
        !found && retries_done < self.attempts
    }
}

/// The price a price text shows: its ASCII digits read as one number.
pub open spec fn price_of(raw: Seq<char>) -> Option<int> {
    let d = ascii_digits(raw);
    if d.len() > 0 && decimal_value(d) <= i64::MAX {
        Some(decimal_value(d) as int)
    } else {
        None
    }
}

/// Reads a price from its text, ignoring everything but the digits.
pub fn parse_price(raw: &str) -> (r: Result<i64, Error>)
    ensures
        match price_of(raw@) {
            Some(v) => r == Ok::<i64, Error>(v as i64),
            None => r == Err::<i64, Error>(Error::ParseInt),
        },
{
    let digits = keep_ascii_digits(raw);
    proof {
        lemma_ascii_digits_all(raw@);
    }
    match parse_digits_i64(digits.as_str()) {
        Some(v) => Ok(v),
        None => Err(Error::ParseInt),
    }
}

proof fn lemma_ascii_digits_all(s: Seq<char>)
    ensures
        all_digits(ascii_digits(s)),
    decreases s.len(),
{
    if s.len() > 0 {
        lemma_ascii_digits_all(s.drop_last());
    }
}

/// The composition text of a tile whose parts are separated by bullets.
pub fn bullets_to_slashes(text: &str) -> (r: String)
    ensures
        r@ == replace_all(text@, "•"@, "/"@),
{
    proof {
        reveal_strlit("•");
    }
    replace_str(text, "•", "/")
}

/// The page number a pagination link names: `None` when the link has fewer
/// than two path pieces, else its second-to-last piece after the last `=`,
/// which must read as an `i32`.
pub open spec fn link_page(href: Seq<char>) -> Option<Option<int>> {
    let pieces = split_on(href, '/');
    if pieces.len() < 2 {
        Some(None)
    } else {
        let param = split_on(pieces[pieces.len() - 2], '=').last();
        match signed_literal(param) {
            Some(v) => if i32::MIN <= v <= i32::MAX {
                Some(Some(v))
            } else {
                None
            },
            None => None,
        }
    }
}

/// Reads the page number of one pagination link.
pub fn link_page_number(href: &str) -> (r: Result<Option<i32>, Error>)
    ensures
        match link_page(href@) {
            Some(Some(v)) => r == Ok::<Option<i32>, Error>(Some(v as i32)),
            Some(None) => r == Ok::<Option<i32>, Error>(None),
            None => r == Err::<Option<i32>, Error>(Error::ParseInt),
        },
{
    let pieces = split_str(href, '/');
    if pieces.len() < 2 {
        return Ok(None);
    }
    let parts = split_str(pieces[pieces.len() - 2].as_str(), '=');
    proof {
        lemma_split_on_len(pieces[pieces.len() - 2]@, '=');
    }
    let last = &parts[parts.len() - 1];
    match parse_i32(last.as_str()) {
        Some(v) => Ok(Some(v)),
        None => Err(Error::ParseInt),
    }
}

/// The highest page number among links, starting from 0; `None` when a link
/// cannot be read.
pub open spec fn max_link_page(hrefs: Seq<Seq<char>>) -> Option<int>
    decreases hrefs.len(),
{
    if hrefs.len() == 0 {
        Some(0)
    } else {
        match (max_link_page(hrefs.drop_last()), link_page(hrefs.last())) {
            (Some(m), Some(Some(v))) => Some(if v > m { v } else { m }),
            (Some(m), Some(None)) => Some(m),
            _ => None,
        }
    }
}

/// The last page that the pagination links of a listing page point to.
pub fn max_page_of_links(hrefs: &Vec<String>) -> (r: Result<i32, Error>)
    ensures
        match max_link_page(strings_view(hrefs@)) {
            Some(m) => r == Ok::<i32, Error>(m as i32),
            None => r == Err::<i32, Error>(Error::ParseInt),
        },
{
    let ghost hv = strings_view(hrefs@);
    let mut best: i32 = 0;
    let mut i: usize = 0;
    while i < hrefs.len()
        invariant
            i <= hrefs.len(),
            hv == strings_view(hrefs@),
            max_link_page(hv.subrange(0, i as int)) == Some(best as int),
        decreases hrefs.len() - i,
    {
        assert(hv.subrange(0, i + 1).drop_last() =~= hv.subrange(0, i as int));
        assert(hv.subrange(0, i + 1).last() == hrefs@[i as int]@);
        match link_page_number(hrefs[i].as_str()) {
            Ok(Some(v)) => {
                if v > best {
                    best = v;
                }
            },
            Ok(None) => {},
            Err(e) => {
                proof {
                    lemma_max_link_page_stuck(hv, i as int + 1);
                }
                return Err(e);
            },
        }
        i = i + 1;
    }
    assert(hv.subrange(0, hrefs.len() as int) =~= hv);
    Ok(best)
}

proof fn lemma_max_link_page_stuck(hv: Seq<Seq<char>>, j: int)
    requires
        0 <= j <= hv.len(),
        max_link_page(hv.subrange(0, j)) is None,
    ensures
        max_link_page(hv) is None,
    decreases hv.len() - j,
{
    if j < hv.len() {
        assert(hv.subrange(0, j + 1).drop_last() =~= hv.subrange(0, j));
        lemma_max_link_page_stuck(hv, j + 1);
    } else {
        assert(hv.subrange(0, j) =~= hv);
    }
}

/// A component name as the catalog keeps it: the part before `cut`, trimmed
/// (CPU names are cut at `@`, GPU names at `,`).
pub fn normalize_name(name: &str, cut: char) -> (r: String)
    ensures
        r@ == trim(before_first(name@, cut)),
{
    let head = before_first_str(name, cut);
    trim_str(head.as_str())
}

/// `r` names the catalog entry that the composition resolves to.
pub open spec fn resolves_to(composition: Seq<char>, catalog: Seq<Cpu>, id: i64) -> bool {
    exists|i: int|
        is_best_index(score_table(device_candidates(composition), catalog), i) && id
            == catalog[i].id
}

fn resolve_id(devices: &Vec<String>, catalog: &[Cpu]) -> (r: i64)
    requires
        catalog@.len() > 0,
    ensures
        exists|i: int|
            is_best_index(score_table(strings_view(devices@), catalog@), i) && r == catalog@[i].id,
{
    let i = get_best_match(devices, catalog);
    catalog[i].id
}

/// The row that a listing becomes, with its devices resolved against both
/// catalogs.
pub fn record_of_listing(l: RawListing, cpus: &[Cpu], gpus: &[Cpu]) -> (r: CatalogRecord)
    requires
        cpus@.len() > 0,
        gpus@.len() > 0,
    ensures
        r.id == l.id,
        r.image == l.image,
        r.description == l.description,
        r.composition == l.composition,
        r.url == l.url,
        r.price == l.price,
        resolves_to(l.composition@, cpus@, r.cpu_id),
        resolves_to(l.composition@, gpus@, r.gpu_id),
{
    let devices = split_devices(l.composition.as_str());
    let cpu_id = resolve_id(&devices, cpus);
    let gpu_id = resolve_id(&devices, gpus);
    CatalogRecord {
        id: l.id,
        image: l.image,
        description: l.description,
        composition: l.composition,
        url: l.url,
        price: l.price,
        cpu_id,
        gpu_id,
    }
}

/// The row that a laptop becomes once its composition has been read from its
/// own page at `url`.
pub fn record_of_detail(
    laptop: LaptopWithNoComposition,
    url: String,
    composition: String,
    cpus: &[Cpu],
    gpus: &[Cpu],
) -> (r: CatalogRecord)
    requires
        cpus@.len() > 0,
        gpus@.len() > 0,
    ensures
        r.id == laptop.id,
        r.image == laptop.image,
        r.description == laptop.description,
        r.composition == composition,
        r.url == url,
        r.price == laptop.price,
        resolves_to(composition@, cpus@, r.cpu_id),
        resolves_to(composition@, gpus@, r.gpu_id),
{
    let devices = split_devices(composition.as_str());
    let cpu_id = resolve_id(&devices, cpus);
    let gpu_id = resolve_id(&devices, gpus);
    CatalogRecord {
        id: laptop.id,
        image: laptop.image,
        description: laptop.description,
        composition,
        url,
        price: laptop.price,
        cpu_id,
        gpu_id,
    }
}

/// Where a catalog name of each kind is cut: CPU names at `@`, GPU names at `,`.
pub open spec fn name_cut(kind: BenchmarkKind) -> char {
    match kind {
        BenchmarkKind::Cpu => '@',
        BenchmarkKind::Gpu => ',',
    }
}

/// The catalog as loaded, with every name cut and trimmed for matching.
pub fn normalize_catalog(catalog: Vec<Cpu>, kind: BenchmarkKind) -> (r: Vec<Cpu>)
    ensures
        r@.len() == catalog@.len(),
        forall|i: int|
            0 <= i < r@.len() ==> {
                &&& (#[trigger] r@[i]).id == catalog@[i].id
                &&& r@[i].url == catalog@[i].url
                &&& r@[i].score == catalog@[i].score
                &&& r@[i].name@ == trim(before_first(catalog@[i].name@, name_cut(kind)))
            },
{
    let cut = match kind {
        BenchmarkKind::Cpu => '@',
        BenchmarkKind::Gpu => ',',
    };
    let mut out: Vec<Cpu> = Vec::new();
    let mut i: usize = 0;
    while i < catalog.len()
        invariant
            i <= catalog.len(),
            cut == name_cut(kind),
            out@.len() == i,
            forall|k: int|
                0 <= k < i ==> {
                    &&& (#[trigger] out@[k]).id == catalog@[k].id
                    &&& out@[k].url == catalog@[k].url
                    &&& out@[k].score == catalog@[k].score
                    &&& out@[k].name@ == trim(before_first(catalog@[k].name@, name_cut(kind)))
                },
        decreases catalog.len() - i,
    {
        let c = &catalog[i];
        out.push(Cpu {
            id: c.id,
            name: normalize_name(c.name.as_str(), cut),
            url: c.url.clone(),
            score: c.score,
        });
        i = i + 1;
    }
    out
}

} // verus!
