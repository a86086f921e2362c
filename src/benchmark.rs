//! Rows of the CPU and GPU benchmark tables.
use vstd::prelude::*;
use crate::model::Error;
use crate::scheduler::BenchmarkKind;
use crate::form::{decode_form, form_pairs, lookup_key, query_value};
use crate::text::{parse_u32, push_str, replace_all, replace_str, unsigned_literal};

verus! {

/// One row of a benchmark table, ready to be stored.
#[derive(Debug, Clone, PartialEq, Eq)]
pub struct BenchmarkRow {
    pub id: String,
    pub name: String,
    pub url: String,
    pub score: u32,
}

/// A table row with fewer than two cells is a repeated header.
pub fn is_table_row(cell_count: usize) -> (r: bool)
    ensures
        r == (cell_count >= 2),
{
    cell_count >= 2
}

/// The page of a component, from the link in its table row.
pub open spec fn benchmark_url(kind: BenchmarkKind, href: Seq<char>) -> Seq<char> {
    match kind {
        BenchmarkKind::Cpu => replace_all("https://www.cpubenchmark.net/"@ + href, "_lookup"@, ""@),
        BenchmarkKind::Gpu => replace_all(
            "https://www.videocardbenchmark.net/"@ + href,
            "video_lookup"@,
            "gpu"@,
        ),
    }
}

/// A score text without its thousands separators, read as a `u32`; 0 when
/// it does not read.
pub open spec fn benchmark_score(text: Seq<char>) -> u32 {
    match unsigned_literal(replace_all(text, ","@, ""@)) {
        Some(v) => if v <= u32::MAX {
            v as u32
        } else {
            0
        },
        None => 0,
    }
}

/// Builds the stored row for one table row from its link target, its link
/// text and its score text.
pub fn benchmark_row(kind: BenchmarkKind, href: &str, name: String, score_text: &str) -> (r: Result<
    BenchmarkRow,
    Error,
>)
    ensures
        match form_pairs(href@) {
            None => r == Err::<BenchmarkRow, Error>(Error::UrlDecode),
            Some(pairs) => match query_value(pairs, "id"@) {
                None => r == Err::<BenchmarkRow, Error>(Error::MissingField),
                Some(id) => r is Ok && r.unwrap().id@ == id && r.unwrap().name == name
                    && r.unwrap().url@ == benchmark_url(kind, href@) && r.unwrap().score
                    == benchmark_score(score_text@),
            },
        },
{
    let pairs = match decode_form(href) {
        Some(p) => p,
        None => return Err(Error::UrlDecode),
    };
    let id = match lookup_key(&pairs, "id") {
        Some(v) => v,
        None => return Err(Error::MissingField),
    };
    proof {
        reveal_strlit("_lookup");
        reveal_strlit("video_lookup");
        reveal_strlit(",");
    }
    let url = match kind {
        BenchmarkKind::Cpu => {
            let mut full = String::from_str("https://www.cpubenchmark.net/");
            push_str(&mut full, href);
            replace_str(full.as_str(), "_lookup", "")
        },
        BenchmarkKind::Gpu => {
            let mut full = String::from_str("https://www.videocardbenchmark.net/");
            push_str(&mut full, href);
            replace_str(full.as_str(), "video_lookup", "gpu")
        },
    };
    let plain = replace_str(score_text, ",", "");
    let score = match parse_u32(plain.as_str()) {
        Some(v) => v,
        None => 0,
    };
    Ok(BenchmarkRow { id, name, url, score })
}

/// The row stored before a table's rows: the "unknown" component with id 0.
pub fn sentinel_row(kind: BenchmarkKind) -> (r: BenchmarkRow)
    ensures
        r.id@ == seq!['0'],
        r.name@ == (match kind {
            BenchmarkKind::Cpu => "Unknown cpu"@,
            BenchmarkKind::Gpu => "Unknown gpu"@,
        }),
        r.url@.len() == 0,
        r.score == 0,
{
    let name = match kind {
        BenchmarkKind::Cpu => String::from_str("Unknown cpu"),
        BenchmarkKind::Gpu => String::from_str("Unknown gpu"),
    };
    proof {
        reveal_strlit("0");
        reveal_strlit("");
    }
    BenchmarkRow { id: String::from_str("0"), name, url: String::from_str(""), score: 0 }
}

} // verus!
