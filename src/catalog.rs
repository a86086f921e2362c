//! The upsert policy of the catalog store: a stored composition is never
//! replaced by an empty one.
use vstd::prelude::*;
use crate::model::CatalogRecord;

verus! {

pub open spec fn opt_enriched(o: Option<CatalogRecord>) -> bool {
    match o {
        Some(r) => r.is_enriched(),
        None => false,
    }
}

/// The row stored after writing `incoming` over `existing`: the existing row
/// stays when it is enriched and the incoming one is not; otherwise the
/// incoming row replaces it (when neither is enriched, the composition stays
/// empty and the other fields are the incoming ones).
pub open spec fn merged(existing: Option<CatalogRecord>, incoming: CatalogRecord) -> CatalogRecord {
    if opt_enriched(existing) && !incoming.is_enriched() {
        existing.unwrap()
    } else {
        incoming
    }
}

/// Applies the upsert policy to one row.
pub fn merge_record(existing: Option<CatalogRecord>, incoming: CatalogRecord) -> (r: CatalogRecord)
    ensures
        r == merged(existing, incoming),
{
    match existing {
        Some(e) => {
            if !e.composition.as_str().is_empty() && incoming.composition.as_str().is_empty() {
                proof {
                    assert(e.composition@.len() > 0);
                }
                e
            } else {
                proof {
                    assert(!(e.composition@.len() > 0 && incoming.composition@.len() == 0));
                }
                incoming
            }
        },
        None => incoming,
    }
}

/// An enriched row is left exactly as it was by an incoming row with an empty
/// composition.
pub proof fn lemma_merge_never_regresses(existing: CatalogRecord, incoming: CatalogRecord)
    requires
        existing.is_enriched(),
        !incoming.is_enriched(),
    ensures
        merged(Some(existing), incoming) == existing,
{
}

pub open spec fn lookup(m: Map<i64, CatalogRecord>, id: i64) -> Option<CatalogRecord> {
    if m.dom().contains(id) {
        Some(m[id])
    } else {
        None
    }
}

/// The store, keyed by id, after upserting each of `xs` in order.
pub open spec fn apply_upserts(m: Map<i64, CatalogRecord>, xs: Seq<CatalogRecord>) -> Map<
    i64,
    CatalogRecord,
>
    decreases xs.len(),
{
    if xs.len() == 0 {
        m
    } else {
        let p = apply_upserts(m, xs.drop_last());
        p.insert(xs.last().id, merged(lookup(p, xs.last().id), xs.last()))
    }
}

/// What the row with id `k` becomes, from `o`, as `xs` is upserted.
pub open spec fn settled(o: Option<CatalogRecord>, xs: Seq<CatalogRecord>, k: i64) -> Option<
    CatalogRecord,
>
    decreases xs.len(),
{
    if xs.len() == 0 {
        o
    } else {
        let p = settled(o, xs.drop_last(), k);
        if xs.last().id == k {
            Some(merged(p, xs.last()))
        } else {
            p
        }
    }
}

/// The last enriched row of `xs` with id `k`.
pub open spec fn last_enriched(xs: Seq<CatalogRecord>, k: i64) -> Option<CatalogRecord>
    decreases xs.len(),
{
    if xs.len() == 0 {
        None
    } else if xs.last().id == k && xs.last().is_enriched() {
        Some(xs.last())
    } else {
        last_enriched(xs.drop_last(), k)
    }
}

/// The last row of `xs` with id `k`.
pub open spec fn last_with_id(xs: Seq<CatalogRecord>, k: i64) -> Option<CatalogRecord>
    decreases xs.len(),
{
    if xs.len() == 0 {
        None
    } else if xs.last().id == k {
        Some(xs.last())
    } else {
        last_with_id(xs.drop_last(), k)
    }
}

proof fn lemma_lookup_apply(m: Map<i64, CatalogRecord>, xs: Seq<CatalogRecord>, k: i64)
    ensures
        lookup(apply_upserts(m, xs), k) == settled(lookup(m, k), xs, k),
    decreases xs.len(),
{
    if xs.len() > 0 {
        lemma_lookup_apply(m, xs.drop_last(), k);
    }
}

proof fn lemma_last_plain(xs: Seq<CatalogRecord>, k: i64)
    ensures
        last_enriched(xs, k) is None ==> !opt_enriched(last_with_id(xs, k)),
        opt_enriched(last_enriched(xs, k)) || last_enriched(xs, k) is None,
    decreases xs.len(),
{
    if xs.len() > 0 {
        lemma_last_plain(xs.drop_last(), k);
    }
}

proof fn lemma_settled_shape(o: Option<CatalogRecord>, xs: Seq<CatalogRecord>, k: i64)
    ensures
        settled(o, xs, k) == (match last_enriched(xs, k) {
            Some(r) => Some(r),
            None => if opt_enriched(o) {
                o
            } else {
                match last_with_id(xs, k) {
                    Some(r) => Some(r),
                    None => o,
                }
            },
        }),
    decreases xs.len(),
{
    if xs.len() > 0 {
        lemma_settled_shape(o, xs.drop_last(), k);
        lemma_last_plain(xs.drop_last(), k);
    }
}

proof fn lemma_settled_idempotent(o: Option<CatalogRecord>, xs: Seq<CatalogRecord>, k: i64)
    ensures
        settled(settled(o, xs, k), xs, k) == settled(o, xs, k),
{
    lemma_settled_shape(o, xs, k);
    lemma_settled_shape(settled(o, xs, k), xs, k);
    lemma_last_plain(xs, k);
}

/// Upserting the same rows a second time changes nothing: a re-run of a crawl
/// over identical source data leaves the same rows.
pub proof fn lemma_rerun_idempotent(m: Map<i64, CatalogRecord>, xs: Seq<CatalogRecord>)
    ensures
        apply_upserts(apply_upserts(m, xs), xs) == apply_upserts(m, xs),
{
    let once = apply_upserts(m, xs);
    let twice = apply_upserts(once, xs);
    assert forall|k: i64| #[trigger] lookup(twice, k) == lookup(once, k) by {
        lemma_lookup_apply(once, xs, k);
        lemma_lookup_apply(m, xs, k);
        lemma_settled_idempotent(lookup(m, k), xs, k);
    }
    assert forall|k: i64| twice.dom().contains(k) <==> once.dom().contains(k) by {
        assert(lookup(twice, k) == lookup(once, k));
    }
    assert forall|k: i64| twice.dom().contains(k) implies twice[k] == once[k] by {
        assert(lookup(twice, k) == lookup(once, k));
    }
    assert(twice =~= once);
}

} // verus!
