//! The scan engine: per-category size/count aggregation and item listing
//! over an observed walk of the category roots.

use vstd::prelude::*;
use crate::catalog::CategoryDef;
use crate::catalog::cutoff_for;
use crate::catalog::cutoff_time;
use crate::model::CategoryItems;
use crate::model::CategoryScan;
use crate::model::CleanupCategory;
use crate::model::CleanupItem;
use crate::model::FsEntry;
use crate::model::clamp_u64;
use crate::model::matches_cutoff;
use crate::model::spec_matches_cutoff;
use crate::model::to_item;

verus! {

/// A walked entry is reclaimable under a cutoff: it is a file and its
/// modification time passes the filter.
pub open spec fn entry_matches(e: FsEntry, cutoff: Option<i64>) -> bool {
    !e.is_dir && spec_matches_cutoff(e.modified, cutoff)
}

/// The subsequence of walked entries that are reclaimable under a cutoff,
/// in walk order.
pub open spec fn spec_matching(entries: Seq<FsEntry>, cutoff: Option<i64>) -> Seq<FsEntry> {
    entries.filter(|e: FsEntry| entry_matches(e, cutoff))
}

/// The total size in bytes of the reclaimable entries.
pub open spec fn spec_scan_size(entries: Seq<FsEntry>, cutoff: Option<i64>) -> int
    decreases entries.len(),
{
    if entries.len() == 0 {
        0
    } else {
        spec_scan_size(entries.drop_last(), cutoff) + if entry_matches(entries.last(), cutoff) {
            entries.last().size as int
        } else {
            0
        }
    }
}

/// The number of reclaimable entries.
pub open spec fn spec_scan_count(entries: Seq<FsEntry>, cutoff: Option<i64>) -> int
    decreases entries.len(),
{
    if entries.len() == 0 {
        0
    } else {
        spec_scan_count(entries.drop_last(), cutoff) + if entry_matches(entries.last(), cutoff) {
            1int
        } else {
            0int
        }
    }
}

pub proof fn lemma_scan_sums_nonneg(entries: Seq<FsEntry>, cutoff: Option<i64>)
    ensures
        spec_scan_size(entries, cutoff) >= 0,
        spec_scan_count(entries, cutoff) >= 0,
    decreases entries.len(),
{
    if entries.len() > 0 {
        lemma_scan_sums_nonneg(entries.drop_last(), cutoff);
    }
}

/// Sums size and count of every file under the category's roots that passes
/// its time filter, given the observed walk of those roots. Totals saturate
/// at the largest representable value.
#[verifier::loop_isolation(false)]
pub fn scan_category(def: &CategoryDef, entries: &Vec<FsEntry>, now_ms: i64) -> (r: CategoryScan)
    ensures
        r.size_bytes == clamp_u64(spec_scan_size(entries@, cutoff_for(def.kind, now_ms))),
        r.file_count == clamp_u64(spec_scan_count(entries@, cutoff_for(def.kind, now_ms))),
{
    let cutoff = cutoff_time(&def.kind, now_ms);
    let n = entries.len();
    let mut size_bytes: u64 = 0;
    let mut file_count: u64 = 0;
    let mut i: usize = 0;
    proof {
        assert(entries@.take(0) =~= Seq::<FsEntry>::empty());
    }
    while i < n
        invariant
            i <= n,
            cutoff == cutoff_for(def.kind, now_ms),
            size_bytes == clamp_u64(spec_scan_size(entries@.take(i as int), cutoff)),
            file_count == clamp_u64(spec_scan_count(entries@.take(i as int), cutoff)),
        decreases n - i,
    {
        proof {
            assert(entries@.take(i + 1).drop_last() =~= entries@.take(i as int));
            assert(entries@.take(i + 1).last() == entries@[i as int]);
            lemma_scan_sums_nonneg(entries@.take(i as int), cutoff);
        }
        let e = &entries[i];
        if !e.is_dir && matches_cutoff(&e.modified, &cutoff) {
            size_bytes = size_bytes.saturating_add(e.size);
            file_count = file_count.saturating_add(1);
        }
        i = i + 1;
    }
    proof {
        assert(entries@.take(n as int) =~= entries@);
    }
    CategoryScan { size_bytes, file_count }
}

/// Scans every category of the table, pairing each with the observed walk of
/// its roots, and reports the display rows in table order.
#[verifier::loop_isolation(false)]
pub fn scan_cleanup_items_sync(
    catalog: &Vec<CategoryDef>,
    snapshots: &Vec<Vec<FsEntry>>,
    now_ms: i64,
) -> (r: Vec<CleanupCategory>)
    requires
        snapshots@.len() == catalog@.len(),
    ensures
        r@.len() == catalog@.len(),
        forall|i: int|
            0 <= i < r@.len() ==> {
                &&& r@[i].id@ == catalog@[i].id@
                &&& r@[i].title@ == catalog@[i].title@
                &&& r@[i].description@ == catalog@[i].description@
                &&& r@[i].size_bytes == clamp_u64(
                    spec_scan_size(snapshots@[i]@, cutoff_for(catalog@[i].kind, now_ms)),
                )
                &&& r@[i].file_count == clamp_u64(
                    spec_scan_count(snapshots@[i]@, cutoff_for(catalog@[i].kind, now_ms)),
                )
            },
{
    let n = catalog.len();
    let mut r: Vec<CleanupCategory> = Vec::new();
    let mut i: usize = 0;
    while i < n
        invariant
            i <= n,
            r@.len() == i,
            forall|j: int|
                0 <= j < i ==> {
                    &&& r@[j].id@ == catalog@[j].id@
                    &&& r@[j].title@ == catalog@[j].title@
                    &&& r@[j].description@ == catalog@[j].description@
                    &&& r@[j].size_bytes == clamp_u64(
                        spec_scan_size(snapshots@[j]@, cutoff_for(catalog@[j].kind, now_ms)),
                    )
                    &&& r@[j].file_count == clamp_u64(
                        spec_scan_count(snapshots@[j]@, cutoff_for(catalog@[j].kind, now_ms)),
                    )
                },
        decreases n - i,
    {
        let def = &catalog[i];
        let scan = scan_category(def, &snapshots[i], now_ms);
        r.push(
            CleanupCategory {
                id: def.id.clone(),
                title: def.title.clone(),
                description: def.description.clone(),
                size_bytes: scan.size_bytes,
                file_count: scan.file_count,
            },
        );
        i = i + 1;
    }
    r
}

/// The listing form of an entry corresponds to the observed entry.
pub open spec fn item_corresponds(it: CleanupItem, e: FsEntry) -> bool {
    &&& it.path@ == e.path@
    &&& it.size_bytes == e.size
    &&& it.modified_ms == e.modified
}

/// Lists reclaimable files in walk order, up to `limit` of them; `has_more`
/// reports that the limit was reached while entries remained unvisited.
#[verifier::loop_isolation(false)]
pub fn list_category_items_for(
    def: &CategoryDef,
    entries: &Vec<FsEntry>,
    now_ms: i64,
    limit: usize,
) -> (r: CategoryItems)
    ensures
        ({
            let matched = spec_matching(entries@, cutoff_for(def.kind, now_ms));
            &&& r.items@.len() == vstd::math::min(limit as int, matched.len() as int)
            &&& forall|j: int| 0 <= j < r.items@.len() ==> item_corresponds(r.items@[j], matched[j])
            &&& r.has_more == exists|k: int|
                0 <= k < entries@.len() && spec_matching(
                    entries@.take(k),
                    cutoff_for(def.kind, now_ms),
                ).len() >= limit
        }),
{
    let cutoff = cutoff_time(&def.kind, now_ms);
    let ghost pred = |e: FsEntry| entry_matches(e, cutoff_for(def.kind, now_ms));
    let n = entries.len();
    let mut items: Vec<CleanupItem> = Vec::new();
    let mut i: usize = 0;
    proof {
        assert(entries@.take(0).filter(pred) =~= Seq::<FsEntry>::empty());
    }
    while i < n
        invariant
            i <= n,
            cutoff == cutoff_for(def.kind, now_ms),
            items@.len() == entries@.take(i as int).filter(pred).len(),
            items@.len() <= limit,
            forall|j: int|
                0 <= j < items@.len() ==> item_corresponds(
                    items@[j],
                    entries@.take(i as int).filter(pred)[j],
                ),
            forall|k: int| 0 <= k <= i ==> entries@.take(k).filter(pred).len() < limit || k == i,
        decreases n - i,
    {
        proof {
            broadcast use vstd::prelude::Seq::lemma_filter_len_push;
            broadcast use vstd::prelude::Seq::lemma_filter_push;

            assert(entries@.take(i + 1).drop_last() =~= entries@.take(i as int));
            assert(entries@.take(i + 1) =~= entries@.take(i as int).push(entries@[i as int]));
        }
        if items.len() >= limit {
            proof {
                entries@.take(i as int).lemma_filter_monotone(entries@, pred);
                assert(entries@.take(entries@.len() as int) =~= entries@);
                assert(entries@.take(i as int).filter(pred).is_prefix_of(entries@.filter(pred)));
            }
            return CategoryItems { items, has_more: true };
        }
        let e = &entries[i];
        if !e.is_dir && matches_cutoff(&e.modified, &cutoff) {
            let ghost idv = items@;
            items.push(to_item(e));
            proof {
                assert(entries@.take(i + 1).filter(pred) =~= entries@.take(i as int).filter(
                    pred,
                ).push(entries@[i as int]));
            }
        } else {
            proof {
                assert(entries@.take(i + 1).filter(pred) =~= entries@.take(i as int).filter(pred));
            }
        }
        i = i + 1;
    }
    proof {
        assert(entries@.take(n as int) =~= entries@);
        assert forall|k: int|
            0 <= k < entries@.len() implies entries@.take(k).filter(pred).len() < limit by {
            assert(entries@.take(k).filter(pred).len() < limit || k == n);
        }
    }
    CategoryItems { items, has_more: false }
}

/// Looks the category up by id and lists its reclaimable files from the
/// observed walk of its roots; an unknown id is the only error.
pub fn list_category_items_sync(
    catalog: &Vec<CategoryDef>,
    id: &String,
    entries: &Vec<FsEntry>,
    now_ms: i64,
    limit: usize,
) -> (r: Result<CategoryItems, String>)
    ensures
        (r is Err <==> (forall|i: int| 0 <= i < catalog@.len() ==> catalog@[i].id@ != id@)),
        (r matches Err(m) ==> m@ == "Unknown cleanup category."@),
        (r matches Ok(items) ==> exists|i: int|
            {
                &&& 0 <= i < catalog@.len()
                &&& catalog@[i].id@ == id@
                &&& ({
                    let matched = spec_matching(entries@, cutoff_for(catalog@[i].kind, now_ms));
                    &&& items.items@.len() == vstd::math::min(limit as int, matched.len() as int)
                    &&& forall|j: int|
                        0 <= j < items.items@.len() ==> item_corresponds(items.items@[j], matched[j])
                    &&& items.has_more == exists|k: int|
                        0 <= k < entries@.len() && spec_matching(
                            entries@.take(k),
                            cutoff_for(catalog@[i].kind, now_ms),
                        ).len() >= limit
                })
            }),
{
    match crate::catalog::find_category(catalog, id) {
        Some(def) => Ok(list_category_items_for(def, entries, now_ms, limit)),
        None => Err(String::from_str("Unknown cleanup category.")),
    }
}

} // verus!
