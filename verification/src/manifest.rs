//! The manifest data model: one record per backup run, plus the read-side
//! logic over it — item lookup, size totals, run details, and
//! newest-run selection for the `latest` pointer.

use vstd::prelude::*;
use vstd::string::*;
use vstd::seq_lib::group_to_multiset_ensures;
use crate::strutil::{lex_le, lemma_lex_total, lemma_lex_trans, str_le};

verus! {

/// One named unit within a run: a filesystem path or a reserved
/// software-inventory identifier, with its archive's name, digest and
/// sizes. `hash` is the digest of the archive file as stored, not of the
/// uncompressed content.
#[derive(Debug)]
pub struct BackupItem {
    pub path: String,
    pub archive: String,
    pub hash: String,
    pub archive_size_bytes: u64,
    pub source_size_bytes: u64,
}

/// The record of one run: written once after all items are archived,
/// read-only thereafter.
#[derive(Debug)]
pub struct BackupMetadata {
    pub timestamp: String,
    pub items: Vec<BackupItem>,
    pub hash_algorithm: String,
    pub total_source_size_bytes: u64,
    pub start_time: String,
    pub end_time: String,
    pub duration_seconds: u64,
}

/// One row of the run list: a run's timestamp and whether its manifest is
/// present.
#[derive(Debug)]
pub struct BackupListItem {
    pub timestamp: String,
    pub hash_verified: bool,
}

/// One row of a run's file listing.
#[derive(Debug)]
pub struct BackupFileInfo {
    pub path: String,
    pub archive: String,
    pub archive_size_bytes: u64,
    pub source_size_bytes: u64,
}

/// A run's listing: its items without their digests, plus size totals and
/// timings.
#[derive(Debug)]
pub struct BackupDetails {
    pub timestamp: String,
    pub items: Vec<BackupFileInfo>,
    pub total_source_size_bytes: u64,
    pub total_archive_size_bytes: u64,
    pub start_time: String,
    pub end_time: String,
    pub duration_seconds: u64,
}

/// The index of the first item whose `path` field is `path`.
pub fn find_item(items: &Vec<BackupItem>, path: &str) -> (r: Option<usize>)
    ensures
        match r {
            Some(i) => i < items@.len() && items@[i as int].path@ == path@ && forall|j: int|
                0 <= j < i ==> items@[j].path@ != path@,
            None => forall|j: int| 0 <= j < items@.len() ==> items@[j].path@ != path@,
        },
{
    let mut i: usize = 0;
    while i < items.len()
        invariant
            i <= items@.len(),
            forall|j: int| 0 <= j < i ==> items@[j].path@ != path@,
        decreases items@.len() - i,
    {
        if crate::strutil::str_eq(items[i].path.as_str(), path) {
            return Some(i);
        }
        i = i + 1;
    }
    None
}

/// The sum of a sequence of sizes, as an unbounded integer.
pub open spec fn sum_of(s: Seq<u64>) -> int
    decreases s.len(),
{
    if s.len() == 0 {
        0
    } else {
        sum_of(s.drop_last()) + s.last()
    }
}

pub proof fn lemma_sum_nonneg(s: Seq<u64>)
    ensures
        sum_of(s) >= 0,
    decreases s.len(),
{
    if s.len() > 0 {
        lemma_sum_nonneg(s.drop_last());
    }
}

/// The sum of the sizes, saturating at `u64::MAX`.
pub fn sum_saturating(sizes: &Vec<u64>) -> (r: u64)
    ensures
        r as int == if sum_of(sizes@) <= u64::MAX { sum_of(sizes@) } else { u64::MAX as int },
{
    let mut acc: u64 = 0;
    let mut i: usize = 0;
    while i < sizes.len()
        invariant
            i <= sizes@.len(),
            acc as int == if sum_of(sizes@.take(i as int)) <= u64::MAX {
                sum_of(sizes@.take(i as int))
            } else {
                u64::MAX as int
            },
        decreases sizes@.len() - i,
    {
        let x = sizes[i];
        proof {
            let t = sizes@.take(i + 1);
            assert(t.drop_last() =~= sizes@.take(i as int));
            assert(t.last() == sizes@[i as int]);
            lemma_sum_nonneg(sizes@.take(i as int));
        }
        if acc > u64::MAX - x {
            acc = u64::MAX;
        } else {
            acc = acc + x;
        }
        i = i + 1;
    }
    proof {
        assert(sizes@.take(sizes@.len() as int) =~= sizes@);
    }
    acc
}

/// The source sizes of a run's items, in order.
pub open spec fn source_sizes(items: Seq<BackupItem>) -> Seq<u64> {
    items.map_values(|it: BackupItem| it.source_size_bytes)
}

/// The archive sizes of a run's items, in order.
pub open spec fn archive_sizes(items: Seq<BackupItem>) -> Seq<u64> {
    items.map_values(|it: BackupItem| it.archive_size_bytes)
}

/// The run total: the sum of its items' source sizes, saturating.
pub fn total_source_size(items: &Vec<BackupItem>) -> (r: u64)
    ensures
        r as int == if sum_of(source_sizes(items@)) <= u64::MAX {
            sum_of(source_sizes(items@))
        } else {
            u64::MAX as int
        },
{
    let mut sizes: Vec<u64> = Vec::new();
    let mut i: usize = 0;
    while i < items.len()
        invariant
            i <= items@.len(),
            sizes@ == source_sizes(items@.take(i as int)),
        decreases items@.len() - i,
    {
        sizes.push(items[i].source_size_bytes);
        i = i + 1;
        assert(sizes@ =~= source_sizes(items@.take(i as int)));
    }
    assert(items@.take(items@.len() as int) =~= items@);
    sum_saturating(&sizes)
}

/// A run's listing, derived from its manifest: the same items without
/// their digests, with the archive-size total computed here (saturating)
/// and everything else carried over.
pub fn backup_details(meta: &BackupMetadata) -> (r: BackupDetails)
    ensures
        r.timestamp@ == meta.timestamp@,
        r.items@.len() == meta.items@.len(),
        forall|i: int| 0 <= i < meta.items@.len() ==> {
            &&& #[trigger] r.items@[i].path@ == meta.items@[i].path@
            &&& r.items@[i].archive@ == meta.items@[i].archive@
            &&& r.items@[i].archive_size_bytes == meta.items@[i].archive_size_bytes
            &&& r.items@[i].source_size_bytes == meta.items@[i].source_size_bytes
        },
        r.total_source_size_bytes == meta.total_source_size_bytes,
        r.total_archive_size_bytes as int == if sum_of(archive_sizes(meta.items@))
            <= u64::MAX {
            sum_of(archive_sizes(meta.items@))
        } else {
            u64::MAX as int
        },
        r.start_time@ == meta.start_time@,
        r.end_time@ == meta.end_time@,
        r.duration_seconds == meta.duration_seconds,
{
    let mut infos: Vec<BackupFileInfo> = Vec::new();
    let mut sizes: Vec<u64> = Vec::new();
    let mut i: usize = 0;
    while i < meta.items.len()
        invariant
            i <= meta.items@.len(),
            infos@.len() == i,
            forall|j: int| 0 <= j < i ==> {
                &&& #[trigger] infos@[j].path@ == meta.items@[j].path@
                &&& infos@[j].archive@ == meta.items@[j].archive@
                &&& infos@[j].archive_size_bytes == meta.items@[j].archive_size_bytes
                &&& infos@[j].source_size_bytes == meta.items@[j].source_size_bytes
            },
            sizes@ == archive_sizes(meta.items@.take(i as int)),
        decreases meta.items@.len() - i,
    {
        let it = &meta.items[i];
        infos.push(BackupFileInfo {
            path: it.path.clone(),
            archive: it.archive.clone(),
            archive_size_bytes: it.archive_size_bytes,
            source_size_bytes: it.source_size_bytes,
        });
        sizes.push(it.archive_size_bytes);
        i = i + 1;
        assert(sizes@ =~= archive_sizes(meta.items@.take(i as int)));
    }
    assert(meta.items@.take(meta.items@.len() as int) =~= meta.items@);
    let total_archive = sum_saturating(&sizes);
    BackupDetails {
        timestamp: meta.timestamp.clone(),
        items: infos,
        total_source_size_bytes: meta.total_source_size_bytes,
        total_archive_size_bytes: total_archive,
        start_time: meta.start_time.clone(),
        end_time: meta.end_time.clone(),
        duration_seconds: meta.duration_seconds,
    }
}

/// The latest of the given run timestamps — the lexicographic maximum,
/// which for the run naming scheme is the newest run. `None` only when
/// there are no runs left; the `latest` pointer is then removed.
pub fn max_timestamp(timestamps: &Vec<String>) -> (r: Option<String>)
    ensures
        match r {
            Some(m) => {
                &&& timestamps@.len() > 0
                &&& exists|i: int| 0 <= i < timestamps@.len() && timestamps@[i]@ == m@
                &&& forall|i: int| 0 <= i < timestamps@.len() ==> lex_le(
                    #[trigger] timestamps@[i]@,
                    m@,
                )
            },
            None => timestamps@.len() == 0,
        },
{
    if timestamps.len() == 0 {
        return None;
    }
    let mut best: String = timestamps[0].clone();
    let mut i: usize = 1;
    assert(lex_le(timestamps@[0]@, best@)) by {
        lemma_lex_total(timestamps@[0]@, timestamps@[0]@);
    }
    while i < timestamps.len()
        invariant
            1 <= i <= timestamps@.len(),
            exists|k: int| 0 <= k < i && timestamps@[k]@ == best@,
            forall|k: int| 0 <= k < i ==> lex_le(#[trigger] timestamps@[k]@, best@),
        decreases timestamps@.len() - i,
    {
        let cand = &timestamps[i];
        if str_le(best.as_str(), cand.as_str()) {
            proof {
                assert forall|k: int| 0 <= k < i + 1 implies lex_le(
                    #[trigger] timestamps@[k]@,
                    cand@,
                ) by {
                    if k < i {
                        lemma_lex_trans(timestamps@[k]@, best@, cand@);
                    } else {
                        lemma_lex_total(cand@, cand@);
                    }
                }
            }
            best = cand.clone();
        } else {
            proof {
                lemma_lex_total(best@, cand@);
            }
        }
        i = i + 1;
    }
    Some(best)
}

/// A run's manifest must be present before verification or restore can
/// begin: a missing manifest is fatal to the whole operation, and nothing
/// has been touched when it is reported.
pub fn require_manifest<'a>(meta: Option<&'a BackupMetadata>) -> (r: Result<
    &'a BackupMetadata,
    crate::errors::EngineError,
>)
    ensures
        match meta {
            Some(m) => r matches Ok(got) && got == m,
            None => r == Result::<&'a BackupMetadata, crate::errors::EngineError>::Err(
                crate::errors::EngineError::NotFound,
            ),
        },
{
    match meta {
        Some(m) => Ok(m),
        None => Err(crate::errors::EngineError::NotFound),
    }
}

/// What to do with the `latest` pointer after a run is deleted.
#[derive(Debug)]
pub enum LatestPointerAction {
    /// The deleted run was not the latest: leave the pointer alone.
    Keep,
    /// Point at the newest remaining run.
    SetTo(String),
    /// No runs remain: remove the pointer file.
    Remove,
}

/// Plans the pointer update after deleting a run: only deleting the
/// currently-latest run touches the pointer, which then moves to the
/// newest remaining run or disappears with the last one.
pub fn plan_latest_after_delete(deleted: &str, current: &str, remaining: &Vec<String>) -> (r:
    LatestPointerAction)
    ensures
        deleted@ != current@ ==> r is Keep,
        deleted@ == current@ && remaining@.len() == 0 ==> r is Remove,
        deleted@ == current@ && remaining@.len() > 0 ==> (r matches
            LatestPointerAction::SetTo(m) && (exists|i: int| 0 <= i < remaining@.len()
            && remaining@[i]@ == m@) && (forall|i: int| 0 <= i < remaining@.len() ==> lex_le(
            #[trigger] remaining@[i]@,
            m@,
        ))),
{
    if !crate::strutil::str_eq(deleted, current) {
        LatestPointerAction::Keep
    } else {
        match max_timestamp(remaining) {
            Some(m) => LatestPointerAction::SetTo(m),
            None => LatestPointerAction::Remove,
        }
    }
}

/// Descending order: each row is at or above the next in the timestamp
/// order, so the newest run lists first.
pub open spec fn sorted_desc(s: Seq<Seq<char>>) -> bool {
    forall|i: int, j: int| 0 <= i < j < s.len() ==> lex_le(#[trigger] s[j], #[trigger] s[i])
}

/// Sorts run timestamps newest-first. The result is a permutation of the
/// input (as a multiset of character sequences), in descending order.
pub fn sort_timestamps_desc(input: Vec<String>) -> (r: Vec<String>)
    ensures
        r.deep_view().to_multiset() == input.deep_view().to_multiset(),
        sorted_desc(r.deep_view()),
{
    broadcast use group_to_multiset_ensures;

    let mut src = input;
    let mut out: Vec<String> = Vec::new();
    let ghost orig = src.deep_view();
    proof {
        assert(out.deep_view() + src.deep_view() =~~= orig);
    }
    while src.len() > 0
        invariant
            (out.deep_view() + src.deep_view()).to_multiset() == orig.to_multiset(),
            sorted_desc(out.deep_view()),
            forall|i: int, j: int|
                0 <= i < out.deep_view().len() && 0 <= j < src.deep_view().len() ==> lex_le(
                    #[trigger] src.deep_view()[j],
                    #[trigger] out.deep_view()[i],
                ),
        decreases src.len(),
    {
        let ghost out0 = out.deep_view();
        let ghost src0 = src.deep_view();
        let idx = max_index(&src);
        let picked = src.remove(idx);
        let ghost src1 = src.deep_view();
        out.push(picked);
        proof {
            assert(src1 =~~= src0.remove(idx as int));
            assert(out.deep_view() =~~= out0.push(picked@));
            assert((out0 + src0).to_multiset() =~= (out.deep_view()
                + src.deep_view()).to_multiset()) by {
                lemma_multiset_shift(out0, src0, idx as int);
            }
            assert forall|i: int, j: int|
                0 <= i < j < out.deep_view().len() implies lex_le(
                #[trigger] out.deep_view()[j],
                #[trigger] out.deep_view()[i],
            ) by {
                if j < out0.len() {
                } else {
                    assert(out.deep_view()[j] == picked@);
                    assert(picked@ == src0[idx as int]);
                    assert(lex_le(src0[idx as int], out0[i]));
                    assert(out.deep_view()[i] == out0[i]);
                }
            }
        }
    }
    proof {
        assert(src.deep_view() =~~= Seq::<Seq<char>>::empty());
        assert(out.deep_view() + src.deep_view() =~~= out.deep_view());
    }
    out
}

/// Moving one element from the front sequence to the back of the other
/// keeps the combined multiset.
proof fn lemma_multiset_shift(out0: Seq<Seq<char>>, src0: Seq<Seq<char>>, idx: int)
    requires
        0 <= idx < src0.len(),
    ensures
        (out0 + src0).to_multiset() == (out0.push(src0[idx]) + src0.remove(idx)).to_multiset(),
{
    broadcast use group_to_multiset_ensures;

    let a = out0 + src0;
    let b = out0.push(src0[idx]) + src0.remove(idx);
    lemma_multiset_concat(out0, src0);
    lemma_multiset_concat(out0.push(src0[idx]), src0.remove(idx));
    assert(out0.push(src0[idx]).to_multiset() =~= out0.to_multiset().insert(src0[idx]));
    assert(src0.remove(idx).to_multiset() =~= src0.to_multiset().remove(src0[idx]));
    assert(src0.to_multiset().contains(src0[idx])) by {
        assert(src0.contains(src0[idx]));
    }
    assert(a.to_multiset() =~= b.to_multiset());
}

/// A concatenation's multiset is the sum of the parts' multisets.
pub proof fn lemma_multiset_concat<A>(a: Seq<A>, b: Seq<A>)
    ensures
        (a + b).to_multiset() == a.to_multiset().add(b.to_multiset()),
    decreases b.len(),
{
    broadcast use group_to_multiset_ensures;

    if b.len() == 0 {
        assert(a + b =~= a);
        assert((a + b).to_multiset() =~= a.to_multiset().add(b.to_multiset()));
    } else {
        lemma_multiset_concat(a, b.drop_last());
        assert(a + b =~= (a + b.drop_last()).push(b.last()));
        assert((a + b).to_multiset() =~= (a + b.drop_last()).to_multiset().insert(b.last()));
        assert(b =~= b.drop_last().push(b.last()));
        assert(b.to_multiset() =~= b.drop_last().to_multiset().insert(b.last()));
        assert((a + b).to_multiset() =~= a.to_multiset().add(b.to_multiset()));
    }
}

/// The index of the lexicographically greatest element.
fn max_index(v: &Vec<String>) -> (r: usize)
    requires
        v@.len() > 0,
    ensures
        r < v@.len(),
        forall|i: int| 0 <= i < v@.len() ==> lex_le(#[trigger] v.deep_view()[i], v.deep_view()[r as int]),
{
    let mut best: usize = 0;
    let mut i: usize = 1;
    proof {
        lemma_lex_total(v@[0]@, v@[0]@);
    }
    while i < v.len()
        invariant
            best < i <= v@.len(),
            forall|k: int| 0 <= k < i ==> lex_le(#[trigger] v.deep_view()[k], v.deep_view()[best as int]),
        decreases v@.len() - i,
    {
        if str_le(v[best].as_str(), v[i].as_str()) {
            proof {
                assert forall|k: int| 0 <= k < i + 1 implies lex_le(
                    #[trigger] v.deep_view()[k],
                    v.deep_view()[i as int],
                ) by {
                    if k < i {
                        lemma_lex_trans(v.deep_view()[k], v.deep_view()[best as int], v.deep_view()[i as int]);
                    } else {
                        lemma_lex_total(v.deep_view()[k], v.deep_view()[k]);
                    }
                }
            }
            best = i;
        } else {
            proof {
                lemma_lex_total(v.deep_view()[best as int], v.deep_view()[i as int]);
            }
        }
        i = i + 1;
    }
    best
}

} // verus!
