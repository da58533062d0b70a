//! Verification orchestrator: re-hash every archive of a run and compare
//! against the manifest, sequentially or in an arbitrary completion order
//! (the parallel mode), producing one pass/fail report.
//!
//! Both modes share one specification: the parallel mode's report is
//! proved to name the same failures as the sequential one.

use vstd::prelude::*;
use vstd::string::*;
use vstd::seq_lib::group_to_multiset_ensures;
use crate::digest::{digest_hex, hash_bytes};
use crate::strutil::str_eq;
use crate::manifest::{BackupItem, lemma_multiset_concat};
use crate::strutil::{dec_rep, u64_to_string};

verus! {

/// What the reader found for one archive: its bytes, nothing at that
/// path, or a failed read.
pub enum ArchiveInput {
    Data(Vec<u8>),
    Missing,
    Unreadable,
}

impl ArchiveInput {
    /// The bytes the reader found, as the specification sees them.
    pub open spec fn data_view(&self) -> Seq<u8> {
        match self {
            ArchiveInput::Data(b) => b@,
            _ => Seq::empty(),
        }
    }
}

/// The first 16 hex characters of a digest, as failure reports quote it;
/// a shorter string is quoted whole.
pub open spec fn short_hex(h: Seq<char>) -> Seq<char> {
    if h.len() >= 16 {
        h.subrange(0, 16)
    } else {
        h
    }
}

fn short_hex_exec(h: &str) -> (r: String)
    ensures
        r@ == short_hex(h@),
{
    let n = h.unicode_len();
    if n >= 16 {
        String::from_str(h.substring_char(0, 16))
    } else {
        String::from_str(h)
    }
}

/// The failure report for one item, or `None` when its archive still
/// hashes to the recorded digest. An item fails exactly when its archive
/// is missing, cannot be read, or hashes differently.
pub open spec fn check_msg(item: BackupItem, input: ArchiveInput) -> Option<Seq<char>> {
    match input {
        ArchiveInput::Missing => Some(item.archive@ + ": file not found"@),
        ArchiveInput::Unreadable => Some(item.archive@ + ": read error"@),
        ArchiveInput::Data(b) => if digest_hex(b@) == item.hash@ {
            None
        } else {
            Some(
                item.archive@ + ": hash mismatch (expected: "@ + short_hex(item.hash@)
                    + ", computed: "@ + short_hex(digest_hex(b@)) + ")"@,
            )
        },
    }
}

/// Checks one item: recompute the digest and compare. Returns the failure
/// report, or `None` on a pass.
pub fn check_item(item: &BackupItem, input: &ArchiveInput) -> (r: Option<String>)
    ensures
        match r {
            Some(m) => check_msg(*item, *input) == Some(m@),
            None => check_msg(*item, *input) is None,
        },
{
    match input {
        ArchiveInput::Missing => Some(
            item.archive.clone().concat(": file not found"),
        ),
        ArchiveInput::Unreadable => Some(
            item.archive.clone().concat(": read error"),
        ),
        ArchiveInput::Data(b) => {
            let computed = hash_bytes(b);
            if str_eq(item.hash.as_str(), computed.as_str()) {
                None
            } else {
                let msg = item.archive.clone().concat(": hash mismatch (expected: ")
                    .concat(short_hex_exec(item.hash.as_str()).as_str())
                    .concat(", computed: ")
                    .concat(short_hex_exec(computed.as_str()).as_str())
                    .concat(")");
                Some(msg)
            }
        },
    }
}

/// The failure report of one item, as a sequence of zero or one messages.
pub open spec fn opt_msg(items: Seq<BackupItem>, inputs: Seq<ArchiveInput>, i: usize) -> Seq<
    Seq<char>,
> {
    match check_msg(items[i as int], inputs[i as int]) {
        Some(m) => seq![m],
        None => Seq::empty(),
    }
}

/// The failure reports of the items named by `idxs`, in that order.
pub open spec fn fail_msgs_by(
    items: Seq<BackupItem>,
    inputs: Seq<ArchiveInput>,
    idxs: Seq<usize>,
) -> Seq<Seq<char>>
    decreases idxs.len(),
{
    if idxs.len() == 0 {
        Seq::empty()
    } else {
        fail_msgs_by(items, inputs, idxs.drop_last()) + opt_msg(items, inputs, idxs.last())
    }
}

/// The indices 0, 1, ..., n-1 in order.
pub open spec fn id_seq(n: int) -> Seq<usize> {
    Seq::new(n as nat, |i: int| i as usize)
}

/// The failure reports of a run, in manifest order: what sequential
/// verification accumulates.
pub open spec fn failure_msgs(items: Seq<BackupItem>, inputs: Seq<ArchiveInput>) -> Seq<
    Seq<char>,
> {
    fail_msgs_by(items, inputs, id_seq(items.len() as int))
}

/// The closing message of a report.
pub open spec fn report_msg(total: int, failed: int) -> Seq<char> {
    if failed == 0 {
        "all "@ + dec_rep(total) + " files verified"@
    } else {
        dec_rep(failed) + " of "@ + dec_rep(total) + " files failed"@
    }
}

/// The parallel mode hashes archives in batches of this many concurrent
/// workers; batches run strictly one after another.
pub const PARALLEL_VERIFY_BATCH: usize = 4;

/// The outcome of verifying one run: counts, the failure reports, and an
/// overall flag that is true exactly when nothing failed.
#[derive(Debug)]
pub struct VerifyResult {
    pub success: bool,
    pub total_files: usize,
    pub verified_files: usize,
    pub failed_files: Vec<String>,
    pub message: String,
}

/// The contract both verification modes answer to, up to the order of the
/// failure list.
pub open spec fn verify_post(
    items: Seq<BackupItem>,
    inputs: Seq<ArchiveInput>,
    r: VerifyResult,
) -> bool {
    &&& r.total_files == items.len()
    &&& r.verified_files == items.len() - failure_msgs(items, inputs).len()
    &&& r.failed_files.deep_view().to_multiset() == failure_msgs(items, inputs).to_multiset()
    &&& r.success == (failure_msgs(items, inputs).len() == 0)
    &&& r.message@ == report_msg(items.len() as int, failure_msgs(items, inputs).len() as int)
}

proof fn lemma_fail_msgs_take_step(
    items: Seq<BackupItem>,
    inputs: Seq<ArchiveInput>,
    idxs: Seq<usize>,
    k: int,
)
    requires
        0 <= k < idxs.len(),
    ensures
        fail_msgs_by(items, inputs, idxs.take(k + 1)) == fail_msgs_by(
            items,
            inputs,
            idxs.take(k),
        ) + opt_msg(items, inputs, idxs[k]),
{
    let t = idxs.take(k + 1);
    assert(t.drop_last() =~= idxs.take(k));
    assert(t.last() == idxs[k]);
}

/// Sequential verification: one item at a time, in manifest order. The
/// failure list is exactly `failure_msgs`, in order.
pub fn verify_run(items: &Vec<BackupItem>, inputs: &Vec<ArchiveInput>) -> (r: VerifyResult)
    requires
        inputs@.len() == items@.len(),
    ensures
        verify_post(items@, inputs@, r),
        r.failed_files.deep_view() == failure_msgs(items@, inputs@),
{
    let n = items.len();
    let mut failed: Vec<String> = Vec::new();
    let mut verified: usize = 0;
    let mut i: usize = 0;
    proof {
        assert(id_seq(n as int).take(0) =~= Seq::<usize>::empty());
    }
    while i < n
        invariant
            n == items@.len(),
            inputs@.len() == items@.len(),
            i <= n,
            failed.deep_view() =~~= fail_msgs_by(items@, inputs@, id_seq(n as int).take(
                i as int,
            )),
            verified + failed.deep_view().len() == i,
        decreases n - i,
    {
        let ghost failed0 = failed.deep_view();
        proof {
            lemma_fail_msgs_take_step(items@, inputs@, id_seq(n as int), i as int);
            assert(id_seq(n as int)[i as int] == i as usize);
        }
        match check_item(&items[i], &inputs[i]) {
            Some(m) => {
                failed.push(m);
                proof {
                    assert(failed.deep_view() =~~= failed0.push(m@));
                    assert(failed.deep_view() =~~= fail_msgs_by(
                        items@,
                        inputs@,
                        id_seq(n as int).take(i + 1),
                    ));
                }
            },
            None => {
                verified = verified + 1;
                proof {
                    assert(opt_msg(items@, inputs@, i as usize) =~= Seq::<Seq<char>>::empty());
                    assert(failed.deep_view() =~~= fail_msgs_by(
                        items@,
                        inputs@,
                        id_seq(n as int).take(i + 1),
                    ));
                }
            },
        }
        i = i + 1;
    }
    proof {
        assert(id_seq(n as int).take(n as int) =~= id_seq(n as int));
    }
    let failed_count = failed.len();
    let success = failed_count == 0;
    let message = report_message(n, failed_count);
    VerifyResult {
        success,
        total_files: n,
        verified_files: verified,
        failed_files: failed,
        message,
    }
}

fn report_message(total: usize, failed: usize) -> (r: String)
    ensures
        r@ == report_msg(total as int, failed as int),
{
    if failed == 0 {
        String::from_str("all ").concat(u64_to_string(total as u64).as_str()).concat(
            " files verified",
        )
    } else {
        u64_to_string(failed as u64).concat(" of ").concat(
            u64_to_string(total as u64).as_str(),
        ).concat(" files failed")
    }
}

/// Removing one index from the order removes exactly its report from the
/// accumulated multiset.
proof fn lemma_fail_by_remove(
    items: Seq<BackupItem>,
    inputs: Seq<ArchiveInput>,
    idxs: Seq<usize>,
    p: int,
)
    requires
        0 <= p < idxs.len(),
    ensures
        fail_msgs_by(items, inputs, idxs).to_multiset() == fail_msgs_by(
            items,
            inputs,
            idxs.remove(p),
        ).to_multiset().add(opt_msg(items, inputs, idxs[p]).to_multiset()),
    decreases idxs.len(),
{
    broadcast use group_to_multiset_ensures;

    let whole = fail_msgs_by(items, inputs, idxs);
    if p == idxs.len() - 1 {
        assert(idxs.remove(p) =~= idxs.drop_last());
        lemma_multiset_concat(
            fail_msgs_by(items, inputs, idxs.drop_last()),
            opt_msg(items, inputs, idxs.last()),
        );
        assert(whole.to_multiset() =~= fail_msgs_by(
            items,
            inputs,
            idxs.remove(p),
        ).to_multiset().add(opt_msg(items, inputs, idxs[p]).to_multiset()));
    } else {
        let shorter = idxs.drop_last();
        lemma_fail_by_remove(items, inputs, shorter, p);
        assert(idxs.remove(p).drop_last() =~= shorter.remove(p));
        assert(idxs.remove(p).last() == idxs.last());
        lemma_multiset_concat(
            fail_msgs_by(items, inputs, shorter),
            opt_msg(items, inputs, idxs.last()),
        );
        lemma_multiset_concat(
            fail_msgs_by(items, inputs, shorter.remove(p)),
            opt_msg(items, inputs, idxs.last()),
        );
        assert(whole.to_multiset() =~= fail_msgs_by(
            items,
            inputs,
            idxs.remove(p),
        ).to_multiset().add(opt_msg(items, inputs, idxs[p]).to_multiset()));
    }
}

/// Any two orders over the same indices accumulate the same multiset of
/// failure reports.
proof fn lemma_fail_by_permutation(
    items: Seq<BackupItem>,
    inputs: Seq<ArchiveInput>,
    idxs1: Seq<usize>,
    idxs2: Seq<usize>,
)
    requires
        idxs1.to_multiset() == idxs2.to_multiset(),
    ensures
        fail_msgs_by(items, inputs, idxs1).to_multiset() == fail_msgs_by(
            items,
            inputs,
            idxs2,
        ).to_multiset(),
    decreases idxs1.len(),
{
    broadcast use group_to_multiset_ensures;

    if idxs1.len() == 0 {
        assert(idxs1.to_multiset().len() == idxs1.len());
        assert(idxs2.to_multiset().len() == idxs2.len());
        assert(idxs2 =~= Seq::<usize>::empty());
    } else {
        let x = idxs1.last();
        assert(idxs1.contains(x));
        assert(idxs2.to_multiset().count(x) > 0);
        assert(idxs2.contains(x));
        let p = choose|p: int| 0 <= p < idxs2.len() && idxs2[p] == x;
        assert(idxs1.drop_last() =~= idxs1.remove(idxs1.len() - 1));
        assert(idxs1.drop_last().to_multiset() =~= idxs2.remove(p).to_multiset());
        lemma_fail_by_permutation(items, inputs, idxs1.drop_last(), idxs2.remove(p));
        lemma_fail_by_remove(items, inputs, idxs2, p);
        lemma_multiset_concat(
            fail_msgs_by(items, inputs, idxs1.drop_last()),
            opt_msg(items, inputs, x),
        );
        assert(fail_msgs_by(items, inputs, idxs1).to_multiset() =~= fail_msgs_by(
            items,
            inputs,
            idxs2,
        ).to_multiset());
    }
}

/// Parallel verification, modelled by the order in which the batched
/// workers complete: any permutation of the items. The report carries the
/// same counts, the same overall flag, and the same failures as the
/// sequential mode — only the order of the failure list may differ.
pub fn verify_run_ordered(
    items: &Vec<BackupItem>,
    inputs: &Vec<ArchiveInput>,
    order: &Vec<usize>,
) -> (r: VerifyResult)
    requires
        inputs@.len() == items@.len(),
        order@.to_multiset() == id_seq(items@.len() as int).to_multiset(),
    ensures
        verify_post(items@, inputs@, r),
        r.failed_files.deep_view() == fail_msgs_by(items@, inputs@, order@),
{
    broadcast use group_to_multiset_ensures;

    let n = items.len();
    proof {
        assert(order@.to_multiset().len() == order@.len());
        assert(id_seq(n as int).to_multiset().len() == id_seq(n as int).len());
    }
    let mut failed: Vec<String> = Vec::new();
    let mut verified: usize = 0;
    let mut k: usize = 0;
    proof {
        assert(order@.take(0) =~= Seq::<usize>::empty());
    }
    while k < n
        invariant
            n == items@.len(),
            inputs@.len() == items@.len(),
            order@.len() == n,
            order@.to_multiset() == id_seq(n as int).to_multiset(),
            k <= n,
            failed.deep_view() =~~= fail_msgs_by(items@, inputs@, order@.take(k as int)),
            verified + failed.deep_view().len() == k,
        decreases n - k,
    {
        let idx = order[k];
        proof {
            broadcast use group_to_multiset_ensures;

            assert(order@.contains(order@[k as int]));
            assert(order@.to_multiset().count(idx) > 0);
            assert(id_seq(n as int).to_multiset().count(idx) > 0);
            assert(id_seq(n as int).contains(idx));
            let j = choose|j: int| 0 <= j < n && id_seq(n as int)[j] == idx;
            assert(id_seq(n as int)[j] == j as usize);
        }
        let ghost failed0 = failed.deep_view();
        proof {
            lemma_fail_msgs_take_step(items@, inputs@, order@, k as int);
        }
        match check_item(&items[idx], &inputs[idx]) {
            Some(m) => {
                failed.push(m);
                proof {
                    assert(failed.deep_view() =~~= failed0.push(m@));
                    assert(failed.deep_view() =~~= fail_msgs_by(
                        items@,
                        inputs@,
                        order@.take(k + 1),
                    ));
                }
            },
            None => {
                verified = verified + 1;
                proof {
                    assert(opt_msg(items@, inputs@, idx) =~= Seq::<Seq<char>>::empty());
                    assert(failed.deep_view() =~~= fail_msgs_by(
                        items@,
                        inputs@,
                        order@.take(k + 1),
                    ));
                }
            },
        }
        k = k + 1;
    }
    proof {
        assert(order@.take(n as int) =~= order@);
        lemma_fail_by_permutation(items@, inputs@, order@, id_seq(n as int));
        assert(failed.deep_view().to_multiset() == failure_msgs(items@, inputs@).to_multiset());
        assert(failed.deep_view().len() == failed.deep_view().to_multiset().len());
        assert(failure_msgs(items@, inputs@).len() == failure_msgs(
            items@,
            inputs@,
        ).to_multiset().len());
    }
    let failed_count = failed.len();
    let success = failed_count == 0;
    let message = report_message(n, failed_count);
    VerifyResult {
        success,
        total_files: n,
        verified_files: verified,
        failed_files: failed,
        message,
    }
}

/// One parallel worker's finding: which item it checked and the failure
/// report `check_item` returned for it (`None` = pass).
pub struct CheckedItem {
    pub index: usize,
    pub report: Option<String>,
}

/// The items the workers covered, in completion order.
pub open spec fn indices_of(checked: Seq<CheckedItem>) -> Seq<usize> {
    checked.map_values(|c: CheckedItem| c.index)
}

/// The failure reports among the findings, in completion order.
pub open spec fn reported_msgs(checked: Seq<CheckedItem>) -> Seq<Seq<char>>
    decreases checked.len(),
{
    if checked.len() == 0 {
        Seq::empty()
    } else {
        let rest = reported_msgs(checked.drop_last());
        match checked.last().report {
            Some(m) => rest.push(m@),
            None => rest,
        }
    }
}

proof fn lemma_reported_msgs_len(checked: Seq<CheckedItem>)
    ensures
        reported_msgs(checked).len() <= checked.len(),
    decreases checked.len(),
{
    if checked.len() > 0 {
        lemma_reported_msgs_len(checked.drop_last());
    }
}

/// Each finding is exactly what `check_item` answers for its item — the
/// per-item specification, at the spec level.
pub open spec fn findings_match(
    items: Seq<BackupItem>,
    inputs: Seq<ArchiveInput>,
    checked: Seq<CheckedItem>,
) -> bool {
    forall|k: int| 0 <= k < checked.len() ==> {
        let c = #[trigger] checked[k];
        &&& c.index < items.len()
        &&& match c.report {
            Some(m) => check_msg(items[c.index as int], inputs[c.index as int]) == Some(m@),
            None => check_msg(items[c.index as int], inputs[c.index as int]) is None,
        }
    }
}

/// Assembles the parallel report from the workers' findings, exactly as
/// given: the failure list is the reported failures in completion order,
/// the counts and flag follow from it. Fed findings that `check_item`
/// produced, once per item, the result meets `verify_post` — see
/// `lemma_parallel_report_sound`.
pub fn collect_parallel_report(total: usize, checked: &Vec<CheckedItem>) -> (r: VerifyResult)
    requires
        checked@.len() == total,
    ensures
        r.total_files == total,
        r.failed_files.deep_view() == reported_msgs(checked@),
        r.verified_files == total - reported_msgs(checked@).len(),
        r.success == (reported_msgs(checked@).len() == 0),
        r.message@ == report_msg(total as int, reported_msgs(checked@).len() as int),
{
    let mut failed: Vec<String> = Vec::new();
    let mut verified: usize = 0;
    let mut k: usize = 0;
    proof {
        assert(checked@.take(0) =~= Seq::<CheckedItem>::empty());
        lemma_reported_msgs_len(checked@);
    }
    while k < checked.len()
        invariant
            checked@.len() == total,
            k <= total,
            failed.deep_view() =~~= reported_msgs(checked@.take(k as int)),
            verified + failed.deep_view().len() == k,
        decreases checked@.len() - k,
    {
        let ghost failed0 = failed.deep_view();
        proof {
            let tk = checked@.take(k + 1);
            assert(tk.drop_last() =~= checked@.take(k as int));
            assert(tk.last() == checked@[k as int]);
        }
        match &checked[k].report {
            Some(m) => {
                failed.push(m.clone());
                proof {
                    assert(failed.deep_view() =~~= failed0.push(
                        checked@[k as int].report->Some_0@,
                    ));
                    assert(failed.deep_view() =~~= reported_msgs(checked@.take(k + 1)));
                }
            },
            None => {
                verified = verified + 1;
                proof {
                    assert(failed.deep_view() =~~= reported_msgs(checked@.take(k + 1)));
                }
            },
        }
        k = k + 1;
    }
    proof {
        assert(checked@.take(checked@.len() as int) =~= checked@);
    }
    let failed_count = failed.len();
    let success = failed_count == 0;
    let message = report_message(total, failed_count);
    VerifyResult {
        success,
        total_files: total,
        verified_files: verified,
        failed_files: failed,
        message,
    }
}

/// Findings that match the per-item specification accumulate exactly the
/// failure reports of the items they cover, in the same order.
proof fn lemma_reported_is_fail_by(
    items: Seq<BackupItem>,
    inputs: Seq<ArchiveInput>,
    checked: Seq<CheckedItem>,
)
    requires
        findings_match(items, inputs, checked),
    ensures
        reported_msgs(checked) == fail_msgs_by(items, inputs, indices_of(checked)),
    decreases checked.len(),
{
    if checked.len() == 0 {
        assert(indices_of(checked) =~= Seq::<usize>::empty());
    } else {
        let shorter = checked.drop_last();
        assert(findings_match(items, inputs, shorter)) by {
            assert forall|k: int| 0 <= k < shorter.len() implies {
                let c = #[trigger] shorter[k];
                &&& c.index < items.len()
                &&& match c.report {
                    Some(m) => check_msg(items[c.index as int], inputs[c.index as int])
                        == Some(m@),
                    None => check_msg(items[c.index as int], inputs[c.index as int]) is None,
                }
            } by {
                assert(shorter[k] == checked[k]);
            }
        }
        lemma_reported_is_fail_by(items, inputs, shorter);
        let idxs = indices_of(checked);
        assert(idxs.drop_last() =~= indices_of(shorter));
        assert(idxs.last() == checked.last().index);
        assert(checked.last() == checked[checked.len() - 1]);
        assert(reported_msgs(checked) =~= fail_msgs_by(items, inputs, idxs));
    }
}

/// The parallel driver is sound: findings produced by `check_item`, one
/// per item in any completion order, assemble into a report that meets
/// the same contract as the built-in verification modes.
pub proof fn lemma_parallel_report_sound(
    items: Seq<BackupItem>,
    inputs: Seq<ArchiveInput>,
    checked: Seq<CheckedItem>,
    r: VerifyResult,
)
    requires
        inputs.len() == items.len(),
        indices_of(checked).to_multiset() == id_seq(items.len() as int).to_multiset(),
        findings_match(items, inputs, checked),
        r.total_files == items.len(),
        r.failed_files.deep_view() == reported_msgs(checked),
        r.verified_files == items.len() - reported_msgs(checked).len(),
        r.success == (reported_msgs(checked).len() == 0),
        r.message@ == report_msg(items.len() as int, reported_msgs(checked).len() as int),
    ensures
        verify_post(items, inputs, r),
{
    broadcast use group_to_multiset_ensures;

    lemma_reported_is_fail_by(items, inputs, checked);
    lemma_fail_by_permutation(
        items,
        inputs,
        indices_of(checked),
        id_seq(items.len() as int),
    );
    assert(r.failed_files.deep_view().to_multiset() == failure_msgs(items, inputs).to_multiset());
    assert(reported_msgs(checked).len() == reported_msgs(checked).to_multiset().len());
    assert(failure_msgs(items, inputs).len() == failure_msgs(items, inputs).to_multiset().len());
}

/// Verification is idempotent: over one manifest and unchanged archives,
/// any two reports meeting the shared contract agree — same flag, same
/// counts, and the same failure reports.
pub proof fn lemma_verify_idempotent(
    items: Seq<BackupItem>,
    inputs: Seq<ArchiveInput>,
    r1: VerifyResult,
    r2: VerifyResult,
)
    requires
        verify_post(items, inputs, r1),
        verify_post(items, inputs, r2),
    ensures
        r1.success == r2.success,
        r1.total_files == r2.total_files,
        r1.verified_files == r2.verified_files,
        r1.failed_files.deep_view().to_multiset() == r2.failed_files.deep_view().to_multiset(),
        r1.message@ == r2.message@,
{
}

} // verus!
