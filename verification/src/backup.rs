//! Backup orchestrator: the per-run state machine, deterministic run
//! naming and timestamps, source-path expansion, the software-inventory
//! snapshot selection, and manifest assembly.
//!
//! The filesystem work happens outside; each step the app performs is
//! driven and recorded through the contracts here, so cancellation and
//! manifest-writing obey the machine below.

use vstd::prelude::*;
use vstd::string::*;
use crate::cancel::CancelSupervisor;
use crate::manifest::{BackupItem, BackupMetadata, sum_of, source_sizes, total_source_size};
use crate::strutil::{digit_char, dec_rep, has_prefix, lines_of, trimmed, u64_to_string,
    push_char, str_to_chars, trim_chars, starts_with, split_lines, chars_to_string};

verus! {

/// Two decimal digits, zero-padded.
pub open spec fn pad2(n: int) -> Seq<char> {
    seq![digit_char(n / 10 % 10), digit_char(n % 10)]
}

/// Four decimal digits, zero-padded.
pub open spec fn pad4(n: int) -> Seq<char> {
    seq![
        digit_char(n / 1000 % 10),
        digit_char(n / 100 % 10),
        digit_char(n / 10 % 10),
        digit_char(n % 10),
    ]
}

fn push_pad2(s: &mut String, n: u64)
    requires
        n < 100,
    ensures
        final(s)@ == old(s)@ + pad2(n as int),
{
    push_char(s, digit_char_exec(n / 10 % 10));
    push_char(s, digit_char_exec(n % 10));
    assert(final(s)@ =~= old(s)@ + pad2(n as int));
}

fn push_pad4(s: &mut String, n: u64)
    requires
        n < 10000,
    ensures
        final(s)@ == old(s)@ + pad4(n as int),
{
    push_char(s, digit_char_exec(n / 1000 % 10));
    push_char(s, digit_char_exec(n / 100 % 10));
    push_char(s, digit_char_exec(n / 10 % 10));
    push_char(s, digit_char_exec(n % 10));
    assert(final(s)@ =~= old(s)@ + pad4(n as int));
}

fn digit_char_exec(d: u64) -> (c: char)
    requires
        d < 10,
    ensures
        c == digit_char(d as int),
{
    if d == 0 { '0' }
    else if d == 1 { '1' }
    else if d == 2 { '2' }
    else if d == 3 { '3' }
    else if d == 4 { '4' }
    else if d == 5 { '5' }
    else if d == 6 { '6' }
    else if d == 7 { '7' }
    else if d == 8 { '8' }
    else { '9' }
}

/// A run identifier: `YYYYMMDD-HHMMSS`, filesystem-safe and sorted by
/// creation order.
pub open spec fn timestamp_spec(y: int, mo: int, d: int, h: int, mi: int, s: int) -> Seq<
    char,
> {
    pad4(y) + pad2(mo) + pad2(d) + seq!['-'] + pad2(h) + pad2(mi) + pad2(s)
}

/// Formats a run identifier from clock fields.
pub fn format_timestamp(y: u64, mo: u64, d: u64, h: u64, mi: u64, s: u64) -> (r: String)
    requires
        y < 10000,
        mo <= 12,
        d <= 31,
        h < 24,
        mi < 60,
        s < 60,
    ensures
        r@ == timestamp_spec(y as int, mo as int, d as int, h as int, mi as int, s as int),
{
    let mut r = String::new();
    push_pad4(&mut r, y);
    push_pad2(&mut r, mo);
    push_pad2(&mut r, d);
    push_char(&mut r, '-');
    push_pad2(&mut r, h);
    push_pad2(&mut r, mi);
    push_pad2(&mut r, s);
    proof {
        assert(r@ =~= timestamp_spec(
            y as int,
            mo as int,
            d as int,
            h as int,
            mi as int,
            s as int,
        ));
    }
    r
}

proof fn lemma_digit_char_code(d: int)
    requires
        0 <= d < 10,
    ensures
        digit_char(d) as int == 48 + d,
{
}

/// The two-digit pad orders as the numbers do, and distinct numbers get
/// distinct pads.
proof fn lemma_pad2_le(a: int, b: int)
    requires
        0 <= a <= b < 100,
    ensures
        crate::strutil::lex_le(pad2(a), pad2(b)),
        a < b ==> pad2(a) != pad2(b),
{
    lemma_digit_char_code(a / 10 % 10);
    lemma_digit_char_code(a % 10);
    lemma_digit_char_code(b / 10 % 10);
    lemma_digit_char_code(b % 10);
    assert(a / 10 <= b / 10);
    assert(a / 10 % 10 == a / 10 && b / 10 % 10 == b / 10);
    let p = pad2(a);
    let q = pad2(b);
    if a / 10 == b / 10 {
        assert(a % 10 <= b % 10);
        assert(p[0] == q[0]);
        assert(p.drop_first() =~= seq![digit_char(a % 10)]);
        assert(q.drop_first() =~= seq![digit_char(b % 10)]);
        if a % 10 == b % 10 {
            assert(p =~= q);
            crate::strutil::lemma_lex_total(p, q);
        } else {
            assert((digit_char(a % 10) as int) < (digit_char(b % 10) as int));
            assert(crate::strutil::lex_le(p.drop_first(), q.drop_first()));
            assert(crate::strutil::lex_le(p, q));
            assert(p[1] != q[1]);
        }
    } else {
        assert((p[0] as int) < (q[0] as int));
        assert(p[0] != q[0]);
        assert(crate::strutil::lex_le(p, q));
    }
}

/// The four-digit pad splits into two two-digit pads.
proof fn lemma_pad4_split(n: int)
    requires
        0 <= n < 10000,
    ensures
        pad4(n) == pad2(n / 100) + pad2(n % 100),
{
    assert(n / 100 / 10 == n / 1000) by (nonlinear_arith)
        requires 0 <= n,
    ;
    assert(n % 100 / 10 == n / 10 % 10) by (nonlinear_arith)
        requires 0 <= n,
    ;
    assert(n % 100 % 10 == n % 10) by (nonlinear_arith)
        requires 0 <= n,
    ;
    assert(n / 10 % 10 % 10 == n / 10 % 10);
    assert(pad4(n) =~= pad2(n / 100) + pad2(n % 100));
}

/// The four-digit pad orders as the numbers do, and distinct numbers get
/// distinct pads.
proof fn lemma_pad4_le(a: int, b: int)
    requires
        0 <= a <= b < 10000,
    ensures
        crate::strutil::lex_le(pad4(a), pad4(b)),
        a < b ==> pad4(a) != pad4(b),
{
    lemma_pad4_split(a);
    lemma_pad4_split(b);
    assert(a / 100 <= b / 100);
    if a / 100 == b / 100 {
        assert(a % 100 <= b % 100);
        lemma_pad2_le(a % 100, b % 100);
        crate::strutil::lemma_lex_concat_eq(pad2(a / 100), pad2(a % 100), pad2(b % 100));
        if a < b {
            assert(a % 100 < b % 100);
            assert(pad2(a % 100) != pad2(b % 100));
            assert(pad4(a) != pad4(b)) by {
                if pad4(a) == pad4(b) {
                    assert(pad4(a)[2] == pad4(b)[2] && pad4(a)[3] == pad4(b)[3]);
                    assert(pad2(a % 100) =~= pad2(b % 100));
                }
            }
        }
    } else {
        lemma_pad2_le(a / 100, b / 100);
        assert(pad2(a / 100) != pad2(b / 100));
        crate::strutil::lemma_lex_concat_lt(
            pad2(a / 100),
            pad2(b / 100),
            pad2(a % 100),
            pad2(b % 100),
        );
        assert(pad4(a) != pad4(b)) by {
            if pad4(a) == pad4(b) {
                assert(pad4(a)[0] == pad4(b)[0] && pad4(a)[1] == pad4(b)[1]);
                assert(pad2(a / 100) =~= pad2(b / 100));
            }
        }
    }
}

/// Clock order on the timestamp fields: earlier or equal, field by field.
pub open spec fn datetime_le(
    y1: int, mo1: int, d1: int, h1: int, mi1: int, s1: int,
    y2: int, mo2: int, d2: int, h2: int, mi2: int, s2: int,
) -> bool {
    if y1 != y2 { y1 < y2 }
    else if mo1 != mo2 { mo1 < mo2 }
    else if d1 != d2 { d1 < d2 }
    else if h1 != h2 { h1 < h2 }
    else if mi1 != mi2 { mi1 < mi2 }
    else { s1 <= s2 }
}

/// Run identifiers sort by creation order: a run started at an earlier
/// (or equal) clock reading formats to a lexicographically earlier (or
/// equal) identifier. This is what makes the run directory both
/// filesystem-safe and sorted by age.
pub proof fn lemma_timestamp_sorted(
    y1: int, mo1: int, d1: int, h1: int, mi1: int, s1: int,
    y2: int, mo2: int, d2: int, h2: int, mi2: int, s2: int,
)
    requires
        0 <= y1 < 10000, 0 <= mo1 < 100, 0 <= d1 < 100,
        0 <= h1 < 100, 0 <= mi1 < 100, 0 <= s1 < 100,
        0 <= y2 < 10000, 0 <= mo2 < 100, 0 <= d2 < 100,
        0 <= h2 < 100, 0 <= mi2 < 100, 0 <= s2 < 100,
        datetime_le(y1, mo1, d1, h1, mi1, s1, y2, mo2, d2, h2, mi2, s2),
    ensures
        crate::strutil::lex_le(
            timestamp_spec(y1, mo1, d1, h1, mi1, s1),
            timestamp_spec(y2, mo2, d2, h2, mi2, s2),
        ),
{
    let t1 = timestamp_spec(y1, mo1, d1, h1, mi1, s1);
    let t2 = timestamp_spec(y2, mo2, d2, h2, mi2, s2);
    let r1 = pad2(mo1) + (pad2(d1) + (seq!['-'] + (pad2(h1) + (pad2(mi1) + pad2(s1)))));
    let r2 = pad2(mo2) + (pad2(d2) + (seq!['-'] + (pad2(h2) + (pad2(mi2) + pad2(s2)))));
    assert(t1 =~= pad4(y1) + r1);
    assert(t2 =~= pad4(y2) + r2);
    lemma_pad4_le(y1, y2);
    if y1 != y2 {
        crate::strutil::lemma_lex_concat_lt(pad4(y1), pad4(y2), r1, r2);
    } else {
        crate::strutil::lemma_lex_concat_eq(pad4(y1), r1, r2);
        let u1 = pad2(d1) + (seq!['-'] + (pad2(h1) + (pad2(mi1) + pad2(s1))));
        let u2 = pad2(d2) + (seq!['-'] + (pad2(h2) + (pad2(mi2) + pad2(s2))));
        lemma_pad2_le(mo1, mo2);
        if mo1 != mo2 {
            crate::strutil::lemma_lex_concat_lt(pad2(mo1), pad2(mo2), u1, u2);
        } else {
            crate::strutil::lemma_lex_concat_eq(pad2(mo1), u1, u2);
            let v1 = seq!['-'] + (pad2(h1) + (pad2(mi1) + pad2(s1)));
            let v2 = seq!['-'] + (pad2(h2) + (pad2(mi2) + pad2(s2)));
            lemma_pad2_le(d1, d2);
            if d1 != d2 {
                crate::strutil::lemma_lex_concat_lt(pad2(d1), pad2(d2), v1, v2);
            } else {
                crate::strutil::lemma_lex_concat_eq(pad2(d1), v1, v2);
                let w1 = pad2(h1) + (pad2(mi1) + pad2(s1));
                let w2 = pad2(h2) + (pad2(mi2) + pad2(s2));
                crate::strutil::lemma_lex_concat_eq(seq!['-'], w1, w2);
                lemma_pad2_le(h1, h2);
                if h1 != h2 {
                    crate::strutil::lemma_lex_concat_lt(
                        pad2(h1),
                        pad2(h2),
                        pad2(mi1) + pad2(s1),
                        pad2(mi2) + pad2(s2),
                    );
                } else {
                    crate::strutil::lemma_lex_concat_eq(
                        pad2(h1),
                        pad2(mi1) + pad2(s1),
                        pad2(mi2) + pad2(s2),
                    );
                    lemma_pad2_le(mi1, mi2);
                    if mi1 != mi2 {
                        crate::strutil::lemma_lex_concat_lt(
                            pad2(mi1),
                            pad2(mi2),
                            pad2(s1),
                            pad2(s2),
                        );
                    } else {
                        crate::strutil::lemma_lex_concat_eq(pad2(mi1), pad2(s1), pad2(s2));
                        lemma_pad2_le(s1, s2);
                    }
                }
            }
        }
    }
}

/// A human-readable wall-clock stamp: `DD.MM.YYYY HH:MM:SS`.
pub open spec fn display_time_spec(y: int, mo: int, d: int, h: int, mi: int, s: int) -> Seq<
    char,
> {
    pad2(d) + seq!['.'] + pad2(mo) + seq!['.'] + pad4(y) + seq![' '] + pad2(h) + seq![':']
        + pad2(mi) + seq![':'] + pad2(s)
}

/// Formats the wall-clock stamp recorded as a run's start and end time.
pub fn format_display_time(y: u64, mo: u64, d: u64, h: u64, mi: u64, s: u64) -> (r: String)
    requires
        y < 10000,
        mo <= 12,
        d <= 31,
        h < 24,
        mi < 60,
        s < 60,
    ensures
        r@ == display_time_spec(y as int, mo as int, d as int, h as int, mi as int, s as int),
{
    let mut r = String::new();
    push_pad2(&mut r, d);
    push_char(&mut r, '.');
    push_pad2(&mut r, mo);
    push_char(&mut r, '.');
    push_pad4(&mut r, y);
    push_char(&mut r, ' ');
    push_pad2(&mut r, h);
    push_char(&mut r, ':');
    push_pad2(&mut r, mi);
    push_char(&mut r, ':');
    push_pad2(&mut r, s);
    proof {
        assert(r@ =~= display_time_spec(
            y as int,
            mo as int,
            d as int,
            h as int,
            mi as int,
            s as int,
        ));
    }
    r
}

/// An elapsed time, phrased as hours/minutes/seconds once large enough.
pub open spec fn duration_spec(secs: int) -> Seq<char> {
    if secs >= 3600 {
        dec_rep(secs / 3600) + "h "@ + dec_rep(secs % 3600 / 60) + "m "@ + dec_rep(secs % 60)
            + "s"@
    } else if secs >= 60 {
        dec_rep(secs / 60) + "m "@ + dec_rep(secs % 60) + "s"@
    } else {
        dec_rep(secs) + "s"@
    }
}

/// Formats an elapsed duration for the closing log line.
pub fn format_duration(secs: u64) -> (r: String)
    ensures
        r@ == duration_spec(secs as int),
{
    if secs >= 3600 {
        u64_to_string(secs / 3600).concat("h ").concat(
            u64_to_string(secs % 3600 / 60).as_str(),
        ).concat("m ").concat(u64_to_string(secs % 60).as_str()).concat("s")
    } else if secs >= 60 {
        u64_to_string(secs / 60).concat("m ").concat(
            u64_to_string(secs % 60).as_str(),
        ).concat("s")
    } else {
        u64_to_string(secs).concat("s")
    }
}

/// Where a configured source resolves to: `~/rest` under the home
/// directory, `~` as the home directory itself, anything else taken as
/// written.
pub open spec fn expanded_source(home: Seq<char>, dir: Seq<char>) -> Seq<char> {
    if dir == "~"@ {
        home
    } else if has_prefix(dir, "~/"@) {
        home + dir.skip(1)
    } else {
        dir
    }
}

/// Expands a configured source path against the home directory.
pub fn expand_source_path(home: &str, dir: &str) -> (r: String)
    ensures
        r@ == expanded_source(home@, dir@),
{
    let dv = str_to_chars(dir);
    if dv.len() == 1 && crate::strutil::str_eq(dir, "~") {
        proof {
            assert(dir@ =~= "~"@);
        }
        return String::from_str(home);
    }
    if starts_with(&dv, "~/") {
        proof {
            reveal_strlit("~/");
            assert(dv@.len() >= 2);
        }
        let mut rest: Vec<char> = Vec::new();
        let mut i: usize = 1;
        assert(rest@ =~= dv@.subrange(1, 1));
        while i < dv.len()
            invariant
                1 <= i <= dv@.len(),
                rest@ == dv@.subrange(1, i as int),
            decreases dv@.len() - i,
        {
            rest.push(dv[i]);
            i = i + 1;
            assert(rest@ =~= dv@.subrange(1, i as int));
        }
        assert(rest@ =~= dv@.skip(1));
        proof {
            reveal_strlit("~");
            reveal_strlit("~/");
            assert(dir@ != "~"@);
        }
        return String::from_str(home).concat(chars_to_string(&rest).as_str());
    }
    proof {
        reveal_strlit("~");
        reveal_strlit("~/");
        if dir@ == "~"@ {
            assert(dv@.len() == 1);
            assert(false);
        }
    }
    String::from_str(dir)
}

/// The phases of one backup run, in order, with the two absorbing ends.
#[derive(Clone, Copy, Debug, PartialEq, Eq, Structural)]
pub enum BackupPhase {
    CollectingInventory,
    ArchivingDirectories,
    ArchivingInventoryItems,
    ArchivingOptionalItems,
    WritingManifest,
    UpdatingLatestPointer,
    Completed,
    Cancelled,
    Failed,
}

/// The phases during which archives are being produced — the ones from
/// which a cancel request takes effect.
pub open spec fn is_archiving_phase(p: BackupPhase) -> bool {
    p is ArchivingDirectories || p is ArchivingInventoryItems || p is ArchivingOptionalItems
}

/// The run state machine's transition relation. `Cancelled` and `Failed`
/// are absorbing: nothing steps out of them.
pub open spec fn can_step(pre: BackupPhase, post: BackupPhase) -> bool {
    ||| (pre is CollectingInventory && post is ArchivingDirectories)
    ||| (pre is ArchivingDirectories && post is ArchivingInventoryItems)
    ||| (pre is ArchivingInventoryItems && post is ArchivingOptionalItems)
    ||| (pre is ArchivingOptionalItems && post is WritingManifest)
    ||| (pre is WritingManifest && post is UpdatingLatestPointer)
    ||| (pre is UpdatingLatestPointer && post is Completed)
    ||| (is_archiving_phase(pre) && post is Cancelled)
    ||| (!(pre is Completed) && !(pre is Cancelled) && !(pre is Failed) && post is Failed)
}

/// Cancellation is absorbing: the machine has no transition out of
/// `Cancelled`. In particular a cancelled run can never reach
/// `WritingManifest` again, so no manifest is written for it.
pub proof fn lemma_cancelled_is_absorbing(post: BackupPhase)
    ensures
        !can_step(BackupPhase::Cancelled, post),
{
}

/// One backup run in progress: its phase, the items archived so far, and
/// the directory cursor.
#[derive(Debug)]
pub struct BackupRun {
    pub phase: BackupPhase,
    pub items: Vec<BackupItem>,
    pub next_dir: usize,
    pub dir_count: usize,
}

impl BackupRun {
    /// A new run over `dir_count` configured directories, about to collect
    /// the software inventory.
    pub fn new(dir_count: usize) -> (r: BackupRun)
        ensures
            r.phase is CollectingInventory,
            r.items@.len() == 0,
            r.next_dir == 0,
            r.dir_count == dir_count,
    {
        BackupRun {
            phase: BackupPhase::CollectingInventory,
            items: Vec::new(),
            next_dir: 0,
            dir_count,
        }
    }

    /// Inventory snapshots are persisted (failures there are logged and
    /// skipped, never fatal); directory archiving begins.
    pub fn finish_inventory(&mut self)
        requires
            old(self).phase is CollectingInventory,
        ensures
            final(self).phase is ArchivingDirectories,
            can_step(old(self).phase, final(self).phase),
            final(self).items == old(self).items,
            final(self).next_dir == old(self).next_dir,
            final(self).dir_count == old(self).dir_count,
    {
        self.phase = BackupPhase::ArchivingDirectories;
    }

    /// Whether a configured directory is still waiting.
    pub fn dirs_remaining(&self) -> (r: bool)
        ensures
            r == (self.next_dir < self.dir_count),
    {
        self.next_dir < self.dir_count
    }

    /// The next directory does not exist: log and move on, never abort.
    pub fn skip_directory(&mut self)
        requires
            old(self).phase is ArchivingDirectories,
            old(self).next_dir < old(self).dir_count,
        ensures
            final(self).phase is ArchivingDirectories,
            final(self).items == old(self).items,
            final(self).next_dir == old(self).next_dir + 1,
            final(self).dir_count == old(self).dir_count,
    {
        self.next_dir = self.next_dir + 1;
    }

    /// The next directory was archived and digested: record its item.
    pub fn record_directory(&mut self, item: BackupItem)
        requires
            old(self).phase is ArchivingDirectories,
            old(self).next_dir < old(self).dir_count,
        ensures
            final(self).phase is ArchivingDirectories,
            final(self).items@ == old(self).items@.push(item),
            final(self).next_dir == old(self).next_dir + 1,
            final(self).dir_count == old(self).dir_count,
    {
        self.items.push(item);
        self.next_dir = self.next_dir + 1;
    }

    /// All configured directories are done; the three reserved inventory
    /// snapshots follow.
    pub fn finish_directories(&mut self)
        requires
            old(self).phase is ArchivingDirectories,
            old(self).next_dir == old(self).dir_count,
        ensures
            final(self).phase is ArchivingInventoryItems,
            can_step(old(self).phase, final(self).phase),
            final(self).items == old(self).items,
        {
        self.phase = BackupPhase::ArchivingInventoryItems;
    }

    /// A reserved inventory snapshot was archived and digested.
    pub fn record_inventory_item(&mut self, item: BackupItem)
        requires
            old(self).phase is ArchivingInventoryItems,
        ensures
            final(self).phase is ArchivingInventoryItems,
            final(self).items@ == old(self).items@.push(item),
            final(self).next_dir == old(self).next_dir,
            final(self).dir_count == old(self).dir_count,
    {
        self.items.push(item);
    }

    /// The reserved snapshots are done; the configured optional items
    /// (package cache, browser settings) follow.
    pub fn finish_inventory_items(&mut self)
        requires
            old(self).phase is ArchivingInventoryItems,
        ensures
            final(self).phase is ArchivingOptionalItems,
            can_step(old(self).phase, final(self).phase),
            final(self).items == old(self).items,
    {
        self.phase = BackupPhase::ArchivingOptionalItems;
    }

    /// An optional item was archived and digested.
    pub fn record_optional_item(&mut self, item: BackupItem)
        requires
            old(self).phase is ArchivingOptionalItems,
        ensures
            final(self).phase is ArchivingOptionalItems,
            final(self).items@ == old(self).items@.push(item),
    {
        self.items.push(item);
    }

    /// The optional items are done; the manifest may now be assembled.
    pub fn finish_optional_items(&mut self)
        requires
            old(self).phase is ArchivingOptionalItems,
        ensures
            final(self).phase is WritingManifest,
            can_step(old(self).phase, final(self).phase),
            final(self).items == old(self).items,
    {
        self.phase = BackupPhase::WritingManifest;
    }

    /// A cancel request was observed during archiving: consume and reset
    /// the flag, name the partial archive the caller must delete, and put
    /// the run into its absorbing `Cancelled` phase. The run is not
    /// partially saved — `assemble_manifest` requires a phase this run
    /// can no longer reach.
    pub fn cancel_run(&mut self, sup: &mut CancelSupervisor, partial_archive: Option<
        &String,
    >) -> (cleanup: Option<String>)
        requires
            is_archiving_phase(old(self).phase),
        ensures
            final(self).phase is Cancelled,
            can_step(old(self).phase, final(self).phase),
            !final(sup).cancelled,
            final(sup).tracked_pid == old(sup).tracked_pid,
            match partial_archive {
                Some(a) => cleanup matches Some(c) && c@ == a@,
                None => cleanup is None,
            },
    {
        self.phase = BackupPhase::Cancelled;
        sup.clear();
        match partial_archive {
            Some(a) => Some(a.clone()),
            None => None,
        }
    }

    /// An unrecoverable I/O error: the run fails, absorbing.
    pub fn fail_run(&mut self)
        requires
            !(old(self).phase is Completed),
            !(old(self).phase is Cancelled),
            !(old(self).phase is Failed),
        ensures
            final(self).phase is Failed,
            can_step(old(self).phase, final(self).phase),
    {
        self.phase = BackupPhase::Failed;
    }

    /// Assembles the run's manifest: every recorded item in order, the
    /// fixed digest-scheme name, and the run total as the sum of the
    /// items' source sizes. Only a run that archived everything without
    /// cancellation or failure can reach this phase.
    pub fn assemble_manifest(
        &self,
        timestamp: &String,
        start_time: &String,
        end_time: &String,
        duration_seconds: u64,
    ) -> (m: BackupMetadata)
        requires
            self.phase is WritingManifest,
        ensures
            m.timestamp@ == timestamp@,
            m.items@ == self.items@,
            m.hash_algorithm@ == "sha256"@,
            m.total_source_size_bytes as int == if sum_of(source_sizes(self.items@))
                <= u64::MAX {
                sum_of(source_sizes(self.items@))
            } else {
                u64::MAX as int
            },
            m.start_time@ == start_time@,
            m.end_time@ == end_time@,
            m.duration_seconds == duration_seconds,
    {
        let total = total_source_size(&self.items);
        BackupMetadata {
            timestamp: timestamp.clone(),
            items: clone_items(&self.items),
            hash_algorithm: String::from_str("sha256"),
            total_source_size_bytes: total,
            start_time: start_time.clone(),
            end_time: end_time.clone(),
            duration_seconds,
        }
    }

    /// The manifest was written once; the `latest` pointer follows.
    pub fn manifest_written(&mut self)
        requires
            old(self).phase is WritingManifest,
        ensures
            final(self).phase is UpdatingLatestPointer,
            can_step(old(self).phase, final(self).phase),
            final(self).items == old(self).items,
    {
        self.phase = BackupPhase::UpdatingLatestPointer;
    }

    /// The pointer was updated; the run is complete.
    pub fn pointer_updated(&mut self)
        requires
            old(self).phase is UpdatingLatestPointer,
        ensures
            final(self).phase is Completed,
            can_step(old(self).phase, final(self).phase),
    {
        self.phase = BackupPhase::Completed;
    }
}

/// A field-for-field copy of a run's items.
fn clone_items(items: &Vec<BackupItem>) -> (r: Vec<BackupItem>)
    ensures
        r@ == items@,
{
    let mut r: Vec<BackupItem> = Vec::new();
    let mut i: usize = 0;
    while i < items.len()
        invariant
            i <= items@.len(),
            r@ =~= items@.take(i as int),
        decreases items@.len() - i,
    {
        let it = &items[i];
        r.push(BackupItem {
            path: it.path.clone(),
            archive: it.archive.clone(),
            hash: it.hash.clone(),
            archive_size_bytes: it.archive_size_bytes,
            source_size_bytes: it.source_size_bytes,
        });
        i = i + 1;
        assert(r@ =~= items@.take(i as int));
    }
    proof {
        assert(items@.take(items@.len() as int) =~= items@);
        assert(r@ == items@);
    }
    r
}

/// The ceiling on the package-manager download cache: anything larger is
/// skipped, logged, and not an error.
pub const MAX_CACHE_SIZE: u64 = 2 * 1024 * 1024 * 1024;

/// Whether the download cache is worth archiving: nonempty and within the
/// fixed 2 GiB ceiling.
pub fn cache_within_limit(size: u64) -> (r: bool)
    ensures
        r == (0 < size <= MAX_CACHE_SIZE),
{
    size > 0 && size <= MAX_CACHE_SIZE
}

/// The app-store lines of a package manifest: lines whose trimmed form
/// opens with the app-store keyword.
pub open spec fn mas_lines_spec(ls: Seq<Seq<char>>) -> Seq<Seq<char>>
    decreases ls.len(),
{
    if ls.len() == 0 {
        Seq::empty()
    } else {
        let rest = mas_lines_spec(ls.drop_last());
        if has_prefix(trimmed(ls.last()), "mas "@) {
            rest.push(ls.last())
        } else {
            rest
        }
    }
}

/// The separator-joined form of the given lines.
pub open spec fn joined(ls: Seq<Seq<char>>, sep: char) -> Seq<char>
    decreases ls.len(),
{
    if ls.len() == 0 {
        Seq::empty()
    } else if ls.len() == 1 {
        ls[0]
    } else {
        joined(ls.drop_last(), sep) + seq![sep] + ls.last()
    }
}

/// The app-store snapshot taken from a package manifest: its `mas` lines,
/// newline-joined; `None` when there are none, in which case no snapshot
/// file is written.
pub fn mas_snapshot(brewfile: &str) -> (r: Option<String>)
    ensures
        match r {
            Some(s) => mas_lines_spec(lines_of(brewfile@)).len() > 0 && s@ == joined(
                mas_lines_spec(lines_of(brewfile@)),
                '\n',
            ),
            None => mas_lines_spec(lines_of(brewfile@)).len() == 0,
        },
{
    let chars = str_to_chars(brewfile);
    let lines = split_lines(&chars);
    let mut picked: Vec<Vec<char>> = Vec::new();
    let mut i: usize = 0;
    proof {
        assert(lines.deep_view().take(0) =~= Seq::<Seq<char>>::empty());
    }
    while i < lines.len()
        invariant
            i <= lines@.len(),
            lines.deep_view() == lines_of(chars@),
            picked.deep_view() =~~= mas_lines_spec(lines.deep_view().take(i as int)),
        decreases lines@.len() - i,
    {
        let ghost picked0 = picked.deep_view();
        let line = &lines[i];
        let t = trim_chars(line);
        proof {
            let tk = lines.deep_view().take(i + 1);
            assert(tk.drop_last() =~= lines.deep_view().take(i as int));
            assert(tk.last() == lines.deep_view()[i as int]);
        }
        proof {
            assert(lines.deep_view()[i as int] == lines@[i as int]@);
        }
        if starts_with(&t, "mas ") {
            picked.push(crate::strutil::copy_chars(line));
            proof {
                assert(picked.deep_view() =~~= picked0.push(lines.deep_view()[i as int]));
            }
        }
        proof {
            assert(picked.deep_view() =~~= mas_lines_spec(lines.deep_view().take(i + 1)));
        }
        i = i + 1;
    }
    proof {
        assert(lines.deep_view().take(lines.deep_view().len() as int) =~= lines.deep_view());
    }
    if picked.len() == 0 {
        return None;
    }
    let mut out = chars_to_string(&picked[0]);
    let mut k: usize = 1;
    while k < picked.len()
        invariant
            1 <= k <= picked@.len(),
            picked.deep_view().len() == picked@.len(),
            out@ =~= joined(picked.deep_view().take(k as int), '\n'),
        decreases picked@.len() - k,
    {
        proof {
            let tk = picked.deep_view().take(k + 1);
            assert(tk.drop_last() =~= picked.deep_view().take(k as int));
            assert(tk.last() == picked.deep_view()[k as int]);
        }
        push_char(&mut out, '\n');
        let next = chars_to_string(&picked[k]);
        out = out.concat(next.as_str());
        k = k + 1;
        proof {
            assert(out@ =~= joined(picked.deep_view().take(k as int), '\n'));
        }
    }
    proof {
        assert(picked.deep_view().take(picked.deep_view().len() as int) =~= picked.deep_view());
    }
    Some(out)
}

/// The curated browser-settings files and directories staged for the
/// optional browser archive, resolved against the home directory. Absent
/// ones are skipped; present ones are copied into a staging directory and
/// archived as one unit.
pub fn safari_source_paths(home: &str) -> (r: Vec<String>)
    ensures
        r.deep_view() =~~= seq![
            home@ + "/Library/Safari/Bookmarks.plist"@,
            home@ + "/Library/Safari/ReadingListArchives"@,
            home@ + "/Library/Safari/Extensions"@,
            home@ + "/Library/Preferences/com.apple.Safari.plist"@,
            home@ + "/Library/Containers/com.apple.Safari/Data/Library/Preferences"@,
            home@ + "/Library/Safari/Favicon Cache"@,
            home@ + "/Library/Safari/TopSites.plist"@,
            home@ + "/Library/Safari/LastSession.plist"@,
        ],
{
    let mut r: Vec<String> = Vec::new();
    r.push(String::from_str(home).concat("/Library/Safari/Bookmarks.plist"));
    r.push(String::from_str(home).concat("/Library/Safari/ReadingListArchives"));
    r.push(String::from_str(home).concat("/Library/Safari/Extensions"));
    r.push(String::from_str(home).concat("/Library/Preferences/com.apple.Safari.plist"));
    r.push(String::from_str(home).concat(
        "/Library/Containers/com.apple.Safari/Data/Library/Preferences",
    ));
    r.push(String::from_str(home).concat("/Library/Safari/Favicon Cache"));
    r.push(String::from_str(home).concat("/Library/Safari/TopSites.plist"));
    r.push(String::from_str(home).concat("/Library/Safari/LastSession.plist"));
    proof {
        assert(r.deep_view() =~~= seq![
            home@ + "/Library/Safari/Bookmarks.plist"@,
            home@ + "/Library/Safari/ReadingListArchives"@,
            home@ + "/Library/Safari/Extensions"@,
            home@ + "/Library/Preferences/com.apple.Safari.plist"@,
            home@ + "/Library/Containers/com.apple.Safari/Data/Library/Preferences"@,
            home@ + "/Library/Safari/Favicon Cache"@,
            home@ + "/Library/Safari/TopSites.plist"@,
            home@ + "/Library/Safari/LastSession.plist"@,
        ]);
    }
    r
}

/// The progress percentage shown while directory `i` of `total` is being
/// archived: 15% after inventory, rising to 75% when the last directory
/// finishes.
pub fn backup_progress_percent(i: usize, total: usize) -> (r: u64)
    requires
        total > 0,
        i < total,
    ensures
        r == 15 + 60 * (i + 1) / (total as int),
        15 <= r <= 75,
{
    let done = (i as u128) + 1;
    let pct = 15 + (60 * done / (total as u128));
    proof {
        let t = total as int;
        let d = i as int + 1;
        assert(60 * d / t <= 60) by (nonlinear_arith)
            requires 0 < t, 0 < d <= t,
        ;
        assert(60 * d / t >= 0) by (nonlinear_arith)
            requires 0 < t, 0 < d,
        ;
    }
    pct as u64
}

} // verus!
