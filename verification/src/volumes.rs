//! Host-facing classification: which mounted volumes qualify as backup
//! targets, how free space is read off the disk tool's report, and how the
//! user-folder listing is ordered. The probing itself (mounts, file
//! existence, permissions) happens outside; the rules live here.

use vstd::prelude::*;
use vstd::string::*;
use crate::strutil::{lex_le, lemma_lex_total, lemma_lex_trans, str_le, lines_of, replaced,
    all_digits, dec_val, split_chars, str_to_chars, filter_nonempty, nonempty_segments,
    replace_char, parse_u64, chars_to_string};

verus! {

/// One user folder under the users directory.
#[derive(Debug)]
pub struct UserFolder {
    pub name: String,
    pub path: String,
    pub readable: bool,
    pub is_current_user: bool,
}

/// The outcome of probing one path for read permission.
#[derive(Debug)]
pub struct PermissionCheckResult {
    pub path: String,
    pub readable: bool,
    pub error_message: Option<String>,
}

/// The outcome of the Full-Disk-Access probe.
#[derive(Debug)]
pub struct FullDiskAccessStatus {
    pub has_full_disk_access: bool,
    pub tested_paths: Vec<String>,
    pub inaccessible_paths: Vec<String>,
}

/// Whether a volume root's entries mark it as a Time Machine volume: any
/// of the three marker names is enough.
pub fn is_time_machine_volume(entries: &Vec<String>) -> (r: bool)
    ensures
        r == exists|i: int| 0 <= i < entries@.len() && {
            ||| #[trigger] entries@[i]@ == ".timemachine"@
            ||| entries@[i]@ == "Backups.backupdb"@
            ||| entries@[i]@ == ".com.apple.timemachine.supported"@
        },
{
    let mut i: usize = 0;
    while i < entries.len()
        invariant
            i <= entries@.len(),
            forall|k: int| 0 <= k < i ==> !{
                ||| #[trigger] entries@[k]@ == ".timemachine"@
                ||| entries@[k]@ == "Backups.backupdb"@
                ||| entries@[k]@ == ".com.apple.timemachine.supported"@
            },
        decreases entries@.len() - i,
    {
        let e = entries[i].as_str();
        if crate::strutil::str_eq(e, ".timemachine") || crate::strutil::str_eq(
            e,
            "Backups.backupdb",
        ) || crate::strutil::str_eq(e, ".com.apple.timemachine.supported") {
            return true;
        }
        i = i + 1;
    }
    false
}

/// Volume names that never qualify as backup targets: the system disks.
pub fn is_system_volume_name(name: &str) -> (r: bool)
    ensures
        r == (name@ == "Macintosh HD"@ || name@ == "Macintosh HD - Data"@),
{
    crate::strutil::str_eq(name, "Macintosh HD") || crate::strutil::str_eq(
        name,
        "Macintosh HD - Data",
    )
}

/// Volume names flagged as internal rather than external media.
pub fn is_internal_volume_name(name: &str) -> (r: bool)
    ensures
        r == {
            ||| crate::strutil::has_prefix(name@, "com.apple"@)
            ||| name@ == "Recovery"@
            ||| name@ == "Preboot"@
            ||| name@ == "VM"@
            ||| name@ == "Update"@
        },
{
    let nv = str_to_chars(name);
    crate::strutil::starts_with(&nv, "com.apple") || crate::strutil::str_eq(name, "Recovery")
        || crate::strutil::str_eq(name, "Preboot") || crate::strutil::str_eq(name, "VM")
        || crate::strutil::str_eq(name, "Update")
}

/// User-folder names that the listing leaves out.
pub fn is_system_user_folder(name: &str) -> (r: bool)
    ensures
        r == (name@ == "Shared"@ || crate::strutil::has_prefix(name@, "."@) || name@
            == "Guest"@),
{
    let nv = str_to_chars(name);
    crate::strutil::str_eq(name, "Shared") || crate::strutil::starts_with(&nv, ".")
        || crate::strutil::str_eq(name, "Guest")
}

/// The whitespace-separated fields of one line of the disk tool's report.
pub open spec fn fields_of(l: Seq<char>) -> Seq<Seq<char>> {
    nonempty_segments(crate::strutil::split_on(replaced(l, '\t', ' '), ' '))
}

/// The available kibibytes in a disk-usage report: the fourth field of
/// the second line, when it is a number. `None` on any other shape.
pub open spec fn df_available_kb(out: Seq<char>) -> Option<u64> {
    let ls = lines_of(out);
    if ls.len() >= 2 {
        let fs = fields_of(ls[1]);
        if fs.len() >= 4 && fs[3].len() > 0 && all_digits(fs[3]) && dec_val(fs[3])
            <= u64::MAX {
            Some(dec_val(fs[3]) as u64)
        } else {
            None
        }
    } else {
        None
    }
}

/// Reads the available kibibytes out of the disk tool's report.
pub fn parse_df_available_kb(out: &str) -> (r: Option<u64>)
    ensures
        r == df_available_kb(out@),
{
    let chars = str_to_chars(out);
    let lines = split_chars(&chars, '\n');
    if lines.len() < 2 {
        return None;
    }
    proof {
        assert(lines.deep_view()[1] == lines@[1]@);
    }
    let spaced = replace_char(&lines[1], '\t', ' ');
    let segs = split_chars(&spaced, ' ');
    let fields = filter_nonempty(&segs);
    if fields.len() < 4 {
        return None;
    }
    proof {
        assert(fields.deep_view()[3] == fields@[3]@);
    }
    parse_u64(&fields[3])
}

/// The listing order of user folders: the current user first, then
/// alphabetically by name.
pub open spec fn folder_le(a: UserFolder, b: UserFolder) -> bool {
    if a.is_current_user != b.is_current_user {
        a.is_current_user
    } else {
        lex_le(a.name@, b.name@)
    }
}

proof fn lemma_folder_le_total(a: UserFolder, b: UserFolder)
    ensures
        folder_le(a, b) || folder_le(b, a),
{
    if a.is_current_user == b.is_current_user {
        lemma_lex_total(a.name@, b.name@);
    }
}

proof fn lemma_folder_le_trans(a: UserFolder, b: UserFolder, c: UserFolder)
    requires
        folder_le(a, b),
        folder_le(b, c),
    ensures
        folder_le(a, c),
{
    if a.is_current_user == b.is_current_user && b.is_current_user == c.is_current_user {
        lemma_lex_trans(a.name@, b.name@, c.name@);
    }
}

fn folder_le_exec(a: &UserFolder, b: &UserFolder) -> (r: bool)
    ensures
        r == folder_le(*a, *b),
{
    if a.is_current_user != b.is_current_user {
        a.is_current_user
    } else {
        str_le(a.name.as_str(), b.name.as_str())
    }
}

/// The view a sorted folder listing is compared by.
pub open spec fn folder_views(fs: Seq<UserFolder>) -> Seq<(Seq<char>, Seq<char>, bool, bool)> {
    fs.map_values(|f: UserFolder| (f.name@, f.path@, f.readable, f.is_current_user))
}

/// Sorts the user-folder listing: the current user's folder first, the
/// rest alphabetically. The result is a permutation of the input.
pub fn order_user_folders(input: Vec<UserFolder>) -> (r: Vec<UserFolder>)
    ensures
        folder_views(r@).to_multiset() == folder_views(input@).to_multiset(),
        forall|i: int, j: int| 0 <= i < j < r@.len() ==> folder_le(
            #[trigger] r@[i],
            #[trigger] r@[j],
        ),
{
    broadcast use vstd::seq_lib::group_to_multiset_ensures;

    let mut src = input;
    let mut out: Vec<UserFolder> = Vec::new();
    let ghost orig = folder_views(src@);
    proof {
        assert(folder_views(out@) + folder_views(src@) =~~= orig);
    }
    while src.len() > 0
        invariant
            (folder_views(out@) + folder_views(src@)).to_multiset() == orig.to_multiset(),
            forall|i: int, j: int| 0 <= i < j < out@.len() ==> folder_le(
                #[trigger] out@[i],
                #[trigger] out@[j],
            ),
            forall|i: int, j: int| 0 <= i < out@.len() && 0 <= j < src@.len() ==> folder_le(
                #[trigger] out@[i],
                #[trigger] src@[j],
            ),
        decreases src.len(),
    {
        let ghost out0 = out@;
        let ghost src0 = src@;
        let idx = min_folder_index(&src);
        let picked = src.remove(idx);
        out.push(picked);
        proof {
            broadcast use vstd::seq_lib::group_to_multiset_ensures;

            assert(folder_views(src@) =~~= folder_views(src0).remove(idx as int));
            assert(folder_views(out@) =~~= folder_views(out0).push(
                (picked.name@, picked.path@, picked.readable, picked.is_current_user),
            ));
            crate::manifest::lemma_multiset_concat(folder_views(out0), folder_views(src0));
            crate::manifest::lemma_multiset_concat(
                folder_views(out@),
                folder_views(src@),
            );
            let pv = (picked.name@, picked.path@, picked.readable, picked.is_current_user);
            assert(folder_views(src0)[idx as int] == pv);
            assert(folder_views(src0).to_multiset().contains(pv)) by {
                assert(folder_views(src0).contains(folder_views(src0)[idx as int]));
            }
            assert(folder_views(out@).to_multiset() =~= folder_views(
                out0,
            ).to_multiset().insert(pv));
            assert(folder_views(src@).to_multiset() =~= folder_views(
                src0,
            ).to_multiset().remove(pv));
            assert((folder_views(out@) + folder_views(src@)).to_multiset()
                =~= orig.to_multiset());
            assert forall|i: int, j: int|
                0 <= i < j < out@.len() implies folder_le(out@[i], out@[j]) by {
                if j == out@.len() - 1 {
                    assert(out@[j] == picked);
                    assert(picked == src0[idx as int]);
                    assert(folder_le(out0[i], src0[idx as int]));
                }
            }
        }
    }
    proof {
        assert(folder_views(src@) =~~= Seq::<(Seq<char>, Seq<char>, bool, bool)>::empty());
        assert(folder_views(out@) + folder_views(src@) =~~= folder_views(out@));
    }
    out
}

/// The index of a least folder in the listing order.
fn min_folder_index(v: &Vec<UserFolder>) -> (r: usize)
    requires
        v@.len() > 0,
    ensures
        r < v@.len(),
        forall|i: int| 0 <= i < v@.len() ==> folder_le(v@[r as int], #[trigger] v@[i]),
{
    let mut best: usize = 0;
    let mut i: usize = 1;
    proof {
        lemma_folder_le_total(v@[0], v@[0]);
    }
    while i < v.len()
        invariant
            best < i <= v@.len(),
            forall|k: int| 0 <= k < i ==> folder_le(v@[best as int], #[trigger] v@[k]),
        decreases v@.len() - i,
    {
        if folder_le_exec(&v[i], &v[best]) {
            proof {
                assert forall|k: int| 0 <= k < i + 1 implies folder_le(
                    v@[i as int],
                    #[trigger] v@[k],
                ) by {
                    if k < i {
                        lemma_folder_le_trans(v@[i as int], v@[best as int], v@[k]);
                    } else {
                        lemma_folder_le_total(v@[k], v@[k]);
                    }
                }
            }
            best = i;
        } else {
            proof {
                lemma_folder_le_total(v@[best as int], v@[i as int]);
            }
        }
        i = i + 1;
    }
    best
}

} // verus!
