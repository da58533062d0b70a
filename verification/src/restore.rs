//! Restore orchestrator: item dispatch by identifier, destination
//! resolution, the per-restorer parsing and reconciliation logic
//! (package manager, app store, editor extensions, browser settings,
//! download cache), and the three-bucket outcome bookkeeping.
//!
//! The external installers and extractors run outside the crate; what is
//! selected, skipped and counted is decided here.

use vstd::prelude::*;
use vstd::string::*;
use crate::errors::EngineError;
use crate::manifest::{BackupItem, BackupMetadata};
use crate::strutil::{contains_seq, contains_str, first_occurrence, find_first, has_prefix,
    lines_of, trimmed, starts_with, split_lines, split_chars, str_to_chars, chars_to_string,
    slice_chars, trim_chars, copy_chars};

verus! {

/// The restorer an item identifier dispatches to.
#[derive(Clone, Copy, Debug, PartialEq, Eq, Structural)]
pub enum RestoreKind {
    Homebrew,
    MasApps,
    VscodeExtensions,
    SafariSettings,
    HomebrewCache,
    Generic,
}

/// The dispatch rule: the five reserved identifiers name their
/// specialized restorers; every other identifier is an ordinary path.
pub open spec fn kind_of(path: Seq<char>) -> RestoreKind {
    if path == "homebrew-packages"@ {
        RestoreKind::Homebrew
    } else if path == "mas-apps"@ {
        RestoreKind::MasApps
    } else if path == "vscode-extensions"@ {
        RestoreKind::VscodeExtensions
    } else if path == "safari-settings"@ {
        RestoreKind::SafariSettings
    } else if path == "homebrew-cache"@ {
        RestoreKind::HomebrewCache
    } else {
        RestoreKind::Generic
    }
}

/// Dispatches one selected identifier.
pub fn classify_item(path: &str) -> (r: RestoreKind)
    ensures
        r == kind_of(path@),
{
    if crate::strutil::str_eq(path, "homebrew-packages") {
        RestoreKind::Homebrew
    } else if crate::strutil::str_eq(path, "mas-apps") {
        RestoreKind::MasApps
    } else if crate::strutil::str_eq(path, "vscode-extensions") {
        RestoreKind::VscodeExtensions
    } else if crate::strutil::str_eq(path, "safari-settings") {
        RestoreKind::SafariSettings
    } else if crate::strutil::str_eq(path, "homebrew-cache") {
        RestoreKind::HomebrewCache
    } else {
        RestoreKind::Generic
    }
}

/// Where a generic item restores to: `~/rest` under home, an absolute
/// path as written, anything else under home.
pub open spec fn resolved_target(home: Seq<char>, path: Seq<char>) -> Seq<char> {
    if has_prefix(path, "~/"@) {
        home + path.skip(1)
    } else if has_prefix(path, "/"@) {
        path
    } else {
        home + "/"@ + path
    }
}

/// Resolves a generic item's destination against the home directory.
pub fn resolve_restore_target(home: &str, path: &str) -> (r: String)
    ensures
        r@ == resolved_target(home@, path@),
{
    let pv = str_to_chars(path);
    if starts_with(&pv, "~/") {
        proof {
            reveal_strlit("~/");
        }
        let rest = slice_chars(&pv, 1, pv.len());
        assert(rest@ =~= pv@.skip(1));
        String::from_str(home).concat(chars_to_string(&rest).as_str())
    } else if starts_with(&pv, "/") {
        String::from_str(path)
    } else {
        String::from_str(home).concat("/").concat(path)
    }
}

/// What to do with a generic item, given whether its destination already
/// exists and the run's overwrite flag.
#[derive(Clone, Copy, Debug, PartialEq, Eq, Structural)]
pub enum GenericAction {
    /// Record a skipped outcome; do not touch the filesystem.
    Skip,
    /// Extract the archive over the destination.
    Extract,
}

/// The overwrite rule: an existing destination with overwrite off is
/// skipped — and nothing else ever is.
pub fn generic_restore_action(target_exists: bool, overwrite: bool) -> (r: GenericAction)
    ensures
        (r is Skip) == (target_exists && !overwrite),
{
    if target_exists && !overwrite {
        GenericAction::Skip
    } else {
        GenericAction::Extract
    }
}

/// The plan for one selected identifier.
#[derive(Debug)]
pub enum ItemPlan {
    /// The identifier is not in the manifest: a per-item error, not fatal.
    NotInBackup,
    /// A reserved identifier, handled by its specialized restorer.
    Reserved { kind: RestoreKind, archive: String },
    /// An ordinary path, extracted to its resolved destination.
    Generic { archive: String, destination: String },
}

/// `j` names the first manifest item whose identifier is `path`.
pub open spec fn is_first_match(items: Seq<BackupItem>, path: Seq<char>, j: int) -> bool {
    &&& 0 <= j < items.len()
    &&& items[j].path@ == path
    &&& forall|k: int| 0 <= k < j ==> items[k].path@ != path
}

/// Looks one selected identifier up in the manifest and plans its
/// restore: unknown identifiers become per-item errors, reserved ones
/// dispatch to their restorer, and ordinary paths resolve a destination.
/// The archive restored is the first manifest entry under the identifier.
pub fn plan_restore_item(meta: &BackupMetadata, path: &str, home: &str) -> (r: ItemPlan)
    ensures
        match r {
            ItemPlan::NotInBackup => forall|j: int| 0 <= j < meta.items@.len()
                ==> meta.items@[j].path@ != path@,
            ItemPlan::Reserved { kind, archive } => {
                &&& kind == kind_of(path@)
                &&& !(kind_of(path@) is Generic)
                &&& exists|j: int| is_first_match(meta.items@, path@, j) && archive@
                    == meta.items@[j].archive@
            },
            ItemPlan::Generic { archive, destination } => {
                &&& kind_of(path@) is Generic
                &&& exists|j: int| is_first_match(meta.items@, path@, j) && archive@
                    == meta.items@[j].archive@
                &&& destination@ == resolved_target(home@, path@)
            },
        },
{
    match crate::manifest::find_item(&meta.items, path) {
        None => ItemPlan::NotInBackup,
        Some(i) => {
            proof {
                assert(is_first_match(meta.items@, path@, i as int));
            }
            let kind = classify_item(path);
            let archive = meta.items[i].archive.clone();
            match kind {
                RestoreKind::Generic => {
                    let destination = resolve_restore_target(home, path);
                    proof {
                        assert(is_first_match(meta.items@, path@, i as int) && destination@
                            == resolved_target(home@, path@));
                    }
                    ItemPlan::Generic { archive, destination }
                },
                _ => ItemPlan::Reserved { kind, archive },
            }
        },
    }
}

/// Which of the three buckets one item's outcome fell into.
#[derive(Clone, Copy, Debug, PartialEq, Eq, Structural)]
pub enum OutcomeKind {
    Restored,
    Skipped,
    Errored,
}

/// One item's outcome: its report label and its bucket.
#[derive(Debug)]
pub struct ItemOutcome {
    pub label: String,
    pub kind: OutcomeKind,
}

/// The final shape of a restore run: the three buckets and their counts.
#[derive(Debug)]
pub struct RestoreResult {
    pub restored_count: usize,
    pub skipped_count: usize,
    pub error_count: usize,
    pub restored: Vec<String>,
    pub skipped: Vec<String>,
    pub errors: Vec<String>,
}

/// The labels of the outcomes in bucket `k`, in order.
pub open spec fn bucket_labels(os: Seq<ItemOutcome>, k: OutcomeKind) -> Seq<Seq<char>>
    decreases os.len(),
{
    if os.len() == 0 {
        Seq::empty()
    } else {
        let rest = bucket_labels(os.drop_last(), k);
        if os.last().kind == k {
            rest.push(os.last().label@)
        } else {
            rest
        }
    }
}

/// Folds per-item outcomes into the three buckets. Every outcome lands in
/// exactly one bucket: each count is its bucket's length, and the three
/// counts sum to the number of outcomes — nothing is dropped or
/// double-counted.
pub fn summarize_outcomes(outcomes: &Vec<ItemOutcome>) -> (r: RestoreResult)
    ensures
        r.restored.deep_view() == bucket_labels(outcomes@, OutcomeKind::Restored),
        r.skipped.deep_view() == bucket_labels(outcomes@, OutcomeKind::Skipped),
        r.errors.deep_view() == bucket_labels(outcomes@, OutcomeKind::Errored),
        r.restored_count == r.restored.deep_view().len(),
        r.skipped_count == r.skipped.deep_view().len(),
        r.error_count == r.errors.deep_view().len(),
        r.restored_count + r.skipped_count + r.error_count == outcomes@.len(),
{
    let mut restored: Vec<String> = Vec::new();
    let mut skipped: Vec<String> = Vec::new();
    let mut errors: Vec<String> = Vec::new();
    let mut i: usize = 0;
    proof {
        assert(outcomes@.take(0) =~= Seq::<ItemOutcome>::empty());
    }
    while i < outcomes.len()
        invariant
            i <= outcomes@.len(),
            restored.deep_view() =~~= bucket_labels(
                outcomes@.take(i as int),
                OutcomeKind::Restored,
            ),
            skipped.deep_view() =~~= bucket_labels(
                outcomes@.take(i as int),
                OutcomeKind::Skipped,
            ),
            errors.deep_view() =~~= bucket_labels(
                outcomes@.take(i as int),
                OutcomeKind::Errored,
            ),
            restored@.len() + skipped@.len() + errors@.len() == i,
        decreases outcomes@.len() - i,
    {
        let ghost r0 = restored.deep_view();
        let ghost s0 = skipped.deep_view();
        let ghost e0 = errors.deep_view();
        proof {
            let tk = outcomes@.take(i + 1);
            assert(tk.drop_last() =~= outcomes@.take(i as int));
            assert(tk.last() == outcomes@[i as int]);
        }
        let o = &outcomes[i];
        match o.kind {
            OutcomeKind::Restored => {
                restored.push(o.label.clone());
                proof {
                    assert(restored.deep_view() =~~= r0.push(outcomes@[i as int].label@));
                }
            },
            OutcomeKind::Skipped => {
                skipped.push(o.label.clone());
                proof {
                    assert(skipped.deep_view() =~~= s0.push(outcomes@[i as int].label@));
                }
            },
            OutcomeKind::Errored => {
                errors.push(o.label.clone());
                proof {
                    assert(errors.deep_view() =~~= e0.push(outcomes@[i as int].label@));
                }
            },
        }
        proof {
            assert(restored.deep_view() =~~= bucket_labels(
                outcomes@.take(i + 1),
                OutcomeKind::Restored,
            ));
            assert(skipped.deep_view() =~~= bucket_labels(
                outcomes@.take(i + 1),
                OutcomeKind::Skipped,
            ));
            assert(errors.deep_view() =~~= bucket_labels(
                outcomes@.take(i + 1),
                OutcomeKind::Errored,
            ));
        }
        i = i + 1;
    }
    proof {
        assert(outcomes@.take(outcomes@.len() as int) =~= outcomes@);
    }
    let restored_count = restored.len();
    let skipped_count = skipped.len();
    let error_count = errors.len();
    RestoreResult { restored_count, skipped_count, error_count, restored, skipped, errors }
}

/// Opens a reserved item's archive and hands back its single payload
/// file: the archive must decode, and the payload must carry the expected
/// name. Decode failure is an external-tool error; a missing payload is
/// `NotFound`.
pub fn read_inventory_payload(bytes: &Vec<u8>, expected_name: &str) -> (r: Result<
    Vec<u8>,
    EngineError,
>)
    ensures
        match r {
            Ok(data) => crate::codec::untar_of(bytes@) matches Some(p) && p.0
                == expected_name@ && p.1 == data@,
            Err(e) => {
                ||| (e is ExternalTool && crate::codec::untar_of(bytes@) is None)
                ||| (e is NotFound && (crate::codec::untar_of(bytes@) matches Some(p) && p.0
                    != expected_name@))
            },
        },
{
    match crate::codec::read_file_archive(bytes) {
        None => Err(EngineError::ExternalTool),
        Some((name, data)) => {
            if crate::strutil::str_eq(name.as_str(), expected_name) {
                Ok(data)
            } else {
                Err(EngineError::NotFound)
            }
        },
    }
}

/// A declarative package-manifest entry: a formula, cask or tap line.
pub open spec fn is_brew_entry(l: Seq<char>) -> bool {
    has_prefix(l, "brew "@) || has_prefix(l, "cask "@) || has_prefix(l, "tap "@)
}

/// The number of declarative entries among the lines.
pub open spec fn brew_entry_count(ls: Seq<Seq<char>>) -> int
    decreases ls.len(),
{
    if ls.len() == 0 {
        0
    } else {
        brew_entry_count(ls.drop_last()) + if is_brew_entry(ls.last()) { 1int } else { 0int }
    }
}

proof fn lemma_brew_entry_count_bound(ls: Seq<Seq<char>>)
    ensures
        0 <= brew_entry_count(ls) <= ls.len(),
    decreases ls.len(),
{
    if ls.len() > 0 {
        lemma_brew_entry_count_bound(ls.drop_last());
    }
}

/// Counts the declarative package/cask/tap entries of a package manifest.
pub fn count_brewfile_entries(content: &str) -> (r: usize)
    ensures
        r == brew_entry_count(lines_of(content@)),
{
    let chars = str_to_chars(content);
    let lines = split_lines(&chars);
    let mut count: usize = 0;
    let mut i: usize = 0;
    proof {
        assert(lines.deep_view().take(0) =~= Seq::<Seq<char>>::empty());
        lemma_brew_entry_count_bound(lines.deep_view());
    }
    while i < lines.len()
        invariant
            i <= lines@.len(),
            lines.deep_view().len() == lines@.len(),
            count == brew_entry_count(lines.deep_view().take(i as int)),
            count <= i,
        decreases lines@.len() - i,
    {
        proof {
            let tk = lines.deep_view().take(i + 1);
            assert(tk.drop_last() =~= lines.deep_view().take(i as int));
            assert(tk.last() == lines.deep_view()[i as int]);
            assert(lines.deep_view()[i as int] == lines@[i as int]@);
        }
        let line = &lines[i];
        if starts_with(line, "brew ") || starts_with(line, "cask ") || starts_with(
            line,
            "tap ",
        ) {
            count = count + 1;
        }
        i = i + 1;
    }
    proof {
        assert(lines.deep_view().take(lines.deep_view().len() as int) =~= lines.deep_view());
    }
    count
}

/// What to do for a package-manifest restore.
#[derive(Debug, PartialEq, Eq, Structural)]
pub enum BrewPlan {
    /// Zero declarative entries: report zero restored, invoke nothing.
    NothingToInstall,
    /// Run the package manager's bulk install; `force` reinstalls
    /// already-present packages.
    RunBundle { force: bool },
}

/// Plans a package-manifest restore: with zero declarative entries the
/// package manager is never invoked; otherwise its bulk install runs,
/// forcing reinstalls exactly when the overwrite flag asks for them.
pub fn plan_brew_restore(content: &str, reinstall: bool) -> (r: BrewPlan)
    ensures
        (r is NothingToInstall) == (brew_entry_count(lines_of(content@)) == 0),
        r matches BrewPlan::RunBundle { force } ==> force == reinstall,
{
    let count = count_brewfile_entries(content);
    if count == 0 {
        BrewPlan::NothingToInstall
    } else {
        BrewPlan::RunBundle { force: reinstall }
    }
}

/// A line reporting a newly acted-upon package.
pub open spec fn is_install_line(l: Seq<char>) -> bool {
    has_prefix(l, "Installing "@) || has_prefix(l, "Upgrading "@)
}

/// The number of install/upgrade lines in the tool's output.
pub open spec fn install_line_count(ls: Seq<Seq<char>>) -> int
    decreases ls.len(),
{
    if ls.len() == 0 {
        0
    } else {
        install_line_count(ls.drop_last()) + if is_install_line(ls.last()) { 1int } else { 0int }
    }
}

proof fn lemma_install_line_count_bound(ls: Seq<Seq<char>>)
    ensures
        0 <= install_line_count(ls) <= ls.len(),
    decreases ls.len(),
{
    if ls.len() > 0 {
        lemma_install_line_count_bound(ls.drop_last());
    }
}

/// Counts the newly installed or upgraded packages the tool reported.
pub fn count_installed_lines(stdout: &str) -> (r: usize)
    ensures
        r == install_line_count(lines_of(stdout@)),
{
    let chars = str_to_chars(stdout);
    let lines = split_lines(&chars);
    let mut count: usize = 0;
    let mut i: usize = 0;
    proof {
        assert(lines.deep_view().take(0) =~= Seq::<Seq<char>>::empty());
        lemma_install_line_count_bound(lines.deep_view());
    }
    while i < lines.len()
        invariant
            i <= lines@.len(),
            lines.deep_view().len() == lines@.len(),
            count == install_line_count(lines.deep_view().take(i as int)),
            count <= i,
        decreases lines@.len() - i,
    {
        proof {
            let tk = lines.deep_view().take(i + 1);
            assert(tk.drop_last() =~= lines.deep_view().take(i as int));
            assert(tk.last() == lines.deep_view()[i as int]);
            assert(lines.deep_view()[i as int] == lines@[i as int]@);
        }
        let line = &lines[i];
        if starts_with(line, "Installing ") || starts_with(line, "Upgrading ") {
            count = count + 1;
        }
        i = i + 1;
    }
    proof {
        assert(lines.deep_view().take(lines.deep_view().len() as int) =~= lines.deep_view());
    }
    count
}

/// The bulk install's exit policy: a nonzero exit is fatal only when the
/// error stream says so and nothing was newly installed; otherwise the
/// count of newly acted-upon packages is the (possibly partial) success.
pub fn brew_bundle_outcome(exit_ok: bool, stdout: &str, stderr: &str) -> (r: Result<
    usize,
    EngineError,
>)
    ensures
        ({
            let installed = install_line_count(lines_of(stdout@));
            if !exit_ok && contains_seq(stderr@, "error"@) && installed == 0 {
                r == Result::<usize, EngineError>::Err(EngineError::ExternalTool)
            } else {
                r matches Ok(n) && n == installed
            }
        }),
{
    let installed = count_installed_lines(stdout);
    if !exit_ok {
        let err_chars = str_to_chars(stderr);
        if contains_str(&err_chars, "error") && installed == 0 {
            return Err(EngineError::ExternalTool);
        }
    }
    Ok(installed)
}

/// At most this many app-store installs run concurrently, in sequential
/// batches.
pub const MAX_PARALLEL_MAS: usize = 4;

/// At most this many editor-extension installs run concurrently, in
/// sequential batches.
pub const MAX_PARALLEL_VSCODE: usize = 6;

/// The app id on an app-store line: the trimmed text between the first
/// `id: ` tag and the next one (or the end of the line).
pub open spec fn mas_id_of(l: Seq<char>) -> Seq<char> {
    let fo = first_occurrence(l, "id: "@);
    let after = l.skip(fo + "id: "@.len() as int);
    let fo2 = first_occurrence(after, "id: "@);
    trimmed(
        if fo2 >= 0 {
            after.take(fo2)
        } else {
            after
        },
    )
}

/// The app ids of the app-store lines, in order: every line opening with
/// the app-store keyword that carries an `id: ` tag contributes one.
pub open spec fn mas_ids_spec(ls: Seq<Seq<char>>) -> Seq<Seq<char>>
    decreases ls.len(),
{
    if ls.len() == 0 {
        Seq::empty()
    } else {
        let rest = mas_ids_spec(ls.drop_last());
        if has_prefix(ls.last(), "mas "@) && first_occurrence(ls.last(), "id: "@) >= 0 {
            rest.push(mas_id_of(ls.last()))
        } else {
            rest
        }
    }
}

fn mas_id_exec(line: &Vec<char>) -> (r: Option<String>)
    ensures
        match r {
            Some(s) => first_occurrence(line@, "id: "@) >= 0 && s@ == mas_id_of(line@),
            None => first_occurrence(line@, "id: "@) < 0,
        },
{
    let tag = str_to_chars("id: ");
    proof {
        reveal_strlit("id: ");
    }
    match find_first(line, &tag) {
        None => None,
        Some(i) => {
            let line_len = line.len();
            proof {
                crate::strutil::lemma_first_occurrence(line@, tag@);
                assert(i + tag@.len() <= line@.len());
            }
            let after = slice_chars(line, i + tag.len(), line_len);
            proof {
                assert(after@ =~= line@.skip(i + tag@.len() as int));
            }
            let cut = match find_first(&after, &tag) {
                Some(j) => {
                    proof {
                        crate::strutil::lemma_first_occurrence(after@, tag@);
                    }
                    slice_chars(&after, 0, j)
                },
                None => copy_chars(&after),
            };
            proof {
                if first_occurrence(after@, tag@) >= 0 {
                    assert(cut@ =~= after@.take(first_occurrence(after@, tag@)));
                }
            }
            let id = trim_chars(&cut);
            Some(chars_to_string(&id))
        },
    }
}

/// Reads the app ids out of an app-store snapshot.
pub fn parse_mas_ids(content: &str) -> (r: Vec<String>)
    ensures
        r.deep_view() == mas_ids_spec(lines_of(content@)),
{
    let chars = str_to_chars(content);
    let lines = split_lines(&chars);
    let mut ids: Vec<String> = Vec::new();
    let mut i: usize = 0;
    proof {
        assert(lines.deep_view().take(0) =~= Seq::<Seq<char>>::empty());
    }
    while i < lines.len()
        invariant
            i <= lines@.len(),
            lines.deep_view().len() == lines@.len(),
            ids.deep_view() =~~= mas_ids_spec(lines.deep_view().take(i as int)),
        decreases lines@.len() - i,
    {
        let ghost ids0 = ids.deep_view();
        proof {
            let tk = lines.deep_view().take(i + 1);
            assert(tk.drop_last() =~= lines.deep_view().take(i as int));
            assert(tk.last() == lines.deep_view()[i as int]);
            assert(lines.deep_view()[i as int] == lines@[i as int]@);
        }
        let line = &lines[i];
        if starts_with(line, "mas ") {
            match mas_id_exec(line) {
                Some(id) => {
                    ids.push(id);
                    proof {
                        assert(ids.deep_view() =~~= ids0.push(mas_id_of(
                            lines.deep_view()[i as int],
                        )));
                    }
                },
                None => {},
            }
        }
        proof {
            assert(ids.deep_view() =~~= mas_ids_spec(lines.deep_view().take(i + 1)));
        }
        i = i + 1;
    }
    proof {
        assert(lines.deep_view().take(lines.deep_view().len() as int) =~= lines.deep_view());
    }
    ids
}

/// The ids not present in the installed-apps listing, in order: the ones
/// still to install. Membership is the listing's own text containing the
/// id.
pub open spec fn missing_ids(ids: Seq<Seq<char>>, installed: Seq<char>) -> Seq<Seq<char>>
    decreases ids.len(),
{
    if ids.len() == 0 {
        Seq::empty()
    } else {
        let rest = missing_ids(ids.drop_last(), installed);
        if !contains_seq(installed, ids.last()) {
            rest.push(ids.last())
        } else {
            rest
        }
    }
}

/// Selects the ids the installed-apps listing does not already show.
pub fn select_missing(ids: &Vec<String>, installed: &str) -> (r: Vec<String>)
    ensures
        r.deep_view() == missing_ids(ids.deep_view(), installed@),
{
    let installed_chars = str_to_chars(installed);
    let mut r: Vec<String> = Vec::new();
    let mut i: usize = 0;
    proof {
        assert(ids.deep_view().take(0) =~= Seq::<Seq<char>>::empty());
    }
    while i < ids.len()
        invariant
            i <= ids@.len(),
            ids.deep_view().len() == ids@.len(),
            installed_chars@ == installed@,
            r.deep_view() =~~= missing_ids(ids.deep_view().take(i as int), installed@),
        decreases ids@.len() - i,
    {
        let ghost r0 = r.deep_view();
        proof {
            let tk = ids.deep_view().take(i + 1);
            assert(tk.drop_last() =~= ids.deep_view().take(i as int));
            assert(tk.last() == ids.deep_view()[i as int]);
            assert(ids.deep_view()[i as int] == ids@[i as int]@);
        }
        let idv = str_to_chars(ids[i].as_str());
        if !crate::strutil::contains_chars(&installed_chars, &idv) {
            r.push(ids[i].clone());
            proof {
                assert(r.deep_view() =~~= r0.push(ids.deep_view()[i as int]));
            }
        }
        proof {
            assert(r.deep_view() =~~= missing_ids(ids.deep_view().take(i + 1), installed@));
        }
        i = i + 1;
    }
    proof {
        assert(ids.deep_view().take(ids.deep_view().len() as int) =~= ids.deep_view());
    }
    r
}

/// How many of the ids the listing shows.
pub open spec fn present_count(ids: Seq<Seq<char>>, listing: Seq<char>) -> int
    decreases ids.len(),
{
    if ids.len() == 0 {
        0
    } else {
        present_count(ids.drop_last(), listing) + if contains_seq(listing, ids.last()) { 1int } else { 0int }
    }
}

proof fn lemma_present_count_bound(ids: Seq<Seq<char>>, listing: Seq<char>)
    ensures
        0 <= present_count(ids, listing) <= ids.len(),
    decreases ids.len(),
{
    if ids.len() > 0 {
        lemma_present_count_bound(ids.drop_last(), listing);
    }
}

/// Counts how many of the ids the installed-apps listing now shows: the
/// post-install success count.
pub fn count_present(ids: &Vec<String>, listing: &str) -> (r: usize)
    ensures
        r == present_count(ids.deep_view(), listing@),
{
    let listing_chars = str_to_chars(listing);
    let mut count: usize = 0;
    let mut i: usize = 0;
    proof {
        assert(ids.deep_view().take(0) =~= Seq::<Seq<char>>::empty());
        lemma_present_count_bound(ids.deep_view(), listing@);
    }
    while i < ids.len()
        invariant
            i <= ids@.len(),
            ids.deep_view().len() == ids@.len(),
            listing_chars@ == listing@,
            count == present_count(ids.deep_view().take(i as int), listing@),
            count <= i,
        decreases ids@.len() - i,
    {
        proof {
            let tk = ids.deep_view().take(i + 1);
            assert(tk.drop_last() =~= ids.deep_view().take(i as int));
            assert(tk.last() == ids.deep_view()[i as int]);
            assert(ids.deep_view()[i as int] == ids@[i as int]@);
        }
        let idv = str_to_chars(ids[i].as_str());
        if crate::strutil::contains_chars(&listing_chars, &idv) {
            count = count + 1;
        }
        i = i + 1;
    }
    proof {
        assert(ids.deep_view().take(ids.deep_view().len() as int) =~= ids.deep_view());
    }
    count
}

/// Reads an extension list: its nonempty lines, in order.
pub fn parse_extension_list(content: &str) -> (r: Vec<String>)
    ensures
        r.deep_view() == crate::strutil::nonempty_segments(lines_of(content@)),
{
    let chars = str_to_chars(content);
    let lines = split_lines(&chars);
    let mut r: Vec<String> = Vec::new();
    let mut i: usize = 0;
    proof {
        assert(lines.deep_view().take(0) =~= Seq::<Seq<char>>::empty());
    }
    while i < lines.len()
        invariant
            i <= lines@.len(),
            lines.deep_view().len() == lines@.len(),
            r.deep_view() =~~= crate::strutil::nonempty_segments(lines.deep_view().take(i as int)),
        decreases lines@.len() - i,
    {
        let ghost r0 = r.deep_view();
        proof {
            let tk = lines.deep_view().take(i + 1);
            assert(tk.drop_last() =~= lines.deep_view().take(i as int));
            assert(tk.last() == lines.deep_view()[i as int]);
            assert(lines.deep_view()[i as int] == lines@[i as int]@);
        }
        let line = &lines[i];
        if line.len() > 0 {
            r.push(chars_to_string(line));
            proof {
                assert(r.deep_view() =~~= r0.push(lines.deep_view()[i as int]));
            }
        }
        proof {
            assert(r.deep_view() =~~= crate::strutil::nonempty_segments(lines.deep_view().take(i + 1)));
        }
        i = i + 1;
    }
    proof {
        assert(lines.deep_view().take(lines.deep_view().len() as int) =~= lines.deep_view());
    }
    r
}

/// How many of the per-item results succeeded.
pub open spec fn true_count(rs: Seq<bool>) -> int
    decreases rs.len(),
{
    if rs.len() == 0 {
        0
    } else {
        true_count(rs.drop_last()) + if rs.last() { 1int } else { 0int }
    }
}

proof fn lemma_true_count_bound(rs: Seq<bool>)
    ensures
        0 <= true_count(rs) <= rs.len(),
    decreases rs.len(),
{
    if rs.len() > 0 {
        lemma_true_count_bound(rs.drop_last());
    }
}

/// Counts the installs whose own exit status reported success — the
/// extension restorer's success measure.
pub fn count_successes(results: &Vec<bool>) -> (r: usize)
    ensures
        r == true_count(results@),
{
    let mut count: usize = 0;
    let mut i: usize = 0;
    proof {
        assert(results@.take(0) =~= Seq::<bool>::empty());
        lemma_true_count_bound(results@);
    }
    while i < results.len()
        invariant
            i <= results@.len(),
            count == true_count(results@.take(i as int)),
            count <= i,
        decreases results@.len() - i,
    {
        proof {
            let tk = results@.take(i + 1);
            assert(tk.drop_last() =~= results@.take(i as int));
            assert(tk.last() == results@[i as int]);
        }
        if results[i] {
            count = count + 1;
        }
        i = i + 1;
    }
    proof {
        assert(results@.take(results@.len() as int) =~= results@);
    }
    count
}

/// The extension restorer's exit rule: installing none of a nonempty
/// list is a failure; otherwise the success count stands.
pub fn vscode_restore_outcome(installed: usize, total: usize) -> (r: Result<
    usize,
    EngineError,
>)
    ensures
        installed == 0 && total > 0 ==> r == Result::<usize, EngineError>::Err(
            EngineError::ExternalTool,
        ),
        !(installed == 0 && total > 0) ==> r == Result::<usize, EngineError>::Ok(installed),
{
    if installed == 0 && total > 0 {
        Err(EngineError::ExternalTool)
    } else {
        Ok(installed)
    }
}

/// Splits work into batches of at most `batch_size`, full batches first:
/// the one bounded-concurrency primitive the restorers share. The
/// concatenation of the batches is exactly the input, in order; every
/// batch but the last is full, and none is empty.
pub fn make_batches(items: Vec<String>, batch_size: usize) -> (r: Vec<Vec<String>>)
    requires
        batch_size > 0,
    ensures
        concat_batches(r.deep_view()) == items.deep_view(),
        forall|i: int| 0 <= i < r.deep_view().len() ==> #[trigger] r.deep_view()[i].len()
            <= batch_size,
        forall|i: int| 0 <= i < r.deep_view().len() - 1 ==> #[trigger] r.deep_view()[i].len()
            == batch_size,
        forall|i: int| 0 <= i < r.deep_view().len() ==> #[trigger] r.deep_view()[i].len() > 0,
{
    let mut r: Vec<Vec<String>> = Vec::new();
    let mut cur: Vec<String> = Vec::new();
    let mut i: usize = 0;
    proof {
        assert(items.deep_view().take(0) =~= Seq::<Seq<char>>::empty());
        assert(concat_batches(r.deep_view()) =~= Seq::<Seq<char>>::empty());
    }
    while i < items.len()
        invariant
            i <= items@.len(),
            items.deep_view().len() == items@.len(),
            batch_size > 0,
            cur@.len() < batch_size,
            concat_batches(r.deep_view()) + cur.deep_view() =~~= items.deep_view().take(
                i as int,
            ),
            forall|k: int| 0 <= k < r.deep_view().len() ==> #[trigger] r.deep_view()[k].len()
                == batch_size,
        decreases items@.len() - i,
    {
        let ghost r0 = r.deep_view();
        let ghost cur0 = cur.deep_view();
        cur.push(items[i].clone());
        proof {
            assert(cur.deep_view() =~~= cur0.push(items.deep_view()[i as int]));
            assert(items.deep_view().take(i + 1) =~= items.deep_view().take(i as int).push(
                items.deep_view()[i as int],
            ));
        }
        if cur.len() == batch_size {
            let full = cur;
            cur = Vec::new();
            r.push(full);
            proof {
                assert(r.deep_view() =~~= r0.push(full.deep_view()));
                lemma_concat_batches_push(r0, full.deep_view());
                assert(cur.deep_view() =~~= Seq::<Seq<char>>::empty());
                assert(concat_batches(r.deep_view()) + cur.deep_view() =~~= items.deep_view()
                    .take(i + 1));
            }
        } else {
            proof {
                assert(concat_batches(r.deep_view()) + cur.deep_view() =~~= items.deep_view()
                    .take(i + 1));
            }
        }
        i = i + 1;
    }
    proof {
        assert(items.deep_view().take(items.deep_view().len() as int) =~= items.deep_view());
    }
    if cur.len() > 0 {
        let ghost r0 = r.deep_view();
        let ghost cur0 = cur.deep_view();
        r.push(cur);
        proof {
            assert(r.deep_view() =~~= r0.push(cur0));
            lemma_concat_batches_push(r0, cur0);
            assert(concat_batches(r.deep_view()) =~~= items.deep_view());
        }
    } else {
        proof {
            assert(concat_batches(r.deep_view()) =~~= items.deep_view());
        }
    }
    r
}

/// The batches, concatenated back in order.
pub open spec fn concat_batches(bs: Seq<Seq<Seq<char>>>) -> Seq<Seq<char>>
    decreases bs.len(),
{
    if bs.len() == 0 {
        Seq::empty()
    } else {
        concat_batches(bs.drop_last()) + bs.last()
    }
}

proof fn lemma_concat_batches_push(bs: Seq<Seq<Seq<char>>>, b: Seq<Seq<char>>)
    ensures
        concat_batches(bs.push(b)) == concat_batches(bs) + b,
{
    assert(bs.push(b).drop_last() =~= bs);
    assert(bs.push(b).last() == b);
}

/// One browser-settings payload and where it restores to.
#[derive(Debug)]
pub struct SafariTarget {
    /// The entry's name inside the scratch directory.
    pub name: String,
    /// The absolute destination it is copied to, attribute-preserving.
    pub dest: String,
}

/// The fixed set of browser-settings destinations, resolved against the
/// home directory: bookmarks, reading list, extensions, top sites, last
/// session, and the preferences container. Entries absent from the
/// scratch directory are simply not copied.
pub fn safari_destinations(home: &str) -> (r: Vec<SafariTarget>)
    ensures
        r@.len() == 6,
        r@[0].name@ == "Bookmarks.plist"@ && r@[0].dest@ == home@
            + "/Library/Safari/Bookmarks.plist"@,
        r@[1].name@ == "ReadingListArchives"@ && r@[1].dest@ == home@
            + "/Library/Safari/ReadingListArchives"@,
        r@[2].name@ == "Extensions"@ && r@[2].dest@ == home@ + "/Library/Safari/Extensions"@,
        r@[3].name@ == "TopSites.plist"@ && r@[3].dest@ == home@
            + "/Library/Safari/TopSites.plist"@,
        r@[4].name@ == "LastSession.plist"@ && r@[4].dest@ == home@
            + "/Library/Safari/LastSession.plist"@,
        r@[5].name@ == "Preferences"@ && r@[5].dest@ == home@
            + "/Library/Containers/com.apple.Safari/Data/Library/Preferences"@,
{
    let mut r: Vec<SafariTarget> = Vec::new();
    r.push(SafariTarget {
        name: String::from_str("Bookmarks.plist"),
        dest: String::from_str(home).concat("/Library/Safari/Bookmarks.plist"),
    });
    r.push(SafariTarget {
        name: String::from_str("ReadingListArchives"),
        dest: String::from_str(home).concat("/Library/Safari/ReadingListArchives"),
    });
    r.push(SafariTarget {
        name: String::from_str("Extensions"),
        dest: String::from_str(home).concat("/Library/Safari/Extensions"),
    });
    r.push(SafariTarget {
        name: String::from_str("TopSites.plist"),
        dest: String::from_str(home).concat("/Library/Safari/TopSites.plist"),
    });
    r.push(SafariTarget {
        name: String::from_str("LastSession.plist"),
        dest: String::from_str(home).concat("/Library/Safari/LastSession.plist"),
    });
    r.push(SafariTarget {
        name: String::from_str("Preferences"),
        dest: String::from_str(home).concat(
            "/Library/Containers/com.apple.Safari/Data/Library/Preferences",
        ),
    });
    r
}

/// The package manager's download-cache directory under home, where the
/// cache archive extracts into (created if absent).
pub fn cache_dir_path(home: &str) -> (r: String)
    ensures
        r@ == home@ + "/Library/Caches/Homebrew"@,
{
    String::from_str(home).concat("/Library/Caches/Homebrew")
}

/// Whole mebibytes, as the cache restorer reports its on-disk size.
pub fn bytes_to_mib(total: u64) -> (r: u64)
    ensures
        r == total / 0x100000,
{
    total / 0x100000
}

/// The restore progress shown when item `i` of `total` begins and when it
/// completes.
pub fn restore_progress_bounds(i: usize, total: usize) -> (r: (u64, u64))
    requires
        total > 0,
        i < total,
    ensures
        r.0 == i * 100 / (total as int),
        r.1 == (i + 1) * 100 / (total as int),
        r.1 <= 100,
{
    let start = ((i as u128) * 100 / (total as u128)) as u64;
    let end = (((i as u128) + 1) * 100 / (total as u128)) as u64;
    proof {
        let t = total as int;
        let d = i as int;
        assert(d * 100 / t <= 100) by (nonlinear_arith)
            requires 0 < t, 0 <= d < t,
        ;
        assert((d + 1) * 100 / t <= 100) by (nonlinear_arith)
            requires 0 < t, 0 <= d < t,
        ;
        assert(d * 100 >= 0 && (d + 1) * 100 >= 0) by (nonlinear_arith)
            requires 0 <= d,
        ;
        assert(d * 100 / t >= 0 && (d + 1) * 100 / t >= 0) by (nonlinear_arith)
            requires 0 < t, 0 <= d,
        ;
    }
    (start, end)
}

/// The essentials-first allow-list of formulas: tools that make a fresh
/// system immediately usable.
pub fn essential_brews() -> (r: Vec<String>)
    ensures
        r.deep_view() =~~= seq![
            "git"@, "vim"@, "python"@, "node"@, "curl"@, "wget"@, "htop"@, "tree"@,
            "jq"@, "ripgrep"@, "fd"@, "bat"@, "fzf"@,
        ],
{
    let mut r: Vec<String> = Vec::new();
    r.push(String::from_str("git"));
    r.push(String::from_str("vim"));
    r.push(String::from_str("python"));
    r.push(String::from_str("node"));
    r.push(String::from_str("curl"));
    r.push(String::from_str("wget"));
    r.push(String::from_str("htop"));
    r.push(String::from_str("tree"));
    r.push(String::from_str("jq"));
    r.push(String::from_str("ripgrep"));
    r.push(String::from_str("fd"));
    r.push(String::from_str("bat"));
    r.push(String::from_str("fzf"));
    proof {
        assert(r.deep_view() =~~= seq![
            "git"@, "vim"@, "python"@, "node"@, "curl"@, "wget"@, "htop"@, "tree"@,
            "jq"@, "ripgrep"@, "fd"@, "bat"@, "fzf"@,
        ]);
    }
    r
}

/// The essentials-first allow-list of casks: widely useful applications.
pub fn essential_casks() -> (r: Vec<String>)
    ensures
        r.deep_view() =~~= seq![
            "visual-studio-code"@, "iterm2"@, "google-chrome"@, "firefox"@, "1password"@,
            "rectangle"@, "alfred"@,
        ],
{
    let mut r: Vec<String> = Vec::new();
    r.push(String::from_str("visual-studio-code"));
    r.push(String::from_str("iterm2"));
    r.push(String::from_str("google-chrome"));
    r.push(String::from_str("firefox"));
    r.push(String::from_str("1password"));
    r.push(String::from_str("rectangle"));
    r.push(String::from_str("alfred"));
    proof {
        assert(r.deep_view() =~~= seq![
            "visual-studio-code"@, "iterm2"@, "google-chrome"@, "firefox"@, "1password"@,
            "rectangle"@, "alfred"@,
        ]);
    }
    r
}

/// One install command's result in the essentials-first mode: skipped
/// exactly when the tool itself says the package is already installed.
#[derive(Clone, Copy, Debug, PartialEq, Eq, Structural)]
pub enum InstallOutcome {
    Installed,
    AlreadyPresent,
    Failed,
}

/// Classifies one install command's result by its own output, not by a
/// separate pre-check.
pub fn classify_install(exit_ok: bool, stderr: &str) -> (r: InstallOutcome)
    ensures
        exit_ok ==> r is Installed,
        !exit_ok && contains_seq(stderr@, "already installed"@) ==> r is AlreadyPresent,
        !exit_ok && !contains_seq(stderr@, "already installed"@) ==> r is Failed,
{
    if exit_ok {
        InstallOutcome::Installed
    } else {
        let err_chars = str_to_chars(stderr);
        if contains_str(&err_chars, "already installed") {
            InstallOutcome::AlreadyPresent
        } else {
            InstallOutcome::Failed
        }
    }
}

/// The formula names quoted on `brew "<name>"` lines, in order.
pub open spec fn brew_names_spec(ls: Seq<Seq<char>>) -> Seq<Seq<char>>
    decreases ls.len(),
{
    if ls.len() == 0 {
        Seq::empty()
    } else {
        let rest = brew_names_spec(ls.drop_last());
        if has_prefix(ls.last(), "brew \""@) && crate::strutil::split_on(ls.last(), '"').len()
            >= 2 {
            rest.push(crate::strutil::split_on(ls.last(), '"')[1])
        } else {
            rest
        }
    }
}

/// The cask names quoted on `cask "<name>"` lines, in order.
pub open spec fn cask_names_spec(ls: Seq<Seq<char>>) -> Seq<Seq<char>>
    decreases ls.len(),
{
    if ls.len() == 0 {
        Seq::empty()
    } else {
        let rest = cask_names_spec(ls.drop_last());
        if has_prefix(ls.last(), "cask \""@) && crate::strutil::split_on(ls.last(), '"').len()
            >= 2 {
            rest.push(crate::strutil::split_on(ls.last(), '"')[1])
        } else {
            rest
        }
    }
}

/// Reads the quoted formula and cask names out of a package manifest.
pub fn parse_brewfile_names(content: &str) -> (r: (Vec<String>, Vec<String>))
    ensures
        r.0.deep_view() == brew_names_spec(lines_of(content@)),
        r.1.deep_view() == cask_names_spec(lines_of(content@)),
{
    let chars = str_to_chars(content);
    let lines = split_lines(&chars);
    let mut brews: Vec<String> = Vec::new();
    let mut casks: Vec<String> = Vec::new();
    let mut i: usize = 0;
    proof {
        assert(lines.deep_view().take(0) =~= Seq::<Seq<char>>::empty());
    }
    while i < lines.len()
        invariant
            i <= lines@.len(),
            lines.deep_view().len() == lines@.len(),
            brews.deep_view() =~~= brew_names_spec(lines.deep_view().take(i as int)),
            casks.deep_view() =~~= cask_names_spec(lines.deep_view().take(i as int)),
        decreases lines@.len() - i,
    {
        let ghost b0 = brews.deep_view();
        let ghost c0 = casks.deep_view();
        proof {
            let tk = lines.deep_view().take(i + 1);
            assert(tk.drop_last() =~= lines.deep_view().take(i as int));
            assert(tk.last() == lines.deep_view()[i as int]);
            assert(lines.deep_view()[i as int] == lines@[i as int]@);
        }
        let line = &lines[i];
        if starts_with(line, "brew \"") {
            let segments = split_chars(line, '"');
            if segments.len() >= 2 {
                brews.push(chars_to_string(&segments[1]));
                proof {
                    assert(segments.deep_view()[1] == crate::strutil::split_on(
                        lines.deep_view()[i as int],
                        '"',
                    )[1]);
                    assert(brews.deep_view() =~~= b0.push(crate::strutil::split_on(
                        lines.deep_view()[i as int],
                        '"',
                    )[1]));
                }
            }
        }
        if starts_with(line, "cask \"") {
            let segments = split_chars(line, '"');
            if segments.len() >= 2 {
                casks.push(chars_to_string(&segments[1]));
                proof {
                    assert(segments.deep_view()[1] == crate::strutil::split_on(
                        lines.deep_view()[i as int],
                        '"',
                    )[1]);
                    assert(casks.deep_view() =~~= c0.push(crate::strutil::split_on(
                        lines.deep_view()[i as int],
                        '"',
                    )[1]));
                }
            }
        }
        proof {
            assert(brews.deep_view() =~~= brew_names_spec(lines.deep_view().take(i + 1)));
            assert(casks.deep_view() =~~= cask_names_spec(lines.deep_view().take(i + 1)));
        }
        i = i + 1;
    }
    proof {
        assert(lines.deep_view().take(lines.deep_view().len() as int) =~= lines.deep_view());
    }
    (brews, casks)
}

/// The essentials among the backed-up names, in order: an essential
/// qualifies when some backed-up name contains it.
pub open spec fn selected_essentials(es: Seq<Seq<char>>, backed: Seq<Seq<char>>) -> Seq<
    Seq<char>,
>
    decreases es.len(),
{
    if es.len() == 0 {
        Seq::empty()
    } else {
        let rest = selected_essentials(es.drop_last(), backed);
        if exists|j: int| 0 <= j < backed.len() && contains_seq(#[trigger] backed[j], es.last()) {
            rest.push(es.last())
        } else {
            rest
        }
    }
}

fn any_contains(backed: &Vec<String>, needle: &Vec<char>) -> (r: bool)
    ensures
        r == exists|j: int| 0 <= j < backed.deep_view().len() && contains_seq(
            #[trigger] backed.deep_view()[j],
            needle@,
        ),
{
    let mut j: usize = 0;
    while j < backed.len()
        invariant
            j <= backed@.len(),
            backed.deep_view().len() == backed@.len(),
            forall|k: int| 0 <= k < j ==> !contains_seq(#[trigger] backed.deep_view()[k], needle@),
        decreases backed@.len() - j,
    {
        let bv = str_to_chars(backed[j].as_str());
        proof {
            assert(backed.deep_view()[j as int] == backed@[j as int]@);
        }
        if crate::strutil::contains_chars(&bv, needle) {
            return true;
        }
        j = j + 1;
    }
    false
}

/// Cross-references the essentials allow-list against what the backup's
/// package manifest actually holds: only that intersection is installed.
pub fn select_essentials(essentials: &Vec<String>, backed: &Vec<String>) -> (r: Vec<String>)
    ensures
        r.deep_view() == selected_essentials(essentials.deep_view(), backed.deep_view()),
{
    let mut r: Vec<String> = Vec::new();
    let mut i: usize = 0;
    proof {
        assert(essentials.deep_view().take(0) =~= Seq::<Seq<char>>::empty());
    }
    while i < essentials.len()
        invariant
            i <= essentials@.len(),
            essentials.deep_view().len() == essentials@.len(),
            r.deep_view() =~~= selected_essentials(
                essentials.deep_view().take(i as int),
                backed.deep_view(),
            ),
        decreases essentials@.len() - i,
    {
        let ghost r0 = r.deep_view();
        proof {
            let tk = essentials.deep_view().take(i + 1);
            assert(tk.drop_last() =~= essentials.deep_view().take(i as int));
            assert(tk.last() == essentials.deep_view()[i as int]);
            assert(essentials.deep_view()[i as int] == essentials@[i as int]@);
        }
        let ev = str_to_chars(essentials[i].as_str());
        if any_contains(backed, &ev) {
            r.push(essentials[i].clone());
            proof {
                assert(r.deep_view() =~~= r0.push(essentials.deep_view()[i as int]));
            }
        }
        proof {
            assert(r.deep_view() =~~= selected_essentials(
                essentials.deep_view().take(i + 1),
                backed.deep_view(),
            ));
        }
        i = i + 1;
    }
    proof {
        assert(essentials.deep_view().take(essentials.deep_view().len() as int)
            =~= essentials.deep_view());
    }
    r
}

} // verus!
