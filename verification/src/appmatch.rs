//! The matching policy that reconciles installed applications against the
//! package manager's casks and the app store's listing. The comparisons
//! are deliberately fuzzy — substring in either direction, plus
//! space/dash normalization — and are collected here as one documented,
//! testable policy rather than scattered through the orchestration.
//!
//! Listings are normalized at parse time (trimmed, lower-cased); blank or
//! nameless lines are dropped rather than allowed to match everything.

use vstd::prelude::*;
use vstd::string::*;
use crate::strutil::{contains_seq, contains_chars, lower_of, to_lowercase, replaced,
    removed, replace_char, remove_char, str_to_chars, chars_to_string, trim_chars, trimmed,
    lines_of, split_lines, first_space, find_first_space, first_occurrence, find_first,
    slice_chars, copy_chars, chars_eq};

verus! {

/// An application name (lower-cased) counts as covered by a cask name
/// when either contains the other, or they agree after drawing spaces to
/// dashes, or after dropping spaces and dashes altogether.
pub open spec fn matches_cask(app_lower: Seq<char>, cask: Seq<char>) -> bool {
    ||| contains_seq(app_lower, cask)
    ||| contains_seq(cask, app_lower)
    ||| replaced(app_lower, ' ', '-') == cask
    ||| removed(app_lower, ' ') == removed(cask, '-')
}

/// An application name (lower-cased) counts as covered by an app-store
/// name when they are equal or either contains the other.
pub open spec fn matches_mas(app_lower: Seq<char>, mas_name: Seq<char>) -> bool {
    ||| app_lower == mas_name
    ||| contains_seq(app_lower, mas_name)
    ||| contains_seq(mas_name, app_lower)
}

fn matches_cask_exec(app_lower: &Vec<char>, cask: &Vec<char>) -> (r: bool)
    ensures
        r == matches_cask(app_lower@, cask@),
{
    if contains_chars(app_lower, cask) || contains_chars(cask, app_lower) {
        return true;
    }
    let dashed = replace_char(app_lower, ' ', '-');
    if chars_eq(&dashed, cask) {
        return true;
    }
    let a = remove_char(app_lower, ' ');
    let c = remove_char(cask, '-');
    chars_eq(&a, &c)
}

fn matches_mas_exec(app_lower: &Vec<char>, mas_name: &Vec<char>) -> (r: bool)
    ensures
        r == matches_mas(app_lower@, mas_name@),
{
    chars_eq(app_lower, mas_name) || contains_chars(app_lower, mas_name) || contains_chars(
        mas_name,
        app_lower,
    )
}

/// An application is manually installed when no cask and no app-store
/// name covers its lower-cased name.
pub open spec fn is_manual(app: Seq<char>, casks: Seq<Seq<char>>, mas: Seq<Seq<char>>)
    -> bool {
    &&& !exists|i: int| 0 <= i < casks.len() && matches_cask(lower_of(app), #[trigger] casks[i])
    &&& !exists|i: int| 0 <= i < mas.len() && matches_mas(lower_of(app), #[trigger] mas[i])
}

/// The manually installed applications, in order: those neither listing
/// covers.
pub open spec fn manual_apps_spec(
    apps: Seq<Seq<char>>,
    casks: Seq<Seq<char>>,
    mas: Seq<Seq<char>>,
) -> Seq<Seq<char>>
    decreases apps.len(),
{
    if apps.len() == 0 {
        Seq::empty()
    } else {
        let rest = manual_apps_spec(apps.drop_last(), casks, mas);
        if is_manual(apps.last(), casks, mas) {
            rest.push(apps.last())
        } else {
            rest
        }
    }
}

fn any_cask_matches(app_lower: &Vec<char>, casks: &Vec<String>) -> (r: bool)
    ensures
        r == exists|i: int| 0 <= i < casks.deep_view().len() && matches_cask(
            app_lower@,
            #[trigger] casks.deep_view()[i],
        ),
{
    let mut i: usize = 0;
    while i < casks.len()
        invariant
            i <= casks@.len(),
            casks.deep_view().len() == casks@.len(),
            forall|k: int| 0 <= k < i ==> !matches_cask(
                app_lower@,
                #[trigger] casks.deep_view()[k],
            ),
        decreases casks@.len() - i,
    {
        let cv = str_to_chars(casks[i].as_str());
        proof {
            assert(casks.deep_view()[i as int] == casks@[i as int]@);
        }
        if matches_cask_exec(app_lower, &cv) {
            return true;
        }
        i = i + 1;
    }
    false
}

fn any_mas_matches(app_lower: &Vec<char>, mas: &Vec<String>) -> (r: bool)
    ensures
        r == exists|i: int| 0 <= i < mas.deep_view().len() && matches_mas(
            app_lower@,
            #[trigger] mas.deep_view()[i],
        ),
{
    let mut i: usize = 0;
    while i < mas.len()
        invariant
            i <= mas@.len(),
            mas.deep_view().len() == mas@.len(),
            forall|k: int| 0 <= k < i ==> !matches_mas(
                app_lower@,
                #[trigger] mas.deep_view()[k],
            ),
        decreases mas@.len() - i,
    {
        let mv = str_to_chars(mas[i].as_str());
        proof {
            assert(mas.deep_view()[i as int] == mas@[i as int]@);
        }
        if matches_mas_exec(app_lower, &mv) {
            return true;
        }
        i = i + 1;
    }
    false
}

/// Filters the installed applications down to the manually installed
/// ones: apps that neither the cask listing nor the app-store listing
/// covers under the matching policy above.
pub fn filter_manual_apps(apps: &Vec<String>, casks: &Vec<String>, mas: &Vec<String>) -> (r:
    Vec<String>)
    ensures
        r.deep_view() == manual_apps_spec(apps.deep_view(), casks.deep_view(), mas.deep_view()),
{
    let mut r: Vec<String> = Vec::new();
    let mut i: usize = 0;
    proof {
        assert(apps.deep_view().take(0) =~= Seq::<Seq<char>>::empty());
    }
    while i < apps.len()
        invariant
            i <= apps@.len(),
            apps.deep_view().len() == apps@.len(),
            r.deep_view() =~~= manual_apps_spec(
                apps.deep_view().take(i as int),
                casks.deep_view(),
                mas.deep_view(),
            ),
        decreases apps@.len() - i,
    {
        let ghost r0 = r.deep_view();
        proof {
            let tk = apps.deep_view().take(i + 1);
            assert(tk.drop_last() =~= apps.deep_view().take(i as int));
            assert(tk.last() == apps.deep_view()[i as int]);
            assert(apps.deep_view()[i as int] == apps@[i as int]@);
        }
        let lowered = to_lowercase(apps[i].as_str());
        let app_lower = str_to_chars(lowered.as_str());
        if !any_cask_matches(&app_lower, casks) && !any_mas_matches(&app_lower, mas) {
            r.push(apps[i].clone());
            proof {
                assert(r.deep_view() =~~= r0.push(apps.deep_view()[i as int]));
            }
        }
        proof {
            assert(r.deep_view() =~~= manual_apps_spec(
                apps.deep_view().take(i + 1),
                casks.deep_view(),
                mas.deep_view(),
            ));
        }
        i = i + 1;
    }
    proof {
        assert(apps.deep_view().take(apps.deep_view().len() as int) =~= apps.deep_view());
    }
    r
}

/// The normalized cask names in a cask listing: each line trimmed and
/// lower-cased; blank lines dropped.
pub open spec fn cask_names_of(ls: Seq<Seq<char>>) -> Seq<Seq<char>>
    decreases ls.len(),
{
    if ls.len() == 0 {
        Seq::empty()
    } else {
        let rest = cask_names_of(ls.drop_last());
        if trimmed(ls.last()).len() > 0 {
            rest.push(lower_of(trimmed(ls.last())))
        } else {
            rest
        }
    }
}

/// Reads a cask listing: one normalized name per nonblank line.
pub fn parse_cask_list(output: &str) -> (r: Vec<String>)
    ensures
        r.deep_view() == cask_names_of(lines_of(output@)),
{
    let chars = str_to_chars(output);
    let lines = split_lines(&chars);
    let mut r: Vec<String> = Vec::new();
    let mut i: usize = 0;
    proof {
        assert(lines.deep_view().take(0) =~= Seq::<Seq<char>>::empty());
    }
    while i < lines.len()
        invariant
            i <= lines@.len(),
            lines.deep_view().len() == lines@.len(),
            r.deep_view() =~~= cask_names_of(lines.deep_view().take(i as int)),
        decreases lines@.len() - i,
    {
        let ghost r0 = r.deep_view();
        proof {
            let tk = lines.deep_view().take(i + 1);
            assert(tk.drop_last() =~= lines.deep_view().take(i as int));
            assert(tk.last() == lines.deep_view()[i as int]);
            assert(lines.deep_view()[i as int] == lines@[i as int]@);
        }
        let t = trim_chars(&lines[i]);
        if t.len() > 0 {
            let lowered = to_lowercase(chars_to_string(&t).as_str());
            r.push(lowered);
            proof {
                assert(r.deep_view() =~~= r0.push(lower_of(trimmed(
                    lines.deep_view()[i as int],
                ))));
            }
        }
        proof {
            assert(r.deep_view() =~~= cask_names_of(lines.deep_view().take(i + 1)));
        }
        i = i + 1;
    }
    proof {
        assert(lines.deep_view().take(lines.deep_view().len() as int) =~= lines.deep_view());
    }
    r
}

/// The display name on one app-store listing line (`<id>  <name> (<v>)`):
/// what follows the first blank, cut before the first parenthesis,
/// trimmed and lower-cased.
pub open spec fn mas_name_of(l: Seq<char>) -> Seq<char> {
    let name_part = trimmed(l.skip(first_space(l) + 1));
    let cut = if first_occurrence(name_part, "("@) >= 0 {
        name_part.take(first_occurrence(name_part, "("@))
    } else {
        name_part
    };
    lower_of(trimmed(cut))
}

/// The normalized display names in an app-store listing: one per line
/// that carries a name after its id; nameless lines are dropped.
pub open spec fn mas_names_of(ls: Seq<Seq<char>>) -> Seq<Seq<char>>
    decreases ls.len(),
{
    if ls.len() == 0 {
        Seq::empty()
    } else {
        let rest = mas_names_of(ls.drop_last());
        if first_space(ls.last()) >= 0 && mas_name_of(ls.last()).len() > 0 {
            rest.push(mas_name_of(ls.last()))
        } else {
            rest
        }
    }
}

fn mas_name_exec(line: &Vec<char>) -> (r: Option<String>)
    ensures
        match r {
            Some(s) => first_space(line@) >= 0 && s@ == mas_name_of(line@),
            None => first_space(line@) < 0,
        },
{
    match find_first_space(line) {
        None => None,
        Some(fs) => {
            proof {
                crate::strutil::lemma_first_space(line@);
            }
            let line_len = line.len();
            let after = slice_chars(line, fs + 1, line_len);
            proof {
                assert(after@ =~= line@.skip(fs + 1));
            }
            let name_part = trim_chars(&after);
            let paren = str_to_chars("(");
            let cut = match find_first(&name_part, &paren) {
                Some(j) => {
                    proof {
                        crate::strutil::lemma_first_occurrence(name_part@, paren@);
                    }
                    let c = slice_chars(&name_part, 0, j);
                    proof {
                        assert(c@ =~= name_part@.take(j as int));
                    }
                    c
                },
                None => copy_chars(&name_part),
            };
            let name = trim_chars(&cut);
            Some(to_lowercase(chars_to_string(&name).as_str()))
        },
    }
}

/// Reads an app-store listing: one normalized display name per line that
/// carries one.
pub fn parse_mas_list(output: &str) -> (r: Vec<String>)
    ensures
        r.deep_view() == mas_names_of(lines_of(output@)),
{
    let chars = str_to_chars(output);
    let lines = split_lines(&chars);
    let mut r: Vec<String> = Vec::new();
    let mut i: usize = 0;
    proof {
        assert(lines.deep_view().take(0) =~= Seq::<Seq<char>>::empty());
    }
    while i < lines.len()
        invariant
            i <= lines@.len(),
            lines.deep_view().len() == lines@.len(),
            r.deep_view() =~~= mas_names_of(lines.deep_view().take(i as int)),
        decreases lines@.len() - i,
    {
        let ghost r0 = r.deep_view();
        proof {
            let tk = lines.deep_view().take(i + 1);
            assert(tk.drop_last() =~= lines.deep_view().take(i as int));
            assert(tk.last() == lines.deep_view()[i as int]);
            assert(lines.deep_view()[i as int] == lines@[i as int]@);
        }
        match mas_name_exec(&lines[i]) {
            Some(name) => {
                let nv = str_to_chars(name.as_str());
                if nv.len() > 0 {
                    r.push(name);
                    proof {
                        assert(r.deep_view() =~~= r0.push(mas_name_of(
                            lines.deep_view()[i as int],
                        )));
                    }
                }
            },
            None => {},
        }
        proof {
            assert(r.deep_view() =~~= mas_names_of(lines.deep_view().take(i + 1)));
        }
        i = i + 1;
    }
    proof {
        assert(lines.deep_view().take(lines.deep_view().len() as int) =~= lines.deep_view());
    }
    r
}

} // verus!
