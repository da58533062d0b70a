//! Verified text helpers the engine is built on: line splitting, prefix and
//! substring tests, trimming, character replacement, and decimal conversion.
//!
//! Executable functions work on `Vec<char>`; each is pinned to a spec
//! function over `Seq<char>`, so contracts elsewhere can speak in one
//! vocabulary.

use vstd::prelude::*;
use vstd::string::*;

verus! {

/// Relies on String::push: appends one character to the string.
#[verifier::external_body]
pub fn push_char(s: &mut String, c: char)
    ensures
        final(s)@ == old(s)@.push(c),
{
    s.push(c);
}

/// The Unicode lowercase form of `s`. The mapping is the standard
/// library's; it depends on the characters alone, so it gets a name here
/// rather than a restatement.
pub uninterp spec fn lower_of(s: Seq<char>) -> Seq<char>;

/// Relies on str::to_lowercase: the result is a function of the characters
/// alone, and an empty string stays empty.
#[verifier::external_body]
pub fn to_lowercase(s: &str) -> (r: String)
    ensures
        r@ == lower_of(s@),
        s@.len() == 0 ==> r@.len() == 0,
{
    s.to_lowercase()
}

/// Characters treated as blank by `trim`.
pub open spec fn is_space(c: char) -> bool {
    c == ' ' || c == '\t' || c == '\r' || c == '\n'
}

fn is_space_exec(c: char) -> (r: bool)
    ensures
        r == is_space(c),
{
    c == ' ' || c == '\t' || c == '\r' || c == '\n'
}

/// The characters of a string slice, as a vector.
pub fn str_to_chars(s: &str) -> (r: Vec<char>)
    ensures
        r@ == s@,
{
    let n = s.unicode_len();
    let mut r: Vec<char> = Vec::new();
    let mut i: usize = 0;
    while i < n
        invariant
            n == s@.len(),
            i <= n,
            r@ == s@.subrange(0, i as int),
        decreases n - i,
    {
        r.push(s.get_char(i));
        i = i + 1;
        assert(r@ =~= s@.subrange(0, i as int));
    }
    assert(r@ =~= s@);
    r
}

/// The characters of a vector, as a string.
pub fn chars_to_string(v: &Vec<char>) -> (r: String)
    ensures
        r@ == v@,
{
    let mut r = String::new();
    let mut i: usize = 0;
    while i < v.len()
        invariant
            i <= v@.len(),
            r@ == v@.subrange(0, i as int),
        decreases v@.len() - i,
    {
        push_char(&mut r, v[i]);
        i = i + 1;
        assert(r@ =~= v@.subrange(0, i as int));
    }
    assert(r@ =~= v@);
    r
}

/// A copy of a character vector.
pub fn copy_chars(v: &Vec<char>) -> (r: Vec<char>)
    ensures
        r@ == v@,
{
    let mut r: Vec<char> = Vec::new();
    let mut i: usize = 0;
    while i < v.len()
        invariant
            i <= v@.len(),
            r@ == v@.take(i as int),
        decreases v@.len() - i,
    {
        r.push(v[i]);
        i = i + 1;
        assert(r@ =~= v@.take(i as int));
    }
    assert(v@.take(v@.len() as int) =~= v@);
    r
}

/// The characters of `v` from `from` (inclusive) to `to` (exclusive).
pub fn slice_chars(v: &Vec<char>, from: usize, to: usize) -> (r: Vec<char>)
    requires
        from <= to <= v@.len(),
    ensures
        r@ == v@.subrange(from as int, to as int),
{
    let mut r: Vec<char> = Vec::new();
    let mut i: usize = from;
    assert(r@ =~= v@.subrange(from as int, from as int));
    while i < to
        invariant
            from <= i <= to <= v@.len(),
            r@ == v@.subrange(from as int, i as int),
        decreases to - i,
    {
        r.push(v[i]);
        i = i + 1;
        assert(r@ =~= v@.subrange(from as int, i as int));
    }
    r
}

/// `p` is a prefix of `s`.
pub open spec fn has_prefix(s: Seq<char>, p: Seq<char>) -> bool {
    p.len() <= s.len() && s.subrange(0, p.len() as int) == p
}

/// Whether the characters of `p` open the vector `s`.
pub fn starts_with(s: &Vec<char>, p: &str) -> (r: bool)
    ensures
        r == has_prefix(s@, p@),
{
    let n = p.unicode_len();
    if n > s.len() {
        assert(!has_prefix(s@, p@));
        return false;
    }
    let mut i: usize = 0;
    while i < n
        invariant
            n == p@.len(),
            n <= s@.len(),
            i <= n,
            forall|j: int| 0 <= j < i ==> s@[j] == p@[j],
        decreases n - i,
    {
        if s[i] != p.get_char(i) {
            assert(s@.subrange(0, p@.len() as int)[i as int] != p@[i as int]);
            return false;
        }
        i = i + 1;
    }
    assert(s@.subrange(0, p@.len() as int) =~= p@);
    true
}

/// `needle` occurs in `hay` starting at position `i`.
pub open spec fn occurs_at(hay: Seq<char>, needle: Seq<char>, i: int) -> bool {
    0 <= i && i + needle.len() <= hay.len() && hay.subrange(i, i + needle.len() as int)
        == needle
}

/// `needle` occurs somewhere in `hay`.
pub open spec fn contains_seq(hay: Seq<char>, needle: Seq<char>) -> bool {
    exists|i: int| occurs_at(hay, needle, i)
}

fn matches_at(hay: &Vec<char>, needle: &Vec<char>, i: usize) -> (r: bool)
    requires
        i + needle@.len() <= hay@.len(),
    ensures
        r == occurs_at(hay@, needle@, i as int),
{
    let hay_len = hay.len();
    let needle_len = needle.len();
    let mut j: usize = 0;
    while j < needle_len
        invariant
            hay_len == hay@.len(),
            needle_len == needle@.len(),
            i + needle@.len() <= hay@.len(),
            j <= needle@.len(),
            forall|k: int| 0 <= k < j ==> hay@[i + k] == needle@[k],
        decreases needle@.len() - j,
    {
        if hay[i + j] != needle[j] {
            assert(hay@.subrange(i as int, i + needle@.len() as int)[j as int]
                != needle@[j as int]);
            return false;
        }
        j = j + 1;
    }
    assert(hay@.subrange(i as int, i + needle@.len() as int) =~= needle@);
    true
}

/// Whether the characters of `needle` occur contiguously in `hay`.
pub fn contains_chars(hay: &Vec<char>, needle: &Vec<char>) -> (r: bool)
    ensures
        r == contains_seq(hay@, needle@),
{
    if needle.len() > hay.len() {
        assert forall|i: int| !occurs_at(hay@, needle@, i) by {}
        return false;
    }
    if needle.len() == 0 {
        assert(occurs_at(hay@, needle@, 0)) by {
            assert(hay@.subrange(0, 0) =~= needle@);
        }
        return true;
    }
    let last = hay.len() - needle.len();
    let mut i: usize = 0;
    while i <= last
        invariant
            1 <= needle@.len() <= hay@.len(),
            last == hay@.len() - needle@.len(),
            last < usize::MAX,
            i <= last + 1,
            forall|k: int| 0 <= k < i ==> !occurs_at(hay@, needle@, k),
        decreases last + 1 - i,
    {
        if matches_at(hay, needle, i) {
            return true;
        }
        i = i + 1;
    }
    assert forall|k: int| !occurs_at(hay@, needle@, k) by {
        if 0 <= k <= last {
            assert(!occurs_at(hay@, needle@, k));
        }
    }
    false
}

/// Whether the literal `needle` occurs in `hay`.
pub fn contains_str(hay: &Vec<char>, needle: &str) -> (r: bool)
    ensures
        r == contains_seq(hay@, needle@),
{
    let nv = str_to_chars(needle);
    contains_chars(hay, &nv)
}

/// Whether two string slices hold the same characters.
pub fn str_eq(a: &str, b: &str) -> (r: bool)
    ensures
        r == (a@ == b@),
{
    let av = str_to_chars(a);
    let bv = str_to_chars(b);
    if av.len() != bv.len() {
        return false;
    }
    let mut i: usize = 0;
    while i < av.len()
        invariant
            av@ == a@,
            bv@ == b@,
            av@.len() == bv@.len(),
            i <= av@.len(),
            forall|j: int| 0 <= j < i ==> av@[j] == bv@[j],
        decreases av@.len() - i,
    {
        if av[i] != bv[i] {
            return false;
        }
        i = i + 1;
    }
    proof {
        assert(a@ =~= b@);
    }
    true
}

/// Whether two character vectors hold the same characters.
pub fn chars_eq(a: &Vec<char>, b: &Vec<char>) -> (r: bool)
    ensures
        r == (a@ == b@),
{
    if a.len() != b.len() {
        return false;
    }
    let mut i: usize = 0;
    while i < a.len()
        invariant
            a@.len() == b@.len(),
            i <= a@.len(),
            forall|j: int| 0 <= j < i ==> a@[j] == b@[j],
        decreases a@.len() - i,
    {
        if a[i] != b[i] {
            return false;
        }
        i = i + 1;
    }
    proof {
        assert(a@ =~= b@);
    }
    true
}

/// The position of the first blank character, or -1.
pub open spec fn first_space(l: Seq<char>) -> int
    decreases l.len(),
{
    if l.len() == 0 {
        -1
    } else if is_space(l[0]) {
        0
    } else {
        let r = first_space(l.drop_first());
        if r < 0 {
            -1
        } else {
            r + 1
        }
    }
}

/// What `first_space` finds: the first blank, before which nothing is
/// blank; -1 exactly when nothing is blank.
pub proof fn lemma_first_space(l: Seq<char>)
    ensures
        first_space(l) >= 0 ==> first_space(l) < l.len() && is_space(l[first_space(l)])
            && forall|j: int| 0 <= j < first_space(l) ==> !is_space(l[j]),
        first_space(l) == -1 ==> forall|j: int| 0 <= j < l.len() ==> !is_space(l[j]),
    decreases l.len(),
{
    if l.len() > 0 && !is_space(l[0]) {
        lemma_first_space(l.drop_first());
        let r = first_space(l.drop_first());
        if r >= 0 {
            assert(l[r + 1] == l.drop_first()[r]);
            assert forall|j: int| 0 <= j < r + 1 implies !is_space(l[j]) by {
                if j > 0 {
                    assert(l[j] == l.drop_first()[j - 1]);
                }
            }
        } else {
            assert forall|j: int| 0 <= j < l.len() implies !is_space(l[j]) by {
                if j > 0 {
                    assert(l[j] == l.drop_first()[j - 1]);
                }
            }
        }
    }
}

/// Finds the first blank character.
pub fn find_first_space(v: &Vec<char>) -> (r: Option<usize>)
    ensures
        match r {
            Some(i) => first_space(v@) == i as int,
            None => first_space(v@) == -1,
        },
{
    let mut i: usize = 0;
    while i < v.len()
        invariant
            i <= v@.len(),
            forall|j: int| 0 <= j < i ==> !is_space(v@[j]),
        decreases v@.len() - i,
    {
        if is_space_exec(v[i]) {
            proof {
                lemma_first_space(v@);
                let fs = first_space(v@);
                if fs == -1 {
                    assert(!is_space(v@[i as int]));
                }
                if 0 <= fs < i {
                    assert(!is_space(v@[fs]));
                }
                if fs > i {
                    assert(!is_space(v@[i as int]));
                }
            }
            return Some(i);
        }
        i = i + 1;
    }
    proof {
        lemma_first_space(v@);
        if first_space(v@) >= 0 {
            assert(is_space(v@[first_space(v@)]));
        }
    }
    None
}

/// The position of the first occurrence of `needle` in `hay`, or -1.
pub open spec fn first_occurrence(hay: Seq<char>, needle: Seq<char>) -> int
    decreases hay.len(),
{
    if has_prefix(hay, needle) {
        0
    } else if hay.len() == 0 {
        -1
    } else {
        let r = first_occurrence(hay.drop_first(), needle);
        if r < 0 {
            -1
        } else {
            r + 1
        }
    }
}

proof fn lemma_occurs_shift(hay: Seq<char>, needle: Seq<char>, j: int)
    requires
        hay.len() > 0,
        0 <= j,
    ensures
        occurs_at(hay, needle, j + 1) == occurs_at(hay.drop_first(), needle, j),
{
    if j + 1 + needle.len() <= hay.len() {
        assert(hay.subrange(j + 1, j + 1 + needle.len() as int) =~= hay.drop_first().subrange(
            j,
            j + needle.len() as int,
        ));
    }
}

/// What `first_occurrence` finds: the first match, before which nothing
/// matches; -1 exactly when nothing matches at all.
pub proof fn lemma_first_occurrence(hay: Seq<char>, needle: Seq<char>)
    ensures
        first_occurrence(hay, needle) >= 0 ==> occurs_at(
            hay,
            needle,
            first_occurrence(hay, needle),
        ) && forall|j: int| 0 <= j < first_occurrence(hay, needle) ==> !occurs_at(
            hay,
            needle,
            j,
        ),
        first_occurrence(hay, needle) == -1 ==> !contains_seq(hay, needle),
    decreases hay.len(),
{
    let fo = first_occurrence(hay, needle);
    if has_prefix(hay, needle) {
        assert(hay.subrange(0, needle.len() as int) == needle);
        assert(occurs_at(hay, needle, 0));
    } else if hay.len() == 0 {
        assert forall|j: int| !occurs_at(hay, needle, j) by {
            if occurs_at(hay, needle, j) {
                assert(j == 0 && needle.len() == 0);
                assert(hay.subrange(0, 0) =~= needle);
                assert(has_prefix(hay, needle));
            }
        }
    } else {
        lemma_first_occurrence(hay.drop_first(), needle);
        let r = first_occurrence(hay.drop_first(), needle);
        assert(!occurs_at(hay, needle, 0)) by {
            if occurs_at(hay, needle, 0) {
                assert(hay.subrange(0, needle.len() as int) == needle);
                assert(has_prefix(hay, needle));
            }
        }
        if r < 0 {
            assert forall|j: int| !occurs_at(hay, needle, j) by {
                if occurs_at(hay, needle, j) && j > 0 {
                    lemma_occurs_shift(hay, needle, j - 1);
                    assert(occurs_at(hay.drop_first(), needle, j - 1));
                    assert(contains_seq(hay.drop_first(), needle));
                }
            }
        } else {
            lemma_occurs_shift(hay, needle, r);
            assert(occurs_at(hay, needle, fo));
            assert forall|j: int| 0 <= j < fo implies !occurs_at(hay, needle, j) by {
                if j > 0 && occurs_at(hay, needle, j) {
                    lemma_occurs_shift(hay, needle, j - 1);
                    assert(occurs_at(hay.drop_first(), needle, j - 1));
                }
            }
        }
    }
}

/// Finds the first occurrence of `needle` in `hay`.
pub fn find_first(hay: &Vec<char>, needle: &Vec<char>) -> (r: Option<usize>)
    ensures
        match r {
            Some(i) => first_occurrence(hay@, needle@) == i as int,
            None => first_occurrence(hay@, needle@) == -1,
        },
{
    proof {
        lemma_first_occurrence(hay@, needle@);
    }
    if needle.len() > hay.len() {
        proof {
            if first_occurrence(hay@, needle@) >= 0 {
                assert(occurs_at(hay@, needle@, first_occurrence(hay@, needle@)));
            }
        }
        return None;
    }
    if needle.len() == 0 {
        proof {
            assert(hay@.subrange(0, 0) =~= needle@);
            assert(has_prefix(hay@, needle@));
        }
        return Some(0);
    }
    let last = hay.len() - needle.len();
    let mut i: usize = 0;
    while i <= last
        invariant
            1 <= needle@.len() <= hay@.len(),
            last == hay@.len() - needle@.len(),
            last < usize::MAX,
            i <= last + 1,
            forall|k: int| 0 <= k < i ==> !occurs_at(hay@, needle@, k),
        decreases last + 1 - i,
    {
        if matches_at(hay, needle, i) {
            proof {
                lemma_first_occurrence(hay@, needle@);
                let fo = first_occurrence(hay@, needle@);
                if fo == -1 {
                    assert(contains_seq(hay@, needle@));
                    assert(false);
                }
                assert(fo <= i);
                if fo < i {
                    assert(!occurs_at(hay@, needle@, fo));
                    assert(false);
                }
            }
            return Some(i);
        }
        i = i + 1;
    }
    proof {
        lemma_first_occurrence(hay@, needle@);
        let fo = first_occurrence(hay@, needle@);
        if fo >= 0 {
            assert(occurs_at(hay@, needle@, fo));
            assert(fo <= last);
            assert(false);
        }
    }
    None
}

/// The segments of `s` between occurrences of `sep`; always at least one
/// segment, and an empty trailing segment when `s` ends with `sep`.
pub open spec fn split_on(s: Seq<char>, sep: char) -> Seq<Seq<char>>
    decreases s.len(),
{
    if s.len() == 0 {
        seq![Seq::<char>::empty()]
    } else if s[0] == sep {
        seq![Seq::<char>::empty()] + split_on(s.drop_first(), sep)
    } else {
        let rest = split_on(s.drop_first(), sep);
        seq![seq![s[0]] + rest[0]] + rest.drop_first()
    }
}

pub proof fn lemma_split_on_nonempty(s: Seq<char>, sep: char)
    ensures
        split_on(s, sep).len() >= 1,
    decreases s.len(),
{
    if s.len() == 0 {
    } else {
        lemma_split_on_nonempty(s.drop_first(), sep);
    }
}

/// The segments of `s` between occurrences of `sep`.
pub fn split_chars(s: &Vec<char>, sep: char) -> (r: Vec<Vec<char>>)
    ensures
        r.deep_view() == split_on(s@, sep),
{
    let mut done: Vec<Vec<char>> = Vec::new();
    let mut cur: Vec<char> = Vec::new();
    let ghost whole = s@;
    let mut i: usize = 0;
    proof {
        lemma_split_on_nonempty(whole, sep);
        assert(whole.skip(0) =~= whole);
    }
    while i < s.len()
        invariant
            whole == s@,
            i <= whole.len(),
            split_on(whole.skip(i as int), sep).len() >= 1,
            split_on(whole, sep) =~~= done.deep_view() + seq![
                cur@ + split_on(whole.skip(i as int), sep)[0],
            ] + split_on(whole.skip(i as int), sep).drop_first(),
        decreases whole.len() - i,
    {
        let ghost tail = whole.skip(i as int);
        let ghost done0 = done.deep_view();
        let ghost cur0 = cur@;
        proof {
            assert(tail.len() > 0);
            assert(tail[0] == whole[i as int]);
            assert(tail.drop_first() =~= whole.skip(i + 1));
            lemma_split_on_nonempty(whole.skip(i + 1), sep);
        }
        let ghost rest = split_on(whole.skip(i + 1), sep);
        let c = s[i];
        if c == sep {
            let finished = cur;
            cur = Vec::new();
            done.push(finished);
            proof {
                // One segment ends here: split_on(tail) = [empty] + rest.
                assert(split_on(tail, sep) == seq![Seq::<char>::empty()] + rest);
                assert(split_on(tail, sep)[0] =~= Seq::<char>::empty());
                assert(split_on(tail, sep).drop_first() =~= rest);
                assert(done.deep_view() =~~= done0 + seq![cur0]);
                assert(cur0 + split_on(tail, sep)[0] =~= cur0);
                assert(cur@ + rest[0] =~= rest[0]);
                assert(rest =~= seq![rest[0]] + rest.drop_first());
                assert(split_on(whole, sep) =~~= done.deep_view() + seq![
                    cur@ + rest[0],
                ] + rest.drop_first());
            }
        } else {
            cur.push(c);
            proof {
                // The current segment grows: split_on(tail) = [[c] + rest[0]] + ...
                assert(split_on(tail, sep) == seq![seq![tail[0]] + rest[0]]
                    + rest.drop_first());
                assert(split_on(tail, sep)[0] =~= seq![tail[0]] + rest[0]);
                assert(split_on(tail, sep).drop_first() =~= rest.drop_first());
                assert(cur@ =~= cur0.push(c));
                assert(cur0 + split_on(tail, sep)[0] =~= cur@ + rest[0]);
                assert(split_on(whole, sep) =~~= done.deep_view() + seq![
                    cur@ + rest[0],
                ] + rest.drop_first());
            }
        }
        i = i + 1;
    }
    proof {
        assert(whole.skip(whole.len() as int) =~= Seq::<char>::empty());
        assert(split_on(whole.skip(whole.len() as int), sep) == seq![
            Seq::<char>::empty(),
        ]);
    }
    let ghost done1 = done.deep_view();
    let ghost cur1 = cur@;
    done.push(cur);
    proof {
        assert(done.deep_view() =~~= done1 + seq![cur1]);
        assert(cur1 + Seq::<char>::empty() =~= cur1);
        assert(done.deep_view() =~~= split_on(whole, sep));
    }
    done
}

/// The lines of `s`: segments between newline characters.
pub open spec fn lines_of(s: Seq<char>) -> Seq<Seq<char>> {
    split_on(s, '\n')
}

/// The lines of `s`.
pub fn split_lines(s: &Vec<char>) -> (r: Vec<Vec<char>>)
    ensures
        r.deep_view() == lines_of(s@),
{
    split_chars(s, '\n')
}

/// The nonempty segments, in order.
pub open spec fn nonempty_segments(ls: Seq<Seq<char>>) -> Seq<Seq<char>>
    decreases ls.len(),
{
    if ls.len() == 0 {
        Seq::empty()
    } else {
        let rest = nonempty_segments(ls.drop_last());
        if ls.last().len() > 0 {
            rest.push(ls.last())
        } else {
            rest
        }
    }
}

/// Keeps the nonempty segments, in order.
pub fn filter_nonempty(segs: &Vec<Vec<char>>) -> (r: Vec<Vec<char>>)
    ensures
        r.deep_view() == nonempty_segments(segs.deep_view()),
{
    let mut r: Vec<Vec<char>> = Vec::new();
    let mut i: usize = 0;
    proof {
        assert(segs.deep_view().take(0) =~= Seq::<Seq<char>>::empty());
    }
    while i < segs.len()
        invariant
            i <= segs@.len(),
            segs.deep_view().len() == segs@.len(),
            r.deep_view() =~~= nonempty_segments(segs.deep_view().take(i as int)),
        decreases segs@.len() - i,
    {
        let ghost r0 = r.deep_view();
        proof {
            let tk = segs.deep_view().take(i + 1);
            assert(tk.drop_last() =~= segs.deep_view().take(i as int));
            assert(tk.last() == segs.deep_view()[i as int]);
            assert(segs.deep_view()[i as int] == segs@[i as int]@);
        }
        if segs[i].len() > 0 {
            r.push(copy_chars(&segs[i]));
            proof {
                assert(r.deep_view() =~~= r0.push(segs.deep_view()[i as int]));
            }
        }
        proof {
            assert(r.deep_view() =~~= nonempty_segments(segs.deep_view().take(i + 1)));
        }
        i = i + 1;
    }
    proof {
        assert(segs.deep_view().take(segs.deep_view().len() as int) =~= segs.deep_view());
    }
    r
}

/// `s` with leading blanks removed.
pub open spec fn ltrim(s: Seq<char>) -> Seq<char>
    decreases s.len(),
{
    if s.len() > 0 && is_space(s[0]) {
        ltrim(s.drop_first())
    } else {
        s
    }
}

/// `s` with trailing blanks removed.
pub open spec fn rtrim(s: Seq<char>) -> Seq<char>
    decreases s.len(),
{
    if s.len() > 0 && is_space(s.last()) {
        rtrim(s.drop_last())
    } else {
        s
    }
}

/// `s` with leading and trailing blanks removed.
pub open spec fn trimmed(s: Seq<char>) -> Seq<char> {
    rtrim(ltrim(s))
}

proof fn lemma_ltrim_skip(s: Seq<char>, i: int)
    requires
        0 <= i <= s.len(),
        forall|j: int| 0 <= j < i ==> is_space(s[j]),
    ensures
        ltrim(s) == ltrim(s.skip(i)),
    decreases i,
{
    if i > 0 {
        assert(s.len() > 0 && is_space(s[0]));
        assert(s.drop_first() =~= s.skip(1));
        lemma_ltrim_skip(s.skip(1), i - 1);
        assert(s.skip(1).skip(i - 1) =~= s.skip(i));
    } else {
        assert(s.skip(0) =~= s);
    }
}

proof fn lemma_rtrim_take(s: Seq<char>, i: int)
    requires
        0 <= i <= s.len(),
        forall|j: int| i <= j < s.len() ==> is_space(s[j]),
    ensures
        rtrim(s) == rtrim(s.take(i)),
    decreases s.len() - i,
{
    if i < s.len() {
        assert(is_space(s.last()));
        assert(s.drop_last() =~= s.take(s.len() - 1));
        lemma_rtrim_take(s.take(s.len() - 1), i);
        assert(s.take(s.len() - 1).take(i) =~= s.take(i));
    } else {
        assert(s.take(s.len() as int) =~= s);
    }
}

/// `v` with leading and trailing blanks removed.
pub fn trim_chars(v: &Vec<char>) -> (r: Vec<char>)
    ensures
        r@ == trimmed(v@),
{
    let mut start: usize = 0;
    while start < v.len() && is_space_exec(v[start])
        invariant
            start <= v@.len(),
            forall|j: int| 0 <= j < start ==> is_space(v@[j]),
        decreases v@.len() - start,
    {
        start = start + 1;
    }
    proof {
        lemma_ltrim_skip(v@, start as int);
    }
    if start == v.len() {
        proof {
            assert(v@.skip(start as int) =~= Seq::<char>::empty());
            assert(ltrim(v@) =~= Seq::<char>::empty());
        }
        return Vec::new();
    }
    // v[start] is not a space, so ltrim stops exactly at start.
    assert(ltrim(v@) == v@.skip(start as int));
    let mut end: usize = v.len();
    while end > start && is_space_exec(v[end - 1])
        invariant
            start < end + 1,
            end <= v@.len(),
            !is_space(v@[start as int]),
            forall|j: int| end <= j < v@.len() ==> is_space(v@[j]),
        decreases end,
    {
        end = end - 1;
    }
    assert(end > start);
    proof {
        let lt = v@.skip(start as int);
        lemma_rtrim_take(lt, end - start);
        assert(lt.take(end - start) =~= v@.subrange(start as int, end as int));
        assert(rtrim(v@.subrange(start as int, end as int)) =~= v@.subrange(
            start as int,
            end as int,
        ));
    }
    let mut r: Vec<char> = Vec::new();
    let mut i: usize = start;
    while i < end
        invariant
            start <= i <= end <= v@.len(),
            r@ == v@.subrange(start as int, i as int),
        decreases end - i,
    {
        r.push(v[i]);
        i = i + 1;
        assert(r@ =~= v@.subrange(start as int, i as int));
    }
    assert(r@ =~= v@.subrange(start as int, end as int));
    r
}

/// The trimmed forms of the lines that have content, in order.
pub open spec fn trimmed_lines(ls: Seq<Seq<char>>) -> Seq<Seq<char>>
    decreases ls.len(),
{
    if ls.len() == 0 {
        Seq::empty()
    } else {
        let rest = trimmed_lines(ls.drop_last());
        if trimmed(ls.last()).len() > 0 {
            rest.push(trimmed(ls.last()))
        } else {
            rest
        }
    }
}

/// Splits into lines and keeps each line's trimmed form, blank lines
/// dropped: the shape of an extension listing.
pub fn parse_trimmed_lines(content: &str) -> (r: Vec<String>)
    ensures
        r.deep_view() == trimmed_lines(lines_of(content@)),
{
    let chars = str_to_chars(content);
    let lines = split_lines(&chars);
    let mut r: Vec<String> = Vec::new();
    let mut i: usize = 0;
    proof {
        assert(lines.deep_view().take(0) =~= Seq::<Seq<char>>::empty());
    }
    while i < lines.len()
        invariant
            i <= lines@.len(),
            lines.deep_view().len() == lines@.len(),
            r.deep_view() =~~= trimmed_lines(lines.deep_view().take(i as int)),
        decreases lines@.len() - i,
    {
        let ghost r0 = r.deep_view();
        proof {
            let tk = lines.deep_view().take(i + 1);
            assert(tk.drop_last() =~= lines.deep_view().take(i as int));
            assert(tk.last() == lines.deep_view()[i as int]);
            assert(lines.deep_view()[i as int] == lines@[i as int]@);
        }
        let t = trim_chars(&lines[i]);
        if t.len() > 0 {
            r.push(chars_to_string(&t));
            proof {
                assert(r.deep_view() =~~= r0.push(trimmed(lines.deep_view()[i as int])));
            }
        }
        proof {
            assert(r.deep_view() =~~= trimmed_lines(lines.deep_view().take(i + 1)));
        }
        i = i + 1;
    }
    proof {
        assert(lines.deep_view().take(lines.deep_view().len() as int) =~= lines.deep_view());
    }
    r
}

/// The lines with content (a nonblank trimmed form), kept as written.
pub open spec fn content_lines(ls: Seq<Seq<char>>) -> Seq<Seq<char>>
    decreases ls.len(),
{
    if ls.len() == 0 {
        Seq::empty()
    } else {
        let rest = content_lines(ls.drop_last());
        if trimmed(ls.last()).len() > 0 {
            rest.push(ls.last())
        } else {
            rest
        }
    }
}

/// Splits into lines and keeps the ones with content, as written: the
/// shape of an application listing.
pub fn parse_content_lines(content: &str) -> (r: Vec<String>)
    ensures
        r.deep_view() == content_lines(lines_of(content@)),
{
    let chars = str_to_chars(content);
    let lines = split_lines(&chars);
    let mut r: Vec<String> = Vec::new();
    let mut i: usize = 0;
    proof {
        assert(lines.deep_view().take(0) =~= Seq::<Seq<char>>::empty());
    }
    while i < lines.len()
        invariant
            i <= lines@.len(),
            lines.deep_view().len() == lines@.len(),
            r.deep_view() =~~= content_lines(lines.deep_view().take(i as int)),
        decreases lines@.len() - i,
    {
        let ghost r0 = r.deep_view();
        proof {
            let tk = lines.deep_view().take(i + 1);
            assert(tk.drop_last() =~= lines.deep_view().take(i as int));
            assert(tk.last() == lines.deep_view()[i as int]);
            assert(lines.deep_view()[i as int] == lines@[i as int]@);
        }
        let t = trim_chars(&lines[i]);
        if t.len() > 0 {
            r.push(chars_to_string(&lines[i]));
            proof {
                assert(r.deep_view() =~~= r0.push(lines.deep_view()[i as int]));
            }
        }
        proof {
            assert(r.deep_view() =~~= content_lines(lines.deep_view().take(i + 1)));
        }
        i = i + 1;
    }
    proof {
        assert(lines.deep_view().take(lines.deep_view().len() as int) =~= lines.deep_view());
    }
    r
}

/// `s` with every occurrence of `from` replaced by `to`.
pub open spec fn replaced(s: Seq<char>, from: char, to: char) -> Seq<char> {
    s.map_values(|c: char| if c == from { to } else { c })
}

/// `v` with every occurrence of `from` replaced by `to`.
pub fn replace_char(v: &Vec<char>, from: char, to: char) -> (r: Vec<char>)
    ensures
        r@ == replaced(v@, from, to),
{
    let mut r: Vec<char> = Vec::new();
    let mut i: usize = 0;
    while i < v.len()
        invariant
            i <= v@.len(),
            r@ == replaced(v@.take(i as int), from, to),
        decreases v@.len() - i,
    {
        let c = v[i];
        if c == from {
            r.push(to);
        } else {
            r.push(c);
        }
        i = i + 1;
        assert(r@ =~= replaced(v@.take(i as int), from, to));
    }
    assert(v@.take(v@.len() as int) =~= v@);
    r
}

/// `s` with every occurrence of `c` removed.
pub open spec fn removed(s: Seq<char>, c: char) -> Seq<char>
    decreases s.len(),
{
    if s.len() == 0 {
        Seq::empty()
    } else if s[0] == c {
        removed(s.drop_first(), c)
    } else {
        seq![s[0]] + removed(s.drop_first(), c)
    }
}

/// `v` with every occurrence of `c` removed.
pub fn remove_char(v: &Vec<char>, c: char) -> (r: Vec<char>)
    ensures
        r@ == removed(v@, c),
{
    let mut r: Vec<char> = Vec::new();
    let ghost whole = v@;
    let mut i: usize = 0;
    proof {
        assert(whole.skip(0) =~= whole);
    }
    while i < v.len()
        invariant
            whole == v@,
            i <= whole.len(),
            removed(whole, c) =~= r@ + removed(whole.skip(i as int), c),
        decreases whole.len() - i,
    {
        let ghost tail = whole.skip(i as int);
        proof {
            assert(tail.drop_first() =~= whole.skip(i + 1));
        }
        if v[i] != c {
            r.push(v[i]);
        }
        i = i + 1;
        proof {
            assert(removed(whole, c) =~= r@ + removed(whole.skip(i as int), c));
        }
    }
    proof {
        assert(whole.skip(whole.len() as int) =~= Seq::<char>::empty());
    }
    r
}

/// The decimal digit characters, in order.
pub open spec fn digit_char(d: int) -> char {
    if d == 0 { '0' }
    else if d == 1 { '1' }
    else if d == 2 { '2' }
    else if d == 3 { '3' }
    else if d == 4 { '4' }
    else if d == 5 { '5' }
    else if d == 6 { '6' }
    else if d == 7 { '7' }
    else if d == 8 { '8' }
    else { '9' }
}

fn digit_char_exec(d: u64) -> (c: char)
    requires
        d < 10,
    ensures
        c == digit_char(d as int),
{
    if d == 0 { '0' }
    else if d == 1 { '1' }
    else if d == 2 { '2' }
    else if d == 3 { '3' }
    else if d == 4 { '4' }
    else if d == 5 { '5' }
    else if d == 6 { '6' }
    else if d == 7 { '7' }
    else if d == 8 { '8' }
    else { '9' }
}

/// The decimal representation of `n`, without leading zeros (except for 0
/// itself).
pub open spec fn dec_rep(n: int) -> Seq<char>
    decreases n,
{
    if n < 10 {
        seq![digit_char(n)]
    } else {
        dec_rep(n / 10).push(digit_char(n % 10))
    }
}

/// The decimal representation of `n`.
pub fn u64_to_string(n: u64) -> (r: String)
    ensures
        r@ == dec_rep(n as int),
    decreases n,
{
    if n < 10 {
        let mut r = String::new();
        push_char(&mut r, digit_char_exec(n));
        assert(r@ =~= seq![digit_char(n as int)]);
        r
    } else {
        let mut r = u64_to_string(n / 10);
        push_char(&mut r, digit_char_exec(n % 10));
        r
    }
}

/// The numeric value of a digit character; 10 for anything else.
pub open spec fn digit_val(c: char) -> int {
    if c == '0' { 0 }
    else if c == '1' { 1 }
    else if c == '2' { 2 }
    else if c == '3' { 3 }
    else if c == '4' { 4 }
    else if c == '5' { 5 }
    else if c == '6' { 6 }
    else if c == '7' { 7 }
    else if c == '8' { 8 }
    else if c == '9' { 9 }
    else { 10 }
}

/// All characters of `s` are decimal digits.
pub open spec fn all_digits(s: Seq<char>) -> bool {
    forall|i: int| 0 <= i < s.len() ==> digit_val(s[i]) < 10
}

/// The value of the digit string `s`.
pub open spec fn dec_val(s: Seq<char>) -> int
    decreases s.len(),
{
    if s.len() == 0 {
        0
    } else {
        dec_val(s.drop_last()) * 10 + digit_val(s.last())
    }
}

fn digit_val_exec(c: char) -> (d: u64)
    ensures
        d == digit_val(c),
{
    if c == '0' { 0 }
    else if c == '1' { 1 }
    else if c == '2' { 2 }
    else if c == '3' { 3 }
    else if c == '4' { 4 }
    else if c == '5' { 5 }
    else if c == '6' { 6 }
    else if c == '7' { 7 }
    else if c == '8' { 8 }
    else if c == '9' { 9 }
    else { 10 }
}

/// Parses a nonempty all-digit string as a `u64`; `None` when the string is
/// empty, holds a non-digit, or names a value above `u64::MAX`.
pub fn parse_u64(v: &Vec<char>) -> (r: Option<u64>)
    ensures
        match r {
            Some(n) => v@.len() > 0 && all_digits(v@) && dec_val(v@) == n as int,
            None => v@.len() == 0 || !all_digits(v@) || dec_val(v@) > u64::MAX,
        },
{
    if v.len() == 0 {
        return None;
    }
    let mut acc: u64 = 0;
    let mut i: usize = 0;
    while i < v.len()
        invariant
            i <= v@.len(),
            all_digits(v@.take(i as int)),
            acc as int == dec_val(v@.take(i as int)),
        decreases v@.len() - i,
    {
        let d = digit_val_exec(v[i]);
        if d >= 10 {
            assert(digit_val(v@[i as int]) >= 10);
            return None;
        }
        if acc > (u64::MAX - d) / 10 {
            proof {
                let t = v@.take(i + 1);
                assert(t.drop_last() =~= v@.take(i as int));
                assert(dec_val(t) == acc as int * 10 + d);
                lemma_dec_val_grows(v@, i + 1);
            }
            return None;
        }
        acc = acc * 10 + d;
        i = i + 1;
        proof {
            let t = v@.take(i as int);
            assert(t.drop_last() =~= v@.take(i - 1));
            assert(t.last() == v@[i - 1]);
        }
    }
    assert(v@.take(v@.len() as int) =~= v@);
    Some(acc)
}

/// Relies on the standard library's `<` on `char`: characters order by
/// code point.
#[verifier::external_body]
fn char_lt(a: char, b: char) -> (r: bool)
    ensures
        r == ((a as int) < (b as int)),
{
    a < b
}

/// Lexicographic order on character sequences, by code point; ties on a
/// common prefix go to the shorter sequence. Timestamps are compared with
/// this, so newest-run selection is pinned down.
pub open spec fn lex_le(a: Seq<char>, b: Seq<char>) -> bool
    decreases a.len(),
{
    if a.len() == 0 {
        true
    } else if b.len() == 0 {
        false
    } else if a[0] == b[0] {
        lex_le(a.drop_first(), b.drop_first())
    } else {
        (a[0] as int) < (b[0] as int)
    }
}

proof fn lemma_lex_skip(a: Seq<char>, b: Seq<char>, i: int)
    requires
        0 <= i <= a.len(),
        i <= b.len(),
        forall|j: int| 0 <= j < i ==> a[j] == b[j],
    ensures
        lex_le(a, b) == lex_le(a.skip(i), b.skip(i)),
    decreases i,
{
    if i > 0 {
        assert(a.len() > 0 && b.len() > 0 && a[0] == b[0]);
        assert(a.drop_first() =~= a.skip(1));
        assert(b.drop_first() =~= b.skip(1));
        lemma_lex_skip(a.skip(1), b.skip(1), i - 1);
        assert(a.skip(1).skip(i - 1) =~= a.skip(i));
        assert(b.skip(1).skip(i - 1) =~= b.skip(i));
    } else {
        assert(a.skip(0) =~= a);
        assert(b.skip(0) =~= b);
    }
}

/// The order is total: of any two sequences, one is below the other.
pub proof fn lemma_lex_total(a: Seq<char>, b: Seq<char>)
    ensures
        lex_le(a, b) || lex_le(b, a),
    decreases a.len(),
{
    if a.len() > 0 && b.len() > 0 && a[0] == b[0] {
        lemma_lex_total(a.drop_first(), b.drop_first());
    } else if a.len() > 0 && b.len() > 0 {
        assert((a[0] as int) != (b[0] as int));
    }
}

/// The order is transitive.
pub proof fn lemma_lex_trans(a: Seq<char>, b: Seq<char>, c: Seq<char>)
    requires
        lex_le(a, b),
        lex_le(b, c),
    ensures
        lex_le(a, c),
    decreases a.len(),
{
    if a.len() == 0 {
    } else if b.len() == 0 {
        assert(false);
    } else if c.len() == 0 {
        assert(false);
    } else {
        if a[0] == b[0] && b[0] == c[0] {
            lemma_lex_trans(a.drop_first(), b.drop_first(), c.drop_first());
        }
    }
}

/// A shared prefix drops out of a lexicographic comparison.
pub proof fn lemma_lex_concat_eq(x: Seq<char>, u: Seq<char>, v: Seq<char>)
    ensures
        lex_le(x + u, x + v) == lex_le(u, v),
    decreases x.len(),
{
    if x.len() == 0 {
        assert(x + u =~= u);
        assert(x + v =~= v);
    } else {
        assert((x + u).len() > 0 && (x + v).len() > 0);
        assert((x + u)[0] == x[0] && (x + v)[0] == x[0]);
        assert((x + u).drop_first() =~= x.drop_first() + u);
        assert((x + v).drop_first() =~= x.drop_first() + v);
        lemma_lex_concat_eq(x.drop_first(), u, v);
    }
}

/// A strictly smaller block of equal length decides the comparison,
/// whatever follows either side.
pub proof fn lemma_lex_concat_lt(a: Seq<char>, b: Seq<char>, u: Seq<char>, v: Seq<char>)
    requires
        a.len() == b.len(),
        lex_le(a, b),
        a != b,
    ensures
        lex_le(a + u, b + v),
    decreases a.len(),
{
    assert(a.len() > 0) by {
        if a.len() == 0 {
            assert(a =~= b);
        }
    }
    assert((a + u)[0] == a[0] && (b + v)[0] == b[0]);
    if a[0] == b[0] {
        assert(a.drop_first() != b.drop_first()) by {
            if a.drop_first() == b.drop_first() {
                assert forall|i: int| 0 <= i < a.len() implies a[i] == b[i] by {
                    if i > 0 {
                        assert(a[i] == a.drop_first()[i - 1]);
                        assert(b[i] == b.drop_first()[i - 1]);
                    }
                }
                assert(a =~= b);
            }
        }
        assert((a + u).drop_first() =~= a.drop_first() + u);
        assert((b + v).drop_first() =~= b.drop_first() + v);
        lemma_lex_concat_lt(a.drop_first(), b.drop_first(), u, v);
    } else {
        assert((a[0] as int) < (b[0] as int));
    }
}

/// Compares two character vectors in the lexicographic order.
pub fn chars_le(a: &Vec<char>, b: &Vec<char>) -> (r: bool)
    ensures
        r == lex_le(a@, b@),
{
    let a_len = a.len();
    let b_len = b.len();
    let n = if a_len < b_len { a_len } else { b_len };
    let mut i: usize = 0;
    while i < n
        invariant
            a_len == a@.len(),
            b_len == b@.len(),
            n == if a_len < b_len { a_len as int } else { b_len as int },
            i <= n,
            forall|j: int| 0 <= j < i ==> a@[j] == b@[j],
        decreases n - i,
    {
        if a[i] != b[i] {
            proof {
                lemma_lex_skip(a@, b@, i as int);
            }
            return char_lt(a[i], b[i]);
        }
        i = i + 1;
    }
    proof {
        lemma_lex_skip(a@, b@, n as int);
        if a_len <= b_len {
            assert(a@.skip(n as int) =~= Seq::<char>::empty());
        } else {
            assert(b@.skip(n as int) =~= Seq::<char>::empty());
            assert(a@.skip(n as int).len() > 0);
        }
    }
    a_len <= b_len
}

/// Compares two strings in the lexicographic order.
pub fn str_le(a: &str, b: &str) -> (r: bool)
    ensures
        r == lex_le(a@, b@),
{
    let av = str_to_chars(a);
    let bv = str_to_chars(b);
    chars_le(&av, &bv)
}

/// A digit string's value only grows as more digits are appended.
proof fn lemma_dec_val_grows(s: Seq<char>, i: int)
    requires
        0 <= i <= s.len(),
    ensures
        dec_val(s) >= dec_val(s.take(i)),
        all_digits(s) ==> dec_val(s.take(i)) >= 0,
    decreases s.len() - i,
{
    if i < s.len() {
        lemma_dec_val_grows(s, i + 1);
        let t = s.take(i + 1);
        assert(t.drop_last() =~= s.take(i));
        assert(dec_val(t) == dec_val(s.take(i)) * 10 + digit_val(t.last()));
        lemma_dec_val_nonneg(s.take(i));
        lemma_dec_val_nonneg(s.take(i + 1));
    } else {
        assert(s.take(i) =~= s);
        lemma_dec_val_nonneg(s);
    }
}

/// Digit strings have nonnegative values; so does any string, since digit
/// values are clamped at 10.
proof fn lemma_dec_val_nonneg(s: Seq<char>)
    ensures
        dec_val(s) >= 0,
    decreases s.len(),
{
    if s.len() > 0 {
        lemma_dec_val_nonneg(s.drop_last());
    }
}

} // verus!
