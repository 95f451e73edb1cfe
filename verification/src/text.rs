//! Shared helpers for strings and sequences of strings.

use vstd::prelude::*;

verus! {

/// Relies on String::push: appends one character at the end.
pub assume_specification[ String::push ](s: &mut String, ch: char)
    ensures
        final(s)@ == old(s)@.push(ch),
;

/// A `Vec<String>` viewed deeply is the element views, position by position.
pub broadcast proof fn lemma_string_vec_deep_view(v: Vec<String>)
    ensures
        (#[trigger] v.deep_view()).len() == v@.len(),
        forall|i: int| 0 <= i < v@.len() ==> #[trigger] v.deep_view()[i] == v@[i]@,
{
    let s = v.deep_view();
    assert(s =~= Seq::new(v@.len(), |i: int| v@[i]@));
}

/// A fresh copy of a list of strings, character for character.
pub fn clone_strings(v: &Vec<String>) -> (r: Vec<String>)
    ensures
        r@ == v@,
        r.deep_view() == v.deep_view(),
{
    broadcast use lemma_string_vec_deep_view;

    let mut r: Vec<String> = Vec::new();
    let mut i: usize = 0;
    while i < v.len()
        invariant
            i <= v@.len(),
            r@ =~= v@.take(i as int),
        decreases v@.len() - i,
    {
        r.push(v[i].clone());
        i = i + 1;
    }
    proof {
        assert(r@ =~= v@);
        assert(r.deep_view() =~= v.deep_view());
    }
    r
}

/// A copy of an optional string.
pub fn clone_opt_string(o: &Option<String>) -> (r: Option<String>)
    ensures
        r == *o,
{
    match o {
        Some(s) => Some(s.clone()),
        None => None,
    }
}

/// Whether two string slices hold the same characters.
pub fn str_eq(a: &str, b: &str) -> (r: bool)
    ensures
        r == (a@ == b@),
{
    let sa = String::from_str(a);
    let sb = String::from_str(b);
    sa == sb
}

/// The characters of `s`, as a vector.
pub fn chars_of(s: &str) -> (v: Vec<char>)
    ensures
        v@ == s@,
{
    let n = s.unicode_len();
    let mut v: Vec<char> = Vec::new();
    let mut i: usize = 0;
    while i < n
        invariant
            n == s@.len(),
            i <= n,
            v@ =~= s@.take(i as int),
        decreases n - i,
    {
        v.push(s.get_char(i));
        i = i + 1;
    }
    proof {
        assert(v@ =~= s@);
    }
    v
}

/// `needle` occurs in `hay` at position `i`.
pub open spec fn contains_at(hay: Seq<char>, needle: Seq<char>, i: int) -> bool {
    &&& 0 <= i
    &&& i + needle.len() <= hay.len()
    &&& hay.subrange(i, i + needle.len()) == needle
}

/// `needle` occurs somewhere in `hay`.
pub open spec fn has_sub(hay: Seq<char>, needle: Seq<char>) -> bool {
    exists|i: int| contains_at(hay, needle, i)
}

/// `p` is a prefix of `s`.
pub open spec fn has_prefix(s: Seq<char>, p: Seq<char>) -> bool {
    p.len() <= s.len() && s.subrange(0, p.len() as int) == p
}

/// Whether `pat` occurs in `hay` at position `i`.
fn match_at(hay: &Vec<char>, pat: &Vec<char>, i: usize) -> (r: bool)
    requires
        i + pat@.len() <= hay@.len(),
        hay@.len() <= usize::MAX,
    ensures
        r == contains_at(hay@, pat@, i as int),
{
    let mut k: usize = 0;
    while k < pat.len()
        invariant
            i + pat@.len() <= hay@.len(),
            hay@.len() <= usize::MAX,
            k <= pat@.len(),
            forall|kk: int| 0 <= kk < k ==> hay@[i + kk] == pat@[kk],
        decreases pat@.len() - k,
    {
        if hay[i + k] != pat[k] {
            proof {
                assert(hay@.subrange(i as int, i + pat@.len())[k as int] != pat@[k as int]);
            }
            return false;
        }
        k = k + 1;
    }
    proof {
        assert(hay@.subrange(i as int, i + pat@.len()) =~= pat@);
    }
    true
}

/// The first occurrence of `pat` in `hay` at or after `from`, if any.
pub fn find_sub_from(hay: &Vec<char>, pat: &Vec<char>, from: usize) -> (r: Option<usize>)
    requires
        from <= hay@.len(),
    ensures
        match r {
            Some(i) => {
                &&& from <= i
                &&& contains_at(hay@, pat@, i as int)
                &&& forall|j: int| from <= j < i ==> !contains_at(hay@, pat@, j)
            },
            None => forall|j: int| from <= j ==> !contains_at(hay@, pat@, j),
        },
{
    if pat.len() > hay.len() {
        return None;
    }
    if pat.len() == 0 {
        proof {
            assert(hay@.subrange(from as int, from as int) =~= pat@);
        }
        return Some(from);
    }
    let limit = hay.len() - pat.len();
    let mut i: usize = from;
    while i <= limit
        invariant
            1 <= pat@.len() <= hay@.len(),
            hay@.len() <= usize::MAX,
            limit == hay@.len() - pat@.len(),
            from <= i,
            forall|j: int| from <= j < i ==> !contains_at(hay@, pat@, j),
        decreases limit + 1 - i,
    {
        if match_at(hay, pat, i) {
            return Some(i);
        }
        i = i + 1;
    }
    None
}

/// Whether `pat` occurs anywhere in `hay`.
pub fn str_contains(hay: &str, pat: &str) -> (r: bool)
    ensures
        r == has_sub(hay@, pat@),
{
    let h = chars_of(hay);
    let p = chars_of(pat);
    let found = find_sub_from(&h, &p, 0);
    found.is_some()
}

/// Whether `p` is a prefix of `s`.
pub fn str_has_prefix(s: &str, p: &str) -> (r: bool)
    ensures
        r == has_prefix(s@, p@),
{
    let sv = chars_of(s);
    let pv = chars_of(p);
    if pv.len() > sv.len() {
        return false;
    }
    match_at(&sv, &pv, 0)
}

/// The text between an opening `---` line marker and the first `\n---`
/// that follows it: the YAML frontmatter of a markdown document, when
/// the document starts with `---` and the closing marker exists.
pub fn frontmatter(content: &str) -> (r: Option<&str>)
    ensures
        match r {
            Some(fm) => {
                &&& has_prefix(content@, "---"@)
                &&& exists|j: int|
                    {
                        &&& 3 <= j
                        &&& #[trigger] contains_at(content@, "\n---"@, j)
                        &&& (forall|j2: int| 3 <= j2 < j ==> !contains_at(content@, "\n---"@, j2))
                        &&& fm@ == content@.subrange(3, j)
                    }
            },
            None => !has_prefix(content@, "---"@) || (forall|j: int|
                3 <= j ==> !contains_at(content@, "\n---"@, j)),
        },
{
    let cs = chars_of(content);
    let opener = chars_of("---");
    proof {
        reveal_strlit("---");
    }
    if opener.len() > cs.len() || !match_at(&cs, &opener, 0) {
        return None;
    }
    let marker = chars_of("\n---");
    match find_sub_from(&cs, &marker, 3) {
        Some(i) => {
            let fm = content.substring_char(3, i);
            Some(fm)
        },
        None => None,
    }
}

} // verus!
